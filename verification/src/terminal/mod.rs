pub mod console;
pub mod tty;
