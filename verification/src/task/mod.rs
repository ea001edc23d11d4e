pub mod process;
pub mod scheduler;
pub mod thread;
