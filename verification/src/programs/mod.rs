pub mod args;
pub mod audio;
pub mod gui;
pub mod mouse;
pub mod pager;
pub mod pci;
pub mod report;
pub mod shell;
