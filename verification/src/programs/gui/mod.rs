pub mod blur;
pub mod compose;
pub mod desktop;
pub mod draw;
pub mod geometry;
pub mod ops;
pub mod screen;
pub mod taskmgr;
pub mod term;
pub mod widgets;
