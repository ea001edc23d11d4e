use vstd::prelude::*;

pub mod boot;
pub mod bytes;
pub mod heap;
pub mod kxe;
pub mod programs;
pub mod task;
pub mod terminal;
pub mod text;
pub mod usermem;
pub mod vfs;

verus! {
} // verus!
