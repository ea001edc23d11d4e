//! What the boot loader hands the kernel: the framebuffer, the memory map and
//! the places of the font, the command line and the initial ramdisk. The
//! addresses are kept as plain numbers; reading the memory behind them is the
//! kernel's business.
use vstd::prelude::*;
use vstd::utf8::valid_utf8;
use vstd::string::StringSliceAdditionalSpecFns;
use crate::text::str_from_utf8;

verus! {

/// The linear framebuffer.
#[derive(Clone, Copy, PartialEq, Eq, Structural, Debug)]
pub struct FramebufferInfo {
    /// Address of the first pixel.
    pub base: u64,
    pub size: usize,
    pub width: usize,
    pub height: usize,
    /// Pixels per scan line.
    pub stride: usize,
    pub pixel_format: u32,
}

/// A range of physical memory in the firmware's map.
#[derive(Clone, Copy, PartialEq, Eq, Structural, Debug)]
pub struct MemoryMapEntry {
    pub phys_start: u64,
    pub page_count: u64,
    pub ty: u32,
}

/// Everything the loader passes to the kernel.
#[derive(Clone, Copy, PartialEq, Eq, Structural, Debug)]
pub struct BootInfo {
    pub framebuffer: FramebufferInfo,
    pub font_data: u64,
    pub font_size: usize,
    pub heap_start: u64,
    pub heap_size: usize,
    pub memory_map: u64,
    pub memory_map_entries: usize,
    pub kernel_start: u64,
    pub kernel_end: u64,
    pub rsdp: u64,
    pub command_line: u64,
    pub command_line_len: usize,
    pub initrd_data: u64,
    pub initrd_size: usize,
}

/// The kernel command line as text: the bytes when they are UTF-8, else
/// empty.
pub fn command_line_text(bytes: &[u8]) -> (s: &str)
    ensures
        valid_utf8(bytes@) ==> s.spec_bytes() == bytes@,
        !valid_utf8(bytes@) ==> s.spec_bytes().len() == 0,
{
    match str_from_utf8(bytes) {
        Some(s) => s,
        None => {
            let e = "";
            proof {
                reveal_strlit("");
            }
            assert(e.spec_bytes().len() == 0);
            e
        },
    }
}

} // verus!
