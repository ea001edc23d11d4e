//! The header of a KXE program image as the kernel's image table holds it:
//! 36 packed little-endian bytes.
use vstd::prelude::*;
use crate::programs::audio::{le32, le_u32};

verus! {

/// Bytes in a header.
pub const KXE_HEADER_SIZE: usize = 36;

#[derive(Clone, Copy, Debug)]
pub struct KxeHeader {
    pub magic: [u8; 4],
    pub entry: u64,
    pub code_offset: u64,
    pub code_size: u64,
    pub flags: u32,
    pub reserved: u32,
}

pub open spec fn le64(d: Seq<u8>, o: int) -> u64 {
    (le32(d, o) + 4294967296 * le32(d, o + 4)) as u64
}

fn le_u64(d: &[u8], o: usize) -> (v: u64)
    requires
        o + 8 <= d@.len(),
        d@.len() <= usize::MAX,
    ensures
        v == le64(d@, o as int),
{
    let lo = le_u32(d, o) as u64;
    let hi = le_u32(d, o + 4) as u64;
    lo + hi * 4294967296
}

/// The header laid out in the first bytes of `d`.
pub open spec fn header_of(d: Seq<u8>) -> KxeHeader {
    KxeHeader {
        magic: [d[0], d[1], d[2], d[3]],
        entry: le64(d, 4),
        code_offset: le64(d, 12),
        code_size: le64(d, 20),
        flags: le32(d, 28),
        reserved: le32(d, 32),
    }
}

impl KxeHeader {
    /// The header at the start of `d`, when `d` is long enough to hold one.
    pub fn read(d: &[u8]) -> (h: Option<KxeHeader>)
        ensures
            d@.len() >= KXE_HEADER_SIZE ==> h == Some(header_of(d@)),
            d@.len() < KXE_HEADER_SIZE ==> h is None,
    {
        if d.len() < KXE_HEADER_SIZE {
            return None;
        }
        let h = KxeHeader {
            magic: [d[0], d[1], d[2], d[3]],
            entry: le_u64(d, 4),
            code_offset: le_u64(d, 12),
            code_size: le_u64(d, 20),
            flags: le_u32(d, 28),
            reserved: le_u32(d, 32),
        };
        assert(h.magic@ =~= header_of(d@).magic@);
        Some(h)
    }
}

} // verus!
