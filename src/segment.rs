//! The parts of a compacted segment that the archive reads.
//!
//! A segment's data starts with a 44-byte header (all little-endian):
//! `frame_count: u64`, `segment_id: u128`, `start_frame_no: u64`,
//! `end_frame_no: u64`, `size_after: u32`. Frames follow, each a 16-byte frame
//! header (`page_no: u32`, `size_after: u32`, `frame_no: u64`) and a page.
use vstd::prelude::*;

use vstd::arithmetic::power::pow;

use crate::le::{le_value, read_le};

verus! {

/// The size of a database page.
pub const PAGE_SIZE: u64 = 4096;

/// The size of a compacted segment's header.
pub const SEGMENT_HEADER_SIZE: usize = 44;

/// The size of a frame's header.
pub const FRAME_HEADER_SIZE: usize = 16;

/// The size of a frame: its header and one page.
pub const FRAME_SIZE: usize = 4112;

/// The header of a compacted segment.
#[derive(Clone, Copy, Debug, PartialEq, Eq, Structural)]
pub struct CompactedSegmentDataHeader {
    pub frame_count: u64,
    pub segment_id: u128,
    pub start_frame_no: u64,
    pub end_frame_no: u64,
    /// The number of pages of the database once the segment is applied.
    pub size_after: u32,
}

/// The header that the first 44 bytes of `b` show.
pub open spec fn header_of(b: Seq<u8>) -> CompactedSegmentDataHeader {
    CompactedSegmentDataHeader {
        frame_count: le_value(b.subrange(0, 8)) as u64,
        segment_id: le_value(b.subrange(8, 24)) as u128,
        start_frame_no: le_value(b.subrange(24, 32)) as u64,
        end_frame_no: le_value(b.subrange(32, 40)) as u64,
        size_after: le_value(b.subrange(40, 44)) as u32,
    }
}

/// The page number that a frame's bytes show.
pub open spec fn page_no_of(frame: Seq<u8>) -> u32 {
    le_value(frame.subrange(0, 4)) as u32
}

impl CompactedSegmentDataHeader {
    /// Reads the header at the start of `b`; `None` when `b` is shorter than a
    /// header.
    pub fn read_from_prefix(b: &[u8]) -> (r: Option<CompactedSegmentDataHeader>)
        ensures
            r.is_some() == (b@.len() >= 44),
            r.is_some() ==> r.unwrap() == header_of(b@),
    {
        if b.len() < SEGMENT_HEADER_SIZE {
            return None;
        }
        let frame_count = read_le(b, 0, 8);
        let id_lo = read_le(b, 8, 8);
        let id_hi = read_le(b, 16, 8);
        let start_frame_no = read_le(b, 24, 8);
        let end_frame_no = read_le(b, 32, 8);
        let size_after = read_le(b, 40, 4);
        proof {
            crate::le::lemma_le_value_split(b@.subrange(8, 24), 8);
            assert(b@.subrange(8, 24).subrange(0, 8) =~= b@.subrange(8, 16));
            assert(b@.subrange(8, 24).subrange(8, 16) =~= b@.subrange(16, 24));
            crate::le::lemma_le_value_bound(b@.subrange(40, 44));
            assert(pow(256, 4) == 0x1_0000_0000int) by {
                reveal_with_fuel(pow, 5);
            }
            assert(pow(256, 8) == 0x1_0000_0000_0000_0000int) by {
                reveal_with_fuel(pow, 9);
            }
            assert(le_value(b@.subrange(8, 24)) == id_lo + id_hi * 0x1_0000_0000_0000_0000int);
        }
        Some(CompactedSegmentDataHeader {
            frame_count,
            segment_id: id_lo as u128 + id_hi as u128 * 0x1_0000_0000_0000_0000,
            start_frame_no,
            end_frame_no,
            size_after: size_after as u32,
        })
    }
}

/// The page number of a frame.
pub fn frame_page_no(frame: &[u8]) -> (r: u32)
    requires
        frame@.len() >= FRAME_HEADER_SIZE,
    ensures
        r == page_no_of(frame@),
{
    let v = read_le(frame, 0, 4);
    proof {
        crate::le::lemma_le_value_bound(frame@.subrange(0, 4));
        assert(pow(256, 4) == 0x1_0000_0000int) by {
            reveal_with_fuel(pow, 5);
        }
    }
    v as u32
}

} // verus!
