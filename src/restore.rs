//! Restoring a database file from the archive.
//!
//! The restore walks segments from the newest back. It writes each page the
//! first time that it meets it, that is from the newest segment holding it,
//! and stops once it has met as many pages as the newest segment says the
//! database has. The object store and the file are driven by the caller: each
//! step returns what to do next.
use vstd::prelude::*;

use roaring::RoaringBitmap;

use crate::error::Error;
use crate::key::SegmentKey;
use crate::segment::{
    frame_page_no, page_no_of, CompactedSegmentDataHeader, FRAME_SIZE, PAGE_SIZE,
};

verus! {

#[verifier::external_type_specification]
#[verifier::external_body]
pub struct ExRoaringBitmap(RoaringBitmap);

/// The numbers that a bitmap holds.
pub uninterp spec fn bitmap_contents(b: RoaringBitmap) -> Set<u32>;

/// Relies on RoaringBitmap::new: the bitmap is empty.
#[verifier::external_body]
fn bitmap_new() -> (r: RoaringBitmap)
    ensures
        bitmap_contents(r) == Set::<u32>::empty(),
{
    RoaringBitmap::new()
}

/// Relies on RoaringBitmap::contains: whether the number is held.
#[verifier::external_body]
fn bitmap_contains(b: &RoaringBitmap, v: u32) -> (r: bool)
    ensures
        r == bitmap_contents(*b).contains(v),
{
    b.contains(v)
}

/// Relies on RoaringBitmap::insert: the number is added; the result says
/// whether it was absent.
#[verifier::external_body]
fn bitmap_insert(b: &mut RoaringBitmap, v: u32) -> (r: bool)
    ensures
        bitmap_contents(*final(b)) == bitmap_contents(*old(b)).insert(v),
        r == !bitmap_contents(*old(b)).contains(v),
{
    b.insert(v)
}

/// Relies on RoaringBitmap::len: how many numbers are held.
#[verifier::external_body]
fn bitmap_len(b: &RoaringBitmap) -> (r: u64)
    ensures
        r == bitmap_contents(*b).len(),
{
    b.len()
}

/// What the caller does next for a restore.
#[derive(Debug, PartialEq, Eq)]
pub enum RestoreAction {
    /// Look up the segment that may hold the frame (`u64::MAX`: the newest
    /// segment) and hand it to [`Restore::on_segment`].
    FindSegment(u64),
    /// Fetch the segment's data, read its header and hand it to
    /// [`Restore::on_header`].
    FetchSegment(SegmentKey),
    /// Read the next frame of the segment and hand it to [`Restore::on_frame`].
    ReadFrame,
    /// The database file is complete.
    Done,
    /// The restore cannot go on.
    Fail(Error),
}

/// Where a restore stands.
#[derive(Clone, Copy, Debug, PartialEq, Eq, Structural)]
pub enum RestorePhase {
    /// Waiting for the segment that may hold the frame.
    Finding(u64),
    /// Waiting for the header of the segment that was found.
    Fetching,
    /// Reading the frames of the current segment.
    Reading,
    /// Done or failed.
    Finished,
}

/// The state of a restore.
pub struct Restore {
    /// The pages met so far.
    pub seen: RoaringBitmap,
    /// The database size in pages, from the newest segment; `None` before its
    /// header was read.
    pub db_size: Option<u32>,
    /// The first frame of the current segment.
    pub start_frame_no: u64,
    /// How many frames of the current segment are still to be read.
    pub frames_left: u64,
    pub phase: RestorePhase,
}

/// What follows a segment whose frames were all read: done once `seen` has as
/// many pages as the database, else the segment before `start_frame_no`.
pub open spec fn after_segment(seen: Set<u32>, db_size: u32, start_frame_no: u64) -> RestoreAction {
    if seen.len() == db_size {
        RestoreAction::Done
    } else if start_frame_no == 0 {
        RestoreAction::Fail(Error::MissingSegment(0))
    } else {
        RestoreAction::FindSegment((start_frame_no - 1) as u64)
    }
}

/// The phase that an action leads to.
pub open spec fn phase_of(a: RestoreAction) -> RestorePhase {
    match a {
        RestoreAction::FindSegment(f) => RestorePhase::Finding(f),
        RestoreAction::FetchSegment(_) => RestorePhase::Fetching,
        RestoreAction::ReadFrame => RestorePhase::Reading,
        _ => RestorePhase::Finished,
    }
}

impl Restore {
    pub open spec fn seen_set(&self) -> Set<u32> {
        bitmap_contents(self.seen)
    }

    pub open spec fn wf(&self) -> bool {
        &&& self.seen_set().finite()
        &&& (self.phase is Reading ==> self.db_size is Some)
    }

    /// Starts a restore: the first step looks up the newest segment.
    pub fn new() -> (r: (Restore, RestoreAction))
        ensures
            r.0.wf(),
            r.0.seen_set() == Set::<u32>::empty(),
            r.0.db_size is None,
            r.0.phase == RestorePhase::Finding(u64::MAX),
            r.1 == RestoreAction::FindSegment(u64::MAX),
    {
        let r = Restore {
            seen: bitmap_new(),
            db_size: None,
            start_frame_no: 0,
            frames_left: 0,
            phase: RestorePhase::Finding(u64::MAX),
        };
        (r, RestoreAction::FindSegment(u64::MAX))
    }

    /// Takes the segment that the lookup returned. Without one the restore is
    /// done when nothing was restored yet (the namespace is empty), and fails
    /// otherwise.
    pub fn on_segment(&mut self, found: Option<SegmentKey>) -> (r: RestoreAction)
        requires
            old(self).wf(),
            old(self).phase is Finding,
        ensures
            final(self).wf(),
            final(self).seen_set() == old(self).seen_set(),
            final(self).db_size == old(self).db_size,
            r == (match found {
                Some(k) => RestoreAction::FetchSegment(k),
                None => if old(self).db_size is None {
                    RestoreAction::Done
                } else {
                    RestoreAction::Fail(Error::MissingSegment(old(self).phase->Finding_0))
                },
            }),
            final(self).phase == phase_of(r),
    {
        let frame_no = match self.phase {
            RestorePhase::Finding(f) => f,
            _ => 0,
        };
        match found {
            Some(k) => {
                self.phase = RestorePhase::Fetching;
                RestoreAction::FetchSegment(k)
            },
            None => {
                self.phase = RestorePhase::Finished;
                if self.db_size.is_none() {
                    RestoreAction::Done
                } else {
                    RestoreAction::Fail(Error::MissingSegment(frame_no))
                }
            },
        }
    }

    fn segment_done(&mut self) -> (r: RestoreAction)
        requires
            old(self).wf(),
            old(self).db_size is Some,
        ensures
            final(self).wf(),
            final(self).seen_set() == old(self).seen_set(),
            final(self).db_size == old(self).db_size,
            final(self).start_frame_no == old(self).start_frame_no,
            final(self).frames_left == old(self).frames_left,
            r == after_segment(old(self).seen_set(), old(self).db_size->Some_0, old(self).start_frame_no),
            final(self).phase == phase_of(r),
    {
        let db_size = match self.db_size {
            Some(n) => n,
            None => 0,
        };
        if bitmap_len(&self.seen) == db_size as u64 {
            self.phase = RestorePhase::Finished;
            RestoreAction::Done
        } else if self.start_frame_no == 0 {
            self.phase = RestorePhase::Finished;
            RestoreAction::Fail(Error::MissingSegment(0))
        } else {
            self.phase = RestorePhase::Finding(self.start_frame_no - 1);
            RestoreAction::FindSegment(self.start_frame_no - 1)
        }
    }

    /// Takes the header of the segment that was fetched. The newest segment's
    /// header gives the database size.
    pub fn on_header(&mut self, header: CompactedSegmentDataHeader) -> (r: RestoreAction)
        requires
            old(self).wf(),
            old(self).phase is Fetching,
        ensures
            final(self).wf(),
            final(self).seen_set() == old(self).seen_set(),
            final(self).db_size == (match old(self).db_size {
                Some(n) => Some(n),
                None => Some(header.size_after),
            }),
            final(self).start_frame_no == header.start_frame_no,
            final(self).frames_left == header.frame_count,
            r == (if header.frame_count > 0 {
                RestoreAction::ReadFrame
            } else {
                after_segment(final(self).seen_set(), final(self).db_size->Some_0, header.start_frame_no)
            }),
            final(self).phase == phase_of(r),
    {
        if self.db_size.is_none() {
            self.db_size = Some(header.size_after);
        }
        self.start_frame_no = header.start_frame_no;
        self.frames_left = header.frame_count;
        if header.frame_count > 0 {
            self.phase = RestorePhase::Reading;
            RestoreAction::ReadFrame
        } else {
            self.segment_done()
        }
    }

    /// Takes the next frame of the current segment. Returns where in the
    /// database file its page is written (only the first time the page is met;
    /// the page is the frame after its header), and what to do next.
    pub fn on_frame(&mut self, frame: &[u8]) -> (r: (Option<u64>, RestoreAction))
        requires
            old(self).wf(),
            old(self).phase is Reading,
            old(self).frames_left > 0,
            frame@.len() == FRAME_SIZE,
        ensures
            final(self).wf(),
            final(self).db_size == old(self).db_size,
            final(self).start_frame_no == old(self).start_frame_no,
            page_no_of(frame@) == 0 ==> r == (None::<u64>, RestoreAction::Fail(Error::InvalidPageNo(0)))
                && final(self).phase is Finished,
            page_no_of(frame@) != 0 ==> {
                let p = page_no_of(frame@);
                &&& final(self).seen_set() == old(self).seen_set().insert(p)
                &&& final(self).frames_left == old(self).frames_left - 1
                &&& r.0 == if old(self).seen_set().contains(p) {
                    None
                } else {
                    Some(((p - 1) * PAGE_SIZE) as u64)
                }
                &&& r.1 == if final(self).frames_left > 0 {
                    RestoreAction::ReadFrame
                } else {
                    after_segment(final(self).seen_set(), final(self).db_size->Some_0, final(self).start_frame_no)
                }
                &&& final(self).phase == phase_of(r.1)
            },
    {
        let page_no = frame_page_no(frame);
        if page_no == 0 {
            self.phase = RestorePhase::Finished;
            return (None, RestoreAction::Fail(Error::InvalidPageNo(0)));
        }
        let write = if !bitmap_contains(&self.seen, page_no) {
            bitmap_insert(&mut self.seen, page_no);
            Some((page_no as u64 - 1) * PAGE_SIZE)
        } else {
            None
        };
        proof {
            if old(self).seen_set().contains(page_no) {
                assert(old(self).seen_set().insert(page_no) =~= old(self).seen_set());
            }
        }
        self.frames_left = self.frames_left - 1;
        if self.frames_left > 0 {
            (write, RestoreAction::ReadFrame)
        } else {
            (write, self.segment_done())
        }
    }
}

} // verus!
