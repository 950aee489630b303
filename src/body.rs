//! The upload body of a segment file: chunks read one after the other at a
//! growing offset, until a read returns nothing or fails. A retried upload
//! starts a fresh cursor at offset 0.
use vstd::prelude::*;

verus! {

/// The size of each chunk read from the file.
pub const CHUNK_SIZE: usize = 4096;

/// Where the body stands.
#[derive(Clone, Copy, Debug, PartialEq, Eq, Structural)]
pub enum StreamState {
    /// The next read is still to be issued.
    Init,
    /// A read is in flight.
    WaitingChunk,
    /// The body is over.
    Done,
}

/// What the body yields after a read.
#[derive(Clone, Copy, Debug, PartialEq, Eq, Structural)]
pub enum BodyFrame {
    /// The bytes read are the next chunk.
    Data,
    /// The body is over.
    End,
    /// The read failed: the error ends the body.
    Error,
}

/// The position of an upload body within its file.
pub struct BodyCursor {
    pub current_offset: u64,
    pub chunk_size: usize,
    pub state: StreamState,
}

impl BodyCursor {
    /// A body at the start of its file.
    pub fn new() -> (r: BodyCursor)
        ensures
            r.current_offset == 0,
            r.chunk_size == CHUNK_SIZE,
            r.state == StreamState::Init,
    {
        BodyCursor { current_offset: 0, chunk_size: CHUNK_SIZE, state: StreamState::Init }
    }

    /// The read to issue, as offset and length; `None` when none is due (a read
    /// is in flight, or the body is over).
    pub fn start_read(&mut self) -> (r: Option<(u64, usize)>)
        ensures
            final(self).current_offset == old(self).current_offset,
            final(self).chunk_size == old(self).chunk_size,
            old(self).state == StreamState::Init ==> r == Some((old(self).current_offset, old(self).chunk_size))
                && final(self).state == StreamState::WaitingChunk,
            old(self).state != StreamState::Init ==> r is None && final(self).state == old(self).state,
    {
        match self.state {
            StreamState::Init => {
                self.state = StreamState::WaitingChunk;
                Some((self.current_offset, self.chunk_size))
            },
            _ => None,
        }
    }

    /// Takes the outcome of the read in flight: the number of bytes read, or
    /// `None` when it failed. An empty read ends the body; so does an offset
    /// that would pass `u64::MAX`, as an error.
    pub fn on_read(&mut self, read: Option<usize>) -> (r: BodyFrame)
        requires
            old(self).state == StreamState::WaitingChunk,
        ensures
            final(self).chunk_size == old(self).chunk_size,
            r == (match read {
                None => BodyFrame::Error,
                Some(n) => if n == 0 {
                    BodyFrame::End
                } else if old(self).current_offset + n > u64::MAX {
                    BodyFrame::Error
                } else {
                    BodyFrame::Data
                },
            }),
            r == BodyFrame::Data ==> final(self).state == StreamState::Init
                && final(self).current_offset == old(self).current_offset + read.unwrap(),
            r != BodyFrame::Data ==> final(self).state == StreamState::Done
                && final(self).current_offset == old(self).current_offset,
    {
        match read {
            None => {
                self.state = StreamState::Done;
                BodyFrame::Error
            },
            Some(n) => {
                if n == 0 {
                    self.state = StreamState::Done;
                    BodyFrame::End
                } else if n as u64 > u64::MAX - self.current_offset {
                    self.state = StreamState::Done;
                    BodyFrame::Error
                } else {
                    self.state = StreamState::Init;
                    self.current_offset = self.current_offset + n as u64;
                    BodyFrame::Data
                }
            },
        }
    }
}

} // verus!
