//! The seek-then-scan state machine of an indexed region query.
//!
//! The caller owns the stream. It asks the query what to do next ([`Query::next_action`]):
//! seek to the start of a chunk, read one record, or stop. After a read it reports what was
//! read and where the stream now stands ([`Query::record_read`]), and the query says whether
//! that record belongs to the result.
use vstd::prelude::*;

use crate::error::Error;

verus! {

/// A range of virtual stream positions known to hold the records of interest.
#[derive(Clone, Copy, Debug, PartialEq, Eq, Structural)]
pub struct Chunk {
    pub start: u64,
    pub end: u64,
}

/// A half-open interval `[start, end)` of reference positions.
#[derive(Clone, Copy, Debug, PartialEq, Eq, Structural)]
pub struct Interval {
    pub start: usize,
    pub end: usize,
}

/// Where a decoded record lies on the reference.
#[derive(Clone, Copy, Debug, PartialEq, Eq, Structural)]
pub enum RecordLocation {
    /// The record is not placed on a reference sequence.
    Unplaced,
    /// The record covers the half-open span `[start, end)` of a reference sequence.
    Placed { reference_sequence_id: usize, start: usize, end: usize },
}

/// Where the query stands.
#[derive(Clone, Copy, Debug, PartialEq, Eq, Structural)]
pub enum State {
    /// The next chunk is to be sought.
    Seek,
    /// Records are being read until the stream passes the chunk's end.
    Read(u64),
    /// No chunks are left.
    Done,
}

/// What the caller is to do next.
#[derive(Clone, Copy, Debug, PartialEq, Eq, Structural)]
pub enum Action {
    /// Seek the stream to this virtual position.
    Seek(u64),
    /// Read one record and report it.
    ReadRecord,
    /// The query has no more records.
    Done,
}

/// Whether a record lies on the queried reference sequence and overlaps the interval.
pub open spec fn spec_intersects(
    location: RecordLocation,
    reference_sequence_id: usize,
    interval: Interval,
) -> bool {
    match location {
        RecordLocation::Unplaced => false,
        RecordLocation::Placed { reference_sequence_id: id, start, end } => id
            == reference_sequence_id && start < interval.end && interval.start < end,
    }
}

/// Whether a record lies on the queried reference sequence and overlaps the interval.
pub fn intersects(location: RecordLocation, reference_sequence_id: usize, interval: Interval) -> (r:
    bool)
    ensures
        r == spec_intersects(location, reference_sequence_id, interval),
{
    match location {
        RecordLocation::Unplaced => false,
        RecordLocation::Placed { reference_sequence_id: id, start, end } => id
            == reference_sequence_id && start < interval.end && interval.start < end,
    }
}

/// A region query over a list of chunks, sorted by start.
pub struct Query {
    chunks: Vec<Chunk>,
    next_chunk: usize,
    reference_sequence_id: usize,
    interval: Interval,
    state: State,
}

impl Query {
    /// The chunks of the query.
    pub closed spec fn chunks(&self) -> Seq<Chunk> {
        self.chunks@
    }

    /// How many chunks have been taken.
    pub closed spec fn taken(&self) -> int {
        self.next_chunk as int
    }

    /// The queried reference sequence.
    pub closed spec fn spec_reference_sequence_id(&self) -> usize {
        self.reference_sequence_id
    }

    /// The queried interval.
    pub closed spec fn spec_interval(&self) -> Interval {
        self.interval
    }

    /// Where the query stands.
    pub closed spec fn spec_state(&self) -> State {
        self.state
    }

    /// The count of taken chunks never exceeds the chunks.
    pub closed spec fn wf(&self) -> bool {
        self.next_chunk <= self.chunks@.len()
    }

    /// Starts a query of `interval` on `reference_sequence_id` over `chunks`.
    pub fn new(chunks: Vec<Chunk>, reference_sequence_id: usize, interval: Interval) -> (r: Query)
        ensures
            r.wf(),
            r.chunks() == chunks@,
            r.taken() == 0,
            r.spec_reference_sequence_id() == reference_sequence_id,
            r.spec_interval() == interval,
            r.spec_state() == State::Seek,
    {
        Query { chunks, next_chunk: 0, reference_sequence_id, interval, state: State::Seek }
    }

    /// Where the query stands.
    pub fn state(&self) -> (r: State)
        ensures
            r == self.spec_state(),
    {
        self.state
    }

    /// Says what to do next. When seeking, it takes the next chunk and moves to reading it, or
    /// finishes when none is left.
    pub fn next_action(&mut self) -> (r: Action)
        requires
            old(self).wf(),
        ensures
            final(self).wf(),
            final(self).chunks() == old(self).chunks(),
            final(self).spec_reference_sequence_id() == old(self).spec_reference_sequence_id(),
            final(self).spec_interval() == old(self).spec_interval(),
            match old(self).spec_state() {
                State::Seek => if old(self).taken() < old(self).chunks().len() {
                    let chunk = old(self).chunks()[old(self).taken()];
                    &&& r == Action::Seek(chunk.start)
                    &&& final(self).spec_state() == State::Read(chunk.end)
                    &&& final(self).taken() == old(self).taken() + 1
                } else {
                    &&& r == Action::Done
                    &&& final(self).spec_state() == State::Done
                    &&& final(self).taken() == old(self).taken()
                },
                State::Read(_) => r == Action::ReadRecord && final(self).spec_state()
                    == old(self).spec_state() && final(self).taken() == old(self).taken(),
                State::Done => r == Action::Done && final(self).spec_state() == State::Done
                    && final(self).taken() == old(self).taken(),
            },
    {
        match self.state {
            State::Seek => {
                if self.next_chunk < self.chunks.len() {
                    let chunk: Chunk = self.chunks[self.next_chunk];
                    self.next_chunk = self.next_chunk + 1;
                    self.state = State::Read(chunk.end);
                    Action::Seek(chunk.start)
                } else {
                    self.state = State::Done;
                    Action::Done
                }
            },
            State::Read(_) => Action::ReadRecord,
            State::Done => Action::Done,
        }
    }

    /// Ends the query after the caller failed to seek or to read: no chunk is taken after it.
    pub fn fail(&mut self)
        requires
            old(self).wf(),
        ensures
            final(self).wf(),
            final(self).spec_state() == State::Done,
            final(self).chunks() == old(self).chunks(),
            final(self).taken() == old(self).taken(),
            final(self).spec_reference_sequence_id() == old(self).spec_reference_sequence_id(),
            final(self).spec_interval() == old(self).spec_interval(),
    {
        self.state = State::Done;
    }

    /// Takes the outcome of a read: `None` when the stream had no more records, else the
    /// record's location, with the stream's virtual position after it. Returns whether the
    /// record is part of the result. The chunk ends when the stream has no more records or
    /// has reached the chunk's end.
    pub fn record_read(&mut self, record: Option<RecordLocation>, virtual_position: u64) -> (r: bool)
        requires
            old(self).wf(),
            old(self).spec_state() is Read,
        ensures
            final(self).wf(),
            final(self).chunks() == old(self).chunks(),
            final(self).taken() == old(self).taken(),
            final(self).spec_reference_sequence_id() == old(self).spec_reference_sequence_id(),
            final(self).spec_interval() == old(self).spec_interval(),
            match record {
                None => !r && final(self).spec_state() == State::Seek,
                Some(location) => {
                    &&& r == spec_intersects(
                        location,
                        old(self).spec_reference_sequence_id(),
                        old(self).spec_interval(),
                    )
                    &&& final(self).spec_state() == if virtual_position >= old(
                        self,
                    ).spec_state()->Read_0 {
                        State::Seek
                    } else {
                        old(self).spec_state()
                    }
                },
            },
    {
        let chunk_end: u64 = match self.state {
            State::Read(end) => end,
            _ => 0,
        };
        match record {
            None => {
                self.state = State::Seek;
                false
            },
            Some(location) => {
                if virtual_position >= chunk_end {
                    self.state = State::Seek;
                }
                intersects(location, self.reference_sequence_id, self.interval)
            },
        }
    }
}

/// Whether two byte strings are equal.
fn bytes_equal(a: &Vec<u8>, b: &[u8]) -> (r: bool)
    ensures
        r == (a@ == b@),
{
    if a.len() != b.len() {
        return false;
    }
    let mut i: usize = 0;
    while i < a.len()
        invariant
            a@.len() == b@.len(),
            i <= a@.len(),
            forall|k: int| 0 <= k < i ==> a@[k] == b@[k],
        decreases a@.len() - i,
    {
        if a[i] != b[i] {
            return false;
        }
        i = i + 1;
    }
    assert(a@ =~= b@);
    true
}

/// Resolves a reference sequence name to its id, its index among the names of the reference
/// sequences; a name that is not there is invalid input.
pub fn resolve_reference_sequence(names: &Vec<Vec<u8>>, name: &[u8]) -> (r: Result<usize, Error>)
    ensures
        match r {
            Ok(i) => i < names@.len() && names@[i as int]@ == name@ && forall|j: int|
                0 <= j < i ==> #[trigger] names@[j]@ != name@,
            Err(e) => e == Error::InvalidInput && forall|j: int|
                0 <= j < names@.len() ==> #[trigger] names@[j]@ != name@,
        },
{
    let mut i: usize = 0;
    while i < names.len()
        invariant
            i <= names@.len(),
            forall|j: int| 0 <= j < i ==> #[trigger] names@[j]@ != name@,
        decreases names@.len() - i,
    {
        if bytes_equal(&names[i], name) {
            return Ok(i);
        }
        i = i + 1;
    }
    Err(Error::InvalidInput)
}

} // verus!
