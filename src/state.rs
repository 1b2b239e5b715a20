use std::sync::atomic::{AtomicU8, Ordering};
use vstd::prelude::*;

verus! {

/// Where one generation stage of a chunk stands.
///
/// Bit 0 of the code says the stage's inputs changed since its data was made;
/// bit 1 says a worker is making it.
#[derive(Debug, Clone, Copy, PartialEq, Eq, Structural)]
pub enum DataState {
    Done,
    Dirty,
    Generating,
    GeneratingDirty,
}

impl DataState {
    pub open spec fn code_spec(self) -> u8 {
        match self {
            DataState::Done => 0,
            DataState::Dirty => 1,
            DataState::Generating => 2,
            DataState::GeneratingDirty => 3,
        }
    }

    pub open spec fn from_code_spec(code: u8) -> Option<DataState> {
        if code == 0 {
            Some(DataState::Done)
        } else if code == 1 {
            Some(DataState::Dirty)
        } else if code == 2 {
            Some(DataState::Generating)
        } else if code == 3 {
            Some(DataState::GeneratingDirty)
        } else {
            None
        }
    }

    /// A worker may take the stage only when it is dirty.
    pub open spec fn start_spec(self) -> Option<DataState> {
        if self == DataState::Dirty {
            Some(DataState::Generating)
        } else {
            None
        }
    }

    /// Ending a generation: done, or dirty again if the inputs changed meanwhile.
    pub open spec fn finish_spec(self) -> DataState {
        match self {
            DataState::Generating => DataState::Done,
            DataState::GeneratingDirty => DataState::Dirty,
            other => other,
        }
    }

    /// An upstream change: done becomes dirty, generating becomes generating-dirty.
    pub open spec fn mark_dirty_spec(self) -> DataState {
        match self {
            DataState::Done => DataState::Dirty,
            DataState::Generating => DataState::GeneratingDirty,
            other => other,
        }
    }

    pub fn code(self) -> (r: u8)
        ensures
            r == self.code_spec(),
            r < 4,
    {
        match self {
            DataState::Done => 0,
            DataState::Dirty => 1,
            DataState::Generating => 2,
            DataState::GeneratingDirty => 3,
        }
    }

    pub fn from_code(code: u8) -> (r: Option<DataState>)
        ensures
            r == Self::from_code_spec(code),
    {
        if code == 0 {
            Some(DataState::Done)
        } else if code == 1 {
            Some(DataState::Dirty)
        } else if code == 2 {
            Some(DataState::Generating)
        } else if code == 3 {
            Some(DataState::GeneratingDirty)
        } else {
            None
        }
    }

    /// The state after a worker tries to take the stage; `Err` when it is not dirty.
    pub fn try_start_generating(self) -> (r: Result<DataState, ()>)
        ensures
            r is Ok <==> self == DataState::Dirty,
            r is Ok ==> r->Ok_0 == DataState::Generating,
            r == (match self.start_spec() {
                Some(s) => Ok::<DataState, ()>(s),
                None => Err(()),
            }),
    {
        match self {
            DataState::Dirty => Ok(DataState::Generating),
            _ => Err(()),
        }
    }

    pub fn finish_generating(self) -> (r: DataState)
        ensures
            r == self.finish_spec(),
    {
        match self {
            DataState::Generating => DataState::Done,
            DataState::GeneratingDirty => DataState::Dirty,
            other => other,
        }
    }

    pub fn mark_dirty(self) -> (r: DataState)
        ensures
            r == self.mark_dirty_spec(),
    {
        match self {
            DataState::Done => DataState::Dirty,
            DataState::Generating => DataState::GeneratingDirty,
            other => other,
        }
    }

    pub fn is_done(self) -> (r: bool)
        ensures
            r == (self == DataState::Done),
    {
        self == DataState::Done
    }
}

/// Every code of a legal state decodes to it, and the atomic updates map legal codes
/// to legal codes: setting bit 0 marks the stage dirty, clearing bit 1 finishes it,
/// and the exchange of code 1 for code 2 starts it. No sequence of these updates
/// leaves the four states.
pub proof fn lemma_codes_closed(s: DataState)
    ensures
        DataState::from_code_spec(s.code_spec()) == Some(s),
        DataState::from_code_spec(s.code_spec() | 1u8) == Some(s.mark_dirty_spec()),
        DataState::from_code_spec(s.code_spec() & 0xfdu8) == Some(s.finish_spec()),
        s.code_spec() == 1 <==> s.start_spec() is Some,
        DataState::from_code_spec(2u8) == Some(DataState::Generating),
{
    assert(0u8 | 1u8 == 1u8) by (bit_vector);
    assert(1u8 | 1u8 == 1u8) by (bit_vector);
    assert(2u8 | 1u8 == 3u8) by (bit_vector);
    assert(3u8 | 1u8 == 3u8) by (bit_vector);
    assert(0u8 & 0xfdu8 == 0u8) by (bit_vector);
    assert(1u8 & 0xfdu8 == 1u8) by (bit_vector);
    assert(2u8 & 0xfdu8 == 0u8) by (bit_vector);
    assert(3u8 & 0xfdu8 == 1u8) by (bit_vector);
}

/// A stage state shared between threads, held as its code in one atomic byte.
///
/// The three updates are single atomic operations on the code (see
/// `lemma_codes_closed`), so concurrent updates never interleave inside one.
pub struct AtomicDataState {
    data: AtomicU8,
}

impl AtomicDataState {
    pub fn new(state: DataState) -> (r: AtomicDataState) {
        AtomicDataState { data: AtomicU8::new(state.code()) }
    }

    /// The current code; other threads may change it at any time.
    pub fn load(&self) -> (r: u8) {
        self.data.load(Ordering::Acquire)
    }

    pub fn is_done(&self) -> (r: bool) {
        self.data.load(Ordering::Acquire) == DataState::Done.code()
    }

    /// Takes the stage from dirty to generating; `Err` when it was in any other state.
    pub fn try_start_generating(&self) -> (r: Result<(), ()>) {
        match self.data.compare_exchange(
            DataState::Dirty.code(),
            DataState::Generating.code(),
            Ordering::AcqRel,
            Ordering::Acquire,
        ) {
            Ok(_) => Ok(()),
            Err(_) => Err(()),
        }
    }

    /// Generating becomes done, generating-dirty becomes dirty: bit 1 is cleared.
    pub fn finish_generating(&self) {
        self.data.fetch_and(0xfd, Ordering::AcqRel);
    }

    /// Done becomes dirty, generating becomes generating-dirty: bit 0 is set.
    pub fn mark_dirty(&self) {
        self.data.fetch_or(1, Ordering::AcqRel);
    }
}

} // verus!
