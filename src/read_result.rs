use vstd::prelude::*;

verus! {

/// The outcome of one [crate::Reader::read].
#[derive(Clone, Copy, PartialEq, Eq, Debug)]
pub enum ReadResult<T> {
    /// The next value in sequence; nothing was missed since the previous read.
    Next(T),
    /// A newer value; the writer overtook the reader and some values were lost.
    Dropout(T),
    /// The reader is caught up with the writer and nothing new is available.
    Empty,
}

impl<T> ReadResult<T> {
    /// The value carried by the result, if any.
    pub open spec fn spec_value(self) -> Option<T> {
        match self {
            ReadResult::Next(v) => Some(v),
            ReadResult::Dropout(v) => Some(v),
            ReadResult::Empty => None,
        }
    }

    /// Returns whether `self` is [ReadResult::Next].
    pub fn is_ok(&self) -> (r: bool)
        ensures
            r == (*self is Next),
    {
        match self {
            ReadResult::Next(_) => true,
            _ => false,
        }
    }

    /// Returns whether `self` is [ReadResult::Dropout].
    pub fn is_dropout(&self) -> (r: bool)
        ensures
            r == (*self is Dropout),
    {
        match self {
            ReadResult::Dropout(_) => true,
            _ => false,
        }
    }

    /// Returns whether `self` is [ReadResult::Empty].
    pub fn is_empty(&self) -> (r: bool)
        ensures
            r == (*self is Empty),
    {
        match self {
            ReadResult::Empty => true,
            _ => false,
        }
    }

    /// The received value for [ReadResult::Next] and [ReadResult::Dropout],
    /// `None` for [ReadResult::Empty].
    pub fn value(self) -> (r: Option<T>)
        ensures
            r == self.spec_value(),
    {
        match self {
            ReadResult::Next(v) => Some(v),
            ReadResult::Dropout(v) => Some(v),
            ReadResult::Empty => None,
        }
    }
}

} // verus!
