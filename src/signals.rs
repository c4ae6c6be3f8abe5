use vstd::prelude::*;

verus! {

/// The bit asserted while an object has something to read.
pub const READABLE_BIT: u32 = 1;

/// The bit asserted while an object can accept a write.
pub const WRITEABLE_BIT: u32 = 2;

/// A set of readiness bits asserted by a kernel object.
#[derive(Clone, Copy, Debug, PartialEq, Eq, Structural)]
pub struct Signals {
    pub bits: u32,
}

/// True when the two sets share at least one bit.
pub open spec fn intersects(a: Signals, b: Signals) -> bool {
    a.bits & b.bits != 0
}

/// The set holding `READABLE` alone.
pub open spec fn readable() -> Signals {
    Signals { bits: READABLE_BIT }
}

impl Signals {
    /// The empty set.
    pub fn new() -> (r: Signals)
        ensures
            r.bits == 0,
    {
        Signals { bits: 0 }
    }

    pub fn from_bits(bits: u32) -> (r: Signals)
        ensures
            r.bits == bits,
    {
        Signals { bits }
    }

    pub fn readable() -> (r: Signals)
        ensures
            r == readable(),
    {
        Signals { bits: READABLE_BIT }
    }

    pub fn writeable() -> (r: Signals)
        ensures
            r.bits == WRITEABLE_BIT,
    {
        Signals { bits: WRITEABLE_BIT }
    }

    pub fn intersects(&self, other: Signals) -> (r: bool)
        ensures
            r == intersects(*self, other),
    {
        self.bits & other.bits != 0
    }

    /// True when every bit of `other` is also in `self`.
    pub fn contains(&self, other: Signals) -> (r: bool)
        ensures
            r == (self.bits & other.bits == other.bits),
    {
        self.bits & other.bits == other.bits
    }

    pub fn union(&self, other: Signals) -> (r: Signals)
        ensures
            r.bits == self.bits | other.bits,
    {
        Signals { bits: self.bits | other.bits }
    }

    pub fn intersection(&self, other: Signals) -> (r: Signals)
        ensures
            r.bits == self.bits & other.bits,
    {
        Signals { bits: self.bits & other.bits }
    }

    /// The bits of `self` that are not in `other`.
    pub fn difference(&self, other: Signals) -> (r: Signals)
        ensures
            r.bits == self.bits & !other.bits,
    {
        Signals { bits: self.bits & !other.bits }
    }
}

/// What a completed wait reports: the signals seen and, for a wake-up that
/// came through a wait group, the data the member was enrolled with.
#[derive(Clone, Copy, Debug, PartialEq, Eq, Structural)]
pub struct WaitReturn {
    pub pending_signals: Signals,
    pub user_data: usize,
}

/// Status codes returned by kernel operations.
#[derive(Clone, Copy, Debug, PartialEq, Eq, Structural)]
pub enum Error {
    Cancelled,
    Unknown,
    InvalidArgument,
    DeadlineExceeded,
    NotFound,
    ResourceExhausted,
    OutOfRange,
    Unimplemented,
    Internal,
}

/// The numeric code of each error, as carried (negated) in a system call's
/// return value.
pub open spec fn error_code(e: Error) -> u32 {
    match e {
        Error::Cancelled => 1,
        Error::Unknown => 2,
        Error::InvalidArgument => 3,
        Error::DeadlineExceeded => 4,
        Error::NotFound => 5,
        Error::ResourceExhausted => 8,
        Error::OutOfRange => 11,
        Error::Unimplemented => 12,
        Error::Internal => 13,
    }
}

impl Error {
    pub fn code(&self) -> (r: u32)
        ensures
            r == error_code(*self),
            1 <= r <= 13,
    {
        match self {
            Error::Cancelled => 1,
            Error::Unknown => 2,
            Error::InvalidArgument => 3,
            Error::DeadlineExceeded => 4,
            Error::NotFound => 5,
            Error::ResourceExhausted => 8,
            Error::OutOfRange => 11,
            Error::Unimplemented => 12,
            Error::Internal => 13,
        }
    }
}

} // verus!
