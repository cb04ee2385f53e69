use vstd::prelude::*;

verus! {

/// The ways a ring buffer refuses an operation. Every failure is reported
/// immediately to the caller as a value; nothing panics and nothing retries.
#[derive(Clone, Copy, Debug, PartialEq, Eq, Structural)]
pub enum RingBufferError {
    /// A push was refused: the buffer already holds `capacity()` elements.
    Full,
    /// A pop was refused: the buffer holds no elements.
    Empty,
    /// Construction was refused: the storage length is odd.
    InvalidCapacity,
}

/// The two-character diagnostic code of each error kind.
pub open spec fn spec_code(e: RingBufferError) -> Seq<char> {
    match e {
        RingBufferError::Full => "RF"@,
        RingBufferError::Empty => "RE"@,
        RingBufferError::InvalidCapacity => "RC"@,
    }
}

impl RingBufferError {
    /// The short stable code of this error: `"RF"`, `"RE"` or `"RC"`.
    /// Meant for compact diagnostics in environments without string formatting.
    pub fn code(&self) -> (r: &'static str)
        ensures
            r@ == spec_code(*self),
    {
        match self {
            RingBufferError::Full => "RF",
            RingBufferError::Empty => "RE",
            RingBufferError::InvalidCapacity => "RC",
        }
    }
}

} // verus!
