//! Ranges of seven-bit values.

use vstd::prelude::*;

verus! {

/// All values from `low` up to and including `high`. None where `high` is below `low`.
#[derive(Copy, Clone, Debug, PartialEq, Eq, Structural)]
pub struct ByteRange {
    pub low: u8,
    pub high: u8,
}

impl ByteRange {
    /// Whether the value lies in the range.
    pub open spec fn has(self, value: u8) -> bool {
        self.low <= value <= self.high
    }

    /// The range from `low` to `high`.
    pub fn new(low: u8, high: u8) -> (range: Self)
        ensures
            range == (ByteRange { low, high }),
    {
        ByteRange { low, high }
    }

    /// Whether the value lies in the range.
    pub fn contains(&self, value: u8) -> (inside: bool)
        ensures
            inside == self.has(value),
    {
        self.low <= value && value <= self.high
    }
}

/// A range holds both of its ends and what lies between them.
pub proof fn lemma_ranges(low: u8, high: u8, range: ByteRange, value: u8, inside: bool)
    requires
        call_ensures(ByteRange::new, (low, high), range),
        call_ensures(ByteRange::contains, (&range, value), inside),
    ensures
        inside <==> low <= value && value <= high,
{
}

} // verus!
