//! What a connection is ready for after an event.

use vstd::prelude::*;

verus! {

/// A set of the two readiness flags `READ` and `WRITE`.
#[derive(Clone, Copy, Debug, PartialEq, Eq, Structural)]
pub struct Available {
    pub read: bool,
    pub write: bool,
}

/// The bit of `READ` in the octet of a set.
pub const READ_BIT: u8 = 1;

/// The bit of `WRITE` in the octet of a set.
pub const WRITE_BIT: u8 = 2;

impl Available {
    /// The set as one octet: bit 0 for `READ`, bit 1 for `WRITE`.
    pub open spec fn spec_bits(self) -> u8 {
        ((if self.read { 1int } else { 0int }) + (if self.write { 2int } else { 0int })) as u8
    }

    /// Every flag of `other` is in `self`.
    pub open spec fn spec_contains(self, other: Available) -> bool {
        (other.read ==> self.read) && (other.write ==> self.write)
    }

    /// The set without a flag.
    pub fn empty() -> (r: Available)
        ensures
            r == (Available { read: false, write: false }),
    {
        Available { read: false, write: false }
    }

    /// The set of `READ` alone.
    pub fn read() -> (r: Available)
        ensures
            r == (Available { read: true, write: false }),
    {
        Available { read: true, write: false }
    }

    /// The set of `WRITE` alone.
    pub fn write() -> (r: Available)
        ensures
            r == (Available { read: false, write: true }),
    {
        Available { read: false, write: true }
    }

    /// Adds the flags of `other`.
    pub fn insert(&mut self, other: Available)
        ensures
            final(self).read == (old(self).read || other.read),
            final(self).write == (old(self).write || other.write),
    {
        self.read = self.read || other.read;
        self.write = self.write || other.write;
    }

    /// Whether every flag of `other` is in the set.
    pub fn contains(&self, other: Available) -> (r: bool)
        ensures
            r == self.spec_contains(other),
    {
        (!other.read || self.read) && (!other.write || self.write)
    }

    /// The set as one octet.
    pub fn bits(&self) -> (r: u8)
        ensures
            r == self.spec_bits(),
    {
        let low: u8 = if self.read { READ_BIT } else { 0 };
        let high: u8 = if self.write { WRITE_BIT } else { 0 };
        low + high
    }
}

} // verus!
