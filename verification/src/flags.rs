use vstd::prelude::*;

verus! {

/// Size of a base page.
pub const PAGE_SIZE_4K: usize = 0x1000;

/// Permission and attribute bits of a virtual memory mapping.
#[derive(Clone, Copy, PartialEq, Eq, Structural)]
pub struct MappingFlags {
    pub bits: usize,
}

impl MappingFlags {
    #[allow(non_snake_case)]
    pub fn READ() -> (r: MappingFlags)
        ensures
            r.bits == 0x1,
    {
        MappingFlags { bits: 0x1 }
    }

    #[allow(non_snake_case)]
    pub fn WRITE() -> (r: MappingFlags)
        ensures
            r.bits == 0x2,
    {
        MappingFlags { bits: 0x2 }
    }

    #[allow(non_snake_case)]
    pub fn EXECUTE() -> (r: MappingFlags)
        ensures
            r.bits == 0x4,
    {
        MappingFlags { bits: 0x4 }
    }

    #[allow(non_snake_case)]
    pub fn USER() -> (r: MappingFlags)
        ensures
            r.bits == 0x8,
    {
        MappingFlags { bits: 0x8 }
    }

    #[allow(non_snake_case)]
    pub fn DEVICE() -> (r: MappingFlags)
        ensures
            r.bits == 0x10,
    {
        MappingFlags { bits: 0x10 }
    }

    #[allow(non_snake_case)]
    pub fn UNCACHED() -> (r: MappingFlags)
        ensures
            r.bits == 0x20,
    {
        MappingFlags { bits: 0x20 }
    }

    /// Whether every bit of `other` is set in `self`.
    pub open spec fn has(self, other: MappingFlags) -> bool {
        self.bits & other.bits == other.bits
    }

    pub fn empty() -> (r: MappingFlags)
        ensures
            r.bits == 0,
    {
        MappingFlags { bits: 0 }
    }

    pub fn contains(&self, other: MappingFlags) -> (r: bool)
        ensures
            r == self.has(other),
    {
        self.bits & other.bits == other.bits
    }

    pub fn union(&self, other: MappingFlags) -> (r: MappingFlags)
        ensures
            r.bits == self.bits | other.bits,
    {
        MappingFlags { bits: self.bits | other.bits }
    }
}

} // verus!
