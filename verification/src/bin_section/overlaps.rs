use crate::bin_section::BinSection;
use vstd::prelude::*;

verus! {

impl BinSection {
    /// The origin of `self` is one of the points that `other` covers.
    ///
    /// This looks at one corner of `self` only: two sections that share cells, but of
    /// which the first starts outside the second, do not overlap in this sense.
    pub open spec fn spec_overlaps(&self, other: &Self) -> bool {
        &&& other.x <= self.x < other.x + other.whd.width
        &&& other.y <= self.y < other.y + other.whd.height
        &&& other.z <= self.z < other.z + other.whd.depth
    }

    /// Whether the origin of `self` lies within `other`.
    #[verifier::when_used_as_spec(spec_overlaps)]
    pub fn overlaps(&self, other: &Self) -> (overlapping: bool)
        ensures
            overlapping == self.spec_overlaps(other),
    {
        (self.x >= other.x && (self.x as u64) < other.right()) && (self.y >= other.y && (
        self.y as u64) < other.top()) && (self.z >= other.z && (self.z as u64) < other.back())
    }

    /// The first x coordinate past the section.
    pub(crate) fn right(&self) -> (edge: u64)
        ensures
            edge == self.x + self.whd.width,
    {
        self.x as u64 + self.whd.width as u64
    }

    /// The first y coordinate past the section.
    pub(crate) fn top(&self) -> (edge: u64)
        ensures
            edge == self.y + self.whd.height,
    {
        self.y as u64 + self.whd.height as u64
    }

    /// The first z coordinate past the section.
    pub(crate) fn back(&self) -> (edge: u64)
        ensures
            edge == self.z + self.whd.depth,
    {
        self.z as u64 + self.whd.depth as u64
    }
}

} // verus!
