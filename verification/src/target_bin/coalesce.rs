//! Joins free sections of a bin that lie side by side into one.
//!
//! When sections are handed back to a bin, the bin can end up with neighbouring free
//! sections that together are one larger box. A larger section takes rectangles that
//! fit in neither of its parts, so it pays to join them.

use crate::bin_section::BinSection;
use crate::target_bin::TargetBin;
use crate::width_height_depth::WidthHeightDepth;
use crate::width_height_depth::lemma_volume_bound;
use core::ops::Range;
use vstd::prelude::*;

verus! {

impl BinSection {
    /// The two sections lie side by side along the x axis: they have the same origin and
    /// extent along the other two axes, one starts where the other ends, and their
    /// widths together are still a `u32`.
    pub open spec fn joins_along_width(&self, other: &BinSection) -> bool {
        &&& self.y == other.y
        &&& self.z == other.z
        &&& self.whd.height == other.whd.height
        &&& self.whd.depth == other.whd.depth
        &&& (self.x + self.whd.width == other.x || other.x + other.whd.width == self.x)
        &&& self.whd.width + other.whd.width <= u32::MAX
    }

    /// The two sections lie one on top of the other, as
    /// [`BinSection::joins_along_width`] has them side by side.
    pub open spec fn joins_along_height(&self, other: &BinSection) -> bool {
        &&& self.x == other.x
        &&& self.z == other.z
        &&& self.whd.width == other.whd.width
        &&& self.whd.depth == other.whd.depth
        &&& (self.y + self.whd.height == other.y || other.y + other.whd.height == self.y)
        &&& self.whd.height + other.whd.height <= u32::MAX
    }

    /// The two sections lie one behind the other, as
    /// [`BinSection::joins_along_width`] has them side by side.
    pub open spec fn joins_along_depth(&self, other: &BinSection) -> bool {
        &&& self.x == other.x
        &&& self.y == other.y
        &&& self.whd.width == other.whd.width
        &&& self.whd.height == other.whd.height
        &&& (self.z + self.whd.depth == other.z || other.z + other.whd.depth == self.z)
        &&& self.whd.depth + other.whd.depth <= u32::MAX
    }

    /// The one section that two neighbouring sections make up; `None` if the two share
    /// no whole face.
    pub open spec fn joined_with(&self, other: &BinSection) -> Option<BinSection> {
        if self.joins_along_width(other) {
            Some(
                BinSection {
                    x: if self.x <= other.x {
                        self.x
                    } else {
                        other.x
                    },
                    y: self.y,
                    z: self.z,
                    whd: WidthHeightDepth {
                        width: (self.whd.width + other.whd.width) as u32,
                        height: self.whd.height,
                        depth: self.whd.depth,
                    },
                },
            )
        } else if self.joins_along_height(other) {
            Some(
                BinSection {
                    x: self.x,
                    y: if self.y <= other.y {
                        self.y
                    } else {
                        other.y
                    },
                    z: self.z,
                    whd: WidthHeightDepth {
                        width: self.whd.width,
                        height: (self.whd.height + other.whd.height) as u32,
                        depth: self.whd.depth,
                    },
                },
            )
        } else if self.joins_along_depth(other) {
            Some(
                BinSection {
                    x: self.x,
                    y: self.y,
                    z: if self.z <= other.z {
                        self.z
                    } else {
                        other.z
                    },
                    whd: WidthHeightDepth {
                        width: self.whd.width,
                        height: self.whd.height,
                        depth: (self.whd.depth + other.whd.depth) as u32,
                    },
                },
            )
        } else {
            None
        }
    }

    /// Joins the section with a neighbour, if `other` is one.
    pub fn join(&self, other: &BinSection) -> (joined: Option<BinSection>)
        ensures
            joined == self.joined_with(other),
    {
        if self.y == other.y && self.z == other.z && self.whd.height == other.whd.height
            && self.whd.depth == other.whd.depth && touch(
            self.x,
            self.whd.width,
            other.x,
            other.whd.width,
        ) {
            if let Some(width) = self.whd.width.checked_add(other.whd.width) {
                return Some(
                    BinSection::new_spread(
                        lower(self.x, other.x),
                        self.y,
                        self.z,
                        width,
                        self.whd.height,
                        self.whd.depth,
                    ),
                );
            }
        }
        if self.x == other.x && self.z == other.z && self.whd.width == other.whd.width
            && self.whd.depth == other.whd.depth && touch(
            self.y,
            self.whd.height,
            other.y,
            other.whd.height,
        ) {
            if let Some(height) = self.whd.height.checked_add(other.whd.height) {
                return Some(
                    BinSection::new_spread(
                        self.x,
                        lower(self.y, other.y),
                        self.z,
                        self.whd.width,
                        height,
                        self.whd.depth,
                    ),
                );
            }
        }
        if self.x == other.x && self.y == other.y && self.whd.width == other.whd.width
            && self.whd.height == other.whd.height && touch(
            self.z,
            self.whd.depth,
            other.z,
            other.whd.depth,
        ) {
            if let Some(depth) = self.whd.depth.checked_add(other.whd.depth) {
                return Some(
                    BinSection::new_spread(
                        self.x,
                        self.y,
                        lower(self.z, other.z),
                        self.whd.width,
                        self.whd.height,
                        depth,
                    ),
                );
            }
        }
        None
    }
}

/// One of two stretches of an axis starts where the other ends.
fn touch(start1: u32, length1: u32, start2: u32, length2: u32) -> (touching: bool)
    ensures
        touching == (start1 + length1 == start2 || start2 + length2 == start1),
{
    start1 as u64 + length1 as u64 == start2 as u64 || start2 as u64 + length2 as u64
        == start1 as u64
}

/// The smaller of two coordinates.
fn lower(a: u32, b: u32) -> (least: u32)
    ensures
        least == if a <= b {
            a
        } else {
            b
        },
{
    if a <= b {
        a
    } else {
        b
    }
}

/// The place of the first section among `sections[from]`, ..., `sections[end - 1]`
/// that is a neighbour of `sections[index]`, and not that section itself.
pub open spec fn neighbor_in(sections: Seq<BinSection>, index: int, from: int, end: int) -> Option<
    int,
>
    decreases end - from,
{
    if from < 0 || from >= end || from >= sections.len() {
        None
    } else if from != index && sections[index].joined_with(&sections[from]) is Some {
        Some(from)
    } else {
        neighbor_in(sections, index, from + 1, end)
    }
}

/// The free sections after `sections[index]` was joined with its first neighbour among
/// `sections[start]`, ..., `sections[end - 1]`: the joined section stands in its place,
/// and the neighbour is gone. Without such a neighbour, or such a section, the list
/// stays as it is.
pub open spec fn coalesced(sections: Seq<BinSection>, index: int, start: int, end: int) -> Seq<
    BinSection,
> {
    if 0 <= index < sections.len() {
        match neighbor_in(sections, index, start, end) {
            Some(neighbor) => sections.update(
                index,
                sections[index].joined_with(&sections[neighbor]).unwrap(),
            ).remove(neighbor),
            None => sections,
        }
    } else {
        sections
    }
}

/// Two neighbouring sections lie inside the section that they make up, share no cell,
/// and have together its volume.
pub proof fn lemma_joined_section(a: BinSection, b: BinSection)
    requires
        a.joined_with(&b) is Some,
    ensures
        a.is_within(&a.joined_with(&b).unwrap()),
        b.is_within(&a.joined_with(&b).unwrap()),
        a.is_disjoint_from(&b),
        a.joined_with(&b).unwrap().spec_volume() == a.spec_volume() + b.spec_volume(),
{
    let joined = a.joined_with(&b).unwrap();
    lemma_volume_bound(a.whd);
    lemma_volume_bound(b.whd);
    lemma_volume_bound(joined.whd);
    let aw = a.whd.width as int;
    let ah = a.whd.height as int;
    let ad = a.whd.depth as int;
    let bw = b.whd.width as int;
    let bh = b.whd.height as int;
    let bd = b.whd.depth as int;
    if a.joins_along_width(&b) {
        assert((aw + bw) * ah * ad == aw * ah * ad + bw * ah * ad) by (nonlinear_arith);
    } else if a.joins_along_height(&b) {
        assert(aw * (ah + bh) * ad == aw * ah * ad + aw * bh * ad) by (nonlinear_arith);
    } else {
        assert(aw * ah * (ad + bd) == aw * ah * ad + aw * ah * bd) by (nonlinear_arith);
    }
}

impl TargetBin {
    /// Joins the free section at `bin_section_index` with the first section at one of
    /// the places `compare_to_indices` that is its neighbour.
    ///
    /// Two sections are neighbours when they share a whole face: they agree along two
    /// axes, and along the third one starts where the other ends. The joined section
    /// takes the place of the first, and the neighbour leaves the list: the sections
    /// after it move up by one place. A call joins at most once, and does nothing
    /// where the index or the places are past the end of the list. So the work of
    /// joining all that can be joined, which compares every section with every other,
    /// can be spread over many calls.
    pub fn coalesce_available_sections(
        &mut self,
        bin_section_index: usize,
        compare_to_indices: Range<usize>,
    )
        ensures
            final(self)@.max_extent() == old(self)@.max_extent(),
            final(self)@.sections == coalesced(
                old(self)@.sections,
                bin_section_index as int,
                compare_to_indices.start as int,
                compare_to_indices.end as int,
            ),
    {
        let count = self.available_bin_sections.len();
        if bin_section_index >= count {
            return ;
        }
        let section = self.available_bin_sections[bin_section_index];
        let mut at: usize = compare_to_indices.start;
        while at < compare_to_indices.end && at < count
            invariant
                self@ == old(self)@,
                count == self@.sections.len(),
                bin_section_index < count,
                section == self@.sections[bin_section_index as int],
                compare_to_indices.start <= at,
                neighbor_in(
                    self@.sections,
                    bin_section_index as int,
                    compare_to_indices.start as int,
                    compare_to_indices.end as int,
                ) == neighbor_in(
                    self@.sections,
                    bin_section_index as int,
                    at as int,
                    compare_to_indices.end as int,
                ),
            decreases count - at,
        {
            if at != bin_section_index {
                let other = self.available_bin_sections[at];
                if let Some(joined) = section.join(&other) {
                    self.available_bin_sections[bin_section_index] = joined;
                    self.available_bin_sections.remove(at);
                    return ;
                }
            }
            at = at + 1;
        }
    }
}

} // verus!
