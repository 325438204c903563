use crate::bin_section::BinSection;
use crate::width_height_depth::WidthHeightDepth;
use crate::width_height_depth::lemma_volume_bound;
use vstd::prelude::*;

pub mod coalesce;
pub mod push_available_bin_section;

verus! {

/// A bin that incoming rectangles are placed into: its fixed extent, and the list of
/// the sections of it that are still free.
#[derive(Debug)]
pub struct TargetBin {
    max_width: u32,
    max_height: u32,
    max_depth: u32,
    available_bin_sections: Vec<BinSection>,
}

/// What a [`TargetBin`] holds, as plain values.
pub struct TargetBinView {
    pub max_width: u32,
    pub max_height: u32,
    pub max_depth: u32,
    /// The free sections, in the order in which the bin lists them.
    pub sections: Seq<BinSection>,
}

impl TargetBinView {
    /// The extent of the whole bin.
    pub open spec fn max_extent(&self) -> WidthHeightDepth {
        WidthHeightDepth { width: self.max_width, height: self.max_height, depth: self.max_depth }
    }

    /// The section that spans the whole bin.
    pub open spec fn whole(&self) -> BinSection {
        BinSection::spec_new_spread(0, 0, 0, self.max_width, self.max_height, self.max_depth)
    }

    /// The free sections lie inside the bin, and no two of them share a cell.
    pub open spec fn is_tidy(&self) -> bool {
        is_tidy(self.sections, self.whole())
    }

    /// Nothing was placed into the bin yet: all of it is one free section.
    pub open spec fn is_fresh(&self) -> bool {
        self.sections == seq![self.whole()]
    }
}

impl View for TargetBin {
    type V = TargetBinView;

    closed spec fn view(&self) -> TargetBinView {
        TargetBinView {
            max_width: self.max_width,
            max_height: self.max_height,
            max_depth: self.max_depth,
            sections: self.available_bin_sections@,
        }
    }
}

/// The sections of `sections` that are not empty, in their order.
pub open spec fn keep_nonempty(sections: Seq<BinSection>) -> Seq<BinSection> {
    sections.filter(|section: BinSection| section.spec_volume() > 0)
}

/// The sections of the list lie inside `whole`, and no two of them share a cell.
pub open spec fn is_tidy(sections: Seq<BinSection>, whole: BinSection) -> bool {
    &&& forall|i: int| 0 <= i < sections.len() ==> (#[trigger] sections[i]).is_within(&whole)
    &&& forall|i: int, j: int|
        #![trigger sections[i], sections[j]]
        0 <= i < sections.len() && 0 <= j < sections.len() && i != j
            ==> sections[i].is_disjoint_from(&sections[j])
}

/// `other` shares no cell with any section of the list.
pub open spec fn is_clear_of(other: BinSection, sections: Seq<BinSection>) -> bool {
    forall|i: int| 0 <= i < sections.len() ==> other.is_disjoint_from(&#[trigger] sections[i])
}

/// Every section of the list ends at a point of the `u32` grid.
pub open spec fn all_in_coordinate_range(sections: Seq<BinSection>) -> bool {
    forall|i: int| 0 <= i < sections.len() ==> (#[trigger] sections[i]).in_coordinate_range()
}

impl Clone for TargetBin {
    fn clone(&self) -> (copy: Self)
        ensures
            copy@ == self@,
    {
        let sections = self.available_bin_sections.clone();
        assert(sections@ =~= self.available_bin_sections@);
        TargetBin {
            max_width: self.max_width,
            max_height: self.max_height,
            max_depth: self.max_depth,
            available_bin_sections: sections,
        }
    }
}

impl TargetBin {
    /// An empty bin of the given extent, no side of which is zero: all of it is one
    /// free section.
    pub fn new(max_width: u32, max_height: u32, max_depth: u32) -> (bin: Self)
        requires
            max_width != 0,
            max_height != 0,
            max_depth != 0,
        ensures
            bin@.max_width == max_width,
            bin@.max_height == max_height,
            bin@.max_depth == max_depth,
            bin@.is_fresh(),
            bin@.is_tidy(),
    {
        let mut available_bin_sections = Vec::new();
        available_bin_sections.push(
            BinSection::new(
                0,
                0,
                0,
                WidthHeightDepth { width: max_width, height: max_height, depth: max_depth },
            ),
        );
        assert(available_bin_sections@ == seq![
            BinSection::spec_new_spread(0, 0, 0, max_width, max_height, max_depth),
        ]);
        TargetBin { max_width, max_height, max_depth, available_bin_sections }
    }

    /// The free sections of the bin: where rectangles can still be placed.
    pub fn available_bin_sections(&self) -> (sections: &Vec<BinSection>)
        ensures
            sections@ == self@.sections,
    {
        &self.available_bin_sections
    }

    /// The extent of the whole bin.
    pub fn max_extent(&self) -> (whd: WidthHeightDepth)
        ensures
            whd == self@.max_extent(),
    {
        WidthHeightDepth { width: self.max_width, height: self.max_height, depth: self.max_depth }
    }

    /// Removes the section at `idx`: the one that a placed rectangle has just split.
    pub fn remove_filled_section(&mut self, idx: usize)
        requires
            idx < old(self)@.sections.len(),
        ensures
            final(self)@.sections == old(self)@.sections.remove(idx as int),
            final(self)@.max_extent() == old(self)@.max_extent(),
    {
        self.available_bin_sections.remove(idx);
    }

    /// Appends the three sections that a split has made, but for the empty ones.
    pub fn add_new_sections(&mut self, new_sections: [BinSection; 3])
        ensures
            final(self)@.sections == old(self)@.sections + keep_nonempty(new_sections@),
            final(self)@.max_extent() == old(self)@.max_extent(),
    {
        let ghost before = self.available_bin_sections@;
        for i in 0..3
            invariant
                self.max_width == old(self).max_width,
                self.max_height == old(self).max_height,
                self.max_depth == old(self).max_depth,
                self.available_bin_sections@ == before + keep_nonempty(
                    new_sections@.take(i as int),
                ),
        {
            let new_section = new_sections[i];
            proof {
                lemma_volume_bound(new_section.whd);
                lemma_keep_nonempty_push(new_sections@.take(i as int), new_section);
                assert(new_sections@.take(i + 1) == new_sections@.take(i as int).push(
                    new_section,
                ));
            }
            if new_section.whd.volume() > 0 {
                self.available_bin_sections.push(new_section);
            }
        }
        assert(new_sections@.take(3) == new_sections@);
    }
}

/// Keeping the non-empty sections of a list that ends in `last` is keeping those of
/// the list before it, and then `last` if it is not empty.
pub proof fn lemma_keep_nonempty_push(sections: Seq<BinSection>, last: BinSection)
    ensures
        keep_nonempty(sections.push(last)) == if last.spec_volume() > 0 {
            keep_nonempty(sections).push(last)
        } else {
            keep_nonempty(sections)
        },
{
    reveal(Seq::filter);
    assert(sections.push(last).drop_last() == sections);
}

} // verus!
