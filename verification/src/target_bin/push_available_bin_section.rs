//! Hands a section back to a bin.
//!
//! This is for an application that takes packed rectangles out of a bin again and
//! returns the room they took.

use crate::bin_section::BinSection;
use crate::target_bin::is_clear_of;
use crate::target_bin::TargetBin;
use vstd::prelude::*;

verus! {

/// Why a section could not be handed back to a bin.
#[derive(Debug, PartialEq, Eq, Structural, Copy, Clone)]
pub enum PushBinSectionError {
    /// The section does not lie wholly inside the bin.
    OutOfBounds(BinSection),
    /// A section that the bin lists as free starts inside the new section.
    Overlaps {
        /// The section that the bin already lists as free.
        remaining_section: BinSection,
        /// The section that was to be added.
        new_section: BinSection,
    },
}

impl TargetBin {
    /// `section` lies wholly inside the bin: along no axis does it reach past the
    /// extent of the bin.
    pub open spec fn lies_inside(&self, section: BinSection) -> bool {
        &&& section.x + section.whd.width <= self@.max_width
        &&& section.y + section.whd.height <= self@.max_height
        &&& section.z + section.whd.depth <= self@.max_depth
    }

    /// Adds `bin_section` to the free sections of the bin, after two checks.
    ///
    /// The section is refused as out of bounds when it does not lie wholly inside the
    /// bin. Otherwise it is refused when one of the free sections starts inside it,
    /// and the error names the first such section of the list. Otherwise it becomes
    /// the last free section. A refused section leaves the bin as it was.
    ///
    /// The second check looks at the origins of the free sections only. Where the
    /// new section shares no cell with any of them, a tidy bin stays tidy.
    ///
    /// Both checks together take time linear in the number of free sections.
    pub fn push_available_bin_section(&mut self, bin_section: BinSection) -> (outcome: Result<
        (),
        PushBinSectionError,
    >)
        ensures
            final(self)@.max_extent() == old(self)@.max_extent(),
            outcome is Ok <==> old(self).lies_inside(bin_section) && forall|i: int|
                0 <= i < old(self)@.sections.len() ==> !(#[trigger] old(
                    self,
                )@.sections[i]).spec_overlaps(&bin_section),
            outcome is Ok ==> final(self)@.sections == old(self)@.sections.push(bin_section),
            outcome is Ok ==> bin_section.is_within(&old(self)@.whole()),
            outcome is Ok && old(self)@.is_tidy() && is_clear_of(
                bin_section,
                old(self)@.sections,
            ) ==> final(self)@.is_tidy(),
            outcome is Err ==> final(self)@.sections == old(self)@.sections,
            outcome matches Err(PushBinSectionError::OutOfBounds(section)) ==> section
                == bin_section,
            outcome matches Err(PushBinSectionError::OutOfBounds(_)) <==> !old(
                self,
            ).lies_inside(bin_section),
            outcome matches Err(
                PushBinSectionError::Overlaps { remaining_section, new_section },
            ) ==> new_section == bin_section && exists|i: int|
                {
                    &&& 0 <= i < old(self)@.sections.len()
                    &&& remaining_section == #[trigger] old(self)@.sections[i]
                    &&& remaining_section.spec_overlaps(&bin_section)
                    &&& forall|j: int|
                        0 <= j < i ==> !(#[trigger] old(self)@.sections[j]).spec_overlaps(
                            &bin_section,
                        )
                },
    {
        if bin_section.right() > self.max_width as u64 || bin_section.top()
            > self.max_height as u64 || bin_section.back() > self.max_depth as u64 {
            return Err(PushBinSectionError::OutOfBounds(bin_section));
        }
        let count = self.available_bin_sections.len();
        for i in 0..count
            invariant
                count == self@.sections.len(),
                self@ == old(self)@,
                self.lies_inside(bin_section),
                forall|j: int|
                    0 <= j < i ==> !(#[trigger] self@.sections[j]).spec_overlaps(&bin_section),
        {
            let available = self.available_bin_sections[i];
            if available.overlaps(&bin_section) {
                return Err(
                    PushBinSectionError::Overlaps {
                        remaining_section: available,
                        new_section: bin_section,
                    },
                );
            }
        }
        self.push_available_bin_section_unchecked(bin_section);
        proof {
            let before = old(self)@.sections;
            let after = self@.sections;
            if old(self)@.is_tidy() && is_clear_of(bin_section, before) {
                assert forall|i: int, j: int|
                    #![trigger after[i], after[j]]
                    0 <= i < after.len() && 0 <= j < after.len() && i
                        != j implies after[i].is_disjoint_from(&after[j]) by {
                    if i < before.len() && j < before.len() {
                        assert(before[i].is_disjoint_from(&before[j]));
                    } else if i < before.len() {
                        assert(bin_section.is_disjoint_from(&before[i]));
                    } else {
                        assert(bin_section.is_disjoint_from(&before[j]));
                    }
                }
                assert forall|i: int| 0 <= i < after.len() implies (#[trigger] after[i]).is_within(
                    &self@.whole(),
                ) by {
                    if i < before.len() {
                        assert(before[i].is_within(&old(self)@.whole()));
                    }
                }
            }
        }
        Ok(())
    }

    /// Adds `bin_section` to the free sections of the bin without any check.
    ///
    /// [`TargetBin::push_available_bin_section`] does the same after checking that the
    /// section lies inside the bin and that no free section starts inside it.
    pub fn push_available_bin_section_unchecked(&mut self, bin_section: BinSection)
        ensures
            final(self)@.sections == old(self)@.sections.push(bin_section),
            final(self)@.max_extent() == old(self)@.max_extent(),
    {
        self.available_bin_sections.push(bin_section);
    }
}

} // verus!
