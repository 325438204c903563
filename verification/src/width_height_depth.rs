use vstd::prelude::*;

verus! {

/// A width, a height and a depth: the extent of a box (or of a rectangle, when the
/// depth is 1).
#[derive(Debug, Clone, Copy, PartialEq, Eq, Structural, Ord, PartialOrd)]
pub struct WidthHeightDepth {
    pub width: u32,
    pub height: u32,
    pub depth: u32,
}

impl WidthHeightDepth {
    /// The number of unit cells in the extent.
    pub open spec fn spec_volume(&self) -> nat {
        (self.width * self.height * self.depth) as nat
    }

    /// An extent with no zero side.
    pub open spec fn is_positive(&self) -> bool {
        self.width != 0 && self.height != 0 && self.depth != 0
    }

    /// Builds an extent from three non-zero sides.
    pub fn new(width: u32, height: u32, depth: u32) -> (whd: Self)
        requires
            width != 0,
            height != 0,
            depth != 0,
        ensures
            whd.width == width,
            whd.height == height,
            whd.depth == depth,
            whd.is_positive(),
    {
        WidthHeightDepth { width, height, depth }
    }

    /// The volume, computed in 128 bits so that it cannot overflow.
    pub fn volume(&self) -> (v: u128)
        ensures
            v == self.spec_volume(),
    {
        proof {
            lemma_volume_bound(*self);
        }
        let area: u128 = self.width as u128 * self.height as u128;
        area * self.depth as u128
    }
}

impl Default for WidthHeightDepth {
    fn default() -> (whd: Self)
        ensures
            whd.width == 0,
            whd.height == 0,
            whd.depth == 0,
    {
        WidthHeightDepth { width: 0, height: 0, depth: 0 }
    }
}

/// Three 32-bit sides multiply to less than 2^96, so a volume fits in 128 bits.
pub proof fn lemma_volume_bound(whd: WidthHeightDepth)
    ensures
        whd.width * whd.height <= 0xffff_ffff * 0xffff_ffff,
        whd.spec_volume() <= 0xffff_ffff * 0xffff_ffff * 0xffff_ffff,
        whd.spec_volume() == whd.width * whd.height * whd.depth,
        whd.spec_volume() <= u128::MAX,
{
    let w = whd.width as int;
    let h = whd.height as int;
    let d = whd.depth as int;
    assert(0 <= w * h <= 0xffff_ffff * 0xffff_ffff) by (nonlinear_arith)
        requires
            0 <= w <= 0xffff_ffff,
            0 <= h <= 0xffff_ffff,
    ;
    assert(0 <= (w * h) * d <= (0xffff_ffff * 0xffff_ffff) * 0xffff_ffff) by (nonlinear_arith)
        requires
            0 <= w * h <= 0xffff_ffff * 0xffff_ffff,
            0 <= d <= 0xffff_ffff,
    ;
}

} // verus!
