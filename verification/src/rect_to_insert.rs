use crate::width_height_depth::WidthHeightDepth;
use vstd::prelude::*;
use vstd::std_specs::convert::FromSpecImpl;

verus! {

/// A rectangle that is to be placed into one of the target bins.
///
/// The three flags are reserved for rotation, which is not supported: they are always
/// `false`.
#[derive(Debug, Copy, Clone, PartialEq, Eq, Structural)]
pub struct RectToInsert {
    pub whd: WidthHeightDepth,
    pub allow_global_x_axis_rotation: bool,
    pub allow_global_y_axis_rotation: bool,
    pub allow_global_z_axis_rotation: bool,
}

impl RectToInsert {
    /// A rectangle of the given extent that may not be rotated.
    pub open spec fn spec_new(width: u32, height: u32, depth: u32) -> Self {
        RectToInsert {
            whd: WidthHeightDepth { width, height, depth },
            allow_global_x_axis_rotation: false,
            allow_global_y_axis_rotation: false,
            allow_global_z_axis_rotation: false,
        }
    }

    /// A rectangle with the given sides, none of which is zero.
    #[verifier::when_used_as_spec(spec_new)]
    pub fn new(width: u32, height: u32, depth: u32) -> (rect: Self)
        requires
            width != 0,
            height != 0,
            depth != 0,
        ensures
            rect == Self::spec_new(width, height, depth),
            rect.whd.is_positive(),
    {
        RectToInsert {
            whd: WidthHeightDepth { width, height, depth },
            allow_global_x_axis_rotation: false,
            allow_global_y_axis_rotation: false,
            allow_global_z_axis_rotation: false,
        }
    }

    pub open spec fn spec_width(&self) -> u32 {
        self.whd.width
    }

    pub open spec fn spec_height(&self) -> u32 {
        self.whd.height
    }

    pub open spec fn spec_depth(&self) -> u32 {
        self.whd.depth
    }

    #[verifier::when_used_as_spec(spec_width)]
    pub fn width(&self) -> (w: u32)
        ensures
            w == self.whd.width,
    {
        self.whd.width
    }

    #[verifier::when_used_as_spec(spec_height)]
    pub fn height(&self) -> (h: u32)
        ensures
            h == self.whd.height,
    {
        self.whd.height
    }

    #[verifier::when_used_as_spec(spec_depth)]
    pub fn depth(&self) -> (d: u32)
        ensures
            d == self.whd.depth,
    {
        self.whd.depth
    }
}

impl From<RectToInsert> for WidthHeightDepth {
    fn from(rect: RectToInsert) -> (whd: WidthHeightDepth) {
        WidthHeightDepth { width: rect.width(), height: rect.height(), depth: rect.depth() }
    }
}

impl FromSpecImpl<RectToInsert> for WidthHeightDepth {
    open spec fn obeys_from_spec() -> bool {
        true
    }

    open spec fn from_spec(rect: RectToInsert) -> WidthHeightDepth {
        rect.whd
    }
}

} // verus!
