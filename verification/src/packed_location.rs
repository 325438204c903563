use crate::bin_section::BinSection;
use crate::width_height_depth::WidthHeightDepth;
use vstd::prelude::*;

verus! {

/// How far a placed rectangle was turned about one axis.
///
/// Rotation is not supported: every placement reports `ZeroDegrees` on every axis.
#[derive(Debug, PartialEq, Eq, Structural, Copy, Clone)]
pub enum RotatedBy {
    ZeroDegrees,
    NinetyDegrees,
}

/// Where, and with what extent, an incoming rectangle was placed inside its bin.
#[derive(Debug, PartialEq, Eq, Structural, Copy, Clone)]
pub struct PackedLocation {
    pub x: u32,
    pub y: u32,
    pub z: u32,
    pub whd: WidthHeightDepth,
    pub x_axis_rotation: RotatedBy,
    pub y_axis_rotation: RotatedBy,
    pub z_axis_rotation: RotatedBy,
}

impl PackedLocation {
    /// The placement of an unrotated box of extent `whd` with its origin at `(x, y, z)`.
    pub open spec fn unrotated(x: u32, y: u32, z: u32, whd: WidthHeightDepth) -> Self {
        PackedLocation {
            x,
            y,
            z,
            whd,
            x_axis_rotation: RotatedBy::ZeroDegrees,
            y_axis_rotation: RotatedBy::ZeroDegrees,
            z_axis_rotation: RotatedBy::ZeroDegrees,
        }
    }

    /// The cells of the bin that the placed rectangle covers.
    pub open spec fn cells(&self) -> BinSection {
        BinSection { x: self.x, y: self.y, z: self.z, whd: self.whd }
    }

    pub fn x(&self) -> (x: u32)
        ensures
            x == self.x,
    {
        self.x
    }

    pub fn y(&self) -> (y: u32)
        ensures
            y == self.y,
    {
        self.y
    }

    pub fn z(&self) -> (z: u32)
        ensures
            z == self.z,
    {
        self.z
    }

    pub fn width(&self) -> (w: u32)
        ensures
            w == self.whd.width,
    {
        self.whd.width
    }

    pub fn height(&self) -> (h: u32)
        ensures
            h == self.whd.height,
    {
        self.whd.height
    }

    pub fn depth(&self) -> (d: u32)
        ensures
            d == self.whd.depth,
    {
        self.whd.depth
    }
}

} // verus!
