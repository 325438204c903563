//! Packs any number of small rectangles (2D, or 3D rectangular prisms) into any number
//! of larger rectangular bins.
//!
//! The rectangles are registered in a [`GroupedRectsToPlace`], alone or in groups whose
//! members must all end up in the same bin. [`pack_rects`] then decides, for every
//! rectangle, which [`TargetBin`] it goes into and where in that bin it lands. Two
//! functions of the caller steer it: a heuristic that scores the size of a box, such as
//! [`volume_heuristic`], and a comparison that ranks the ways to cut up what a placed
//! rectangle leaves of a free section, such as [`contains_smallest_box`].
//!
//! ```
//! use rectangle_pack::{
//!     contains_smallest_box, pack_rects, volume_heuristic, GroupedRectsToPlace, RectToInsert,
//!     TargetBin,
//! };
//! use std::collections::BTreeMap;
//!
//! let mut rects_to_place = GroupedRectsToPlace::new();
//! rects_to_place.push_rect("one", Some(vec!["a group"]), RectToInsert::new(10, 20, 255));
//! rects_to_place.push_rect("two", Some(vec!["a group"]), RectToInsert::new(5, 50, 255));
//! rects_to_place.push_rect("three", None, RectToInsert::new(30, 30, 255));
//!
//! let mut target_bins = BTreeMap::new();
//! target_bins.insert(1, TargetBin::new(2048, 2048, 255));
//! target_bins.insert(2, TargetBin::new(4096, 4096, 1020));
//!
//! let placements = pack_rects(
//!     &rects_to_place,
//!     &mut target_bins,
//!     &volume_heuristic,
//!     &contains_smallest_box,
//! )
//! .unwrap();
//! assert_eq!(placements.packed_locations().len(), 3);
//! ```
//!
//! # What is proved
//!
//! Every function states what it returns, and the statement is proved of its code. The
//! contract of [`pack_rects`] is [`packing::packed`]: the one packing that the registry,
//! the bins and the two strategies determine. [`packing_laws`] proves what follows for
//! every packing: that it is a function of its input, that a group is never split over
//! two bins, that a lone rectangle takes the smallest bin it fits in, and that nothing
//! ever overlaps.
//!
//! The contracts ask of the identifiers that they are ordered and cloned as
//! [`identifiers::is_identifier`] says, and of the strategies that they answer every
//! question, and always in the same way: [`box_size_heuristics::is_heuristic`] and
//! [`bin_section::is_comparison`]. Verified code that calls [`pack_rects`] hands it the
//! strategies as closures that state what they return.

pub mod bin_section;
pub mod box_size_heuristics;
pub mod grouped_rects_to_place;
pub mod identifiers;
pub mod packed_location;
pub mod packing;
pub mod packing_laws;
pub mod rect_to_insert;
pub mod stable_order;
pub mod target_bin;
pub mod width_height_depth;

pub use crate::bin_section::contains_smallest_box;
pub use crate::bin_section::BinSection;
pub use crate::bin_section::BinSectionError;
pub use crate::box_size_heuristics::volume_heuristic;
pub use crate::grouped_rects_to_place::Group;
pub use crate::grouped_rects_to_place::GroupedRectsToPlace;
pub use crate::packed_location::PackedLocation;
pub use crate::packed_location::RotatedBy;
pub use crate::packing::pack_rects;
pub use crate::packing::RectanglePackError;
pub use crate::packing::RectanglePackOk;
pub use crate::rect_to_insert::RectToInsert;
pub use crate::target_bin::push_available_bin_section::PushBinSectionError;
pub use crate::target_bin::TargetBin;
pub use crate::width_height_depth::WidthHeightDepth;
