//! Planning of 2.5D machining on a three-axis router and nesting of cut
//! lists, in fixed-point arithmetic.
//!
//! Boundaries are offset, contours, pockets and holes are planned as
//! toolpaths, toolpaths are posted as programs for GRBL-style controllers,
//! programs are validated, toolpaths are screened against the safe height,
//! and cut lists are nested on boards and sheets.
//!
//! Every scalar is an `i64` count of millionths of its base unit:
//! millimetres for lengths and heights, millimetres per minute for feed
//! rates, revolutions per minute for the spindle, seconds for dwells. Two
//! positions are the same position when they differ by less than one
//! millionth. Areas are `i128` counts of square millionths. Coordinates and
//! distances up to [`units::COORD_LIMIT`] are supported, in nesting lengths
//! up to [`nest::linear::NEST_LIMIT`].
pub mod units;
pub mod text;
pub mod geometry;
pub mod offsets;
pub mod error;
pub mod toolpath;
pub mod tabs;
pub mod linking;
pub mod ops;
pub mod gcode;
pub mod post;
pub mod simulate;
pub mod nest;
pub mod wood;

pub use error::{CamError, CamResult};
pub use geometry::{Point2, Point3};
pub use ops::{ContourOperation, DrillOperation, PocketOperation, Tool};
pub use toolpath::{ToolMotion, Toolpath};
