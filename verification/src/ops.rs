//! The machining operations: contour, pocket and drill.
pub mod types;
pub mod contour;
pub mod pocket;
pub mod drill;

pub use contour::{ContourOperation, ContourSide};
pub use drill::{DrillCycle, DrillOperation};
pub use pocket::PocketOperation;
pub use types::{OperationSettings, Tool};
