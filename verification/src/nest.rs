//! Nesting of cut lists: boards for linear parts, sheets for rectangular
//! parts.
pub mod error;
pub mod metrics;
pub mod util;
pub mod order;
pub mod linear;
pub mod planar;
pub mod best_fit;
pub mod skyline;

pub use best_fit::best_fit_sheets;
pub use error::{NestError, NestResult};
pub use linear::{
    first_fit_boards, LinearBoard, LinearCut, LinearNestConfig, LinearNestResult, LinearOffcut,
    LinearPart, LinearStock,
};
pub use metrics::{MetricKind, UtilizationBreakdown};
pub use planar::{
    summarize_sheet_layouts, GrainDirection, OffcutRect, PlanarNestConfig, RectPart,
    RectPlacement, SheetLayout, SheetStock,
};
pub use skyline::skyline_sheets;
