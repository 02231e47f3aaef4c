//! Backend-neutral scene vocabulary and the decision logic of the scene
//! compiler: sRGB hex colour parsing, the style enums of the display list,
//! import-source parsing and the import graph, table cell flow, the
//! widow/orphan cut of threaded text, nine-point grid anchors, and the
//! text-overflow policy with its shrink-to-fit search.

pub mod anchor;
pub mod chain;
pub mod color;
pub mod imports;
pub mod ir;
pub mod overflow;
pub mod table;
pub mod text;

pub use color::{Color, parse_srgb_hex};
pub use ir::{FillRule, FitMode, LineCap, LineJoin, MaskShape, Paint, StrokeAlign};
