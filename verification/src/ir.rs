//! Scene IR vocabulary that carries no geometry: the stroke and fill style
//! enums, paints, mask shapes and image fit modes, with the serialisation
//! decisions the display list makes on them.
pub mod effects;
pub mod primitives;

pub use crate::color::Color;
pub use effects::{
    FitMode, GradientPaint, GradientStop, MaskShape, Paint, fill_rule_as_bool,
    fit_mode_from_author_value, is_center, is_nonzero, is_selectable,
};
pub use primitives::{FillRule, LineCap, LineJoin, StrokeAlign};
