//! Backend-neutral style enums: line caps/joins, stroke alignment and fill
//! rule.
use vstd::prelude::*;

use crate::text::str_eq;

verus! {

/// Stroke end-cap style.
#[derive(Debug, Clone, Copy, PartialEq, Eq, Structural)]
pub enum LineCap {
    Butt,
    Round,
    Square,
}

/// Stroke corner join style.
///
/// `None` at command sites means the renderer default (`Miter`).
#[derive(Debug, Clone, Copy, PartialEq, Eq, Structural)]
pub enum LineJoin {
    Miter,
    Round,
    Bevel,
}

/// Stroke alignment relative to a closed polygon's boundary.
///
/// `Center` (the default) strokes centered on the path and is the only
/// alignment valid for open polylines; `Inside`/`Outside` shift the visible
/// stroke fully inside / outside the fill boundary.
#[derive(Debug, Clone, Copy, PartialEq, Eq, Structural)]
pub enum StrokeAlign {
    Center,
    Inside,
    Outside,
}

impl Default for StrokeAlign {
    fn default() -> (a: Self)
        ensures
            a == StrokeAlign::Center,
    {
        StrokeAlign::Center
    }
}

/// Fill rule for closed scene geometry.
#[derive(Debug, Clone, Copy, PartialEq, Eq, Structural)]
pub enum FillRule {
    NonZero,
    EvenOdd,
}

impl Default for FillRule {
    fn default() -> (r: Self)
        ensures
            r == FillRule::NonZero,
    {
        FillRule::NonZero
    }
}

/// The fill rule an author wrote: exactly `evenodd` selects `EvenOdd`; any
/// other value, or none, selects the default `NonZero`.
pub open spec fn fill_rule_of(value: Option<Seq<char>>) -> FillRule {
    match value {
        Some(v) => if v == seq!['e', 'v', 'e', 'n', 'o', 'd', 'd'] {
            FillRule::EvenOdd
        } else {
            FillRule::NonZero
        },
        None => FillRule::NonZero,
    }
}

impl FillRule {
    /// The fill rule named by an authored `fill-rule` value.
    pub fn from_author_value(value: Option<&str>) -> (r: Self)
        ensures
            r == fill_rule_of(
                match value {
                    Some(v) => Some(v@),
                    None => None,
                },
            ),
    {
        match value {
            Some(v) => {
                proof {
                    reveal_strlit("evenodd");
                    assert("evenodd"@ =~= seq!['e', 'v', 'e', 'n', 'o', 'd', 'd']);
                }
                if str_eq(v, "evenodd") {
                    FillRule::EvenOdd
                } else {
                    FillRule::NonZero
                }
            },
            None => FillRule::NonZero,
        }
    }
}

} // verus!
