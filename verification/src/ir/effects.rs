//! Paints, mask shapes and image fit modes, plus the serialisation decisions
//! the display list takes on its style fields.
use vstd::prelude::*;

use super::primitives::{FillRule, StrokeAlign};
use crate::color::Color;
use crate::text::str_eq;

verus! {

/// One stop of a gradient: its offset along the gradient and its colour.
///
/// Geometry is carried as the IEEE-754 bit pattern of the `f64` value; the
/// library never computes on it, it only hands it on.
#[derive(Debug, Clone, Copy)]
pub struct GradientStop {
    /// Bit pattern of the stop offset (`f64`, 0.0 ..= 1.0).
    pub offset_bits: u64,
    pub color: Color,
}

/// A linear or radial gradient paint.
///
/// The geometric parameters are carried as IEEE-754 `f64` bit patterns.
#[derive(Debug, Clone)]
pub struct GradientPaint {
    /// Bit pattern of the gradient angle in degrees (linear gradients).
    pub angle_deg_bits: u64,
    /// Colour stops, in authored order.
    pub stops: Vec<GradientStop>,
    /// `true` for a radial gradient, `false` for a linear one.
    pub radial: bool,
    /// Bit patterns of the radial centre (fractions of the box).
    pub center_x_bits: u64,
    pub center_y_bits: u64,
    /// Bit pattern of the radial radius (fraction of the box).
    pub radius_frac_bits: u64,
}

/// The bit pattern `b` encodes an `f64` NaN: all exponent bits set and a
/// non-zero mantissa.
pub open spec fn f64_bits_is_nan(b: u64) -> bool {
    (b & 0x7ff0_0000_0000_0000u64) == 0x7ff0_0000_0000_0000u64 && (b & 0x000f_ffff_ffff_ffffu64)
        != 0
}

/// The bit pattern `b` encodes `+0.0` or `-0.0`.
pub open spec fn f64_bits_is_zero(b: u64) -> bool {
    (b & 0x7fff_ffff_ffff_ffffu64) == 0
}

/// IEEE-754 equality of the `f64` values encoded by `a` and `b`: a NaN equals
/// nothing, `+0.0` equals `-0.0`, and any other two values are equal exactly
/// when their encodings are.
pub open spec fn f64_bits_eq(a: u64, b: u64) -> bool {
    &&& !f64_bits_is_nan(a)
    &&& !f64_bits_is_nan(b)
    &&& (a == b || (f64_bits_is_zero(a) && f64_bits_is_zero(b)))
}

/// Compare two `f64` values, given by their bit patterns, as `f64 == f64` does.
pub fn f64_bits_equal(a: u64, b: u64) -> (r: bool)
    ensures
        r == f64_bits_eq(a, b),
{
    let a_nan = (a & 0x7ff0_0000_0000_0000u64) == 0x7ff0_0000_0000_0000u64 && (a
        & 0x000f_ffff_ffff_ffffu64) != 0;
    let b_nan = (b & 0x7ff0_0000_0000_0000u64) == 0x7ff0_0000_0000_0000u64 && (b
        & 0x000f_ffff_ffff_ffffu64) != 0;
    let both_zero = (a & 0x7fff_ffff_ffff_ffffu64) == 0 && (b & 0x7fff_ffff_ffff_ffffu64) == 0;
    !a_nan && !b_nan && (a == b || both_zero)
}

/// Two gradient stops are equal when their offsets are equal as `f64` values
/// and their colours are equal.
pub open spec fn gradient_stop_eq(a: GradientStop, b: GradientStop) -> bool {
    f64_bits_eq(a.offset_bits, b.offset_bits) && a.color == b.color
}

/// Two lists of stops are equal when they have the same length and equal
/// stops at each position.
pub open spec fn gradient_stops_eq(a: Seq<GradientStop>, b: Seq<GradientStop>) -> bool {
    a.len() == b.len() && forall|i: int| 0 <= i < a.len() ==> gradient_stop_eq(#[trigger] a[i], b[i])
}

/// Two gradients are equal when all their `f64` parameters are equal as
/// `f64` values, their kinds agree and their stops are equal.
pub open spec fn gradient_paint_eq(a: GradientPaint, b: GradientPaint) -> bool {
    &&& f64_bits_eq(a.angle_deg_bits, b.angle_deg_bits)
    &&& gradient_stops_eq(a.stops@, b.stops@)
    &&& a.radial == b.radial
    &&& f64_bits_eq(a.center_x_bits, b.center_x_bits)
    &&& f64_bits_eq(a.center_y_bits, b.center_y_bits)
    &&& f64_bits_eq(a.radius_frac_bits, b.radius_frac_bits)
}

impl PartialEq for GradientStop {
    fn eq(&self, other: &Self) -> (r: bool) {
        f64_bits_equal(self.offset_bits, other.offset_bits) && self.color == other.color
    }
}

impl vstd::std_specs::cmp::PartialEqSpecImpl for GradientStop {
    open spec fn obeys_eq_spec() -> bool {
        true
    }

    open spec fn eq_spec(&self, other: &Self) -> bool {
        gradient_stop_eq(*self, *other)
    }
}

impl PartialEq for GradientPaint {
    fn eq(&self, other: &Self) -> (r: bool) {
        if !f64_bits_equal(self.angle_deg_bits, other.angle_deg_bits) || self.radial != other.radial
            || !f64_bits_equal(self.center_x_bits, other.center_x_bits) || !f64_bits_equal(
            self.center_y_bits,
            other.center_y_bits,
        ) || !f64_bits_equal(self.radius_frac_bits, other.radius_frac_bits) {
            return false;
        }
        if self.stops.len() != other.stops.len() {
            return false;
        }
        let mut i: usize = 0;
        while i < self.stops.len()
            invariant
                self.stops.len() == other.stops.len(),
                i <= self.stops.len(),
                forall|j: int| 0 <= j < i ==> gradient_stop_eq(#[trigger] self.stops@[j], other.stops@[j]),
            decreases self.stops.len() - i,
        {
            let a = self.stops[i];
            let b = other.stops[i];
            if !(f64_bits_equal(a.offset_bits, b.offset_bits) && a.color == b.color) {
                return false;
            }
            i = i + 1;
        }
        true
    }
}

impl vstd::std_specs::cmp::PartialEqSpecImpl for GradientPaint {
    open spec fn obeys_eq_spec() -> bool {
        true
    }

    open spec fn eq_spec(&self, other: &Self) -> bool {
        gradient_paint_eq(*self, *other)
    }
}

/// How a filled region is painted.
///
/// Every fill command carries a `Paint`, so any geometry can be filled with a
/// flat color or a gradient through one uniform model.
#[derive(Debug, Clone, PartialEq)]
pub enum Paint {
    /// A flat fill color (straight / un-pre-multiplied alpha).
    Solid { color: Color },
    /// A linear or radial gradient.
    Gradient(GradientPaint),
}

impl Paint {
    /// Construct a solid paint from a color.
    pub fn solid(color: Color) -> (p: Self)
        ensures
            p == (Paint::Solid { color }),
    {
        Paint::Solid { color }
    }
}

/// The spatial coverage shape of a node mask.
#[derive(Debug, Clone, Copy, PartialEq, Eq, Structural)]
pub enum MaskShape {
    Rect,
    RoundedRect,
    Ellipse,
}

/// How a raster image asset scales to fill its declared box.
///
/// - `Contain` — scale to fit entirely inside the box (letterboxed).
/// - `Cover` — scale to cover the whole box (cropped, clipped to the box).
/// - `Stretch` — scale each axis independently to exactly fill the box.
/// - `NativeSize` — draw at native pixel size, anchored by object-position
///   (authored and serialised as `none`).
#[derive(Debug, Clone, Copy, PartialEq, Eq, Structural)]
pub enum FitMode {
    Contain,
    Cover,
    Stretch,
    NativeSize,
}

/// The fit mode an image's authored `fit` value selects: `contain`, `cover`
/// and `none` name their modes; any other value, or none, stretches.
pub open spec fn fit_mode_of(value: Option<Seq<char>>) -> FitMode {
    match value {
        Some(v) => if v == seq!['c', 'o', 'n', 't', 'a', 'i', 'n'] {
            FitMode::Contain
        } else if v == seq!['c', 'o', 'v', 'e', 'r'] {
            FitMode::Cover
        } else if v == seq!['n', 'o', 'n', 'e'] {
            FitMode::NativeSize
        } else {
            FitMode::Stretch
        },
        None => FitMode::Stretch,
    }
}

/// The fit mode named by an image node's authored `fit` value.
pub fn fit_mode_from_author_value(value: Option<&str>) -> (m: FitMode)
    ensures
        m == fit_mode_of(
            match value {
                Some(v) => Some(v@),
                None => None,
            },
        ),
{
    match value {
        Some(v) => {
            proof {
                reveal_strlit("contain");
                reveal_strlit("cover");
                reveal_strlit("none");
                assert("contain"@ =~= seq!['c', 'o', 'n', 't', 'a', 'i', 'n']);
                assert("cover"@ =~= seq!['c', 'o', 'v', 'e', 'r']);
                assert("none"@ =~= seq!['n', 'o', 'n', 'e']);
            }
            if str_eq(v, "contain") {
                FitMode::Contain
            } else if str_eq(v, "cover") {
                FitMode::Cover
            } else if str_eq(v, "none") {
                FitMode::NativeSize
            } else {
                FitMode::Stretch
            }
        },
        None => FitMode::Stretch,
    }
}

/// Whether a stroke alignment is the default `Center` (which the display
/// list leaves out of its serialised form).
pub fn is_center(a: &StrokeAlign) -> (r: bool)
    ensures
        r == (*a == StrokeAlign::Center),
{
    matches!(a, StrokeAlign::Center)
}

/// Whether a fill rule is the default `NonZero` (which the display list
/// leaves out of its serialised form).
pub fn is_nonzero(rule: &FillRule) -> (r: bool)
    ensures
        r == (*rule == FillRule::NonZero),
{
    matches!(rule, FillRule::NonZero)
}

/// The boolean a fill rule is serialised as: `true` exactly for `EvenOdd`.
pub fn fill_rule_as_bool(rule: &FillRule) -> (r: bool)
    ensures
        r == (*rule == FillRule::EvenOdd),
{
    matches!(rule, FillRule::EvenOdd)
}

/// Whether a glyph run's `selectable` flag holds the default `true` (which
/// the display list leaves out of its serialised form).
pub fn is_selectable(selectable: &bool) -> (r: bool)
    ensures
        r == *selectable,
{
    *selectable
}

} // verus!
