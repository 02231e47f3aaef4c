use zenith_scene::ir::effects::f64_bits_equal;
use zenith_scene::ir::fit_mode_from_author_value;
use zenith_scene::ir::{
    Color, FillRule, FitMode, GradientPaint, GradientStop, LineCap, LineJoin, MaskShape, Paint,
    StrokeAlign, fill_rule_as_bool, is_center, is_nonzero, is_selectable,
};

#[test]
fn solid_paint_wraps_the_color() {
    let c = Color::srgb(10, 20, 30, 255);
    assert_eq!(Paint::solid(c), Paint::Solid { color: c });
    assert_ne!(Paint::solid(c), Paint::solid(Color::srgb(10, 20, 30, 254)));
}

#[test]
fn gradient_paint_is_distinct_from_solid() {
    let g = Paint::Gradient(GradientPaint {
        angle_deg_bits: 90.0f64.to_bits(),
        stops: vec![
            GradientStop { offset_bits: 0.0f64.to_bits(), color: Color::srgb(0, 0, 0, 255) },
            GradientStop { offset_bits: 1.0f64.to_bits(), color: Color::srgb(255, 255, 255, 255) },
        ],
        radial: false,
        center_x_bits: 0.5f64.to_bits(),
        center_y_bits: 0.5f64.to_bits(),
        radius_frac_bits: 0.5f64.to_bits(),
    });
    assert_ne!(g, Paint::solid(Color::srgb(0, 0, 0, 255)));
}

#[test]
fn defaults_are_center_and_nonzero() {
    assert_eq!(StrokeAlign::default(), StrokeAlign::Center);
    assert_eq!(FillRule::default(), FillRule::NonZero);
}

#[test]
fn fill_rule_from_author_value() {
    assert_eq!(FillRule::from_author_value(Some("evenodd")), FillRule::EvenOdd);
    assert_eq!(FillRule::from_author_value(Some("nonzero")), FillRule::NonZero);
    assert_eq!(FillRule::from_author_value(Some("EvenOdd")), FillRule::NonZero);
    assert_eq!(FillRule::from_author_value(Some("evenodd ")), FillRule::NonZero);
    assert_eq!(FillRule::from_author_value(Some("")), FillRule::NonZero);
    assert_eq!(FillRule::from_author_value(None), FillRule::NonZero);
}

#[test]
fn serialisation_predicates() {
    assert!(is_center(&StrokeAlign::Center));
    assert!(!is_center(&StrokeAlign::Inside));
    assert!(!is_center(&StrokeAlign::Outside));
    assert!(is_nonzero(&FillRule::NonZero));
    assert!(!is_nonzero(&FillRule::EvenOdd));
    assert!(fill_rule_as_bool(&FillRule::EvenOdd));
    assert!(!fill_rule_as_bool(&FillRule::NonZero));
    assert!(is_selectable(&true));
    assert!(!is_selectable(&false));
}

#[test]
fn style_enums_compare_by_variant() {
    assert_ne!(LineCap::Butt, LineCap::Round);
    assert_ne!(LineJoin::Miter, LineJoin::Bevel);
    assert_ne!(MaskShape::Rect, MaskShape::Ellipse);
    assert_ne!(FitMode::Contain, FitMode::NativeSize);
}

#[test]
fn fit_mode_from_author_value_defaults_to_stretch() {
    assert_eq!(fit_mode_from_author_value(Some("contain")), FitMode::Contain);
    assert_eq!(fit_mode_from_author_value(Some("cover")), FitMode::Cover);
    assert_eq!(fit_mode_from_author_value(Some("none")), FitMode::NativeSize);
    assert_eq!(fit_mode_from_author_value(Some("stretch")), FitMode::Stretch);
    assert_eq!(fit_mode_from_author_value(Some("Cover")), FitMode::Stretch);
    assert_eq!(fit_mode_from_author_value(None), FitMode::Stretch);
}

#[test]
fn f64_bit_equality_follows_ieee() {
    assert!(f64_bits_equal(1.5f64.to_bits(), 1.5f64.to_bits()));
    assert!(f64_bits_equal(0.0f64.to_bits(), (-0.0f64).to_bits()));
    assert!(!f64_bits_equal(f64::NAN.to_bits(), f64::NAN.to_bits()));
    assert!(!f64_bits_equal(1.0f64.to_bits(), 2.0f64.to_bits()));
    assert!(f64_bits_equal(f64::INFINITY.to_bits(), f64::INFINITY.to_bits()));
    assert!(!f64_bits_equal(f64::INFINITY.to_bits(), f64::NEG_INFINITY.to_bits()));
}

#[test]
fn gradient_equality_compares_offsets_as_f64() {
    let white = Color::srgb(255, 255, 255, 255);
    let plus = GradientStop { offset_bits: 0.0f64.to_bits(), color: white };
    let minus = GradientStop { offset_bits: (-0.0f64).to_bits(), color: white };
    let nan = GradientStop { offset_bits: f64::NAN.to_bits(), color: white };
    assert!(plus == minus);
    assert!(nan != nan);
    assert!(plus != GradientStop { offset_bits: 0.0f64.to_bits(), color: Color::srgb(0, 0, 0, 255) });
    let paint = |angle: f64, stops: Vec<GradientStop>| GradientPaint {
        angle_deg_bits: angle.to_bits(),
        stops,
        radial: false,
        center_x_bits: 0.5f64.to_bits(),
        center_y_bits: 0.5f64.to_bits(),
        radius_frac_bits: 0.5f64.to_bits(),
    };
    assert!(paint(0.0, vec![plus]) == paint(-0.0, vec![minus]));
    assert!(paint(f64::NAN, vec![plus]) != paint(f64::NAN, vec![plus]));
    assert!(paint(90.0, vec![plus]) != paint(90.0, vec![plus, plus]));
    assert!(paint(90.0, vec![nan]) != paint(90.0, vec![nan]));
    assert!(Paint::Gradient(paint(0.0, vec![plus])) == Paint::Gradient(paint(-0.0, vec![minus])));
}
