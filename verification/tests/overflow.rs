use zenith_scene::overflow::{
    AutofitStep, OverflowFindingKind, OverflowMode, autofit_begin, autofit_next, overflow_finding,
    overflow_mode,
};

#[test]
fn overflow_modes() {
    assert_eq!(overflow_mode(None), OverflowMode::Clip);
    assert_eq!(overflow_mode(Some("clip")), OverflowMode::Clip);
    assert_eq!(overflow_mode(Some("fit")), OverflowMode::Fit);
    assert_eq!(overflow_mode(Some("autofit")), OverflowMode::Autofit);
    assert_eq!(overflow_mode(Some("visible")), OverflowMode::Unchecked);
    assert_eq!(overflow_mode(Some("Fit")), OverflowMode::Unchecked);
    assert_eq!(overflow_mode(Some("")), OverflowMode::Unchecked);
}

/// Run the search against a layout that fits at exactly the given sizes.
fn drive(ceil: i64, floor: i64, fits: impl Fn(i64) -> bool) -> (AutofitStep, Vec<i64>) {
    let mut trials = Vec::new();
    let mut step = autofit_begin(ceil, floor);
    while let AutofitStep::Trial { font_size_px } = step {
        trials.push(font_size_px);
        step = autofit_next(font_size_px, fits(font_size_px), floor);
    }
    (step, trials)
}

#[test]
fn autofit_picks_largest_fitting_size() {
    let (step, trials) = drive(24, 8, |fs| fs <= 17);
    assert_eq!(step, AutofitStep::Emit { font_size_px: 17, overflow: OverflowMode::Clip });
    assert_eq!(trials, (17..=24).rev().collect::<Vec<_>>());
}

#[test]
fn autofit_declared_size_fitting_is_kept() {
    let (step, trials) = drive(24, 8, |_| true);
    assert_eq!(step, AutofitStep::Emit { font_size_px: 24, overflow: OverflowMode::Clip });
    assert_eq!(trials, vec![24]);
}

#[test]
fn autofit_gives_up_at_the_floor_under_fit() {
    let (step, trials) = drive(12, 8, |_| false);
    assert_eq!(step, AutofitStep::Emit { font_size_px: 8, overflow: OverflowMode::Fit });
    assert_eq!(trials, vec![12, 11, 10, 9, 8]);
}

#[test]
fn autofit_empty_range_emits_floor() {
    assert_eq!(
        autofit_begin(5, 8),
        AutofitStep::Emit { font_size_px: 8, overflow: OverflowMode::Fit }
    );
    assert_eq!(autofit_begin(8, 8), AutofitStep::Trial { font_size_px: 8 });
}

#[test]
fn autofit_non_monotone_layout_still_takes_the_largest_fit() {
    let (step, _) = drive(20, 10, |fs| fs == 12 || fs == 15);
    assert_eq!(step, AutofitStep::Emit { font_size_px: 15, overflow: OverflowMode::Clip });
}

#[test]
fn overflow_findings_by_mode() {
    assert_eq!(overflow_finding(OverflowMode::Fit, true), Some(OverflowFindingKind::FitFailed));
    assert_eq!(overflow_finding(OverflowMode::Clip, true), Some(OverflowFindingKind::Clipped));
    assert_eq!(overflow_finding(OverflowMode::Autofit, true), None);
    assert_eq!(overflow_finding(OverflowMode::Unchecked, true), None);
    assert_eq!(overflow_finding(OverflowMode::Fit, false), None);
    assert_eq!(overflow_finding(OverflowMode::Clip, false), None);
}
