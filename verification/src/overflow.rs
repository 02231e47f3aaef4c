//! Text-box overflow policy: what a `text` node's `overflow` attribute asks
//! for, and the `overflow="autofit"` shrink-to-fit search.
//!
//! The search drives trial layouts at integer-px font sizes downward from the
//! declared size (the ceiling) to the floor and stops at the first size whose
//! content fits the box; the layouts themselves are done by the caller, which
//! reports back whether each trial fitted.
use vstd::prelude::*;

use crate::text::str_eq;

verus! {

/// What a `text` node's `overflow` attribute asks for.
#[derive(Debug, Clone, Copy, PartialEq, Eq, Structural)]
pub enum OverflowMode {
    /// `clip`, or no `overflow` at all: ink is clipped at the box edge and a
    /// clipped box is reported as an advisory warning.
    Clip,
    /// `fit`: content that does not fit its box is a hard error.
    Fit,
    /// `autofit`: the font size shrinks until the content fits.
    Autofit,
    /// Any other value (e.g. `visible`): overflow is intended and unchecked.
    Unchecked,
}

/// The mode an authored `overflow` value selects.
pub open spec fn overflow_mode_of(value: Option<Seq<char>>) -> OverflowMode {
    match value {
        None => OverflowMode::Clip,
        Some(v) => if v == seq!['c', 'l', 'i', 'p'] {
            OverflowMode::Clip
        } else if v == seq!['f', 'i', 't'] {
            OverflowMode::Fit
        } else if v == seq!['a', 'u', 't', 'o', 'f', 'i', 't'] {
            OverflowMode::Autofit
        } else {
            OverflowMode::Unchecked
        },
    }
}

/// The mode an authored `overflow` value selects: absent or `clip` clips (with
/// an advisory when content is cut), `fit` fails hard when content does not
/// fit, `autofit` shrinks the font, anything else is left unchecked.
pub fn overflow_mode(value: Option<&str>) -> (m: OverflowMode)
    ensures
        m == overflow_mode_of(
            match value {
                Some(v) => Some(v@),
                None => None,
            },
        ),
{
    match value {
        None => OverflowMode::Clip,
        Some(v) => {
            proof {
                reveal_strlit("clip");
                reveal_strlit("fit");
                reveal_strlit("autofit");
                assert("clip"@ =~= seq!['c', 'l', 'i', 'p']);
                assert("fit"@ =~= seq!['f', 'i', 't']);
                assert("autofit"@ =~= seq!['a', 'u', 't', 'o', 'f', 'i', 't']);
            }
            if str_eq(v, "clip") {
                OverflowMode::Clip
            } else if str_eq(v, "fit") {
                OverflowMode::Fit
            } else if str_eq(v, "autofit") {
                OverflowMode::Autofit
            } else {
                OverflowMode::Unchecked
            }
        },
    }
}

/// The diagnostic a text box whose content overflows it earns.
#[derive(Debug, Clone, Copy, PartialEq, Eq, Structural)]
pub enum OverflowFindingKind {
    /// `overflow="fit"`: the content does not fit, a hard error.
    FitFailed,
    /// `overflow="clip"` (or none): the content is clipped, an advisory.
    Clipped,
}

/// The finding a box under `mode` earns when its content `overflowed` it:
/// none when it fits; otherwise a hard error under `fit`, an advisory under
/// `clip`, and nothing under `autofit` (the search already chose a fitting
/// size or reported the failure) or an unchecked mode.
pub open spec fn overflow_finding_of(mode: OverflowMode, overflowed: bool) -> Option<
    OverflowFindingKind,
> {
    if !overflowed {
        None
    } else {
        match mode {
            OverflowMode::Fit => Some(OverflowFindingKind::FitFailed),
            OverflowMode::Clip => Some(OverflowFindingKind::Clipped),
            OverflowMode::Autofit | OverflowMode::Unchecked => None,
        }
    }
}

/// The finding a laid-out text box under `mode` earns, given whether its
/// content `overflowed` the box (taller than the box, or one unbreakable line
/// wider than it).
pub fn overflow_finding(mode: OverflowMode, overflowed: bool) -> (f: Option<OverflowFindingKind>)
    ensures
        f == overflow_finding_of(mode, overflowed),
{
    if !overflowed {
        return None;
    }
    match mode {
        OverflowMode::Fit => Some(OverflowFindingKind::FitFailed),
        OverflowMode::Clip => Some(OverflowFindingKind::Clipped),
        OverflowMode::Autofit | OverflowMode::Unchecked => None,
    }
}

/// The next thing the shrink-to-fit search asks the caller to do.
#[derive(Debug, Clone, Copy, PartialEq, Eq, Structural)]
pub enum AutofitStep {
    /// Lay the text out at this integer-px font size into throwaway buffers
    /// under `overflow="fit"` and report whether it fitted.
    Trial { font_size_px: i64 },
    /// Do the one real layout at this size with this overflow mode: `Clip`
    /// when a size fitted, `Fit` (so the genuine failure is reported) when
    /// none did.
    Emit { font_size_px: i64, overflow: OverflowMode },
}

/// The first step of the search over `[floor_px, ceil_px]`.
pub open spec fn autofit_begin_spec(ceil_px: int, floor_px: int) -> AutofitStep {
    if ceil_px >= floor_px {
        AutofitStep::Trial { font_size_px: ceil_px as i64 }
    } else {
        AutofitStep::Emit { font_size_px: floor_px as i64, overflow: OverflowMode::Fit }
    }
}

/// The step after a trial at `tried_px` reported `fitted`.
pub open spec fn autofit_next_spec(tried_px: int, fitted: bool, floor_px: int) -> AutofitStep {
    if fitted {
        AutofitStep::Emit { font_size_px: tried_px as i64, overflow: OverflowMode::Clip }
    } else if tried_px > floor_px {
        AutofitStep::Trial { font_size_px: (tried_px - 1) as i64 }
    } else {
        AutofitStep::Emit { font_size_px: floor_px as i64, overflow: OverflowMode::Fit }
    }
}

/// Start the shrink-to-fit search with the declared size `ceil_px` as the
/// ceiling and `floor_px` as the floor: try the ceiling first.
pub fn autofit_begin(ceil_px: i64, floor_px: i64) -> (s: AutofitStep)
    ensures
        s == autofit_begin_spec(ceil_px as int, floor_px as int),
{
    if ceil_px >= floor_px {
        AutofitStep::Trial { font_size_px: ceil_px }
    } else {
        AutofitStep::Emit { font_size_px: floor_px, overflow: OverflowMode::Fit }
    }
}

/// Continue the search after the trial at `tried_px` (never below the floor)
/// reported whether it `fitted`: the first fitting size is emitted clipped;
/// otherwise the next size down is tried; below the floor nothing fitted and
/// the floor is emitted under `fit` so its failure is reported.
pub fn autofit_next(tried_px: i64, fitted: bool, floor_px: i64) -> (s: AutofitStep)
    requires
        floor_px <= tried_px,
    ensures
        s == autofit_next_spec(tried_px as int, fitted, floor_px as int),
{
    if fitted {
        AutofitStep::Emit { font_size_px: tried_px, overflow: OverflowMode::Clip }
    } else if tried_px > floor_px {
        AutofitStep::Trial { font_size_px: tried_px - 1 }
    } else {
        AutofitStep::Emit { font_size_px: floor_px, overflow: OverflowMode::Fit }
    }
}

/// The search driven to its end against a layout that fits exactly at the
/// sizes where `fits` holds.
pub open spec fn autofit_drive(step: AutofitStep, floor_px: i64, fits: spec_fn(int) -> bool) -> AutofitStep
    decreases
            (match step {
                AutofitStep::Trial { font_size_px } => font_size_px - floor_px + 1,
                AutofitStep::Emit { .. } => 0,
            }),
{
    match step {
        AutofitStep::Trial { font_size_px } => if font_size_px < floor_px {
            step
        } else {
            autofit_drive(
                autofit_next_spec(font_size_px as int, fits(font_size_px as int), floor_px as int),
                floor_px,
                fits,
            )
        },
        AutofitStep::Emit { .. } => step,
    }
}

/// The largest size in `[floor_px, ceil_px]` at which the layout fits, emitted
/// clipped; or the floor under `fit` when no size fits.
pub open spec fn autofit_outcome(ceil_px: int, floor_px: int, fits: spec_fn(int) -> bool) -> AutofitStep {
    if exists|s: int| floor_px <= s <= ceil_px && #[trigger] fits(s) {
        let best = choose|s: int|
            floor_px <= s <= ceil_px && #[trigger] fits(s) && forall|t: int|
                s < t <= ceil_px ==> !#[trigger] fits(t);
        AutofitStep::Emit { font_size_px: best as i64, overflow: OverflowMode::Clip }
    } else {
        AutofitStep::Emit { font_size_px: floor_px as i64, overflow: OverflowMode::Fit }
    }
}

proof fn lemma_autofit_drive_from(fs: int, ceil_px: int, floor_px: i64, fits: spec_fn(int) -> bool)
    requires
        floor_px <= fs <= ceil_px <= i64::MAX,
        forall|t: int| fs < t <= ceil_px ==> !#[trigger] fits(t),
    ensures
        autofit_drive(AutofitStep::Trial { font_size_px: fs as i64 }, floor_px, fits)
            == autofit_outcome(ceil_px, floor_px as int, fits),
    decreases fs - floor_px,
{
    assert((fs as i64) as int == fs);
    reveal_with_fuel(autofit_drive, 2);
    if fits(fs) {
        let best = choose|s: int|
            floor_px <= s <= ceil_px && #[trigger] fits(s) && forall|t: int|
                s < t <= ceil_px ==> !#[trigger] fits(t);
        assert(floor_px <= fs <= ceil_px && fits(fs) && forall|t: int|
            fs < t <= ceil_px ==> !#[trigger] fits(t));
        if best < fs {
            assert(!fits(fs));
        } else if best > fs {
            assert(!fits(best));
        }
    } else if fs > floor_px {
        lemma_autofit_drive_from(fs - 1, ceil_px, floor_px, fits);
    } else {
        assert forall|s: int| floor_px <= s <= ceil_px implies !#[trigger] fits(s) by {
            if s == fs {
            }
        }
    }
}

/// Driving the search from its first step against any layout stops at the
/// largest integer size in `[floor_px, ceil_px]` whose trial fits (emitted
/// clipped), and at the floor under `fit` when no size in range fits: the
/// search is deterministic and never skips a fitting size.
pub proof fn lemma_autofit_finds_largest_fit(ceil_px: i64, floor_px: i64, fits: spec_fn(int) -> bool)
    ensures
        autofit_drive(autofit_begin_spec(ceil_px as int, floor_px as int), floor_px, fits)
            == autofit_outcome(ceil_px as int, floor_px as int, fits),
{
    if ceil_px >= floor_px {
        lemma_autofit_drive_from(ceil_px as int, ceil_px as int, floor_px, fits);
    }
}

} // verus!
