use zenith_scene::anchor::AnchorSide::{Horizontal, Vertical};
use zenith_scene::anchor::Band::{Center, End, Start};
use zenith_scene::anchor::{AnchorSide, Band, GridAnchor, grid_anchor};

fn ga(h: Band, v: Band, side: AnchorSide) -> Option<GridAnchor> {
    Some(GridAnchor { horizontal: h, vertical: v, side })
}

#[test]
fn nine_grid_positions() {
    assert_eq!(grid_anchor("top-left"), ga(Start, Start, Horizontal));
    assert_eq!(grid_anchor("top-center"), ga(Center, Start, Vertical));
    assert_eq!(grid_anchor("top-right"), ga(End, Start, Horizontal));
    assert_eq!(grid_anchor("center-left"), ga(Start, Center, Horizontal));
    assert_eq!(grid_anchor("center"), ga(Center, Center, Horizontal));
    assert_eq!(grid_anchor("center-right"), ga(End, Center, Horizontal));
    assert_eq!(grid_anchor("bottom-left"), ga(Start, End, Horizontal));
    assert_eq!(grid_anchor("bottom-center"), ga(Center, End, Vertical));
    assert_eq!(grid_anchor("bottom-right"), ga(End, End, Horizontal));
}

#[test]
fn bare_edges_and_synonyms() {
    assert_eq!(grid_anchor("top"), ga(Center, Start, Vertical));
    assert_eq!(grid_anchor("bottom"), ga(Center, End, Vertical));
    assert_eq!(grid_anchor("left"), ga(Start, Center, Horizontal));
    assert_eq!(grid_anchor("right"), ga(End, Center, Horizontal));
    assert_eq!(grid_anchor("mid"), ga(Center, Center, Horizontal));
    assert_eq!(grid_anchor("middle"), ga(Center, Center, Horizontal));
    assert_eq!(grid_anchor("centre"), ga(Center, Center, Horizontal));
    assert_eq!(grid_anchor("left-top"), ga(Start, Start, Horizontal));
}

#[test]
fn unrecognized_anchors_fall_back() {
    assert_eq!(grid_anchor("auto"), None);
    assert_eq!(grid_anchor(""), None);
    assert_eq!(grid_anchor("-"), None);
    assert_eq!(grid_anchor("Top"), None);
    assert_eq!(grid_anchor("topleft"), None);
    assert_eq!(grid_anchor("1/4"), None);
}

#[test]
fn unknown_parts_are_ignored_and_left_top_win() {
    assert_eq!(grid_anchor("foo-top"), ga(Center, Start, Vertical));
    assert_eq!(grid_anchor("left-right"), ga(Start, Center, Horizontal));
    assert_eq!(grid_anchor("bottom-top"), ga(Center, Start, Vertical));
    assert_eq!(grid_anchor("top--left"), ga(Start, Start, Horizontal));
    assert_eq!(grid_anchor("-bottom-"), ga(Center, End, Vertical));
}
