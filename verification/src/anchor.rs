//! Nine-point grid anchors for connectors: which band of a target box an
//! anchor string names, and the orientation a routed path leaves/enters by.
//!
//! Anchors are a nine-point grid: a horizontal band (`left` / `center` /
//! `right`) optionally combined with a vertical band (`top` / `center` /
//! `bottom`) via a hyphen — e.g. `top-left`, `bottom-center`, `center-right`.
//! A bare single token names the corresponding edge mid-point (`top` =
//! `top-center`, `left` = `center-left`); `center` is the box center. `centre`,
//! `mid` and `middle` are accepted synonyms for `center`.
use vstd::prelude::*;

use crate::text::chars_of;

verus! {

/// Which edge of a box an anchor sits on, expressed as the orientation the path
/// must leave/enter through. `Horizontal` = a left/right edge → the path leaves
/// horizontally; `Vertical` = a top/bottom edge → the path leaves vertically.
#[derive(Debug, Clone, Copy, PartialEq, Eq, Structural)]
pub enum AnchorSide {
    Horizontal,
    Vertical,
}

/// A position along one axis of a box: its low edge (left / top), its middle,
/// or its high edge (right / bottom).
#[derive(Debug, Clone, Copy, PartialEq, Eq, Structural)]
pub enum Band {
    Start,
    Center,
    End,
}

/// A resolved grid anchor: the band on each axis and the leave/enter side.
#[derive(Debug, Clone, Copy, PartialEq, Eq, Structural)]
pub struct GridAnchor {
    /// `Start` = left edge, `Center` = middle, `End` = right edge.
    pub horizontal: Band,
    /// `Start` = top edge, `Center` = middle, `End` = bottom edge.
    pub vertical: Band,
    pub side: AnchorSide,
}

/// The hyphen-separated parts of `s`, as `str::split('-')` yields them (an
/// empty string has one empty part).
pub open spec fn split_on_dash(s: Seq<char>) -> Seq<Seq<char>>
    decreases s.len(),
{
    if s.len() == 0 {
        seq![Seq::<char>::empty()]
    } else {
        let parts = split_on_dash(s.drop_last());
        if s.last() == '-' {
            parts.push(Seq::<char>::empty())
        } else {
            parts.update(parts.len() - 1, parts.last().push(s.last()))
        }
    }
}

proof fn lemma_split_on_dash_nonempty(s: Seq<char>)
    ensures
        split_on_dash(s).len() >= 1,
    decreases s.len(),
{
    if s.len() > 0 {
        lemma_split_on_dash_nonempty(s.drop_last());
    }
}

pub open spec fn word_top() -> Seq<char> {
    seq!['t', 'o', 'p']
}

pub open spec fn word_bottom() -> Seq<char> {
    seq!['b', 'o', 't', 't', 'o', 'm']
}

pub open spec fn word_left() -> Seq<char> {
    seq!['l', 'e', 'f', 't']
}

pub open spec fn word_right() -> Seq<char> {
    seq!['r', 'i', 'g', 'h', 't']
}

/// The words that name the middle band: `center`, `centre`, `mid`, `middle`.
pub open spec fn is_center_word(w: Seq<char>) -> bool {
    ||| w == seq!['c', 'e', 'n', 't', 'e', 'r']
    ||| w == seq!['c', 'e', 'n', 't', 'r', 'e']
    ||| w == seq!['m', 'i', 'd']
    ||| w == seq!['m', 'i', 'd', 'd', 'l', 'e']
}

/// Some part of `parts` names the middle band.
pub open spec fn names_center(parts: Seq<Seq<char>>) -> bool {
    exists|i: int| 0 <= i < parts.len() && is_center_word(#[trigger] parts[i])
}

/// The grid anchor `anchor` names, or `None` when none of its hyphen-separated
/// parts is a grid word (e.g. `auto`). Unknown parts are ignored. Left wins
/// over right and top over bottom when both are named. A pure top/bottom
/// anchor leaves vertically; every other one (the center, the four corners,
/// a pure left/right) leaves horizontally.
pub open spec fn grid_anchor_of(anchor: Seq<char>) -> Option<GridAnchor> {
    let parts = split_on_dash(anchor);
    let top = parts.contains(word_top());
    let bottom = parts.contains(word_bottom());
    let left = parts.contains(word_left());
    let right = parts.contains(word_right());
    if !(top || bottom || left || right || names_center(parts)) {
        None
    } else {
        Some(
            GridAnchor {
                horizontal: if left {
                    Band::Start
                } else if right {
                    Band::End
                } else {
                    Band::Center
                },
                vertical: if top {
                    Band::Start
                } else if bottom {
                    Band::End
                } else {
                    Band::Center
                },
                side: if (top || bottom) && !(left || right) {
                    AnchorSide::Vertical
                } else {
                    AnchorSide::Horizontal
                },
            },
        )
    }
}

/// A string without a hyphen is one part.
pub proof fn lemma_split_without_dash(s: Seq<char>)
    requires
        !s.contains('-'),
    ensures
        split_on_dash(s) == seq![s],
    decreases s.len(),
{
    if s.len() > 0 {
        let d = s.drop_last();
        assert(!d.contains('-')) by {
            if d.contains('-') {
                let j = choose|j: int| 0 <= j < d.len() && d[j] == '-';
                assert(s[j] == '-');
            }
        }
        lemma_split_without_dash(d);
        assert(s.last() != '-') by {
            assert(s[s.len() - 1] == s.last());
        }
        assert(d.push(s.last()) =~= s);
        assert(split_on_dash(s) =~= seq![s]);
    } else {
        assert(s =~= Seq::<char>::empty());
    }
}

/// Appending a hyphen and a hyphen-free part `b` to `x` appends `b` to the
/// parts of `x`.
pub proof fn lemma_split_append_part(x: Seq<char>, b: Seq<char>)
    requires
        !b.contains('-'),
    ensures
        split_on_dash(x + seq!['-'] + b) == split_on_dash(x).push(b),
    decreases b.len(),
{
    let t = x + seq!['-'] + b;
    if b.len() == 0 {
        assert(t.drop_last() =~= x);
        assert(t.last() == '-');
        assert(b =~= Seq::<char>::empty());
    } else {
        let d = b.drop_last();
        assert(!d.contains('-')) by {
            if d.contains('-') {
                let j = choose|j: int| 0 <= j < d.len() && d[j] == '-';
                assert(b[j] == '-');
            }
        }
        lemma_split_append_part(x, d);
        assert(t.drop_last() =~= x + seq!['-'] + d);
        assert(t.last() == b.last());
        assert(b.last() != '-') by {
            assert(b[b.len() - 1] == b.last());
        }
        assert(d.push(b.last()) =~= b);
        assert(split_on_dash(t) =~= split_on_dash(x).push(b));
    }
}

/// Any anchor with a part that names the middle band resolves to a grid
/// anchor (it never falls back to dominant-axis resolution).
pub proof fn lemma_center_part_resolves(anchor: Seq<char>, i: int)
    requires
        0 <= i < split_on_dash(anchor).len(),
        is_center_word(split_on_dash(anchor)[i]),
    ensures
        grid_anchor_of(anchor) is Some,
{
}

/// `center`, `centre`, `mid` or `middle`, alone or two of them joined by a
/// hyphen (such as `center-center` or `mid-centre`), is the box centre: the
/// middle band on both axes, left horizontally.
pub proof fn lemma_center_words_name_the_centre(a: Seq<char>, b: Seq<char>)
    requires
        a == seq!['c', 'e', 'n', 't', 'e', 'r'] || a == seq!['c', 'e', 'n', 't', 'r', 'e'] || a
            == seq!['m', 'i', 'd'] || a == seq!['m', 'i', 'd', 'd', 'l', 'e'],
        b == seq!['c', 'e', 'n', 't', 'e', 'r'] || b == seq!['c', 'e', 'n', 't', 'r', 'e'] || b
            == seq!['m', 'i', 'd'] || b == seq!['m', 'i', 'd', 'd', 'l', 'e'],
    ensures
        grid_anchor_of(a) == Some(
            GridAnchor { horizontal: Band::Center, vertical: Band::Center, side: AnchorSide::Horizontal },
        ),
        grid_anchor_of(a + seq!['-'] + b) == Some(
            GridAnchor { horizontal: Band::Center, vertical: Band::Center, side: AnchorSide::Horizontal },
        ),
{
    assert(!a.contains('-')) by {
        if a.contains('-') {
            let j = choose|j: int| 0 <= j < a.len() && a[j] == '-';
        }
    }
    assert(!b.contains('-')) by {
        if b.contains('-') {
            let j = choose|j: int| 0 <= j < b.len() && b[j] == '-';
        }
    }
    lemma_split_without_dash(a);
    lemma_split_append_part(a, b);
    let one = seq![a];
    let two = seq![a, b];
    assert(seq![a].push(b) =~= two);
    assert(is_center_word(a) && is_center_word(b));
    assert(is_center_word(one[0]));
    assert(is_center_word(two[0]));
    // No part is a top/bottom/left/right word: those differ from every
    // spelling of the middle band in length or first letter.
    assert(a != word_top() && a != word_bottom() && a != word_left() && a != word_right()) by {
        assert(a.len() != 3 || a[0] != word_top()[0]);
        assert(a.len() != 6 || a[0] != word_bottom()[0]);
    }
    assert(b != word_top() && b != word_bottom() && b != word_left() && b != word_right()) by {
        assert(b.len() != 3 || b[0] != word_top()[0]);
        assert(b.len() != 6 || b[0] != word_bottom()[0]);
    }
    assert(!one.contains(word_top()) && !one.contains(word_bottom()) && !one.contains(word_left())
        && !one.contains(word_right())) by {
        if one.contains(word_top()) { let j = choose|j: int| 0 <= j < one.len() && one[j] == word_top(); }
        if one.contains(word_bottom()) { let j = choose|j: int| 0 <= j < one.len() && one[j] == word_bottom(); }
        if one.contains(word_left()) { let j = choose|j: int| 0 <= j < one.len() && one[j] == word_left(); }
        if one.contains(word_right()) { let j = choose|j: int| 0 <= j < one.len() && one[j] == word_right(); }
    }
    assert(!two.contains(word_top()) && !two.contains(word_bottom()) && !two.contains(word_left())
        && !two.contains(word_right())) by {
        if two.contains(word_top()) { let j = choose|j: int| 0 <= j < two.len() && two[j] == word_top(); }
        if two.contains(word_bottom()) { let j = choose|j: int| 0 <= j < two.len() && two[j] == word_bottom(); }
        if two.contains(word_left()) { let j = choose|j: int| 0 <= j < two.len() && two[j] == word_left(); }
        if two.contains(word_right()) { let j = choose|j: int| 0 <= j < two.len() && two[j] == word_right(); }
    }
}

proof fn lemma_two_parts(a: Seq<char>, b: Seq<char>)
    requires
        !a.contains('-'),
        !b.contains('-'),
    ensures
        split_on_dash(a + seq!['-'] + b) == seq![a, b],
        seq![a, b].contains(word_top()) == (a == word_top() || b == word_top()),
        seq![a, b].contains(word_bottom()) == (a == word_bottom() || b == word_bottom()),
        seq![a, b].contains(word_left()) == (a == word_left() || b == word_left()),
        seq![a, b].contains(word_right()) == (a == word_right() || b == word_right()),
        names_center(seq![a, b]) == (is_center_word(a) || is_center_word(b)),
{
    lemma_split_without_dash(a);
    lemma_split_append_part(a, b);
    assert(seq![a].push(b) =~= seq![a, b]);
    let two = seq![a, b];
    lemma_push_contains(seq![a], b, word_top());
    lemma_push_contains(seq![a], b, word_bottom());
    lemma_push_contains(seq![a], b, word_left());
    lemma_push_contains(seq![a], b, word_right());
    lemma_push_contains(Seq::<Seq<char>>::empty(), a, word_top());
    lemma_push_contains(Seq::<Seq<char>>::empty(), a, word_bottom());
    lemma_push_contains(Seq::<Seq<char>>::empty(), a, word_left());
    lemma_push_contains(Seq::<Seq<char>>::empty(), a, word_right());
    assert(Seq::<Seq<char>>::empty().push(a) =~= seq![a]);
    if names_center(two) {
        let j = choose|j: int| 0 <= j < two.len() && is_center_word(#[trigger] two[j]);
    }
    if is_center_word(a) {
        assert(is_center_word(two[0]));
    }
    if is_center_word(b) {
        assert(is_center_word(two[1]));
    }
}

/// A vertical word (`top`, `bottom`, or a middle-band word) and a horizontal
/// word (`left`, `right`, or a middle-band word) joined by a hyphen, in either
/// order, name the grid point with that band on each axis; such an anchor
/// leaves vertically exactly when it names a top or bottom edge mid-point
/// (`top-center`, `middle-bottom`, ...), and horizontally otherwise (corners,
/// left/right mid-points and the centre).
pub proof fn lemma_two_word_anchors(a: Seq<char>, b: Seq<char>)
    requires
        a == seq!['t', 'o', 'p'] || a == seq!['b', 'o', 't', 't', 'o', 'm'] || a == seq![
            'c',
            'e',
            'n',
            't',
            'e',
            'r',
        ] || a == seq!['c', 'e', 'n', 't', 'r', 'e'] || a == seq!['m', 'i', 'd'] || a == seq![
            'm',
            'i',
            'd',
            'd',
            'l',
            'e',
        ],
        b == seq!['l', 'e', 'f', 't'] || b == seq!['r', 'i', 'g', 'h', 't'] || b == seq![
            'c',
            'e',
            'n',
            't',
            'e',
            'r',
        ] || b == seq!['c', 'e', 'n', 't', 'r', 'e'] || b == seq!['m', 'i', 'd'] || b == seq![
            'm',
            'i',
            'd',
            'd',
            'l',
            'e',
        ],
    ensures
        ({
            let expected = Some(
                GridAnchor {
                    horizontal: if b == seq!['l', 'e', 'f', 't'] {
                        Band::Start
                    } else if b == seq!['r', 'i', 'g', 'h', 't'] {
                        Band::End
                    } else {
                        Band::Center
                    },
                    vertical: if a == seq!['t', 'o', 'p'] {
                        Band::Start
                    } else if a == seq!['b', 'o', 't', 't', 'o', 'm'] {
                        Band::End
                    } else {
                        Band::Center
                    },
                    side: if (a == seq!['t', 'o', 'p'] || a == seq!['b', 'o', 't', 't', 'o', 'm'])
                        && !(b == seq!['l', 'e', 'f', 't'] || b == seq!['r', 'i', 'g', 'h', 't']) {
                        AnchorSide::Vertical
                    } else {
                        AnchorSide::Horizontal
                    },
                },
            );
            &&& grid_anchor_of(a + seq!['-'] + b) == expected
            &&& grid_anchor_of(b + seq!['-'] + a) == expected
        }),
{
    assert(!a.contains('-')) by {
        if a.contains('-') {
            let j = choose|j: int| 0 <= j < a.len() && a[j] == '-';
        }
    }
    assert(!b.contains('-')) by {
        if b.contains('-') {
            let j = choose|j: int| 0 <= j < b.len() && b[j] == '-';
        }
    }
    lemma_two_parts(a, b);
    lemma_two_parts(b, a);
    // Words of different kinds differ in length or in their first letter.
    assert(a != word_left() && a != word_right());
    assert(b != word_top() && b != word_bottom()) by {
        assert(b.len() != 3 || b[0] != word_top()[0]);
        assert(b.len() != 6 || b[0] != word_bottom()[0]);
    }
    assert(!is_center_word(word_top()) && !is_center_word(word_bottom())) by {
        assert(word_top()[0] != 'm');
        assert(word_bottom()[0] != 'c' && word_bottom()[0] != 'm');
    }
    assert(!is_center_word(word_left()) && !is_center_word(word_right()));
    assert(is_center_word(a) || is_center_word(b) || a == word_top() || a == word_bottom()
        || b == word_left() || b == word_right());
}

proof fn lemma_push_contains(parts: Seq<Seq<char>>, w: Seq<char>, x: Seq<char>)
    ensures
        parts.push(w).contains(x) == (parts.contains(x) || w == x),
{
    let q = parts.push(w);
    if q.contains(x) {
        let j = choose|j: int| 0 <= j < q.len() && q[j] == x;
        if j < parts.len() {
            assert(parts[j] == x);
        }
    }
    if parts.contains(x) {
        let j = choose|j: int| 0 <= j < parts.len() && parts[j] == x;
        assert(q[j] == x);
    }
    if w == x {
        assert(q[parts.len() as int] == x);
    }
}

/// Appending a part `w` adds exactly what `w` names to what the parts name.
proof fn lemma_push_parts(parts: Seq<Seq<char>>, w: Seq<char>)
    ensures
        parts.push(w).contains(word_top()) == (parts.contains(word_top()) || w == word_top()),
        parts.push(w).contains(word_bottom()) == (parts.contains(word_bottom()) || w
            == word_bottom()),
        parts.push(w).contains(word_left()) == (parts.contains(word_left()) || w == word_left()),
        parts.push(w).contains(word_right()) == (parts.contains(word_right()) || w
            == word_right()),
        names_center(parts.push(w)) == (names_center(parts) || is_center_word(w)),
{
    lemma_push_contains(parts, w, word_top());
    lemma_push_contains(parts, w, word_bottom());
    lemma_push_contains(parts, w, word_left());
    lemma_push_contains(parts, w, word_right());
    let q = parts.push(w);
    if names_center(q) {
        let j = choose|j: int| 0 <= j < q.len() && is_center_word(#[trigger] q[j]);
        if j < parts.len() {
            assert(is_center_word(parts[j]));
        }
    }
    if names_center(parts) {
        let j = choose|j: int| 0 <= j < parts.len() && is_center_word(#[trigger] parts[j]);
        assert(is_center_word(q[j]));
    }
    if is_center_word(w) {
        assert(is_center_word(q[parts.len() as int]));
    }
}

/// Whether `v[lo..hi]` holds exactly the characters of `w`.
fn range_eq(v: &Vec<char>, lo: usize, hi: usize, w: &[char]) -> (r: bool)
    requires
        lo <= hi <= v.len(),
    ensures
        r == (v@.subrange(lo as int, hi as int) == w@),
{
    if hi - lo != w.len() {
        return false;
    }
    let mut k: usize = 0;
    while k < w.len()
        invariant
            lo <= hi <= v.len(),
            hi - lo == w.len(),
            k <= w.len(),
            forall|j: int| 0 <= j < k ==> v@[lo + j] == w@[j],
        decreases w.len() - k,
    {
        if v[lo + k] != w[k] {
            assert(v@.subrange(lo as int, hi as int)[k as int] != w@[k as int]);
            return false;
        }
        k = k + 1;
    }
    assert(v@.subrange(lo as int, hi as int) =~= w@);
    true
}

/// What one hyphen-separated part names.
enum Part {
    Top,
    Bottom,
    Left,
    Right,
    Center,
    Other,
}

fn classify_part(v: &Vec<char>, lo: usize, hi: usize) -> (p: Part)
    requires
        lo <= hi <= v.len(),
    ensures
        ({
            let w = v@.subrange(lo as int, hi as int);
            &&& (p is Top <==> w == word_top())
            &&& (p is Bottom <==> w == word_bottom())
            &&& (p is Left <==> w == word_left())
            &&& (p is Right <==> w == word_right())
            &&& (p is Center <==> is_center_word(w))
        }),
{
    let ghost w = v@.subrange(lo as int, hi as int);
    let top = ['t', 'o', 'p'];
    let bottom = ['b', 'o', 't', 't', 'o', 'm'];
    let left = ['l', 'e', 'f', 't'];
    let right = ['r', 'i', 'g', 'h', 't'];
    let center = ['c', 'e', 'n', 't', 'e', 'r'];
    let centre = ['c', 'e', 'n', 't', 'r', 'e'];
    let mid = ['m', 'i', 'd'];
    let middle = ['m', 'i', 'd', 'd', 'l', 'e'];
    proof {
        assert(top@ =~= word_top());
        assert(bottom@ =~= word_bottom());
        assert(left@ =~= word_left());
        assert(right@ =~= word_right());
        assert(center@ =~= seq!['c', 'e', 'n', 't', 'e', 'r']);
        assert(centre@ =~= seq!['c', 'e', 'n', 't', 'r', 'e']);
        assert(mid@ =~= seq!['m', 'i', 'd']);
        assert(middle@ =~= seq!['m', 'i', 'd', 'd', 'l', 'e']);
        // The words are pairwise distinct: distinct lengths or a differing letter.
        assert(word_top() != word_bottom() && word_left() != word_right()) by {
            assert(word_left()[0] != word_right()[0]);
        }
    }
    if range_eq(v, lo, hi, &top) {
        Part::Top
    } else if range_eq(v, lo, hi, &bottom) {
        assert(w =~= word_bottom());
        assert(w[0] != 'c' && w[0] != 'm');
        Part::Bottom
    } else if range_eq(v, lo, hi, &left) {
        assert(w[0] != 'c' && w[0] != 'm');
        Part::Left
    } else if range_eq(v, lo, hi, &right) {
        assert(w[0] != 'c' && w[0] != 'm');
        Part::Right
    } else if range_eq(v, lo, hi, &center) || range_eq(v, lo, hi, &centre) || range_eq(
        v,
        lo,
        hi,
        &mid,
    ) || range_eq(v, lo, hi, &middle) {
        Part::Center
    } else {
        Part::Other
    }
}

/// Resolve a nine-point grid anchor string (e.g. `top-left`, `bottom-center`,
/// `center`) to its bands and leave/enter orientation. Returns `None` when the
/// string names no grid position (e.g. `auto`), so the caller falls back to
/// dominant-axis resolution.
pub fn grid_anchor(anchor: &str) -> (r: Option<GridAnchor>)
    ensures
        r == grid_anchor_of(anchor@),
{
    let v = chars_of(anchor);
    let ghost s = anchor@;
    let mut top = false;
    let mut bottom = false;
    let mut left = false;
    let mut right = false;
    let mut center = false;
    let mut start: usize = 0;
    let mut i: usize = 0;
    let ghost mut done: Seq<Seq<char>> = Seq::empty();
    proof {
        assert(s.subrange(0, 0) =~= Seq::<char>::empty());
        assert(split_on_dash(s.subrange(0, 0)) =~= done.push(s.subrange(0, 0)));
    }
    while i < v.len()
        invariant
            v@ == s,
            start <= i <= v.len(),
            split_on_dash(s.subrange(0, i as int)) == done.push(s.subrange(start as int, i as int)),
            top == done.contains(word_top()),
            bottom == done.contains(word_bottom()),
            left == done.contains(word_left()),
            right == done.contains(word_right()),
            center == names_center(done),
        decreases v.len() - i,
    {
        let ghost prefix = s.subrange(0, i + 1);
        assert(prefix.drop_last() =~= s.subrange(0, i as int));
        if v[i] == '-' {
            let part = classify_part(&v, start, i);
            let ghost w = s.subrange(start as int, i as int);
            let ghost new_done = done.push(w);
            proof {
                lemma_push_parts(done, w);
            }
            match part {
                Part::Top => top = true,
                Part::Bottom => bottom = true,
                Part::Left => left = true,
                Part::Right => right = true,
                Part::Center => center = true,
                Part::Other => {},
            }
            proof {
                done = new_done;
                assert(s.subrange(i + 1, i + 1) =~= Seq::<char>::empty());
            }
            start = i + 1;
        } else {
            proof {
                lemma_split_on_dash_nonempty(s.subrange(0, i as int));
                assert(s.subrange(start as int, i + 1) =~= s.subrange(start as int, i as int).push(
                    v@[i as int],
                ));
                assert(done.push(s.subrange(start as int, i as int)).update(
                    done.len() as int,
                    s.subrange(start as int, i + 1),
                ) =~= done.push(s.subrange(start as int, i + 1)));
            }
        }
        i = i + 1;
    }
    // The final part.
    let part = classify_part(&v, start, i);
    let ghost w = s.subrange(start as int, i as int);
    let ghost parts = done.push(w);
    proof {
        assert(s.subrange(0, i as int) =~= s);
        lemma_push_parts(done, w);
    }
    match part {
        Part::Top => top = true,
        Part::Bottom => bottom = true,
        Part::Left => left = true,
        Part::Right => right = true,
        Part::Center => center = true,
        Part::Other => {},
    }
    if !(top || bottom || left || right || center) {
        return None;
    }
    let horizontal = if left {
        Band::Start
    } else if right {
        Band::End
    } else {
        Band::Center
    };
    let vertical = if top {
        Band::Start
    } else if bottom {
        Band::End
    } else {
        Band::Center
    };
    // Orientation: a pure top/bottom anchor leaves vertically; a pure left/right
    // anchor leaves horizontally; the center and the four corners default to
    // horizontal.
    let side = if (top || bottom) && !(left || right) {
        AnchorSide::Vertical
    } else {
        AnchorSide::Horizontal
    };
    Some(GridAnchor { horizontal, vertical, side })
}

} // verus!
