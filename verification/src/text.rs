//! Character-level helpers shared by the string-reading decisions.
use vstd::prelude::*;

verus! {

/// The characters of `s`, in order.
pub(crate) fn chars_of(s: &str) -> (v: Vec<char>)
    ensures
        v@ == s@,
{
    let mut v: Vec<char> = Vec::new();
    for c in it: s.chars()
        invariant
            v@ == it.seq().take(it.index() as int),
            it.seq() == s@,
    {
        v.push(c);
    }
    v
}

/// Whether `a` and `b` hold the same characters.
pub(crate) fn str_eq(a: &str, b: &str) -> (r: bool)
    ensures
        r == (a@ == b@),
{
    let x = chars_of(a);
    let y = chars_of(b);
    if x.len() != y.len() {
        return false;
    }
    let mut i: usize = 0;
    while i < x.len()
        invariant
            x@ == a@,
            y@ == b@,
            x.len() == y.len(),
            i <= x.len(),
            forall|j: int| 0 <= j < i ==> x@[j] == y@[j],
        decreases x.len() - i,
    {
        if x[i] != y[i] {
            return false;
        }
        i = i + 1;
    }
    assert(x@ =~= y@);
    true
}

/// `a` sorts before `b` in the lexicographic order of code points, looking
/// from index `i` on (which is the order `str` compares in, since UTF-8
/// preserves the order of code points).
pub open spec fn chars_lt_from(a: Seq<char>, b: Seq<char>, i: int) -> bool
    decreases a.len() - i,
{
    if i >= a.len() {
        i < b.len()
    } else if i >= b.len() {
        false
    } else if a[i] != b[i] {
        (a[i] as u32) < (b[i] as u32)
    } else {
        chars_lt_from(a, b, i + 1)
    }
}

/// `a` sorts strictly before `b` in the lexicographic order of code points.
pub open spec fn chars_lt(a: Seq<char>, b: Seq<char>) -> bool {
    chars_lt_from(a, b, 0)
}

proof fn lemma_chars_lt_from_irreflexive(a: Seq<char>, i: int)
    requires
        0 <= i,
    ensures
        !chars_lt_from(a, a, i),
    decreases a.len() - i,
{
    if i < a.len() {
        lemma_chars_lt_from_irreflexive(a, i + 1);
    }
}

proof fn lemma_chars_lt_from_transitive(a: Seq<char>, b: Seq<char>, c: Seq<char>, i: int)
    requires
        0 <= i,
        chars_lt_from(a, b, i),
        chars_lt_from(b, c, i),
    ensures
        chars_lt_from(a, c, i),
    decreases a.len() - i,
{
    if i < a.len() && i < b.len() && i < c.len() && a[i] == b[i] && b[i] == c[i] {
        lemma_chars_lt_from_transitive(a, b, c, i + 1);
    }
}

proof fn lemma_chars_lt_from_total(a: Seq<char>, b: Seq<char>, i: int)
    requires
        0 <= i <= a.len(),
        i <= b.len(),
        a.subrange(0, i) == b.subrange(0, i),
        a != b,
    ensures
        chars_lt_from(a, b, i) || chars_lt_from(b, a, i),
    decreases a.len() - i,
{
    if i < a.len() && i < b.len() && a[i] == b[i] {
        assert(a.subrange(0, i + 1) =~= a.subrange(0, i).push(a[i]));
        assert(b.subrange(0, i + 1) =~= b.subrange(0, i).push(b[i]));
        lemma_chars_lt_from_total(a, b, i + 1);
    } else if i < a.len() && i < b.len() {
        vstd::utf8::char_u32_cast(a[i], a[i] as u32);
        vstd::utf8::char_u32_cast(b[i], b[i] as u32);
    } else if i == a.len() && i == b.len() {
        assert(a =~= a.subrange(0, i));
        assert(b =~= b.subrange(0, i));
    }
}

/// The code-point order is a strict total order.
pub proof fn lemma_chars_lt_strict_total_order(a: Seq<char>, b: Seq<char>, c: Seq<char>)
    ensures
        !chars_lt(a, a),
        chars_lt(a, b) && chars_lt(b, c) ==> chars_lt(a, c),
        a != b ==> chars_lt(a, b) || chars_lt(b, a),
{
    lemma_chars_lt_from_irreflexive(a, 0);
    if chars_lt(a, b) && chars_lt(b, c) {
        lemma_chars_lt_from_transitive(a, b, c, 0);
    }
    if a != b {
        assert(a.subrange(0, 0) =~= b.subrange(0, 0));
        lemma_chars_lt_from_total(a, b, 0);
    }
}

/// Whether `a` sorts strictly before `b` in the code-point order.
pub(crate) fn str_lt(a: &str, b: &str) -> (r: bool)
    ensures
        r == chars_lt(a@, b@),
{
    let x = chars_of(a);
    let y = chars_of(b);
    let mut i: usize = 0;
    while i < x.len() && i < y.len() && x[i] == y[i]
        invariant
            x@ == a@,
            y@ == b@,
            i <= x.len(),
            i <= y.len(),
            chars_lt(a@, b@) == chars_lt_from(a@, b@, i as int),
        decreases x.len() - i,
    {
        i = i + 1;
    }
    if i == x.len() {
        i < y.len()
    } else if i == y.len() {
        false
    } else {
        (x[i] as u32) < (y[i] as u32)
    }
}

/// The characters of each string of `v`.
pub open spec fn strings_view(v: Seq<String>) -> Seq<Seq<char>> {
    v.map_values(|s: String| s@)
}

/// The strings of `v` ascend strictly in code-point order.
pub open spec fn strictly_ascending(v: Seq<Seq<char>>) -> bool {
    forall|i: int, j: int| 0 <= i < j < v.len() ==> chars_lt(#[trigger] v[i], #[trigger] v[j])
}

/// Insert `id` into the strictly ascending list `ids` unless it is already
/// there.
pub(crate) fn insert_sorted_unique(ids: &mut Vec<String>, id: String)
    requires
        strictly_ascending(strings_view(old(ids)@)),
    ensures
        strictly_ascending(strings_view(final(ids)@)),
        forall|x: Seq<char>|
            #[trigger] strings_view(final(ids)@).contains(x) <==> (strings_view(
                old(ids)@,
            ).contains(x) || x == id@),
{
    let ghost e = strings_view(ids@);
    let mut pos: usize = 0;
    while pos < ids.len() && str_lt(ids[pos].as_str(), id.as_str())
        invariant
            e == strings_view(ids@),
            pos <= ids.len(),
            forall|j: int| 0 <= j < pos ==> chars_lt(#[trigger] e[j], id@),
        decreases ids.len() - pos,
    {
        pos = pos + 1;
    }
    if pos < ids.len() && str_eq(ids[pos].as_str(), id.as_str()) {
        assert(e.contains(id@)) by {
            assert(e[pos as int] == id@);
        }
        return;
    }
    let ghost k = id@;
    ids.insert(pos, id);
    let ghost e2 = strings_view(ids@);
    assert(e2 =~= e.insert(pos as int, k));
    proof {
        if pos < e.len() {
            lemma_chars_lt_strict_total_order(e[pos as int], k, k);
            assert(chars_lt(k, e[pos as int]));
        }
        assert forall|i: int, j: int| 0 <= i < j < e2.len() implies chars_lt(
            #[trigger] e2[i],
            #[trigger] e2[j],
        ) by {
            if i == pos {
                lemma_chars_lt_strict_total_order(k, e[pos as int], e[j - 1]);
            } else if j == pos {
            } else if i > pos {
                assert(chars_lt(e[i - 1], e[j - 1]));
            } else if j > pos {
                assert(chars_lt(e[i], e[j - 1]));
            }
        }
        assert forall|x: Seq<char>| #[trigger] e2.contains(x) <==> (e.contains(x) || x == k) by {
            if e2.contains(x) {
                let i = choose|i: int| 0 <= i < e2.len() && e2[i] == x;
                if i < pos {
                    assert(e[i] == x);
                } else if i > pos {
                    assert(e[i - 1] == x);
                }
            }
            if e.contains(x) {
                let i = choose|i: int| 0 <= i < e.len() && e[i] == x;
                if i < pos {
                    assert(e2[i] == x);
                } else {
                    assert(e2[i + 1] == x);
                }
            }
            if x == k {
                assert(e2[pos as int] == x);
            }
        }
    }
}

} // verus!
