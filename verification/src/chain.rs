//! Threaded text flow ("text chain"): grouping chained `text` nodes into
//! chains, and the widow/orphan adjustment of the cut between two member boxes.
//!
//! A chain is the set of `text` nodes that share a `chain` id. Its content is
//! the spans of its first node (document order) that has spans; its members are
//! its nodes with a resolvable box, in document order. The content is poured
//! across the members in order; each box keeps the leading lines that fit and
//! the rest flows on. When that greedy cut splits a paragraph, lines are pulled
//! DOWN into the next box so that neither side keeps fewer than `n` lines of
//! the paragraph. Lines are seen here only through the paragraph index each one
//! belongs to.
use vstd::prelude::*;

use crate::text::{insert_sorted_unique, str_eq, strictly_ascending, strings_view};

verus! {

/// A `text` node that declares a `chain` id, as met in document order (page
/// order, then depth-first source order through frames, groups and table
/// cells).
#[derive(Debug, Clone)]
pub struct ChainNode {
    /// The chain id the node declares.
    pub chain: String,
    /// The node carries non-empty spans (it can be the chain's content).
    pub has_spans: bool,
    /// The node's `x`/`y`/`w`/`h` box resolves to pixels (it can be a member).
    pub has_box: bool,
}

/// One chain to distribute: its content source and its member boxes.
#[derive(Debug, Clone)]
pub struct ChainPlan {
    /// The chain id.
    pub chain: String,
    /// Index of the chain's content source: its first node with spans, if any
    /// (a chain without one emits nothing).
    pub source: Option<usize>,
    /// Indices of the chain's member boxes, in flow order.
    pub members: Vec<usize>,
}

/// Indices, in order, of the first `n` nodes that are member boxes of chain
/// `id`.
pub open spec fn members_upto(nodes: Seq<ChainNode>, n: int, id: Seq<char>) -> Seq<usize>
    decreases n,
{
    if n <= 0 {
        Seq::empty()
    } else {
        let m = members_upto(nodes, n - 1, id);
        if nodes[n - 1].has_box && nodes[n - 1].chain@ == id {
            m.push((n - 1) as usize)
        } else {
            m
        }
    }
}

/// Index of the first of the first `n` nodes that carries spans for chain
/// `id`.
pub open spec fn source_upto(nodes: Seq<ChainNode>, n: int, id: Seq<char>) -> Option<usize>
    decreases n,
{
    if n <= 0 {
        None
    } else {
        match source_upto(nodes, n - 1, id) {
            Some(s) => Some(s),
            None => if nodes[n - 1].has_spans && nodes[n - 1].chain@ == id {
                Some((n - 1) as usize)
            } else {
                None
            },
        }
    }
}

/// Some node is a member box of chain `id`.
pub open spec fn has_member(nodes: Seq<ChainNode>, id: Seq<char>) -> bool {
    exists|i: int| 0 <= i < nodes.len() && #[trigger] nodes[i].has_box && nodes[i].chain@ == id
}

/// Group chain nodes into chains: one plan per chain id that has at least one
/// member box, in ascending order of id; its members are its boxed nodes in
/// document order and its source is its first node with spans.
pub fn plan_chains(nodes: &[ChainNode]) -> (plans: Vec<ChainPlan>)
    ensures
        strictly_ascending(plans@.map_values(|p: ChainPlan| p.chain@)),
        forall|i: int|
            0 <= i < nodes.len() && #[trigger] nodes@[i].has_box ==> exists|k: int|
                0 <= k < plans.len() && #[trigger] plans@[k].chain@ == nodes@[i].chain@,
        forall|k: int|
            #![trigger plans@[k]]
            0 <= k < plans.len() ==> {
                &&& has_member(nodes@, plans@[k].chain@)
                &&& plans@[k].members@ == members_upto(nodes@, nodes.len() as int, plans@[k].chain@)
                &&& plans@[k].source == source_upto(nodes@, nodes.len() as int, plans@[k].chain@)
            },
{
    let n = nodes.len();
    // The distinct ids that have a member box, ascending.
    let mut ids: Vec<String> = Vec::new();
    let mut i: usize = 0;
    while i < n
        invariant
            n == nodes@.len(),
            i <= n,
            strictly_ascending(strings_view(ids@)),
            forall|x: Seq<char>|
                #[trigger] strings_view(ids@).contains(x) <==> exists|j: int|
                    0 <= j < i && #[trigger] nodes@[j].has_box && nodes@[j].chain@ == x,
        decreases n - i,
    {
        if nodes[i].has_box {
            let ghost before = strings_view(ids@);
            insert_sorted_unique(&mut ids, nodes[i].chain.clone());
            assert forall|x: Seq<char>|
                #[trigger] strings_view(ids@).contains(x) <==> exists|j: int|
                    0 <= j < i + 1 && #[trigger] nodes@[j].has_box && nodes@[j].chain@ == x by {
                if strings_view(ids@).contains(x) && x != nodes@[i as int].chain@ {
                    assert(before.contains(x));
                }
                if x == nodes@[i as int].chain@ {
                    assert(0 <= i < i + 1 && nodes@[i as int].has_box);
                }
            }
        } else {
            assert forall|x: Seq<char>|
                #[trigger] strings_view(ids@).contains(x) <==> exists|j: int|
                    0 <= j < i + 1 && #[trigger] nodes@[j].has_box && nodes@[j].chain@ == x by {
                if exists|j: int| 0 <= j < i + 1 && #[trigger] nodes@[j].has_box && nodes@[j].chain@ == x {
                    let j = choose|j: int| 0 <= j < i + 1 && #[trigger] nodes@[j].has_box && nodes@[j].chain@ == x;
                    assert(j < i);
                }
            }
        }
        i = i + 1;
    }
    let ghost idv = strings_view(ids@);
    // One plan per id: scan the nodes for its members and source.
    let mut plans: Vec<ChainPlan> = Vec::new();
    let mut k: usize = 0;
    while k < ids.len()
        invariant
            n == nodes@.len(),
            idv == strings_view(ids@),
            strictly_ascending(idv),
            forall|x: Seq<char>| #[trigger] idv.contains(x) <==> has_member(nodes@, x),
            k <= ids.len(),
            plans.len() == k,
            forall|m: int|
                #![trigger plans@[m]]
                0 <= m < k ==> {
                    &&& plans@[m].chain@ == idv[m]
                    &&& plans@[m].members@ == members_upto(nodes@, n as int, idv[m])
                    &&& plans@[m].source == source_upto(nodes@, n as int, idv[m])
                },
        decreases ids.len() - k,
    {
        let id = &ids[k];
        let mut members: Vec<usize> = Vec::new();
        let mut source: Option<usize> = None;
        let mut j: usize = 0;
        while j < n
            invariant
                n == nodes@.len(),
                j <= n,
                members@ == members_upto(nodes@, j as int, id@),
                source == source_upto(nodes@, j as int, id@),
            decreases n - j,
        {
            if str_eq(nodes[j].chain.as_str(), id.as_str()) {
                if nodes[j].has_box {
                    members.push(j);
                }
                if nodes[j].has_spans && source.is_none() {
                    source = Some(j);
                }
            }
            j = j + 1;
        }
        plans.push(ChainPlan { chain: id.clone(), source, members });
        k = k + 1;
    }
    proof {
        let pv = plans@.map_values(|p: ChainPlan| p.chain@);
        assert(pv =~= idv);
        assert forall|i: int|
            0 <= i < nodes.len() && #[trigger] nodes@[i].has_box implies exists|m: int|
                0 <= m < plans.len() && #[trigger] plans@[m].chain@ == nodes@[i].chain@ by {
            assert(has_member(nodes@, nodes@[i].chain@));
            assert(idv.contains(nodes@[i].chain@));
            let m = choose|m: int| 0 <= m < idv.len() && idv[m] == nodes@[i].chain@;
            assert(plans@[m].chain@ == nodes@[i].chain@);
        }
        assert forall|m: int| 0 <= m < plans.len() implies #[trigger] has_member(nodes@, plans@[m].chain@) by {
            assert(idv.contains(idv[m]));
        }
    }
    plans
}

proof fn lemma_source_upto(nodes: Seq<ChainNode>, n: int, id: Seq<char>)
    requires
        0 <= n <= nodes.len(),
        nodes.len() <= usize::MAX,
    ensures
        match source_upto(nodes, n, id) {
            Some(s) => {
                &&& 0 <= s < n
                &&& nodes[s as int].has_spans && nodes[s as int].chain@ == id
                &&& forall|j: int|
                    0 <= j < s ==> !(#[trigger] nodes[j].has_spans && nodes[j].chain@ == id)
            },
            None => forall|j: int| 0 <= j < n ==> !(#[trigger] nodes[j].has_spans && nodes[j].chain@ == id),
        },
    decreases n,
{
    if n > 0 {
        lemma_source_upto(nodes, n - 1, id);
        assert(((n - 1) as usize) as int == n - 1);
    }
}

proof fn lemma_members_upto(nodes: Seq<ChainNode>, n: int, id: Seq<char>)
    requires
        0 <= n <= nodes.len(),
        nodes.len() <= usize::MAX,
    ensures
        forall|a: int, b: int|
            0 <= a < b < members_upto(nodes, n, id).len() ==> #[trigger] members_upto(nodes, n, id)[a]
                < #[trigger] members_upto(nodes, n, id)[b],
        forall|j: int|
            0 <= j < n ==> (#[trigger] nodes[j].has_box && nodes[j].chain@ == id
                <==> members_upto(nodes, n, id).contains(j as usize)),
        forall|a: int|
            0 <= a < members_upto(nodes, n, id).len() ==> #[trigger] members_upto(nodes, n, id)[a] < n,
    decreases n,
{
    if n > 0 {
        lemma_members_upto(nodes, n - 1, id);
        let m = members_upto(nodes, n - 1, id);
        let m2 = members_upto(nodes, n, id);
        assert forall|j: int|
            0 <= j < n implies (#[trigger] nodes[j].has_box && nodes[j].chain@ == id
                <==> m2.contains(j as usize)) by {
            if m2.contains(j as usize) {
                let a = choose|a: int| 0 <= a < m2.len() && m2[a] == j as usize;
                if a < m.len() {
                    assert(m[a] == m2[a]);
                    assert(m.contains(j as usize));
                }
            }
            if j < n - 1 && m.contains(j as usize) {
                let a = choose|a: int| 0 <= a < m.len() && m[a] == j as usize;
                assert(m2[a] == m[a]);
            }
            if j == n - 1 && nodes[j].has_box && nodes[j].chain@ == id {
                assert(m2[m.len() as int] == j as usize);
            }
            if j == n - 1 && m.contains(j as usize) {
                let a = choose|a: int| 0 <= a < m.len() && m[a] == j as usize;
                assert(m[a] < n - 1);
            }
        }
    }
}

/// A chain's plan is what the nodes say of it: its source is the FIRST node
/// of the chain that carries spans, whether or not that node has a box, and is
/// `None` only when no node of the chain carries spans; its members are
/// exactly the chain's nodes with a box, each once, in document order.
pub proof fn lemma_chain_plan_source_and_members(nodes: Seq<ChainNode>, id: Seq<char>)
    requires
        nodes.len() <= usize::MAX,
    ensures
        forall|i: int|
            0 <= i < nodes.len() ==> (source_upto(nodes, nodes.len() as int, id) == Some(i as usize)
                <==> {
                &&& #[trigger] nodes[i].has_spans
                &&& nodes[i].chain@ == id
                &&& forall|j: int| 0 <= j < i ==> !(#[trigger] nodes[j].has_spans && nodes[j].chain@ == id)
            }),
        source_upto(nodes, nodes.len() as int, id) is None <==> forall|j: int|
            0 <= j < nodes.len() ==> !(#[trigger] nodes[j].has_spans && nodes[j].chain@ == id),
        forall|j: int|
            0 <= j < nodes.len() ==> (#[trigger] nodes[j].has_box && nodes[j].chain@ == id
                <==> members_upto(nodes, nodes.len() as int, id).contains(j as usize)),
        forall|a: int, b: int|
            0 <= a < b < members_upto(nodes, nodes.len() as int, id).len() ==> #[trigger] members_upto(
                nodes,
                nodes.len() as int,
                id,
            )[a] < #[trigger] members_upto(nodes, nodes.len() as int, id)[b],
{
    let n = nodes.len() as int;
    lemma_source_upto(nodes, n, id);
    lemma_members_upto(nodes, n, id);
    assert forall|i: int|
        0 <= i < nodes.len() implies (source_upto(nodes, n, id) == Some(i as usize) <==> {
        &&& #[trigger] nodes[i].has_spans
        &&& nodes[i].chain@ == id
        &&& forall|j: int| 0 <= j < i ==> !(#[trigger] nodes[j].has_spans && nodes[j].chain@ == id)
    }) by {
        match source_upto(nodes, n, id) {
            Some(s) => {
                if s < i {
                    assert(nodes[s as int].has_spans && nodes[s as int].chain@ == id);
                } else if (s as int) > i && nodes[i].has_spans && nodes[i].chain@ == id {
                    assert(!(nodes[i].has_spans && nodes[i].chain@ == id));
                }
            },
            None => {},
        }
    }
    if source_upto(nodes, n, id) is Some {
        let s = source_upto(nodes, n, id).unwrap();
        assert(nodes[s as int].has_spans && nodes[s as int].chain@ == id);
    }
}

/// Length of the run of lines of paragraph `v` that ends just before `end`
/// (the lines `end - k .. end` all belong to `v`, the one before does not).
pub open spec fn trailing_run(p: Seq<usize>, end: int, v: usize) -> nat
    decreases end,
{
    if end <= 0 || end > p.len() || p[end - 1] != v {
        0
    } else {
        1 + trailing_run(p, end - 1, v)
    }
}

/// Length of the run of lines of paragraph `v` that starts at `start`.
pub open spec fn leading_run(p: Seq<usize>, start: int, v: usize) -> nat
    decreases p.len() - start,
{
    if start < 0 || start >= p.len() || p[start] != v {
        0
    } else {
        1 + leading_run(p, start + 1, v)
    }
}

/// The cut after `cut` lines splits a paragraph: something is kept, something
/// flows on, and the last kept line and the first flowing line share a
/// paragraph.
pub open spec fn straddles(p: Seq<usize>, cut: int) -> bool {
    0 < cut < p.len() && p[cut - 1] == p[cut]
}

/// The cut after `cut` lines honours a widow/orphan minimum of `n`: it splits
/// no paragraph, or it keeps at least `n` lines of the split paragraph on each
/// side.
pub open spec fn honours_widow_orphan(p: Seq<usize>, cut: int, n: nat) -> bool {
    !straddles(p, cut) || (trailing_run(p, cut, p[cut - 1]) >= n && leading_run(
        p,
        cut,
        p[cut - 1],
    ) >= n)
}

/// The adjusted cut for a greedy cut `take` and minimum `n`.
///
/// With no split paragraph the cut stays. Otherwise, with `top` lines of the
/// split paragraph kept and `bottom` flowing on:
/// - both sides already hold `n` lines: the cut stays;
/// - the next box starts with fewer than `n` lines but pulling the missing
///   `n - bottom` lines down still leaves `n` on top: pull exactly those down;
/// - otherwise the whole top chunk of the paragraph moves down, unless that
///   would empty the box, in which case the cut stays (degenerate case).
pub open spec fn widow_orphan_cut(p: Seq<usize>, take: int, n: nat) -> int {
    if !straddles(p, take) {
        take
    } else {
        let para = p[take - 1];
        let top = trailing_run(p, take, para);
        let bottom = leading_run(p, take, para);
        if bottom >= n && top >= n {
            take
        } else if bottom < n && top >= n + (n - bottom) {
            take - (n - bottom)
        } else if top < take {
            take - top
        } else {
            take
        }
    }
}

proof fn lemma_trailing_run_facts(p: Seq<usize>, end: int, v: usize)
    requires
        0 <= end <= p.len(),
    ensures
        trailing_run(p, end, v) <= end,
        forall|j: int| end - trailing_run(p, end, v) <= j < end ==> p[j] == v,
        trailing_run(p, end, v) < end ==> p[end - trailing_run(p, end, v) - 1] != v,
    decreases end,
{
    if end > 0 && p[end - 1] == v {
        lemma_trailing_run_facts(p, end - 1, v);
    }
}

proof fn lemma_trailing_run_split(p: Seq<usize>, end: int, k: int, v: usize)
    requires
        0 <= k <= end <= p.len(),
        forall|j: int| end - k <= j < end ==> p[j] == v,
    ensures
        trailing_run(p, end, v) == k + trailing_run(p, end - k, v),
    decreases k,
{
    if k > 0 {
        lemma_trailing_run_split(p, end - 1, k - 1, v);
    }
}

proof fn lemma_leading_run_facts(p: Seq<usize>, start: int, v: usize)
    requires
        0 <= start <= p.len(),
    ensures
        leading_run(p, start, v) <= p.len() - start,
        forall|j: int| start <= j < start + leading_run(p, start, v) ==> p[j] == v,
    decreases p.len() - start,
{
    if start < p.len() && p[start] == v {
        lemma_leading_run_facts(p, start + 1, v);
    }
}

proof fn lemma_leading_run_split(p: Seq<usize>, start: int, k: int, v: usize)
    requires
        0 <= start,
        0 <= k,
        start + k <= p.len(),
        forall|j: int| start <= j < start + k ==> p[j] == v,
    ensures
        leading_run(p, start, v) == k + leading_run(p, start + k, v),
    decreases k,
{
    if k > 0 {
        lemma_leading_run_split(p, start + 1, k - 1, v);
    }
}

/// Adjust a greedy height-cut `take` (number of lines kept in THIS box, out of
/// the lines whose paragraph indices are `paragraphs`) to honor a widow/orphan
/// minimum of `n` lines per paragraph across the box boundary. Returns the
/// possibly-reduced `take`; lines are only ever moved DOWN into the next box.
///
/// Degenerate cases: if the adjustment would empty THIS box the cut is left
/// as-is, since an empty box is worse than a widow/orphan.
pub fn adjust_for_widow_orphan(paragraphs: &[usize], take: usize, n: usize) -> (r: usize)
    ensures
        r == widow_orphan_cut(paragraphs@, take as int, n as nat),
{
    let len = paragraphs.len();
    // No straddle when nothing is kept, nothing overflows, or the boundary
    // lines belong to different paragraphs.
    if take == 0 || take >= len {
        return take;
    }
    let para = paragraphs[take - 1];
    if para != paragraphs[take] {
        return take;
    }
    let ghost p = paragraphs@;

    // Trailing lines of `para` kept in this box.
    let mut top_count: usize = 0;
    while top_count < take && paragraphs[take - 1 - top_count] == para
        invariant
            p == paragraphs@,
            0 < take < len == p.len(),
            top_count <= take,
            forall|j: int| take - top_count <= j < take ==> p[j] == para,
            trailing_run(p, take as int, para) == top_count + trailing_run(
                p,
                take - top_count,
                para,
            ),
        decreases take - top_count,
    {
        top_count = top_count + 1;
        proof {
            lemma_trailing_run_split(p, take as int, top_count as int, para);
        }
    }
    assert(trailing_run(p, take as int, para) == top_count);

    // Leading lines of `para` in the next box.
    let mut bottom_count: usize = 0;
    while take + bottom_count < len && paragraphs[take + bottom_count] == para
        invariant
            p == paragraphs@,
            0 < take < len == p.len(),
            take + bottom_count <= len,
            forall|j: int| take <= j < take + bottom_count ==> p[j] == para,
            leading_run(p, take as int, para) == bottom_count + leading_run(
                p,
                take + bottom_count,
                para,
            ),
        decreases len - take - bottom_count,
    {
        bottom_count = bottom_count + 1;
        proof {
            lemma_leading_run_split(p, take as int, bottom_count as int, para);
        }
    }
    assert(leading_run(p, take as int, para) == bottom_count);

    let mut new_take = take;
    if bottom_count < n {
        let need = n - bottom_count;
        new_take = take.saturating_sub(need);
    }
    // If the (possible) move still leaves the top side with < n lines of the
    // paragraph, move the whole top chunk down so the paragraph starts fresh.
    let top_after = top_count.saturating_sub(take - new_take);
    if top_after < n {
        new_take = take.saturating_sub(top_count);
    }
    // Never empty this box; if the rule cannot be honored without doing so,
    // leave the greedy cut unchanged (degenerate case).
    if new_take >= 1 {
        new_take
    } else {
        take
    }
}

/// When the greedy cut after `take` lines splits a paragraph whose lines are
/// `take - top .. take + bottom`, with fewer than `n` of them (`bottom`) in
/// the next box and at least `n + (n - bottom)` of them (`top`) kept, exactly
/// `n - bottom` lines are pulled down: both sides then hold at least `n` lines
/// of the paragraph, and no larger cut up to `take` does.
pub proof fn lemma_widow_orphan_pulls_fewest_lines(
    p: Seq<usize>,
    take: int,
    n: nat,
    top: int,
    bottom: int,
)
    requires
        1 <= top <= take,
        1 <= bottom,
        take + bottom <= p.len(),
        forall|j: int| take - top <= j < take + bottom ==> #[trigger] p[j] == p[take - 1],
        take - top == 0 || p[take - top - 1] != p[take - 1],
        take + bottom == p.len() || p[take + bottom] != p[take - 1],
        bottom < n,
        top >= n + (n - bottom),
    ensures
        widow_orphan_cut(p, take, n) == take - (n - bottom),
        honours_widow_orphan(p, take - (n - bottom), n),
        forall|c: int| take - (n - bottom) < c <= take ==> !honours_widow_orphan(p, c, n),
{
    let para = p[take - 1];
    let r = take - (n - bottom);
    lemma_trailing_run_split(p, take, top, para);
    lemma_leading_run_split(p, take, bottom, para);
    assert(trailing_run(p, take - top, para) == 0);
    assert(leading_run(p, take + bottom, para) == 0);
    assert(straddles(p, take));
    // At any cut `c` inside the paragraph the kept and moved counts are
    // `c - (take - top)` and `take + bottom - c`.
    assert forall|c: int| take - top < c < take + bottom implies {
        &&& straddles(p, c)
        &&& p[c - 1] == para
        &&& trailing_run(p, c, para) == c - (take - top)
        &&& leading_run(p, c, para) == take + bottom - c
    } by {
        assert(p[c - 1] == para && p[c] == para);
        lemma_trailing_run_split(p, c, c - (take - top), para);
        lemma_leading_run_split(p, c, take + bottom - c, para);
    }
    assert(take - top < r < take + bottom);
    assert forall|c: int| r < c <= take implies !honours_widow_orphan(p, c, n) by {
        assert(p[c - 1] == para && p[c] == para);
        lemma_leading_run_split(p, c, take + bottom - c, para);
        assert(leading_run(p, c, para) == take + bottom - c);
    }
}

/// The adjusted cut, case by case. A cut that splits no paragraph stays.
/// When it splits the paragraph whose lines are `take - top .. take + bottom`:
/// with at least `n` lines on each side it stays; with fewer than `n` below
/// and enough above, the missing `n - bottom` lines are pulled down; otherwise
/// the whole kept part of the paragraph moves down, unless it is all the box
/// holds, in which case the cut stays.
pub proof fn lemma_widow_orphan_cut_cases(p: Seq<usize>, take: int, n: nat, top: int, bottom: int)
    requires
        1 <= top <= take,
        1 <= bottom,
        take + bottom <= p.len(),
        forall|j: int| take - top <= j < take + bottom ==> #[trigger] p[j] == p[take - 1],
        take - top == 0 || p[take - top - 1] != p[take - 1],
        take + bottom == p.len() || p[take + bottom] != p[take - 1],
    ensures
        bottom >= n && top >= n ==> widow_orphan_cut(p, take, n) == take,
        bottom < n && top >= n + (n - bottom) ==> widow_orphan_cut(p, take, n) == take - (n
            - bottom),
        !(bottom >= n && top >= n) && !(bottom < n && top >= n + (n - bottom)) && top < take
            ==> widow_orphan_cut(p, take, n) == take - top,
        !(bottom >= n && top >= n) && !(bottom < n && top >= n + (n - bottom)) && top == take
            ==> widow_orphan_cut(p, take, n) == take,
{
    let para = p[take - 1];
    lemma_trailing_run_split(p, take, top, para);
    lemma_leading_run_split(p, take, bottom, para);
    assert(trailing_run(p, take - top, para) == 0);
    assert(leading_run(p, take + bottom, para) == 0);
    assert(p[take] == para);
}

/// A cut that keeps nothing, keeps everything, or falls between two
/// paragraphs is left as it is.
pub proof fn lemma_widow_orphan_cut_between_paragraphs(p: Seq<usize>, take: int, n: nat)
    requires
        take <= 0 || take >= p.len() || p[take - 1] != p[take],
    ensures
        widow_orphan_cut(p, take, n) == take,
{
}

/// The widow/orphan adjustment only moves lines down and never empties a box
/// that kept something; the adjusted cut honours the minimum, except in the
/// degenerate case where the split paragraph fills the whole box (moving it
/// down would leave the box empty), in which case the cut is left unchanged.
pub proof fn lemma_widow_orphan_cut_honoured(p: Seq<usize>, take: int, n: nat)
    requires
        0 <= take <= p.len(),
    ensures
        widow_orphan_cut(p, take, n) <= take,
        take >= 1 ==> widow_orphan_cut(p, take, n) >= 1,
        honours_widow_orphan(p, widow_orphan_cut(p, take, n), n) || (straddles(p, take)
            && trailing_run(p, take, p[take - 1]) == take && widow_orphan_cut(p, take, n)
            == take),
{
    if straddles(p, take) {
        let para = p[take - 1];
        let top = trailing_run(p, take, para);
        let bottom = leading_run(p, take, para);
        lemma_trailing_run_facts(p, take, para);
        lemma_leading_run_facts(p, take, para);
        let r = widow_orphan_cut(p, take, n);
        if bottom >= n && top >= n {
        } else if bottom < n && top >= n + (n - bottom) {
            let need = n - bottom;
            lemma_trailing_run_split(p, take, need, para);
            lemma_leading_run_split(p, r, need, para);
            assert(p[r - 1] == para);
            assert(p[r] == para);
        } else if top < take {
            assert(p[r - 1] != para);
            assert(p[r] == para);
        }
    }
}

} // verus!
