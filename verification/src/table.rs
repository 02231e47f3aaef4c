//! Table cell placement: HTML-table cell flow with `colspan`/`rowspan` over a
//! grid of `max(columns, 1)` columns and one row per authored row.
//!
//! Cells of a row are placed in source order. Each cell starts at the first
//! column, at or after the end of the previous cell of its row, whose slot is
//! not covered by a cell placed before it (a row-spanning cell of an earlier
//! row covers slots of later rows). A cell that finds no free column is
//! skipped together with the rest of its row. Spans are at least 1 and are
//! clamped to the columns/rows left in the grid.
use vstd::prelude::*;

verus! {

/// The authored spans of one table cell.
#[derive(Debug, Clone, Copy, PartialEq, Eq, Structural)]
pub struct CellSpan {
    pub colspan: u32,
    pub rowspan: u32,
}

/// Where one cell landed in the grid.
#[derive(Debug, Clone, Copy, PartialEq, Eq, Structural)]
pub struct CellPlacement {
    /// The row the cell was authored in (its top row).
    pub row: usize,
    /// The cell's position among its row's authored cells.
    pub cell: usize,
    /// Its leftmost column.
    pub col: usize,
    /// Columns it covers (at least 1, clamped to the grid).
    pub colspan: usize,
    /// Rows it covers (at least 1, clamped to the grid).
    pub rowspan: usize,
}

/// The number of grid columns for `columns` declared columns.
pub open spec fn grid_columns(columns: int) -> int {
    if columns < 1 {
        1
    } else {
        columns
    }
}

/// Placement `p` covers the slot `(r, c)`.
pub open spec fn covers(p: CellPlacement, r: int, c: int) -> bool {
    &&& p.row <= r < p.row + p.rowspan
    &&& p.col <= c < p.col + p.colspan
}

/// Some placement of `ps` covers the slot `(r, c)`.
pub open spec fn covered(ps: Seq<CellPlacement>, r: int, c: int) -> bool {
    exists|k: int| 0 <= k < ps.len() && covers(#[trigger] ps[k], r, c)
}

/// The first column at or after `c` whose slot in row `r` is not covered by
/// `ps`, or `cc` when every column from `c` on is covered.
pub open spec fn first_free(ps: Seq<CellPlacement>, r: int, c: int, cc: int) -> int
    decreases cc - c,
{
    if c >= cc || !covered(ps, r, c) {
        c
    } else {
        first_free(ps, r, c + 1, cc)
    }
}

/// An authored span made at least 1 and clamped to the `room` left.
pub open spec fn clamp_span(span: u32, room: int) -> int {
    let s: int = if span < 1 {
        1
    } else {
        span as int
    };
    if s < room {
        s
    } else {
        room
    }
}

/// `ps` followed by the placements of cells `i..` of row `r`, the next free
/// column being searched from `cursor`.
pub open spec fn place_row(
    ps: Seq<CellPlacement>,
    r: int,
    cells: Seq<CellSpan>,
    i: int,
    cursor: int,
    cc: int,
    rc: int,
) -> Seq<CellPlacement>
    decreases cells.len() - i,
{
    if i < 0 || i >= cells.len() {
        ps
    } else {
        let c = first_free(ps, r, cursor, cc);
        if c >= cc {
            ps
        } else {
            let cs = clamp_span(cells[i].colspan, cc - c);
            let rs = clamp_span(cells[i].rowspan, rc - r);
            place_row(
                ps.push(
                    CellPlacement {
                        row: r as usize,
                        cell: i as usize,
                        col: c as usize,
                        colspan: cs as usize,
                        rowspan: rs as usize,
                    },
                ),
                r,
                cells,
                i + 1,
                c + cs,
                cc,
                rc,
            )
        }
    }
}

/// `ps` followed by the placements of rows `r..`.
pub open spec fn place_rows(ps: Seq<CellPlacement>, rows: Seq<Seq<CellSpan>>, r: int, cc: int) -> Seq<CellPlacement>
    decreases rows.len() - r,
{
    if r < 0 || r >= rows.len() {
        ps
    } else {
        place_rows(place_row(ps, r, rows[r], 0, 0, cc, rows.len() as int), rows, r + 1, cc)
    }
}

/// The placements of all cells of `rows` in a table of `columns` declared
/// columns, in placement order.
pub open spec fn table_layout(columns: int, rows: Seq<Seq<CellSpan>>) -> Seq<CellPlacement> {
    place_rows(Seq::empty(), rows, 0, grid_columns(columns))
}

/// The authored spans of `rows`, row by row.
pub open spec fn rows_view(rows: Seq<Vec<CellSpan>>) -> Seq<Seq<CellSpan>> {
    rows.map_values(|row: Vec<CellSpan>| row@)
}

/// Placement `p` lies inside a grid of `cc` columns and `rc` rows and spans at
/// least one column and one row.
pub open spec fn in_grid(p: CellPlacement, cc: int, rc: int) -> bool {
    &&& 1 <= p.colspan
    &&& p.col + p.colspan <= cc
    &&& 1 <= p.rowspan
    &&& p.row + p.rowspan <= rc
}

/// Placement `b` directly follows placement `a`: the next cell of the same
/// row, to the right of `a`'s span, or the first cell of a later row.
pub open spec fn follows(a: CellPlacement, b: CellPlacement) -> bool {
    ||| (b.row == a.row && b.cell == a.cell + 1 && b.col >= a.col + a.colspan)
    ||| (b.row > a.row && b.cell == 0)
}

/// Every placement lies in the grid and starts on a slot no earlier placement
/// covers; placements come row by row, each row's placed cells being a prefix
/// of its authored cells at strictly increasing columns.
pub open spec fn well_placed(ps: Seq<CellPlacement>, cc: int, rc: int) -> bool {
    &&& forall|k: int|
        0 <= k < ps.len() ==> in_grid(#[trigger] ps[k], cc, rc) && !covered(
            ps.take(k),
            ps[k].row as int,
            ps[k].col as int,
        )
    &&& forall|k: int| 0 <= k < ps.len() - 1 ==> follows(#[trigger] ps[k], ps[k + 1])
    &&& ps.len() > 0 ==> ps[0].cell == 0
}

/// The state of the placement of row `r` before its cell `i`, searching from
/// column `cursor`.
spec fn row_state(ps: Seq<CellPlacement>, r: int, i: int, cursor: int) -> bool {
    &&& forall|k: int| 0 <= k < ps.len() ==> #[trigger] ps[k].row <= r
    &&& if i == 0 {
        cursor == 0 && (ps.len() == 0 || ps.last().row < r)
    } else {
        &&& ps.len() > 0
        &&& ps.last().row == r
        &&& ps.last().cell == i - 1
        &&& cursor == ps.last().col + ps.last().colspan
    }
}

proof fn lemma_first_free(ps: Seq<CellPlacement>, r: int, c: int, cc: int)
    ensures
        first_free(ps, r, c, cc) >= c,
        first_free(ps, r, c, cc) < cc ==> !covered(ps, r, first_free(ps, r, c, cc)),
        forall|d: int| c <= d < first_free(ps, r, c, cc) ==> #[trigger] covered(ps, r, d),
    decreases cc - c,
{
    if c < cc && covered(ps, r, c) {
        lemma_first_free(ps, r, c + 1, cc);
    }
}

proof fn lemma_push_placement(
    ps: Seq<CellPlacement>,
    p: CellPlacement,
    r: int,
    i: int,
    cursor: int,
    cc: int,
    rc: int,
)
    requires
        well_placed(ps, cc, rc),
        row_state(ps, r, i, cursor),
        p.row == r,
        p.cell == i,
        cursor <= p.col,
        in_grid(p, cc, rc),
        !covered(ps, r, p.col as int),
    ensures
        well_placed(ps.push(p), cc, rc),
        row_state(ps.push(p), r, i + 1, p.col + p.colspan),
{
    let q = ps.push(p);
    assert(q.take(ps.len() as int) =~= ps);
    assert forall|k: int|
        0 <= k < q.len() implies in_grid(#[trigger] q[k], cc, rc) && !covered(
        q.take(k),
        q[k].row as int,
        q[k].col as int,
    ) by {
        if k < ps.len() {
            assert(q.take(k) =~= ps.take(k));
            assert(q[k] == ps[k]);
        }
    }
    assert forall|k: int| 0 <= k < q.len() - 1 implies follows(#[trigger] q[k], q[k + 1]) by {
        if k < ps.len() - 1 {
            assert(q[k] == ps[k] && q[k + 1] == ps[k + 1]);
        } else {
            assert(q[k] == ps.last());
        }
    }
    assert forall|k: int| 0 <= k < q.len() implies #[trigger] q[k].row <= r by {
        if k < ps.len() {
            assert(q[k] == ps[k]);
        }
    }
}

proof fn lemma_place_row(
    ps: Seq<CellPlacement>,
    r: int,
    cells: Seq<CellSpan>,
    i: int,
    cursor: int,
    cc: int,
    rc: int,
)
    requires
        well_placed(ps, cc, rc),
        row_state(ps, r, i, cursor),
        0 <= r < rc <= usize::MAX,
        1 <= cc <= usize::MAX,
        0 <= i,
        0 <= cursor,
        cells.len() <= usize::MAX,
    ensures
        well_placed(place_row(ps, r, cells, i, cursor, cc, rc), cc, rc),
        forall|k: int|
            0 <= k < place_row(ps, r, cells, i, cursor, cc, rc).len() ==> #[trigger] place_row(
                ps,
                r,
                cells,
                i,
                cursor,
                cc,
                rc,
            )[k].row <= r,
    decreases cells.len() - i,
{
    if i < cells.len() {
        let c = first_free(ps, r, cursor, cc);
        lemma_first_free(ps, r, cursor, cc);
        if c < cc {
            let cs = clamp_span(cells[i].colspan, cc - c);
            let rs = clamp_span(cells[i].rowspan, rc - r);
            let p = CellPlacement {
                row: r as usize,
                cell: i as usize,
                col: c as usize,
                colspan: cs as usize,
                rowspan: rs as usize,
            };
            lemma_push_placement(ps, p, r, i, cursor, cc, rc);
            let q = ps.push(p);
            lemma_place_row(q, r, cells, i + 1, c + cs, cc, rc);
        }
    }
}

proof fn lemma_place_rows(ps: Seq<CellPlacement>, rows: Seq<Seq<CellSpan>>, r: int, cc: int)
    requires
        well_placed(ps, cc, rows.len() as int),
        0 <= r,
        forall|k: int| 0 <= k < ps.len() ==> #[trigger] ps[k].row < r,
        rows.len() <= usize::MAX,
        forall|j: int| 0 <= j < rows.len() ==> #[trigger] rows[j].len() <= usize::MAX,
        1 <= cc <= usize::MAX,
    ensures
        well_placed(place_rows(ps, rows, r, cc), cc, rows.len() as int),
    decreases rows.len() - r,
{
    if r < rows.len() {
        let rc = rows.len() as int;
        assert(row_state(ps, r, 0, 0));
        lemma_place_row(ps, r, rows[r], 0, 0, cc, rc);
        lemma_place_rows(place_row(ps, r, rows[r], 0, 0, cc, rc), rows, r + 1, cc);
    }
}

/// Table cell flow never starts a cell on a slot that an earlier cell's span
/// covers, clamps every span (at least 1) to the grid, and places each row's
/// cells as a prefix of its authored cells, in source order, at strictly
/// increasing columns, rows in order.
pub proof fn lemma_table_layout_well_placed(columns: int, rows: Seq<Seq<CellSpan>>)
    requires
        rows.len() <= usize::MAX,
        columns <= usize::MAX,
        forall|j: int| 0 <= j < rows.len() ==> #[trigger] rows[j].len() <= usize::MAX,
    ensures
        well_placed(table_layout(columns, rows), grid_columns(columns), rows.len() as int),
{
    lemma_place_rows(Seq::empty(), rows, 0, grid_columns(columns));
}

/// The column from which placement `k` of `ps` was searched for: the end of
/// the previous placement when that one is in the same row, else column 0.
pub open spec fn search_start(ps: Seq<CellPlacement>, k: int) -> int {
    if k > 0 && ps[k - 1].row == ps[k].row {
        ps[k - 1].col + ps[k - 1].colspan
    } else {
        0
    }
}

/// Placement `k` is the last placement of its row in `ps`.
pub open spec fn last_in_row(ps: Seq<CellPlacement>, k: int) -> bool {
    k + 1 >= ps.len() || ps[k + 1].row != ps[k].row
}

/// Placement `k` of `ps` is an authored cell of `rows`, with that cell's spans
/// (at least 1, clamped to the grid), and every column it passed over, from
/// where its search started to where it landed, was covered by an earlier
/// placement.
pub open spec fn placed_as_authored(
    ps: Seq<CellPlacement>,
    rows: Seq<Seq<CellSpan>>,
    cc: int,
    k: int,
) -> bool {
    &&& ps[k].row < rows.len()
    &&& ps[k].cell < rows[ps[k].row as int].len()
    &&& ps[k].colspan == clamp_span(rows[ps[k].row as int][ps[k].cell as int].colspan, cc - ps[k].col)
    &&& ps[k].rowspan == clamp_span(
        rows[ps[k].row as int][ps[k].cell as int].rowspan,
        rows.len() - ps[k].row,
    )
    &&& forall|c: int|
        search_start(ps, k) <= c < ps[k].col ==> #[trigger] covered(ps.take(k), ps[k].row as int, c)
}

/// Every slot of row `r` from column `from` to the last column is covered by
/// a placement of `ps`.
pub open spec fn row_full_from(ps: Seq<CellPlacement>, r: int, from: int, cc: int) -> bool {
    forall|c: int| from <= c < cc ==> #[trigger] covered(ps, r, c)
}

/// What is known of the placements `ps` once rows `0..r` are done.
spec fn flow_state(ps: Seq<CellPlacement>, rows: Seq<Seq<CellSpan>>, cc: int, r: int) -> bool {
    &&& forall|k: int| 0 <= k < ps.len() ==> #[trigger] placed_as_authored(ps, rows, cc, k)
    &&& forall|k: int|
        0 <= k < ps.len() && #[trigger] last_in_row(ps, k) && ps[k].cell + 1 < rows[ps[k].row as int].len()
            ==> row_full_from(ps, ps[k].row as int, ps[k].col + ps[k].colspan, cc)
    &&& forall|rr: int|
        0 <= rr < r && rr < rows.len() && rows[rr].len() > 0 && (forall|k: int|
            0 <= k < ps.len() ==> ps[k].row != rr) ==> #[trigger] row_full_from(ps, rr, 0, cc)
}

proof fn lemma_covered_extends(a: Seq<CellPlacement>, b: Seq<CellPlacement>, r: int, c: int)
    requires
        a.len() <= b.len(),
        forall|k: int| 0 <= k < a.len() ==> b[k] == a[k],
        covered(a, r, c),
    ensures
        covered(b, r, c),
{
    let k = choose|k: int| 0 <= k < a.len() && covers(#[trigger] a[k], r, c);
    assert(covers(b[k], r, c));
}

proof fn lemma_row_full_extends(a: Seq<CellPlacement>, b: Seq<CellPlacement>, r: int, from: int, cc: int)
    requires
        a.len() <= b.len(),
        forall|k: int| 0 <= k < a.len() ==> b[k] == a[k],
        row_full_from(a, r, from, cc),
    ensures
        row_full_from(b, r, from, cc),
{
    assert forall|c: int| from <= c < cc implies #[trigger] covered(b, r, c) by {
        assert(covered(a, r, c));
        lemma_covered_extends(a, b, r, c);
    }
}

proof fn lemma_place_row_flow(
    ps: Seq<CellPlacement>,
    r: int,
    cells: Seq<CellSpan>,
    i: int,
    cursor: int,
    cc: int,
    rc: int,
)
    requires
        well_placed(ps, cc, rc),
        row_state(ps, r, i, cursor),
        0 <= r < rc <= usize::MAX,
        1 <= cc <= usize::MAX,
        0 <= i,
        0 <= cursor,
        cells.len() <= usize::MAX,
    ensures
        ({
            let q = place_row(ps, r, cells, i, cursor, cc, rc);
            &&& ps.len() <= q.len()
            &&& forall|k: int| 0 <= k < ps.len() ==> q[k] == ps[k]
            &&& forall|k: int|
                ps.len() <= k < q.len() ==> {
                    &&& (#[trigger] q[k]).row == r
                    &&& q[k].cell == i + (k - ps.len())
                    &&& q[k].cell < cells.len()
                    &&& q[k].colspan == clamp_span(cells[q[k].cell as int].colspan, cc - q[k].col)
                    &&& q[k].rowspan == clamp_span(cells[q[k].cell as int].rowspan, rc - r)
                    &&& forall|c: int|
                        search_start(q, k) <= c < q[k].col ==> #[trigger] covered(q.take(k), r, c)
                }
            &&& i + (q.len() - ps.len()) < cells.len() ==> row_full_from(
                q,
                r,
                if q.len() == ps.len() {
                    cursor
                } else {
                    q.last().col + q.last().colspan
                },
                cc,
            )
        }),
    decreases cells.len() - i,
{
    let q = place_row(ps, r, cells, i, cursor, cc, rc);
    if i < cells.len() {
        let c = first_free(ps, r, cursor, cc);
        lemma_first_free(ps, r, cursor, cc);
        if c < cc {
            let cs = clamp_span(cells[i].colspan, cc - c);
            let rs = clamp_span(cells[i].rowspan, rc - r);
            let p = CellPlacement {
                row: r as usize,
                cell: i as usize,
                col: c as usize,
                colspan: cs as usize,
                rowspan: rs as usize,
            };
            lemma_push_placement(ps, p, r, i, cursor, cc, rc);
            let ps2 = ps.push(p);
            lemma_place_row_flow(ps2, r, cells, i + 1, c + cs, cc, rc);
            assert(q == place_row(ps2, r, cells, i + 1, c + cs, cc, rc));
            let k0 = ps.len() as int;
            assert(q[k0] == p);
            assert(search_start(q, k0) == cursor);
            assert(q.take(k0) =~= ps);
            assert forall|d: int| search_start(q, k0) <= d < q[k0].col implies #[trigger] covered(
                q.take(k0),
                r,
                d,
            ) by {
                assert(covered(ps, r, d));
            }
            if q.len() == ps2.len() {
                assert(q.last() == p);
            }
        } else {
            assert forall|d: int| cursor <= d < cc implies #[trigger] covered(q, r, d) by {
                assert(covered(ps, r, d));
            }
        }
    }
}

proof fn lemma_place_rows_flow(ps: Seq<CellPlacement>, rows: Seq<Seq<CellSpan>>, r: int, cc: int)
    requires
        well_placed(ps, cc, rows.len() as int),
        flow_state(ps, rows, cc, r),
        0 <= r,
        forall|k: int| 0 <= k < ps.len() ==> #[trigger] ps[k].row < r,
        rows.len() <= usize::MAX,
        forall|j: int| 0 <= j < rows.len() ==> #[trigger] rows[j].len() <= usize::MAX,
        1 <= cc <= usize::MAX,
    ensures
        flow_state(place_rows(ps, rows, r, cc), rows, cc, rows.len() as int),
    decreases rows.len() - r,
{
    if r < rows.len() {
        let rc = rows.len() as int;
        assert(row_state(ps, r, 0, 0));
        lemma_place_row(ps, r, rows[r], 0, 0, cc, rc);
        lemma_place_row_flow(ps, r, rows[r], 0, 0, cc, rc);
        let q = place_row(ps, r, rows[r], 0, 0, cc, rc);
        assert forall|k: int| 0 <= k < q.len() implies #[trigger] q[k].row < r + 1 by {}
        assert forall|k: int| 0 <= k < q.len() implies #[trigger] placed_as_authored(q, rows, cc, k) by {
            if k < ps.len() {
                assert(placed_as_authored(ps, rows, cc, k));
                assert(q[k] == ps[k]);
                if k > 0 {
                    assert(q[k - 1] == ps[k - 1]);
                }
                assert(search_start(q, k) == search_start(ps, k));
                assert(q.take(k) =~= ps.take(k));
            } else {
                if k > 0 && k - 1 < ps.len() {
                    assert(q[k - 1] == ps[k - 1]);
                }
            }
        }
        assert forall|k: int|
            0 <= k < q.len() && #[trigger] last_in_row(q, k) && q[k].cell + 1 < rows[q[k].row as int].len()
                implies row_full_from(q, q[k].row as int, q[k].col + q[k].colspan, cc) by {
            if k < ps.len() {
                assert(q[k] == ps[k]);
                if k + 1 < ps.len() {
                    assert(q[k + 1] == ps[k + 1]);
                }
                assert(last_in_row(ps, k));
                lemma_row_full_extends(ps, q, ps[k].row as int, ps[k].col + ps[k].colspan, cc);
            } else {
                if k + 1 < q.len() {
                    assert(q[k + 1].row == r);
                }
                assert(k == q.len() - 1);
                assert(q.last() == q[k]);
            }
        }
        assert forall|rr: int|
            0 <= rr < r + 1 && rr < rows.len() && rows[rr].len() > 0 && (forall|k: int|
                0 <= k < q.len() ==> q[k].row != rr) implies #[trigger] row_full_from(q, rr, 0, cc) by {
            if rr < r {
                assert forall|k: int| 0 <= k < ps.len() implies ps[k].row != rr by {
                    assert(q[k] == ps[k]);
                }
                assert(row_full_from(ps, rr, 0, cc));
                lemma_row_full_extends(ps, q, rr, 0, cc);
            } else {
                if q.len() > ps.len() {
                    let k = ps.len() as int;
                    assert(q[k].row == r);
                }
            }
        }
        lemma_place_rows_flow(q, rows, r + 1, cc);
    }
}

/// Table cell flow places every authored cell it can: each placement is an
/// authored cell of its row with that cell's spans (at least 1, clamped to the
/// grid) and starts at the FIRST column, from the end of the row's previous
/// placement (or column 0), that no earlier placement covers; a row stops
/// early only when every slot from the end of its last placement to the last
/// column is covered, and a row with cells but no placement is covered
/// across the whole grid.
pub proof fn lemma_table_layout_places_every_cell_it_can(columns: int, rows: Seq<Seq<CellSpan>>)
    requires
        rows.len() <= usize::MAX,
        columns <= usize::MAX,
        forall|j: int| 0 <= j < rows.len() ==> #[trigger] rows[j].len() <= usize::MAX,
    ensures
        ({
            let ps = table_layout(columns, rows);
            let cc = grid_columns(columns);
            &&& forall|k: int| 0 <= k < ps.len() ==> #[trigger] placed_as_authored(ps, rows, cc, k)
            &&& forall|k: int|
                0 <= k < ps.len() && #[trigger] last_in_row(ps, k) && ps[k].cell + 1 < rows[ps[k].row as int].len()
                    ==> row_full_from(ps, ps[k].row as int, ps[k].col + ps[k].colspan, cc)
            &&& forall|r: int|
                0 <= r < rows.len() && rows[r].len() > 0 && (forall|k: int|
                    0 <= k < ps.len() ==> ps[k].row != r) ==> #[trigger] row_full_from(ps, r, 0, cc)
        }),
{
    let cc = grid_columns(columns);
    let e = Seq::<CellPlacement>::empty();
    assert(flow_state(e, rows, cc, 0));
    lemma_place_rows_flow(e, rows, 0, cc);
    let ps = table_layout(columns, rows);
    assert(flow_state(ps, rows, cc, rows.len() as int));
}

/// Whether some cell placed so far covers the slot `(r, c)`.
fn is_covered(ps: &Vec<CellPlacement>, r: usize, c: usize) -> (b: bool)
    ensures
        b == covered(ps@, r as int, c as int),
{
    let mut k: usize = 0;
    while k < ps.len()
        invariant
            k <= ps.len(),
            forall|j: int| 0 <= j < k ==> !covers(#[trigger] ps@[j], r as int, c as int),
        decreases ps.len() - k,
    {
        let p = ps[k];
        if p.row <= r && r - p.row < p.rowspan && p.col <= c && c - p.col < p.colspan {
            assert(covers(ps@[k as int], r as int, c as int));
            return true;
        }
        k = k + 1;
    }
    false
}

fn clamp_span_exec(span: u32, room: usize) -> (s: usize)
    requires
        room >= 1,
    ensures
        s == clamp_span(span, room as int),
        1 <= s <= room,
{
    let s: usize = if span < 1 {
        1
    } else {
        span as usize
    };
    if s < room {
        s
    } else {
        room
    }
}

/// Place the cells of a table with `column_count` declared columns and the
/// given rows of authored cell spans (HTML-table cell flow).
pub fn place_table_cells(column_count: usize, rows: &[Vec<CellSpan>]) -> (ps: Vec<CellPlacement>)
    ensures
        ps@ == table_layout(column_count as int, rows_view(rows@)),
{
    let cc: usize = if column_count < 1 {
        1
    } else {
        column_count
    };
    let rc = rows.len();
    let ghost rv = rows_view(rows@);
    let mut ps: Vec<CellPlacement> = Vec::new();
    let mut r: usize = 0;
    while r < rc
        invariant
            cc == grid_columns(column_count as int),
            cc >= 1,
            rc == rows@.len() == rv.len(),
            rv == rows_view(rows@),
            r <= rc,
            place_rows(ps@, rv, r as int, cc as int) == table_layout(column_count as int, rv),
        decreases rc - r,
    {
        let row = &rows[r];
        let ghost cells = rv[r as int];
        assert(cells == row@);
        let mut cursor: usize = 0;
        let mut i: usize = 0;
        let mut stop = false;
        while i < row.len() && !stop
            invariant
                cc >= 1,
                r < rc,
                cells == row@,
                i <= row.len(),
                cursor <= cc,
                stop ==> place_row(ps@, r as int, cells, i as int, cursor as int, cc as int, rc as int)
                    == ps@,
                place_rows(
                    place_row(ps@, r as int, cells, i as int, cursor as int, cc as int, rc as int),
                    rv,
                    r + 1,
                    cc as int,
                ) == table_layout(column_count as int, rv),
            decreases row.len() - i + (if stop { 0int } else { 1int }),
        {
            // Skip slots already covered by a previous cell's span.
            let ghost start = cursor;
            while cursor < cc && is_covered(&ps, r, cursor)
                invariant
                    cursor <= cc,
                    start <= cursor,
                    first_free(ps@, r as int, start as int, cc as int) == first_free(
                        ps@,
                        r as int,
                        cursor as int,
                        cc as int,
                    ),
                decreases cc - cursor,
            {
                cursor = cursor + 1;
            }
            assert(first_free(ps@, r as int, start as int, cc as int) == cursor);
            if cursor >= cc {
                // No free column: the rest of this row is skipped.
                stop = true;
            } else {
                let span = row[i];
                let cs = clamp_span_exec(span.colspan, cc - cursor);
                let rs = clamp_span_exec(span.rowspan, rc - r);
                ps.push(CellPlacement { row: r, cell: i, col: cursor, colspan: cs, rowspan: rs });
                cursor = cursor + cs;
                i = i + 1;
            }
        }
        proof {
            if !stop {
                assert(place_row(ps@, r as int, cells, i as int, cursor as int, cc as int, rc as int)
                    == ps@);
            }
        }
        r = r + 1;
    }
    proof {
        assert(place_rows(ps@, rv, r as int, cc as int) == ps@);
    }
    ps
}

} // verus!
