use zenith_scene::table::{CellPlacement, CellSpan, place_table_cells};

fn span(colspan: u32, rowspan: u32) -> CellSpan {
    CellSpan { colspan, rowspan }
}

fn at(row: usize, cell: usize, col: usize, colspan: usize, rowspan: usize) -> CellPlacement {
    CellPlacement { row, cell, col, colspan, rowspan }
}

#[test]
fn plain_grid_fills_left_to_right() {
    let rows = vec![vec![span(1, 1), span(1, 1)], vec![span(1, 1), span(1, 1)]];
    assert_eq!(
        place_table_cells(2, &rows),
        vec![at(0, 0, 0, 1, 1), at(0, 1, 1, 1, 1), at(1, 0, 0, 1, 1), at(1, 1, 1, 1, 1)]
    );
}

#[test]
fn rowspan_covers_slots_of_later_rows() {
    // Row 0: A spans two rows in column 0; row 1's first cell flows to column 1.
    let rows = vec![vec![span(1, 2), span(1, 1), span(1, 1)], vec![span(1, 1), span(1, 1)]];
    assert_eq!(
        place_table_cells(3, &rows),
        vec![
            at(0, 0, 0, 1, 2),
            at(0, 1, 1, 1, 1),
            at(0, 2, 2, 1, 1),
            at(1, 0, 1, 1, 1),
            at(1, 1, 2, 1, 1),
        ]
    );
}

#[test]
fn spans_are_clamped_and_zero_spans_count_as_one() {
    let rows = vec![vec![span(0, 0), span(9, 9)]];
    assert_eq!(place_table_cells(3, &rows), vec![at(0, 0, 0, 1, 1), at(0, 1, 1, 2, 1)]);
}

#[test]
fn overflowing_cells_end_the_row() {
    let rows = vec![vec![span(2, 1), span(1, 1), span(1, 1)], vec![span(1, 1)]];
    assert_eq!(
        place_table_cells(2, &rows),
        vec![at(0, 0, 0, 2, 1), at(1, 0, 0, 1, 1)]
    );
}

#[test]
fn no_declared_columns_means_one_column() {
    let rows = vec![vec![span(1, 1), span(1, 1)], vec![span(1, 1)]];
    assert_eq!(place_table_cells(0, &rows), vec![at(0, 0, 0, 1, 1), at(1, 0, 0, 1, 1)]);
}

#[test]
fn no_rows_places_nothing() {
    assert!(place_table_cells(4, &[]).is_empty());
}

#[test]
fn fully_covered_row_places_nothing() {
    // A spans both columns and both rows; row 1 has no free slot.
    let rows = vec![vec![span(2, 2)], vec![span(1, 1)]];
    assert_eq!(place_table_cells(2, &rows), vec![at(0, 0, 0, 2, 2)]);
}

#[test]
fn cells_never_start_on_a_covered_slot() {
    let rows = vec![
        vec![span(1, 3), span(2, 1), span(1, 2)],
        vec![span(1, 1), span(1, 1), span(3, 1)],
        vec![span(2, 1), span(1, 1)],
    ];
    let ps = place_table_cells(4, &rows);
    for (k, p) in ps.iter().enumerate() {
        assert!(p.col + p.colspan <= 4 && p.row + p.rowspan <= 3);
        for q in &ps[..k] {
            let covers = q.row <= p.row
                && p.row < q.row + q.rowspan
                && q.col <= p.col
                && p.col < q.col + q.colspan;
            assert!(!covers, "{p:?} starts inside {q:?}");
        }
    }
}
