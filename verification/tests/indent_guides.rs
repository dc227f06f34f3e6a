use list_overlays::indent_guides::{compute_indent_guides, IndentGuideLayout};
use std::collections::HashSet;

fn guide(column: usize, start_row: usize, length: usize) -> IndentGuideLayout {
    IndentGuideLayout { column, start_row, length }
}

fn assert_compute_indent_guides(input: &[usize], offset: usize, expected: Vec<IndentGuideLayout>) {
    assert_eq!(
        compute_indent_guides(input, offset)
            .into_vec()
            .into_iter()
            .collect::<HashSet<_>>(),
        expected.into_iter().collect::<HashSet<_>>(),
    );
}

fn sorted(mut guides: Vec<IndentGuideLayout>) -> Vec<IndentGuideLayout> {
    guides.sort_by_key(|g| (g.column, g.start_row));
    guides
}

/// The cells that the guides pass through, each counted as often as it is
/// passed.
fn cells_of(guides: &[IndentGuideLayout]) -> Vec<(usize, usize)> {
    let mut cells = Vec::new();
    for g in guides {
        for row in g.start_row..g.start_row + g.length {
            cells.push((g.column, row));
        }
    }
    cells.sort();
    cells
}

/// The cells of the columns that a row is deeper than.
fn indented_cells(depths: &[usize], offset: usize) -> Vec<(usize, usize)> {
    let mut cells = Vec::new();
    for (row, &depth) in depths.iter().enumerate() {
        for column in 0..depth {
            cells.push((column, row + offset));
        }
    }
    cells.sort();
    cells
}

#[test]
fn test_compute_indent_guides() {
    assert_compute_indent_guides(
        &vec![0, 1, 2, 2, 1, 0],
        0,
        vec![
            IndentGuideLayout { column: 0, start_row: 1, length: 4 },
            IndentGuideLayout { column: 1, start_row: 2, length: 2 },
        ],
    );

    assert_compute_indent_guides(
        &vec![2, 2, 2, 1, 1],
        0,
        vec![
            IndentGuideLayout { column: 0, start_row: 0, length: 5 },
            IndentGuideLayout { column: 1, start_row: 0, length: 3 },
        ],
    );

    assert_compute_indent_guides(
        &vec![1, 2, 3, 2, 1],
        0,
        vec![
            IndentGuideLayout { column: 0, start_row: 0, length: 5 },
            IndentGuideLayout { column: 1, start_row: 1, length: 3 },
            IndentGuideLayout { column: 2, start_row: 2, length: 1 },
        ],
    );
}

#[test]
fn nested_block_closed_inside_the_window() {
    let guides = compute_indent_guides(&[0, 1, 2, 2, 1, 0], 0).into_vec();
    assert_eq!(guides.len(), 2);
    assert_eq!(sorted(guides), vec![guide(0, 1, 4), guide(1, 2, 2)]);
}

#[test]
fn blocks_open_at_the_first_row() {
    let guides = compute_indent_guides(&[2, 2, 2, 1, 1], 0).into_vec();
    assert_eq!(sorted(guides), vec![guide(0, 0, 5), guide(1, 0, 3)]);
}

#[test]
fn staircase_up_and_down() {
    let guides = compute_indent_guides(&[1, 2, 3, 2, 1], 0).into_vec();
    assert_eq!(sorted(guides), vec![guide(0, 0, 5), guide(1, 1, 3), guide(2, 2, 1)]);
}

#[test]
fn flat_window_has_no_guides() {
    assert!(compute_indent_guides(&[0, 0, 0, 0], 0).into_vec().is_empty());
    assert!(compute_indent_guides(&[0], 7).into_vec().is_empty());
}

#[test]
fn flat_window_is_taken_at_any_offset() {
    assert!(compute_indent_guides(&[0, 0, 0], usize::MAX).into_vec().is_empty());
    assert!(compute_indent_guides(&[0; 100], usize::MAX - 3).into_vec().is_empty());
    // Rows that are not indented may lie beyond the last row there is.
    let guides = compute_indent_guides(&[1, 2, 0, 0, 0], usize::MAX - 1).into_vec();
    assert_eq!(guides, vec![guide(1, usize::MAX, 1), guide(0, usize::MAX - 1, 2)]);
}

#[test]
fn empty_window_has_no_guides() {
    assert!(compute_indent_guides(&[], 0).into_vec().is_empty());
    assert!(compute_indent_guides(&[], 5).into_vec().is_empty());
}

#[test]
fn rows_are_absolute() {
    let guides = compute_indent_guides(&[1, 1], 10).into_vec();
    assert_eq!(guides, vec![guide(0, 10, 2)]);
    let guides = compute_indent_guides(&[0, 1, 2, 2, 1, 0], 100).into_vec();
    assert_eq!(sorted(guides), vec![guide(0, 101, 4), guide(1, 102, 2)]);
}

#[test]
fn a_single_indented_row_spans_one_row() {
    assert_eq!(compute_indent_guides(&[1], 0).into_vec(), vec![guide(0, 0, 1)]);
    assert_eq!(compute_indent_guides(&[0, 1, 0], 3).into_vec(), vec![guide(0, 4, 1)]);
}

#[test]
fn depth_may_jump_by_more_than_one() {
    let guides = compute_indent_guides(&[0, 3, 0], 0).into_vec();
    assert_eq!(guides, vec![guide(2, 1, 1), guide(1, 1, 1), guide(0, 1, 1)]);
    let guides = compute_indent_guides(&[3, 3, 1, 4], 0).into_vec();
    assert_eq!(
        sorted(guides),
        vec![guide(0, 0, 4), guide(1, 0, 2), guide(1, 3, 1), guide(2, 0, 2), guide(2, 3, 1), guide(3, 3, 1)],
    );
}

#[test]
fn a_shallow_row_splits_a_column() {
    let guides = compute_indent_guides(&[1, 0, 1], 0).into_vec();
    assert_eq!(guides, vec![guide(0, 0, 1), guide(0, 2, 1)]);
    let guides = compute_indent_guides(&[2, 1, 2, 0, 2], 0).into_vec();
    assert_eq!(
        sorted(guides),
        vec![guide(0, 0, 3), guide(0, 4, 1), guide(1, 0, 1), guide(1, 2, 1), guide(1, 4, 1)],
    );
}

#[test]
fn guides_come_in_the_order_in_which_they_end() {
    // Closed inside the window: the deeper first. Left open at its end: the
    // shallower first.
    let guides = compute_indent_guides(&[1, 2, 3, 2, 1], 0).into_vec();
    assert_eq!(guides, vec![guide(2, 2, 1), guide(1, 1, 3), guide(0, 0, 5)]);
    let guides = compute_indent_guides(&[1, 2, 3], 0).into_vec();
    assert_eq!(guides, vec![guide(0, 0, 3), guide(1, 1, 2), guide(2, 2, 1)]);
    let guides = compute_indent_guides(&[2, 0, 1, 2], 0).into_vec();
    assert_eq!(guides, vec![guide(1, 0, 1), guide(0, 0, 1), guide(0, 2, 2), guide(1, 3, 1)]);
}

#[test]
fn guides_tile_the_indented_cells() {
    let windows: Vec<(Vec<usize>, usize)> = vec![
        (vec![0, 1, 2, 2, 1, 0], 0),
        (vec![2, 2, 2, 1, 1], 3),
        (vec![1, 2, 3, 2, 1], 0),
        (vec![4, 0, 4, 1, 3, 3, 0, 2], 40),
        (vec![0, 0, 5], 1),
        (vec![1, 3, 2, 3, 1, 0, 1, 3, 2, 3, 1], 0),
    ];
    for (depths, offset) in windows {
        let guides = compute_indent_guides(&depths, offset).into_vec();
        // Every indented cell lies on exactly one guide, and no other cell
        // lies on any.
        assert_eq!(cells_of(&guides), indented_cells(&depths, offset));
        // Guides in one column keep a row between them.
        for a in &guides {
            for b in &guides {
                if a != b && a.column == b.column {
                    assert!(
                        a.start_row + a.length < b.start_row
                            || b.start_row + b.length < a.start_row
                    );
                }
            }
        }
        // No guide stands twice.
        let distinct: HashSet<_> = guides.iter().copied().collect();
        assert_eq!(distinct.len(), guides.len());
    }
}

#[test]
fn more_guides_than_fit_inline() {
    let depths: Vec<usize> = (0..40).collect();
    let guides = compute_indent_guides(&depths, 0).into_vec();
    assert_eq!(guides.len(), 39);
    for (column, g) in guides.iter().enumerate() {
        assert_eq!(*g, guide(column, column + 1, 39 - column));
    }
    let guides = compute_indent_guides(&[20, 0], 0).into_vec();
    assert_eq!(guides.len(), 20);
    for (i, g) in guides.iter().enumerate() {
        assert_eq!(*g, guide(19 - i, 0, 1));
    }
}

#[test]
fn window_row_counts_from_the_first_row() {
    for g in compute_indent_guides(&[0, 1, 2, 2, 1, 0], 100).into_vec() {
        assert!(g.start_row >= 100);
        assert_eq!(g.window_row(100) + 100, g.start_row);
    }
    assert_eq!(guide(0, 101, 4).window_row(100), 1);
    assert_eq!(guide(3, 7, 1).window_row(7), 0);
}

#[test]
fn window_may_end_at_the_last_row_there_is() {
    let guides = compute_indent_guides(&[1, 1], usize::MAX - 1).into_vec();
    assert_eq!(guides, vec![guide(0, usize::MAX - 1, 2)]);
    let guides = compute_indent_guides(&[0, 2], usize::MAX - 1).into_vec();
    assert_eq!(guides, vec![guide(0, usize::MAX, 1), guide(1, usize::MAX, 1)]);
    assert!(compute_indent_guides(&[], usize::MAX).into_vec().is_empty());
}
