use qmkfmt::grid::Grid;
use qmkfmt::render::{
    centre_row, centre_rows, count_columns, count_filled, measure_column, measure_columns,
    push_spaces, render_grid, write_row,
};

fn strings(rows: &[&[&str]]) -> Vec<Vec<String>> {
    rows.iter().map(|r| r.iter().map(|c| c.to_string()).collect()).collect()
}

fn row(cells: &[&str]) -> Vec<String> {
    cells.iter().map(|c| c.to_string()).collect()
}

fn grid(rows: &[&[&str]]) -> Grid {
    Grid::from_rows(strings(rows)).unwrap()
}

#[test]
fn the_longest_row_gives_the_column_count() {
    assert_eq!(count_columns(&strings(&[&["a", "b"], &["c"], &["d", "e", "f"]])), 3);
    assert_eq!(count_columns(&strings(&[&[]])), 0);
    assert_eq!(count_columns(&vec![]), 0);
}

#[test]
fn an_odd_blank_goes_to_the_left() {
    assert_eq!(centre_row(&row(&["C"]), 2), row(&["", "C"]));
    assert_eq!(centre_row(&row(&["C"]), 4), row(&["", "", "C", ""]));
    assert_eq!(centre_row(&row(&["C", "D"]), 5), row(&["", "", "C", "D", ""]));
}

#[test]
fn an_even_fill_is_shared_equally() {
    assert_eq!(centre_row(&row(&["C"]), 3), row(&["", "C", ""]));
    assert_eq!(centre_row(&row(&["C", "D"]), 6), row(&["", "", "C", "D", "", ""]));
}

#[test]
fn a_row_that_is_long_enough_stays() {
    assert_eq!(centre_row(&row(&["A", "B"]), 2), row(&["A", "B"]));
    assert_eq!(centre_row(&row(&["A", "B"]), 1), row(&["A", "B"]));
    assert_eq!(centre_row(&row(&[]), 0), row(&[]));
}

#[test]
fn every_row_gets_the_length_of_the_longest() {
    let rows = strings(&[&["A,", "B,", "C,", "D,"], &["E,", "F"], &["G"]]);
    let padded = centre_rows(&rows);
    assert_eq!(
        padded,
        strings(&[&["A,", "B,", "C,", "D,"], &["", "E,", "F", ""], &["", "", "G", ""]])
    );
}

#[test]
fn the_shorter_of_two_rows_is_centred_under_the_longer() {
    // Lengths 5 and 2: one blank on the right, one and the odd one on the left.
    let rows = strings(&[&["a", "b", "c", "d", "e"], &["x", "y"]]);
    let padded = centre_rows(&rows);
    assert_eq!(padded[0], row(&["a", "b", "c", "d", "e"]));
    assert_eq!(padded[1], row(&["", "", "x", "y", ""]));
}

#[test]
fn a_column_is_as_wide_as_its_widest_cell() {
    let rows = strings(&[&["KC_A,", "B,"], &["", "KC_ENTER"], &["x"]]);
    assert_eq!(measure_column(&rows, 0), 5);
    assert_eq!(measure_column(&rows, 1), 8);
    assert_eq!(measure_column(&rows, 2), 0);
    assert_eq!(measure_columns(&rows, 3), vec![5, 8, 0]);
    assert_eq!(measure_columns(&rows, 0), Vec::<usize>::new());
}

#[test]
fn width_counts_bytes() {
    let rows = strings(&[&["é,"]]);
    assert_eq!(measure_column(&rows, 0), 3);
}

#[test]
fn blank_cells_at_the_end_do_not_count_as_filled() {
    assert_eq!(count_filled(&row(&["", "A", "", ""])), 2);
    assert_eq!(count_filled(&row(&["A", "B"])), 2);
    assert_eq!(count_filled(&row(&["", ""])), 0);
    assert_eq!(count_filled(&row(&[])), 0);
}

#[test]
fn spaces_are_appended() {
    let mut out = String::from("ab");
    push_spaces(&mut out, 3);
    assert_eq!(out, "ab   ");
    push_spaces(&mut out, 0);
    assert_eq!(out, "ab   ");
}

#[test]
fn cells_are_padded_but_for_the_last() {
    let mut out = String::from(">");
    write_row(&mut out, &row(&["A,", "KC_B,", "C"]), &vec![5, 5, 5], 9, 0);
    assert_eq!(out, ">A,    KC_B, C");
}

#[test]
fn no_space_trails_a_row() {
    let mut out = String::new();
    write_row(&mut out, &row(&["", "A,", "B", "", ""]), &vec![2, 2, 2, 2, 2], 4, 3);
    assert_eq!(out, "   A, B");
}

#[test]
fn the_gap_comes_right_before_its_column() {
    let mut out = String::new();
    write_row(&mut out, &row(&["A,", "B,", "C,", "D"]), &vec![2, 2, 2, 1], 2, 4);
    assert_eq!(out, "A, B,     C, D");
    let mut out = String::new();
    write_row(&mut out, &row(&["A,", "B"]), &vec![2, 1], 0, 2);
    assert_eq!(out, "  A, B");
}

#[test]
fn a_missing_width_counts_as_zero() {
    let mut out = String::new();
    write_row(&mut out, &row(&["A,", "B,", "C"]), &vec![4], 7, 0);
    assert_eq!(out, "A,   B, C");
}

#[test]
fn padding_counts_characters() {
    // The column is three bytes wide; "é," has two characters and gets one space.
    let mut out = String::new();
    write_row(&mut out, &row(&["é,", "B"]), &vec![3, 1], 9, 0);
    assert_eq!(out, "é,  B");
}

#[test]
fn a_row_without_text_adds_nothing() {
    let mut out = String::from("x");
    write_row(&mut out, &row(&["", ""]), &vec![3, 3], 0, 5);
    assert_eq!(out, "x");
    write_row(&mut out, &row(&[]), &vec![], 0, 5);
    assert_eq!(out, "x");
}

#[test]
fn one_row_renders_as_one_line() {
    let g = grid(&[&["A,", "B,", "C,", "D"]]);
    assert_eq!(render_grid(&g, "    ", 0), "(\n        A, B, C, D\n    )");
}

#[test]
fn the_gap_of_a_block_stands_before_the_middle_column() {
    let g = grid(&[&["A,", "B,", "C,", "D"]]);
    assert_eq!(render_grid(&g, "    ", 2), "(\n        A, B,   C, D\n    )");
}

#[test]
fn the_shorter_row_of_a_block_leans_right() {
    let g = grid(&[&["A,", "B,"], &["C"]]);
    assert_eq!(render_grid(&g, "  ", 0), "(\n    A, B,\n       C\n  )");
}

#[test]
fn columns_are_aligned_over_all_rows() {
    let g = grid(&[
        &["KC_ESC,", "KC_1,", "KC_2,", "KC_BSPC,"],
        &["KC_TAB,", "KC_Q,", "KC_W,", "KC_ENT,"],
        &["KC_SPC,", "MO(1)"],
    ]);
    let expected = "(\n\
                    \t\tKC_ESC, KC_1,   KC_2, KC_BSPC,\n\
                    \t\tKC_TAB, KC_Q,   KC_W, KC_ENT,\n\
                    \t\t        KC_SPC, MO(1)\n\
                    \t)";
    assert_eq!(render_grid(&g, "\t", 0), expected);
}

#[test]
fn a_gap_splits_aligned_halves() {
    let g = grid(&[&["A,", "B,", "C,", "D,"], &["E,", "F"]]);
    let expected = "(\n    A, B,     C, D,\n       E,     F\n  )";
    assert_eq!(render_grid(&g, "  ", 4), expected);
}

#[test]
fn an_empty_row_renders_as_an_indented_line() {
    let g = grid(&[&["A,"], &[], &["B"]]);
    assert_eq!(render_grid(&g, " ", 0), "(\n  A,\n  \n  B\n )");
}

#[test]
fn a_single_cell_has_its_gap_before_it() {
    let g = grid(&[&["A"]]);
    assert_eq!(render_grid(&g, "", 3), "(\n   A\n)");
}

#[test]
fn a_block_without_its_white_space_is_the_cells_between_parentheses() {
    let rows: &[&[&str]] = &[
        &["KC_ESC,", "LT(1, KC_A),", "KC_2,", "KC_BSPC,"],
        &["KC_TAB,", "KC_ENT,"],
        &["MO(1)"],
    ];
    let block = render_grid(&grid(rows), "\t ", 3);
    let ink = |s: &str| -> String { s.chars().filter(|c| !" \n\t".contains(*c)).collect() };
    let cells: String = rows.iter().flat_map(|r| r.iter()).map(|c| ink(c)).collect();
    assert_eq!(ink(&block), format!("({cells})"));
}
