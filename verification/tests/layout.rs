use results_table::runner::{
    print_results_table, print_row, print_table_data, print_table_footer, print_table_header,
    MaxLength, RowFormat,
};
use results_table::solver::{Result, Solution};
use std::time::Duration;

fn row(labels: &[&str], solution: &str, micros: u64) -> RowFormat {
    RowFormat::new(
        labels.iter().map(|label| label.to_string()).collect(),
        Result {
            solution: Solution::String(solution.to_string()),
            duration: Duration::from_micros(micros),
        },
    )
}

fn widths(headers: &[&str], rows: &[RowFormat]) -> MaxLength {
    let mut max_length = MaxLength::new(headers);
    for row in rows {
        max_length.update(row);
    }
    max_length
}

#[test]
fn widths_start_at_the_lengths_of_the_headings() {
    let max_length = MaxLength::new(&["Case", "", "Größe"]);
    assert_eq!(max_length.labels(), &vec![4, 0, 5]);
    assert_eq!(max_length.solution(), 8);
    assert_eq!(max_length.time(), 9);
}

#[test]
fn widths_only_ever_grow() {
    let headers = ["Case", "N"];
    let rows = [
        row(&["1", "12345"], "a solution", 1),
        row(&["a longer label", "1"], "b", 123_456_789_012),
        row(&["x", "y"], "c", 2),
    ];
    let mut max_length = MaxLength::new(&headers);
    let mut seen = (max_length.labels().clone(), max_length.solution(), max_length.time());
    let expected = [(vec![4, 5], 10, 9), (vec![14, 5], 10, 13), (vec![14, 5], 10, 13)];
    for (row, expected) in rows.iter().zip(expected) {
        max_length.update(row);
        let now = (max_length.labels().clone(), max_length.solution(), max_length.time());
        assert!(now.0.iter().zip(&seen.0).all(|(after, before)| after >= before));
        assert!(now.1 >= seen.1 && now.2 >= seen.2);
        assert_eq!(now, expected);
        seen = now;
    }
}

#[test]
fn a_spacer_widens_nothing() {
    let mut max_length = MaxLength::new(&["Case"]);
    max_length.update(&RowFormat::spacer(1));
    assert_eq!(max_length.labels(), &vec![4]);
    assert_eq!(max_length.solution(), 8);
    assert_eq!(max_length.time(), 9);
}

#[test]
fn widths_count_characters_and_not_bytes() {
    let max_length = widths(&["N"], &[row(&["äöü"], "→→→→→→→→→→", 1)]);
    assert_eq!(max_length.labels(), &vec![3]);
    assert_eq!(max_length.solution(), 10);
}

#[test]
fn labels_beyond_the_label_columns_widen_nothing() {
    let max_length = widths(&["A"], &[row(&["1", "a label without a column"], "s", 1)]);
    assert_eq!(max_length.labels(), &vec![1]);
    let max_length = widths(&["A", "B"], &[row(&["long"], "s", 1)]);
    assert_eq!(max_length.labels(), &vec![4, 1]);
}

#[test]
fn a_label_of_digits_stands_at_the_right() {
    let max_length = MaxLength::new(&["Header"]);
    let line = print_row(&["42"], "", "", &max_length, "║ ", " │ ", " ║", " ");
    assert_eq!(line, "║     42 │          │           ║");
}

#[test]
fn a_label_with_any_other_character_stands_at_the_left() {
    let max_length = MaxLength::new(&["Header"]);
    let line = print_row(&["Case A"], "", "", &max_length, "║ ", " │ ", " ║", " ");
    assert_eq!(line, "║ Case A │          │           ║");
    let line = print_row(&["4a"], "", "", &max_length, "║ ", " │ ", " ║", " ");
    assert_eq!(line, "║ 4a     │          │           ║");
    let line = print_row(&["-1"], "", "", &max_length, "║ ", " │ ", " ║", " ");
    assert_eq!(line, "║ -1     │          │           ║");
}

#[test]
fn solution_and_time_always_stand_at_the_right() {
    let max_length = MaxLength::new(&["Id"]);
    let line = print_row(&["7"], "text", "1.000", &max_length, "║ ", " │ ", " ║", " ");
    assert_eq!(line, "║  7 │     text │     1.000 ║");
    let line = print_row(&["7"], "12", "x", &max_length, "<", "|", ">", ".");
    assert_eq!(line, "<.7|......12|........x>");
}

#[test]
fn a_line_shows_as_many_labels_as_pair_up_with_columns() {
    let max_length = MaxLength::new(&["One", "Two"]);
    let line = print_row(&["a"], "s", "t", &max_length, "[", "|", "]", " ");
    assert_eq!(line, "[a  |       s|        t]");
    let line = print_row(&["a", "b", "c"], "s", "t", &max_length, "[", "|", "]", " ");
    assert_eq!(line, "[a  |b  |       s|        t]");
    let line = print_row(&[], "s", "t", &MaxLength::new(&[]), "[", "|", "]", " ");
    assert_eq!(line, "[       s|        t]");
}

#[test]
fn the_header_has_a_border_the_headings_and_a_rule() {
    let max_length = MaxLength::new(&["Day", "Part"]);
    let lines = print_table_header(&["Day", "Part"], &max_length);
    let expected = vec![
        "╔═════╤══════╤══════════╤═══════════╗",
        "║ Day │ Part │ Solution │ Time (ms) ║",
        "╟─────┼──────┼──────────┼───────────╢",
    ];
    assert_eq!(lines, expected);
}

#[test]
fn the_footer_closes_every_column() {
    let max_length = MaxLength::new(&["Day", "Part"]);
    let lines = print_table_footer(&["Day", "Part"], &max_length);
    assert_eq!(lines, vec!["╚═════╧══════╧══════════╧═══════════╝"]);
}

#[test]
fn a_table_without_label_columns_has_two_columns() {
    let rows = [row(&[], "yes", 15)];
    let max_length = widths(&[], &rows);
    let lines = print_results_table(&[], &rows, &max_length);
    let expected = vec![
        "╔══════════╤═══════════╗",
        "║ Solution │ Time (ms) ║",
        "╟──────────┼───────────╢",
        "║      yes │     0.015 ║",
        "╚══════════╧═══════════╝",
    ];
    assert_eq!(lines, expected);
}

#[test]
fn data_lines_come_in_the_order_of_the_rows() {
    let rows = [row(&["b"], "2", 2000), RowFormat::spacer(1), row(&["a"], "1", 1000)];
    let max_length = widths(&["Name"], &rows);
    let lines = print_table_data(&rows, &max_length);
    let expected = vec![
        "║ b    │        2 │     2.000 ║",
        "║      │          │           ║",
        "║ a    │        1 │     1.000 ║",
    ];
    assert_eq!(lines, expected);
    assert!(print_table_data(&[], &max_length).is_empty());
}

#[test]
fn wide_cells_widen_their_columns() {
    let headers = ["N", "Name"];
    let rows = [
        row(&["1", "a rather long name"], "a solution wider than its title", 12_345_678_901),
        row(&["1000", "b"], "2", 5),
    ];
    let max_length = widths(&headers, &rows);
    let lines = print_results_table(&headers, &rows, &max_length);
    let expected = vec![
        "╔══════╤════════════════════╤═════════════════════════════════╤══════════════╗",
        "║ N    │ Name               │                        Solution │    Time (ms) ║",
        "╟──────┼────────────────────┼─────────────────────────────────┼──────────────╢",
        "║    1 │ a rather long name │ a solution wider than its title │ 12345678.901 ║",
        "║ 1000 │ b                  │                               2 │        0.005 ║",
        "╚══════╧════════════════════╧═════════════════════════════════╧══════════════╝",
    ];
    assert_eq!(lines, expected);
}

#[test]
fn every_line_of_a_table_is_equally_long() {
    let headers = ["Day", "Part"];
    let rows = [row(&["1", "one"], "10", 1), row(&["25", "second"], "some words", 99_999_999)];
    let max_length = widths(&headers, &rows);
    let lines = print_results_table(&headers, &rows, &max_length);
    assert_eq!(lines.len(), 6);
    let length = lines[0].chars().count();
    assert!(lines.iter().all(|line| line.chars().count() == length));
}

#[test]
fn reading_the_data_lines_back_gives_the_rows() {
    let headers = ["Day", "Name"];
    let cells = [
        (["1", "first puzzle"], "1234", "0.007"),
        (["12", "x"], "a text, with words", "1500.000"),
        (["003", "4th"], "-5", "12.345"),
    ];
    let rows: Vec<RowFormat> = vec![
        row(&cells[0].0, cells[0].1, 7),
        row(&cells[1].0, cells[1].1, 1_500_000),
        row(&cells[2].0, cells[2].1, 12_345),
    ];
    let max_length = widths(&headers, &rows);
    let lines = print_table_data(&rows, &max_length);
    assert_eq!(lines.len(), cells.len());
    for (line, (labels, solution, time)) in lines.iter().zip(cells) {
        let inner = line.strip_prefix("║ ").unwrap().strip_suffix(" ║").unwrap();
        let fields: Vec<&str> = inner.split(" │ ").collect();
        assert_eq!(fields.len(), 4);
        assert_eq!(fields[0].chars().count(), max_length.labels()[0]);
        assert_eq!(fields[1].chars().count(), max_length.labels()[1]);
        assert_eq!(fields[0].trim(), labels[0]);
        assert_eq!(fields[1].trim(), labels[1]);
        assert_eq!(fields[2].trim(), solution);
        assert_eq!(fields[3].trim(), time);
    }
}
