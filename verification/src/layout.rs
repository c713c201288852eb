//! How a row of cells becomes a line of text, and how the lines make up the
//! table.

use crate::model::{blank_row, solution_title, time_title, RowView, Widths};
use crate::text::{is_numeric, repeated};
use vstd::prelude::*;

verus! {

/// The number of padding units that bring a text of `length` characters up
/// to `width`.
pub open spec fn gap(width: nat, length: nat) -> nat {
    if width >= length {
        (width - length) as nat
    } else {
        0
    }
}

/// A label in its column: a label made of digits alone stands at the right,
/// behind its padding; any other label stands at the left, before it.
pub open spec fn label_cell(label: Seq<char>, width: nat, fill: Seq<char>) -> Seq<char> {
    let padding = repeated(fill, gap(width, label.len()));
    if is_numeric(label) {
        padding + label
    } else {
        label + padding
    }
}

/// A solution or a time in its column: always at the right.
pub open spec fn value_cell(value: Seq<char>, width: nat, fill: Seq<char>) -> Seq<char> {
    repeated(fill, gap(width, value.len())) + value
}

/// The number of label columns that a row fills: labels and widths pair up
/// in order, and what is left over on either side is not shown.
pub open spec fn paired(labels: Seq<Seq<char>>, widths: Seq<nat>) -> nat {
    if labels.len() <= widths.len() {
        labels.len()
    } else {
        widths.len()
    }
}

/// The first `columns` label cells, each followed by the separator.
pub open spec fn label_cells(
    labels: Seq<Seq<char>>,
    widths: Seq<nat>,
    separator: Seq<char>,
    fill: Seq<char>,
    columns: nat,
) -> Seq<char>
    decreases columns,
{
    if columns == 0 {
        Seq::empty()
    } else {
        label_cells(labels, widths, separator, fill, (columns - 1) as nat) + label_cell(
            labels[columns - 1],
            widths[columns - 1],
            fill,
        ) + separator
    }
}

/// One line of the table: the left border, the label cells with a separator
/// after each, the solution, a separator, the time, and the right border.
pub open spec fn row_text(
    labels: Seq<Seq<char>>,
    solution: Seq<char>,
    time: Seq<char>,
    widths: Widths,
    start: Seq<char>,
    separator: Seq<char>,
    end: Seq<char>,
    fill: Seq<char>,
) -> Seq<char> {
    start + label_cells(labels, widths.labels, separator, fill, paired(labels, widths.labels))
        + value_cell(solution, widths.solution, fill) + separator + value_cell(
        time,
        widths.time,
        fill,
    ) + end
}

/// Whether every cell of a row has room in its column.
pub open spec fn fits(
    widths: Widths,
    labels: Seq<Seq<char>>,
    solution: Seq<char>,
    time: Seq<char>,
) -> bool {
    &&& forall|i: int|
        0 <= i < paired(labels, widths.labels) ==> (#[trigger] labels[i]).len() <= widths.labels[i]
    &&& solution.len() <= widths.solution
    &&& time.len() <= widths.time
}

/// Whether the headings and every row have room in their columns.
pub open spec fn covers(widths: Widths, headers: Seq<Seq<char>>, rows: Seq<RowView>) -> bool {
    &&& fits(widths, headers, solution_title(), time_title())
    &&& forall|i: int|
        0 <= i < rows.len() ==> fits(
            widths,
            (#[trigger] rows[i]).labels,
            rows[i].solution,
            rows[i].time,
        )
}

/// A line without text: every cell empty, drawn with the given glyphs.
pub open spec fn rule(
    columns: nat,
    widths: Widths,
    start: Seq<char>,
    separator: Seq<char>,
    end: Seq<char>,
    fill: Seq<char>,
) -> Seq<char> {
    row_text(
        blank_row(columns).labels,
        Seq::empty(),
        Seq::empty(),
        widths,
        start,
        separator,
        end,
        fill,
    )
}

/// A line with text: cells between upright bars, padded with spaces.
pub open spec fn text_line(
    labels: Seq<Seq<char>>,
    solution: Seq<char>,
    time: Seq<char>,
    widths: Widths,
) -> Seq<char> {
    row_text(labels, solution, time, widths, "║ "@, " │ "@, " ║"@, " "@)
}

/// The top of the table: the upper border, the headings, and the rule below
/// them.
pub open spec fn header_lines(headers: Seq<Seq<char>>, widths: Widths) -> Seq<Seq<char>> {
    seq![
        rule(headers.len(), widths, "╔═"@, "═╤═"@, "═╗"@, "═"@),
        text_line(headers, solution_title(), time_title(), widths),
        rule(headers.len(), widths, "╟─"@, "─┼─"@, "─╢"@, "─"@),
    ]
}

/// The line of one row of the table.
pub open spec fn data_line(row: RowView, widths: Widths) -> Seq<char> {
    text_line(row.labels, row.solution, row.time, widths)
}

/// One line for each row, in order.
pub open spec fn data_lines(rows: Seq<RowView>, widths: Widths) -> Seq<Seq<char>> {
    Seq::new(rows.len(), |i: int| data_line(rows[i], widths))
}

/// The bottom of the table: the lower border.
pub open spec fn footer_lines(headers: Seq<Seq<char>>, widths: Widths) -> Seq<Seq<char>> {
    seq![rule(headers.len(), widths, "╚═"@, "═╧═"@, "═╝"@, "═"@)]
}

/// The whole table, line by line.
pub open spec fn table_lines(
    headers: Seq<Seq<char>>,
    rows: Seq<RowView>,
    widths: Widths,
) -> Seq<Seq<char>> {
    header_lines(headers, widths) + data_lines(rows, widths) + footer_lines(headers, widths)
}

} // verus!
