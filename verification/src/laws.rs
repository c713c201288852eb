//! What holds of every table: laws about the widths and the rows, proved
//! from the definitions.

use crate::layout::{
    covers, data_line, data_lines, fits, gap, label_cell, label_cells, paired, text_line,
    value_cell,
};
use crate::model::{
    blank_row, groups_of, is_blank, measure, measured_row, observed, rejects_all,
    run_observed, seed_widths, table_rows, Measurement, RowView, Widths,
};
use crate::solver::{duration_micros, Solver};
use crate::text::{
    decimal, digit_char, duration_text, is_numeric, lemma_repeated_len, repeated, zero_padded,
};
use vstd::prelude::*;

verus! {

/// Whether every column of `wide` is at least as wide as the same column of
/// `narrow`.
pub open spec fn at_least(wide: Widths, narrow: Widths) -> bool {
    &&& wide.labels.len() == narrow.labels.len()
    &&& forall|i: int| 0 <= i < wide.labels.len() ==> wide.labels[i] >= narrow.labels[i]
    &&& wide.solution >= narrow.solution
    &&& wide.time >= narrow.time
}

/// A table has one width for each heading, whatever its rows.
pub proof fn lemma_measure_columns(headers: Seq<Seq<char>>, rows: Seq<RowView>)
    ensures
        measure(headers, rows).labels.len() == headers.len(),
    decreases rows.len(),
{
    if rows.len() > 0 {
        lemma_measure_columns(headers, rows.drop_last());
    }
}

/// Widths never shrink: the widths after the first `scanned` rows are at
/// most the widths after all of them, and never less than the widths of the
/// headings alone.
pub proof fn lemma_measure_monotone(headers: Seq<Seq<char>>, rows: Seq<RowView>, scanned: int)
    requires
        0 <= scanned <= rows.len(),
    ensures
        at_least(measure(headers, rows), measure(headers, rows.take(scanned))),
        at_least(measure(headers, rows.take(scanned)), seed_widths(headers)),
    decreases rows.len(),
{
    lemma_measure_columns(headers, rows);
    if scanned == rows.len() {
        assert(rows.take(scanned) =~= rows);
        if rows.len() > 0 {
            lemma_measure_monotone(headers, rows.drop_last(), rows.len() - 1);
            assert(rows.drop_last().take(rows.len() - 1) =~= rows.drop_last());
        }
    } else {
        lemma_measure_monotone(headers, rows.drop_last(), scanned);
        assert(rows.drop_last().take(scanned) =~= rows.take(scanned));
    }
}

/// The widths of a table give every heading and every cell of every row room
/// in its column.
pub proof fn lemma_measure_covers(headers: Seq<Seq<char>>, rows: Seq<RowView>)
    ensures
        covers(measure(headers, rows), headers, rows),
{
    let widths = measure(headers, rows);
    lemma_measure_columns(headers, rows);
    lemma_measure_monotone(headers, rows, 0);
    assert(rows.take(0) =~= Seq::<RowView>::empty());
    assert forall|i: int| 0 <= i < rows.len() implies fits(
        widths,
        (#[trigger] rows[i]).labels,
        rows[i].solution,
        rows[i].time,
    ) by {
        lemma_measure_monotone(headers, rows, i + 1);
        let upto = rows.take(i + 1);
        assert(upto.last() == rows[i]);
        assert(upto.drop_last() =~= rows.take(i));
        lemma_measure_columns(headers, rows.take(i));
    }
}

/// A decimal numeral has at least one character, and digits alone.
pub proof fn lemma_decimal_is_numeric(n: nat)
    ensures
        decimal(n).len() >= 1,
        is_numeric(decimal(n)),
    decreases n,
{
    if n >= 10 {
        lemma_decimal_is_numeric(n / 10);
    }
}

/// The three decimal digits of a number below a thousand, zeros included.
pub open spec fn three_digits(n: nat) -> Seq<char> {
    seq![digit_char(n / 100), digit_char(n / 10 % 10), digit_char(n % 10)]
}

/// A duration reads as its whole milliseconds, a point, and the three digits
/// of the microseconds left over: at least one digit before the point and
/// exactly three behind it.
pub proof fn lemma_duration_text(micros: nat)
    ensures
        duration_text(micros) == decimal(micros / 1000) + seq!['.'] + three_digits(micros % 1000),
        decimal(micros / 1000).len() >= 1,
        is_numeric(decimal(micros / 1000)),
        is_numeric(three_digits(micros % 1000)),
        duration_text(micros).len() == decimal(micros / 1000).len() + 4,
        duration_text(micros)[duration_text(micros).len() - 4] == '.',
{
    lemma_decimal_is_numeric(micros / 1000);
    let digits = decimal(micros);
    let padded = zero_padded(digits, 4);
    let whole = decimal(micros / 1000);
    let expected = whole + seq!['.'] + three_digits(micros % 1000);
    reveal_with_fuel(repeated, 4);
    reveal_with_fuel(decimal, 4);
    if micros < 10 {
        assert(padded =~= seq!['0', '0', '0', digit_char(micros)]);
    } else if micros < 100 {
        assert(padded =~= seq!['0', '0', digit_char(micros / 10), digit_char(micros % 10)]);
    } else if micros < 1000 {
        assert(padded =~= seq![
            '0',
            digit_char(micros / 100),
            digit_char(micros / 10 % 10),
            digit_char(micros % 10),
        ]);
    } else {
        assert(micros / 10 / 10 / 10 == micros / 1000);
        assert(micros / 10 / 10 % 10 == micros % 1000 / 100);
        assert(micros / 10 % 10 == micros % 1000 / 10 % 10);
        assert(micros % 10 == micros % 1000 % 10);
        assert(padded =~= whole + three_digits(micros % 1000));
    }
    assert(duration_text(micros) =~= expected);
}

/// The number of blank rows among `rows`.
pub open spec fn blank_count(rows: Seq<RowView>) -> nat
    decreases rows.len(),
{
    if rows.len() == 0 {
        0
    } else if is_blank(rows.last()) {
        blank_count(rows.drop_last()) + 1
    } else {
        blank_count(rows.drop_last())
    }
}

/// Whether none of the rows that the solvers contributed is blank.
pub open spec fn no_blank_rows(groups: Seq<Option<Seq<RowView>>>) -> bool {
    forall|i: int, j: int|
        0 <= i < groups.len() && groups[i] is Some && 0 <= j < groups[i]->0.len() ==> !is_blank(
            #[trigger] groups[i]->0[j],
        )
}

/// Blank rows are counted part by part.
pub proof fn lemma_blank_count_concat(front: Seq<RowView>, back: Seq<RowView>)
    ensures
        blank_count(front + back) == blank_count(front) + blank_count(back),
    decreases back.len(),
{
    if back.len() == 0 {
        assert(front + back =~= front);
    } else {
        lemma_blank_count_concat(front, back.drop_last());
        assert((front + back).drop_last() =~= front + back.drop_last());
    }
}

/// Rows of which none is blank count no blank row.
pub proof fn lemma_blank_count_none(rows: Seq<RowView>)
    requires
        forall|j: int| 0 <= j < rows.len() ==> !is_blank(#[trigger] rows[j]),
    ensures
        blank_count(rows) == 0,
    decreases rows.len(),
{
    if rows.len() > 0 {
        lemma_blank_count_none(rows.drop_last());
    }
}

/// The row of a measurement is never blank: its time is never empty.
pub proof fn lemma_measured_row_not_blank(measurement: Measurement)
    ensures
        !is_blank(measured_row(measurement)),
{
    let micros = duration_micros(measurement.result.duration);
    lemma_duration_text(micros);
}

/// None of the rows that a benchmark collects from the solvers is blank.
pub proof fn lemma_trace_has_no_blank_rows(trace: Seq<Option<Seq<Measurement>>>)
    ensures
        no_blank_rows(groups_of(trace)),
{
    let groups = groups_of(trace);
    assert forall|i: int, j: int|
        0 <= i < groups.len() && groups[i] is Some && 0 <= j < groups[i]->0.len() implies !is_blank(
        #[trigger] groups[i]->0[j],
    ) by {
        lemma_measured_row_not_blank(trace[i]->0[j]);
    }
}

/// The number of solvers that were not left out.
pub open spec fn ran_count(groups: Seq<Option<Seq<RowView>>>) -> nat
    decreases groups.len(),
{
    if groups.len() == 0 {
        0
    } else if groups.last() is Some {
        ran_count(groups.drop_last()) + 1
    } else {
        ran_count(groups.drop_last())
    }
}

/// Whether every solver that ran has at least one row.
pub open spec fn no_empty_runs(groups: Seq<Option<Seq<RowView>>>) -> bool {
    forall|i: int|
        0 <= i < groups.len() && (#[trigger] groups[i]) is Some ==> groups[i]->0.len() >= 1
}

/// Where every solver that ran has a row, the table holds one blank row
/// fewer than solvers ran, and no row at all if none ran.
pub proof fn lemma_spacer_count(columns: nat, groups: Seq<Option<Seq<RowView>>>)
    requires
        no_blank_rows(groups),
        no_empty_runs(groups),
    ensures
        blank_count(table_rows(columns, groups)) == if ran_count(groups) == 0 {
            0
        } else {
            ran_count(groups) - 1
        },
        table_rows(columns, groups).len() > 0 <==> ran_count(groups) > 0,
    decreases groups.len(),
{
    if groups.len() > 0 {
        let earlier = groups.drop_last();
        assert forall|i: int, j: int|
            0 <= i < earlier.len() && earlier[i] is Some && 0 <= j < earlier[i]->0.len()
            implies !is_blank(#[trigger] earlier[i]->0[j]) by {
            assert(earlier[i] == groups[i]);
        }
        assert forall|i: int| 0 <= i < earlier.len() && (#[trigger] earlier[i]) is Some implies
            earlier[i]->0.len() >= 1 by {
            assert(earlier[i] == groups[i]);
        }
        lemma_spacer_count(columns, earlier);
        if let Some(rows) = groups.last() {
            let before = table_rows(columns, earlier);
            assert(groups[groups.len() - 1] is Some);
            assert forall|j: int| 0 <= j < rows.len() implies !is_blank(#[trigger] rows[j]) by {
                assert(rows[j] == groups[groups.len() - 1]->0[j]);
            }
            lemma_blank_count_none(rows);
            if before.len() > 0 {
                let spaced = before.push(blank_row(columns));
                assert(spaced.drop_last() =~= before);
                assert(is_blank(spaced.last()));
                lemma_blank_count_concat(spaced, rows);
            } else {
                lemma_blank_count_concat(before, rows);
            }
        }
    }
}

/// A table never begins with a blank row: a blank row stands only where rows
/// stand above it.
pub proof fn lemma_no_leading_spacer(columns: nat, groups: Seq<Option<Seq<RowView>>>)
    requires
        no_blank_rows(groups),
    ensures
        table_rows(columns, groups).len() > 0 ==> !is_blank(table_rows(columns, groups)[0]),
    decreases groups.len(),
{
    if groups.len() > 0 {
        let earlier = groups.drop_last();
        assert forall|i: int, j: int|
            0 <= i < earlier.len() && earlier[i] is Some && 0 <= j < earlier[i]->0.len()
            implies !is_blank(#[trigger] earlier[i]->0[j]) by {
            assert(earlier[i] == groups[i]);
        }
        lemma_no_leading_spacer(columns, earlier);
        if let Some(rows) = groups.last() {
            let before = table_rows(columns, earlier);
            let table = table_rows(columns, groups);
            if before.len() > 0 {
                assert(table[0] == before[0]);
            } else if rows.len() > 0 {
                assert(table[0] == rows[0]);
                assert(rows[0] == groups[groups.len() - 1]->0[0]);
            }
        }
    }
}

/// A solver that has no rows adds nothing to a table that is still empty: no
/// blank row stands before the rows of the solver that follows it.
pub proof fn lemma_empty_run_leaves_no_spacer(
    columns: nat,
    groups: Seq<Option<Seq<RowView>>>,
    rows: Seq<RowView>,
)
    requires
        table_rows(columns, groups).len() == 0,
    ensures
        table_rows(columns, groups.push(Some(rows))) == rows,
{
    assert(groups.push(Some(rows)).drop_last() =~= groups);
    assert(table_rows(columns, groups) + rows =~= rows);
}

/// Where every solver runs, all of them count.
pub proof fn lemma_all_ran(groups: Seq<Option<Seq<RowView>>>)
    requires
        forall|i: int| 0 <= i < groups.len() ==> (#[trigger] groups[i]) is Some,
    ensures
        ran_count(groups) == groups.len(),
    decreases groups.len(),
{
    if groups.len() > 0 {
        let earlier = groups.drop_last();
        assert forall|i: int| 0 <= i < earlier.len() implies (#[trigger] earlier[i]) is Some by {
            assert(earlier[i] == groups[i]);
        }
        lemma_all_ran(earlier);
    }
}

/// The table begins with the rows of the first solver, if that solver ran.
pub proof fn lemma_table_begins_with_first_solver(
    columns: nat,
    groups: Seq<Option<Seq<RowView>>>,
)
    requires
        groups.len() >= 1,
        groups[0] is Some,
    ensures
        groups[0]->0.len() <= table_rows(columns, groups).len(),
        table_rows(columns, groups).take(groups[0]->0.len() as int) == groups[0]->0,
    decreases groups.len(),
{
    let first = groups[0]->0;
    let earlier = groups.drop_last();
    if groups.len() == 1 {
        assert(earlier.len() == 0);
        assert(table_rows(columns, earlier) =~= Seq::<RowView>::empty());
        assert(table_rows(columns, groups) =~= first);
        assert(table_rows(columns, groups).take(first.len() as int) =~= first);
    } else {
        assert(earlier[0] == groups[0]);
        lemma_table_begins_with_first_solver(columns, earlier);
        let before = table_rows(columns, earlier);
        assert(table_rows(columns, groups).take(first.len() as int) =~= before.take(
            first.len() as int,
        ));
    }
}

/// Where two or more solvers run and each has a row, the table holds exactly
/// one blank row fewer than there are solvers, each with every cell empty,
/// and its first row is the first row of the first solver, not a blank one.
pub proof fn lemma_spacers_between_solvers(columns: nat, trace: Seq<Option<Seq<Measurement>>>)
    requires
        trace.len() >= 2,
        forall|i: int|
            0 <= i < trace.len() ==> (#[trigger] trace[i]) is Some && trace[i]->0.len() >= 1,
    ensures
        blank_count(table_rows(columns, groups_of(trace))) == trace.len() - 1,
        table_rows(columns, groups_of(trace)).len() >= 1,
        table_rows(columns, groups_of(trace))[0] == measured_row(trace[0]->0[0]),
        !is_blank(table_rows(columns, groups_of(trace))[0]),
        is_blank(blank_row(columns)),
{
    let groups = groups_of(trace);
    lemma_trace_has_no_blank_rows(trace);
    assert forall|i: int| 0 <= i < groups.len() implies (#[trigger] groups[i]) is Some by {
        assert(trace[i] is Some);
    }
    lemma_all_ran(groups);
    lemma_spacer_count(columns, groups);
    lemma_table_begins_with_first_solver(columns, groups);
    let first = groups[0]->0;
    assert(trace[0] is Some && trace[0]->0.len() >= 1);
    assert(first[0] == measured_row(trace[0]->0[0]));
    assert(table_rows(columns, groups).take(first.len() as int)[0] == first[0]);
    lemma_measured_row_not_blank(trace[0]->0[0]);
}

/// Where the predicate lets no solver in, the table has no rows, and its
/// widths are those of the headings alone.
pub proof fn lemma_nothing_ran<T: Solver, F: Fn(&T) -> bool>(
    headers: Seq<Seq<char>>,
    solvers: Seq<T>,
    predicate: F,
    trace: Seq<Option<Seq<Measurement>>>,
)
    requires
        observed(headers.len(), solvers, predicate, trace),
        rejects_all(solvers, predicate),
    ensures
        table_rows(headers.len(), groups_of(trace)).len() == 0,
        measure(headers, table_rows(headers.len(), groups_of(trace))) == seed_widths(headers),
    decreases trace.len(),
{
    if trace.len() > 0 {
        let last = trace.len() - 1;
        assert(trace[last] is None);
        let earlier = trace.drop_last();
        assert forall|i: int| 0 <= i < earlier.len() implies run_observed(
            headers.len(),
            solvers.drop_last()[i],
            predicate,
            #[trigger] earlier[i],
        ) by {
            assert(earlier[i] == trace[i]);
        }
        lemma_nothing_ran(headers, solvers.drop_last(), predicate, earlier);
        assert(groups_of(trace).drop_last() =~= groups_of(earlier));
    }
}

/// Every row of the table has one label for each label column, if the rows
/// of the solvers have.
pub proof fn lemma_one_label_per_column(columns: nat, groups: Seq<Option<Seq<RowView>>>)
    requires
        forall|i: int, j: int|
            0 <= i < groups.len() && groups[i] is Some && 0 <= j < groups[i]->0.len() ==> (
            #[trigger] groups[i]->0[j]).labels.len() == columns,
    ensures
        forall|k: int|
            0 <= k < table_rows(columns, groups).len() ==> (#[trigger] table_rows(
                columns,
                groups,
            )[k]).labels.len() == columns,
    decreases groups.len(),
{
    if groups.len() > 0 {
        let earlier = groups.drop_last();
        assert forall|i: int, j: int|
            0 <= i < earlier.len() && earlier[i] is Some && 0 <= j < earlier[i]->0.len() implies (
        #[trigger] earlier[i]->0[j]).labels.len() == columns by {
            assert(earlier[i] == groups[i]);
        }
        lemma_one_label_per_column(columns, earlier);
        let before = table_rows(columns, earlier);
        let table = table_rows(columns, groups);
        assert forall|k: int| 0 <= k < table.len() implies (#[trigger] table[k]).labels.len()
            == columns by {
            if let Some(rows) = groups.last() {
                let lead = if before.len() > 0 {
                    before.push(blank_row(columns))
                } else {
                    before
                };
                assert(table == lead + rows);
                if k < before.len() {
                    assert(table[k] == before[k]);
                } else if k < lead.len() {
                    assert(table[k] == blank_row(columns));
                } else {
                    assert(table[k] == rows[k - lead.len()]);
                    assert(rows[k - lead.len()] == groups[groups.len() - 1]->0[k - lead.len()]);
                }
            }
        }
    }
}

/// Padding made of one-character units is as long as the gap it fills.
pub proof fn lemma_padding_len(fill: Seq<char>, count: nat)
    requires
        fill.len() == 1,
    ensures
        repeated(fill, count).len() == count,
{
    lemma_repeated_len(fill, count);
    assert(count * fill.len() == count) by (nonlinear_arith)
        requires
            fill.len() == 1,
    ;
}

/// A label made of digits alone stands at the right of its column, behind
/// the padding; any other label stands at the left, before the padding. A
/// solution or a time stands at the right, whatever it holds. With padding
/// of one-character units, a cell that has room in its column fills it.
pub proof fn lemma_alignment(text: Seq<char>, width: nat, fill: Seq<char>)
    ensures
        is_numeric(text) ==> label_cell(text, width, fill) == repeated(
            fill,
            gap(width, text.len()),
        ) + text,
        !is_numeric(text) ==> label_cell(text, width, fill) == text + repeated(
            fill,
            gap(width, text.len()),
        ),
        value_cell(text, width, fill) == repeated(fill, gap(width, text.len())) + text,
        fill.len() == 1 && text.len() <= width ==> label_cell(text, width, fill).len() == width
            && value_cell(text, width, fill).len() == width,
{
    if fill.len() == 1 {
        lemma_padding_len(fill, gap(width, text.len()));
    }
}

/// What is left of a cell when its padding is taken away is the text that
/// was put in it: the end of a cell that holds a numeric label, a solution
/// or a time, the beginning of a cell that holds any other label.
pub proof fn lemma_cell_keeps_text(text: Seq<char>, width: nat, fill: Seq<char>)
    requires
        fill.len() == 1,
        text.len() <= width,
    ensures
        value_cell(text, width, fill).skip(width - text.len()) == text,
        is_numeric(text) ==> label_cell(text, width, fill).skip(width - text.len()) == text,
        !is_numeric(text) ==> label_cell(text, width, fill).take(text.len() as int) == text,
{
    lemma_padding_len(fill, gap(width, text.len()));
    assert(value_cell(text, width, fill).skip(width - text.len()) =~= text);
    if is_numeric(text) {
        assert(label_cell(text, width, fill).skip(width - text.len()) =~= text);
    } else {
        assert(label_cell(text, width, fill).take(text.len() as int) =~= text);
    }
}

/// Where label column `column` begins in a line of text: behind the left
/// border, the columns before it and their separators.
pub open spec fn column_start(widths: Seq<nat>, column: nat) -> nat
    decreases column,
{
    if column == 0 {
        2
    } else {
        column_start(widths, (column - 1) as nat) + widths[column - 1] + 3
    }
}

/// The text that a line holds in label column `column`.
pub open spec fn label_field(line: Seq<char>, widths: Widths, column: nat) -> Seq<char> {
    let from = column_start(widths.labels, column);
    line.subrange(from as int, (from + widths.labels[column as int]) as int)
}

/// The text that a line holds in the solution column, behind `columns` label
/// columns.
pub open spec fn solution_field(line: Seq<char>, widths: Widths, columns: nat) -> Seq<char> {
    let from = column_start(widths.labels, columns);
    line.subrange(from as int, (from + widths.solution) as int)
}

/// The text that a line holds in the time column, behind `columns` label
/// columns and the solution column.
pub open spec fn time_field(line: Seq<char>, widths: Widths, columns: nat) -> Seq<char> {
    let from = column_start(widths.labels, columns) + widths.solution + 3;
    line.subrange(from as int, (from + widths.time) as int)
}

/// The glyphs of a line of text have the lengths that the columns are
/// counted with.
pub proof fn lemma_text_glyphs()
    ensures
        "║ "@.len() == 2,
        " │ "@.len() == 3,
        " ║"@.len() == 2,
        " "@.len() == 1,
{
    reveal_strlit("║ ");
    reveal_strlit(" │ ");
    reveal_strlit(" ║");
    reveal_strlit(" ");
}

/// The first label cells of a line of text reach as far as the column that
/// follows them begins.
pub proof fn lemma_label_cells_len(labels: Seq<Seq<char>>, widths: Seq<nat>, columns: nat)
    requires
        columns <= paired(labels, widths),
        forall|i: int| 0 <= i < columns ==> (#[trigger] labels[i]).len() <= widths[i],
    ensures
        label_cells(labels, widths, " │ "@, " "@, columns).len() + 2 == column_start(
            widths,
            columns,
        ),
    decreases columns,
{
    lemma_text_glyphs();
    if columns > 0 {
        lemma_label_cells_len(labels, widths, (columns - 1) as nat);
        lemma_alignment(labels[columns - 1], widths[columns - 1], " "@);
    }
}

/// The cells of the first columns are the beginning of the cells of more
/// columns.
pub proof fn lemma_label_cells_prefix(
    labels: Seq<Seq<char>>,
    widths: Seq<nat>,
    separator: Seq<char>,
    fill: Seq<char>,
    columns: nat,
    more: nat,
)
    requires
        columns <= more,
    ensures
        label_cells(labels, widths, separator, fill, columns).len() <= label_cells(
            labels,
            widths,
            separator,
            fill,
            more,
        ).len(),
        label_cells(labels, widths, separator, fill, more).take(
            label_cells(labels, widths, separator, fill, columns).len() as int,
        ) == label_cells(labels, widths, separator, fill, columns),
    decreases more,
{
    let short = label_cells(labels, widths, separator, fill, columns);
    let long = label_cells(labels, widths, separator, fill, more);
    if columns == more {
        assert(long.take(short.len() as int) =~= short);
    } else {
        lemma_label_cells_prefix(labels, widths, separator, fill, columns, (more - 1) as nat);
        let fewer = label_cells(labels, widths, separator, fill, (more - 1) as nat);
        assert(long.take(short.len() as int) =~= fewer.take(short.len() as int));
    }
}

/// A line of text holds in each column the cell that was put there: the
/// text between the borders and separators is each label, the solution and
/// the time, padded to the width of its column.
pub proof fn lemma_text_line_fields(
    labels: Seq<Seq<char>>,
    solution: Seq<char>,
    time: Seq<char>,
    widths: Widths,
)
    requires
        fits(widths, labels, solution, time),
    ensures
        forall|i: int|
            0 <= i < paired(labels, widths.labels) ==> #[trigger] label_field(
                text_line(labels, solution, time, widths),
                widths,
                i as nat,
            ) == label_cell(labels[i], widths.labels[i], " "@),
        solution_field(
            text_line(labels, solution, time, widths),
            widths,
            paired(labels, widths.labels),
        ) == value_cell(solution, widths.solution, " "@),
        time_field(
            text_line(labels, solution, time, widths),
            widths,
            paired(labels, widths.labels),
        ) == value_cell(time, widths.time, " "@),
        text_line(labels, solution, time, widths).len() == column_start(
            widths.labels,
            paired(labels, widths.labels),
        ) + widths.solution + 3 + widths.time + 2,
{
    lemma_text_glyphs();
    let columns = paired(labels, widths.labels);
    let line = text_line(labels, solution, time, widths);
    let cells = label_cells(labels, widths.labels, " │ "@, " "@, columns);
    let solution_cell = value_cell(solution, widths.solution, " "@);
    let time_cell = value_cell(time, widths.time, " "@);
    lemma_label_cells_len(labels, widths.labels, columns);
    lemma_alignment(solution, widths.solution, " "@);
    lemma_alignment(time, widths.time, " "@);
    assert(line == "║ "@ + cells + solution_cell + " │ "@ + time_cell + " ║"@);
    assert(solution_field(line, widths, columns) =~= solution_cell);
    assert(time_field(line, widths, columns) =~= time_cell);
    assert forall|i: int| 0 <= i < columns implies #[trigger] label_field(line, widths, i as nat)
        == label_cell(labels[i], widths.labels[i], " "@) by {
        let cell = label_cell(labels[i], widths.labels[i], " "@);
        let before = label_cells(labels, widths.labels, " │ "@, " "@, i as nat);
        let through = label_cells(labels, widths.labels, " │ "@, " "@, (i + 1) as nat);
        lemma_label_cells_len(labels, widths.labels, i as nat);
        lemma_label_cells_len(labels, widths.labels, (i + 1) as nat);
        lemma_label_cells_prefix(labels, widths.labels, " │ "@, " "@, (i + 1) as nat, columns);
        lemma_alignment(labels[i], widths.labels[i], " "@);
        assert(through == before + cell + " │ "@);
        assert forall|j: int| 0 <= j < cell.len() implies label_field(line, widths, i as nat)[j]
            == cell[j] by {
            let at = before.len() + j;
            assert(through[at] == cell[j]);
            assert(cells.take(through.len() as int)[at] == cells[at]);
            assert(line[2 + at] == cells[at]);
        }
        assert(label_field(line, widths, i as nat) =~= cell);
    }
}

/// Reading a row back from its line recovers it: with the padding taken
/// away, each label column holds the label, the solution column the
/// solution and the time column the time, character for character.
pub proof fn lemma_data_line_round_trip(row: RowView, widths: Widths)
    requires
        fits(widths, row.labels, row.solution, row.time),
    ensures
        forall|i: int|
            0 <= i < paired(row.labels, widths.labels) ==> {
                let field = #[trigger] label_field(data_line(row, widths), widths, i as nat);
                let padding = widths.labels[i] - row.labels[i].len();
                if is_numeric(row.labels[i]) {
                    field.skip(padding) == row.labels[i]
                } else {
                    field.take(row.labels[i].len() as int) == row.labels[i]
                }
            },
        solution_field(data_line(row, widths), widths, paired(row.labels, widths.labels)).skip(
            widths.solution - row.solution.len(),
        ) == row.solution,
        time_field(data_line(row, widths), widths, paired(row.labels, widths.labels)).skip(
            widths.time - row.time.len(),
        ) == row.time,
{
    lemma_text_glyphs();
    lemma_text_line_fields(row.labels, row.solution, row.time, widths);
    lemma_cell_keeps_text(row.solution, widths.solution, " "@);
    lemma_cell_keeps_text(row.time, widths.time, " "@);
    assert forall|i: int| 0 <= i < paired(row.labels, widths.labels) implies {
        let field = #[trigger] label_field(data_line(row, widths), widths, i as nat);
        let padding = widths.labels[i] - row.labels[i].len();
        if is_numeric(row.labels[i]) {
            field.skip(padding) == row.labels[i]
        } else {
            field.take(row.labels[i].len() as int) == row.labels[i]
        }
    } by {
        lemma_cell_keeps_text(row.labels[i], widths.labels[i], " "@);
    }
}

/// Every row of a table can be read back from its line in the table as it
/// is laid out with the widths of that table.
pub proof fn lemma_table_round_trip(headers: Seq<Seq<char>>, rows: Seq<RowView>, at: int)
    requires
        0 <= at < rows.len(),
    ensures
        ({
            let widths = measure(headers, rows);
            let row = rows[at];
            let line = data_lines(rows, widths)[at];
            let columns = paired(row.labels, widths.labels);
            &&& forall|i: int|
                0 <= i < columns ==> {
                    let field = #[trigger] label_field(line, widths, i as nat);
                    let padding = widths.labels[i] - row.labels[i].len();
                    if is_numeric(row.labels[i]) {
                        field.skip(padding) == row.labels[i]
                    } else {
                        field.take(row.labels[i].len() as int) == row.labels[i]
                    }
                }
            &&& solution_field(line, widths, columns).skip(widths.solution - row.solution.len())
                == row.solution
            &&& time_field(line, widths, columns).skip(widths.time - row.time.len()) == row.time
        }),
{
    lemma_measure_covers(headers, rows);
    lemma_data_line_round_trip(rows[at], measure(headers, rows));
}

} // verus!
