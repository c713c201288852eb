//! Running the solvers and laying their measurements out as a table.

use crate::layout::{
    covers, data_line, data_lines, fits, footer_lines, header_lines, label_cell, label_cells,
    paired, row_text, table_lines, value_cell,
};
use crate::model::{
    blank_row, groups_of, larger, lemma_groups_push, lemma_measure_push, lemma_table_rows_push,
    lemma_widen_blank, measure, measured_row, measured_rows, observed, rejects_all,
    row_observed, run_observed, seed_widths, solution_title, table_rows, time_title, widen,
    Measurement, RowView, Widths,
};
use crate::solver::Solver;
use crate::text::{all_digits, format_duration, repeat};
use vstd::prelude::*;
use vstd::string::{StrSliceExecFns, StringExecFns};

verus! {

/// The heading of the solution column.
pub const SOLUTION_TITLE: &'static str = "Solution";

/// The heading of the time column.
pub const TIME_TITLE: &'static str = "Time (ms)";

/// The widest text seen so far in each column, in characters.
pub struct MaxLength {
    labels: Vec<usize>,
    solution: usize,
    time: usize,
}

impl View for MaxLength {
    type V = Widths;

    closed spec fn view(&self) -> Widths {
        Widths {
            labels: Seq::new(self.labels@.len(), |i: int| self.labels@[i] as nat),
            solution: self.solution as nat,
            time: self.time as nat,
        }
    }
}

/// One row of the table, ready for display.
pub struct RowFormat {
    labels: Vec<String>,
    solution: String,
    time: String,
}

impl View for RowFormat {
    type V = RowView;

    closed spec fn view(&self) -> RowView {
        RowView { labels: self.labels.deep_view(), solution: self.solution@, time: self.time@ }
    }
}

impl DeepView for RowFormat {
    type V = RowView;

    open spec fn deep_view(&self) -> RowView {
        self@
    }
}

/// A solver gave a row a number of labels other than the number of label
/// columns.
#[derive(Debug, Clone, Copy, PartialEq, Eq, Structural)]
pub struct LabelCountMismatch {
    /// The position of the solver among those handed in.
    pub solver: usize,
    /// The row of that solver.
    pub row: usize,
    /// The number of label columns.
    pub expected: usize,
    /// The number of labels that the solver gave.
    pub found: usize,
}

impl LabelCountMismatch {
    /// The complaint to make when a run halts on a mismatch.
    pub fn message(&self) -> (message: String)
        ensures
            message@ == "Solvers must provide exactly the same number of labels as the label headers."@,
    {
        String::from_str(
            "Solvers must provide exactly the same number of labels as the label headers.",
        )
    }
}

impl RowFormat {
    /// The labels of the row, one for each label column.
    pub fn labels(&self) -> (labels: &Vec<String>)
        ensures
            labels.deep_view() == self@.labels,
    {
        &self.labels
    }

    /// The printed solution; empty in a blank row.
    pub fn solution(&self) -> (solution: &String)
        ensures
            solution@ == self@.solution,
    {
        &self.solution
    }

    /// The duration in milliseconds; empty in a blank row.
    pub fn time(&self) -> (time: &String)
        ensures
            time@ == self@.time,
    {
        &self.time
    }

    /// The row that shows one measurement.
    pub fn new(labels: Vec<String>, result: crate::solver::Result) -> (row: RowFormat)
        ensures
            row@ == measured_row(Measurement { labels, result }),
    {
        let solution = result.solution.to_string();
        let time = format_duration(result.duration.as_micros());
        RowFormat { labels, solution, time }
    }

    /// The blank row that separates two solvers.
    pub fn spacer(columns: usize) -> (row: RowFormat)
        ensures
            row@ == blank_row(columns as nat),
    {
        let mut labels: Vec<String> = Vec::new();
        let mut made: usize = 0;
        while made < columns
            invariant
                made <= columns,
                labels.len() == made,
                forall|i: int| 0 <= i < made ==> (#[trigger] labels[i])@ == Seq::<char>::empty(),
            decreases columns - made,
        {
            labels.push(String::new());
            made = made + 1;
        }
        let row = RowFormat { labels, solution: String::new(), time: String::new() };
        assert(row@.labels =~= blank_row(columns as nat).labels);
        row
    }
}

impl MaxLength {
    /// The width of each label column.
    pub fn labels(&self) -> (labels: &Vec<usize>)
        ensures
            labels@.len() == self@.labels.len(),
            forall|i: int| 0 <= i < labels@.len() ==> labels@[i] == self@.labels[i],
    {
        &self.labels
    }

    /// The width of the solution column.
    pub fn solution(&self) -> (solution: usize)
        ensures
            solution == self@.solution,
    {
        self.solution
    }

    /// The width of the time column.
    pub fn time(&self) -> (time: usize)
        ensures
            time == self@.time,
    {
        self.time
    }

    /// The widths of the headings alone.
    pub fn new(label_headers: &[&str]) -> (max_length: MaxLength)
        ensures
            max_length@ == seed_widths(label_headers.deep_view()),
    {
        let mut labels: Vec<usize> = Vec::new();
        let mut at: usize = 0;
        while at < label_headers.len()
            invariant
                at <= label_headers.len(),
                labels.len() == at,
                forall|i: int| 0 <= i < at ==> #[trigger] labels[i] == label_headers[i]@.len(),
            decreases label_headers.len() - at,
        {
            labels.push(label_headers[at].unicode_len());
            at = at + 1;
        }
        let max_length = MaxLength {
            labels,
            solution: SOLUTION_TITLE.unicode_len(),
            time: TIME_TITLE.unicode_len(),
        };
        assert(max_length@.labels =~= seed_widths(label_headers.deep_view()).labels);
        max_length
    }

    /// Widens the columns where a cell of `row` is wider than anything seen
    /// before.
    pub fn update(&mut self, row: &RowFormat)
        ensures
            final(self)@ == widen(old(self)@, row@),
    {
        let mut at: usize = 0;
        while at < self.labels.len() && at < row.labels.len()
            invariant
                at <= self.labels.len(),
                at <= row.labels.len(),
                self.labels.len() == old(self).labels.len(),
                self.solution == old(self).solution,
                self.time == old(self).time,
                forall|i: int|
                    0 <= i < at && i < row.labels.len() ==> #[trigger] self.labels[i] == larger(
                        old(self).labels[i] as nat,
                        row.labels[i]@.len(),
                    ),
                forall|i: int|
                    at <= i < self.labels.len() ==> #[trigger] self.labels[i] == old(
                        self,
                    ).labels[i],
            decreases self.labels.len() - at,
        {
            let length: usize = row.labels[at].as_str().unicode_len();
            if length > self.labels[at] {
                self.labels.set(at, length);
            }
            at = at + 1;
        }
        let solution_length: usize = row.solution.as_str().unicode_len();
        if solution_length > self.solution {
            self.solution = solution_length;
        }
        let time_length: usize = row.time.as_str().unicode_len();
        if time_length > self.time {
            self.time = time_length;
        }
        proof {
            let widened = widen(old(self)@, row@);
            assert(self@.labels.len() == widened.labels.len());
            assert forall|i: int| 0 <= i < self@.labels.len() implies self@.labels[i]
                == widened.labels[i] by {
                assert(self@.labels[i] == self.labels[i] as nat);
                if i < row.labels.len() {
                    assert(row@.labels[i] == row.labels[i]@);
                }
            }
            assert(self@.labels =~= widened.labels);
        }
    }
}

/// Whether the benchmark can come to a halt at `mismatch`: the solvers
/// before the named one went as `trace` says, the named solver was let in
/// and reported `count` rows, its rows before the named one were measured as
/// `measurements` say, and for the named row it gave `labels`, which are not
/// one for each label column.
pub open spec fn halted_at<T: Solver, F: Fn(&T) -> bool>(
    columns: nat,
    solvers: Seq<T>,
    predicate: F,
    mismatch: LabelCountMismatch,
    trace: Seq<Option<Seq<Measurement>>>,
    count: usize,
    measurements: Seq<Measurement>,
    labels: Vec<String>,
) -> bool {
    let solver = solvers[mismatch.solver as int];
    &&& mismatch.solver < solvers.len()
    &&& observed(columns, solvers.take(mismatch.solver as int), predicate, trace)
    &&& call_ensures(predicate, (&solver,), true)
    &&& call_ensures(T::get_row_count, (&solver,), count)
    &&& mismatch.row < count
    &&& measurements.len() == mismatch.row
    &&& forall|row: int|
        0 <= row < measurements.len() ==> row_observed(
            columns,
            solver,
            row,
            #[trigger] measurements[row],
        )
    &&& call_ensures(T::get_labels, (&solver, mismatch.row), labels)
    &&& mismatch.found == labels.len()
    &&& mismatch.expected == columns
    &&& mismatch.found != mismatch.expected
}

/// Runs every solver that `solver_predicate` lets in, row by row and in
/// order, and collects one table row for each measurement, a blank row
/// before the rows of a solver wherever rows have been collected already,
/// and the width that each column needs.
///
/// The run stops at the first row for which a solver does not give one label
/// for each label header, before that row is executed.
pub fn run_solvers<T: Solver, F: Fn(&T) -> bool>(
    label_headers: &[&str],
    solvers: &[T],
    solver_predicate: F,
) -> (outcome: Result<(Vec<RowFormat>, MaxLength), LabelCountMismatch>)
    requires
        forall|i: int|
            0 <= i < solvers.len() ==> call_requires(solver_predicate, (&#[trigger] solvers[i],)),
    ensures
        outcome matches Ok((row_formats, max_length)) ==> {
            &&& exists|trace: Seq<Option<Seq<Measurement>>>|
                {
                    &&& #[trigger] observed(
                        label_headers.len() as nat,
                        solvers@,
                        solver_predicate,
                        trace,
                    )
                    &&& row_formats.deep_view() == table_rows(
                        label_headers.len() as nat,
                        groups_of(trace),
                    )
                }
            &&& max_length@ == measure(label_headers.deep_view(), row_formats.deep_view())
            &&& forall|i: int|
                0 <= i < row_formats.len() ==> (#[trigger] row_formats[i])@.labels.len()
                    == label_headers.len()
        },
        rejects_all(solvers@, solver_predicate) ==> {
            &&& outcome matches Ok((row_formats, max_length))
            &&& row_formats.len() == 0
            &&& max_length@ == seed_widths(label_headers.deep_view())
        },
        outcome matches Err(mismatch) ==> exists|
            trace: Seq<Option<Seq<Measurement>>>,
            count: usize,
            measurements: Seq<Measurement>,
            labels: Vec<String>,
        |
            #[trigger] halted_at(
                label_headers.len() as nat,
                solvers@,
                solver_predicate,
                mismatch,
                trace,
                count,
                measurements,
                labels,
            ),
{
    let columns: usize = label_headers.len();
    let ghost headers = label_headers.deep_view();
    let mut row_formats: Vec<RowFormat> = Vec::new();
    let mut max_length = MaxLength::new(label_headers);
    let ghost mut trace: Seq<Option<Seq<Measurement>>> = Seq::empty();
    let mut index: usize = 0;
    assert(row_formats.deep_view() =~= table_rows(columns as nat, groups_of(trace)));
    while index < solvers.len()
        invariant
            index <= solvers.len(),
            columns == label_headers.len(),
            headers == label_headers.deep_view(),
            forall|i: int|
                0 <= i < solvers.len() ==> call_requires(
                    solver_predicate,
                    (&#[trigger] solvers[i],),
                ),
            observed(columns as nat, solvers@.take(index as int), solver_predicate, trace),
            row_formats.deep_view() == table_rows(columns as nat, groups_of(trace)),
            max_length@ == measure(headers, row_formats.deep_view()),
            forall|i: int|
                0 <= i < row_formats.len() ==> (#[trigger] row_formats[i])@.labels.len()
                    == columns,
            rejects_all(solvers@, solver_predicate) ==> row_formats.len() == 0,
        decreases solvers.len() - index,
    {
        let solver = &solvers[index];
        let ghost before = trace;
        if solver_predicate(solver) {
            // A blank row parts the rows of this solver from the rows above
            // them, if there are any.
            if row_formats.len() > 0 {
                let spacer = RowFormat::spacer(columns);
                let ghost above = row_formats.deep_view();
                proof {
                    lemma_measure_push(headers, above, spacer@);
                    lemma_widen_blank(max_length@, columns as nat);
                }
                row_formats.push(spacer);
                assert(row_formats.deep_view() =~= above.push(blank_row(columns as nat)));
            }
            let ghost base = row_formats.deep_view();
            let ghost mut measurements: Seq<Measurement> = Seq::empty();
            let count: usize = solver.get_row_count();
            let mut row: usize = 0;
            assert(row_formats.deep_view() =~= base + measured_rows(measurements));
            while row < count
                invariant
                    row <= count,
                    call_ensures(T::get_row_count, (solver,), count),
                    index < solvers.len(),
                    *solver == solvers[index as int],
                    columns == label_headers.len(),
                    headers == label_headers.deep_view(),
                    observed(
                        columns as nat,
                        solvers@.take(index as int),
                        solver_predicate,
                        before,
                    ),
                    call_ensures(solver_predicate, (solver,), true),
                    measurements.len() == row,
                    forall|r: int|
                        0 <= r < row ==> row_observed(
                            columns as nat,
                            *solver,
                            r,
                            #[trigger] measurements[r],
                        ),
                    row_formats.deep_view() == base + measured_rows(measurements),
                    max_length@ == measure(headers, row_formats.deep_view()),
                    forall|i: int|
                        0 <= i < row_formats.len() ==> (#[trigger] row_formats[i])@.labels.len()
                            == columns,
                decreases count - row,
            {
                let labels = solver.get_labels(row);
                if labels.len() != columns {
                    let mismatch = LabelCountMismatch {
                        solver: index,
                        row,
                        expected: columns,
                        found: labels.len(),
                    };
                    assert(halted_at(
                        columns as nat,
                        solvers@,
                        solver_predicate,
                        mismatch,
                        before,
                        count,
                        measurements,
                        labels,
                    ));
                    let outcome: Result<(Vec<RowFormat>, MaxLength), LabelCountMismatch> = Err(
                        mismatch,
                    );
                    assert(outcome matches Err(stop) ==> stop == mismatch);
                    return outcome;
                }
                let result = solver.execute(row);
                let ghost measurement = Measurement { labels, result };
                let row_format = RowFormat::new(labels, result);
                let ghost above = row_formats.deep_view();
                proof {
                    lemma_measure_push(headers, above, row_format@);
                    assert(base + measured_rows(measurements.push(measurement)) =~= (base
                        + measured_rows(measurements)).push(measured_row(measurement)));
                    measurements = measurements.push(measurement);
                }
                max_length.update(&row_format);
                row_formats.push(row_format);
                assert(row_formats.deep_view() =~= above.push(measured_row(measurement)));
                row = row + 1;
            }
            proof {
                trace = before.push(Some(measurements));
                lemma_groups_push(before, Some(measurements));
                lemma_table_rows_push(
                    columns as nat,
                    groups_of(before),
                    Some(measured_rows(measurements)),
                );
            }
        } else {
            proof {
                trace = before.push(None);
                lemma_groups_push(before, None);
                lemma_table_rows_push(columns as nat, groups_of(before), None);
            }
        }
        proof {
            assert(solvers@.take(index + 1).drop_last() =~= solvers@.take(index as int));
            assert forall|i: int| 0 <= i < trace.len() implies run_observed(
                columns as nat,
                solvers@.take(index + 1)[i],
                solver_predicate,
                #[trigger] trace[i],
            ) by {
                if i < index {
                    assert(trace[i] == before[i]);
                    assert(solvers@.take(index + 1)[i] == solvers@.take(index as int)[i]);
                }
            }
        }
        index = index + 1;
    }
    assert(solvers@.take(index as int) =~= solvers@);
    Ok((row_formats, max_length))
}

/// Lays one line of the table out: the left border, each label padded to
/// its column and followed by the separator, then the solution and the time,
/// both at the right of their columns, and the right border.
pub fn print_row(
    labels: &[&str],
    solution: &str,
    time: &str,
    max_length: &MaxLength,
    start: &str,
    separator: &str,
    end: &str,
    padding_char: &str,
) -> (line: String)
    requires
        fits(max_length@, labels.deep_view(), solution@, time@),
    ensures
        line@ == row_text(
            labels.deep_view(),
            solution@,
            time@,
            max_length@,
            start@,
            separator@,
            end@,
            padding_char@,
        ),
{
    let ghost cells = labels.deep_view();
    let ghost widths = max_length@;
    let mut row_string = String::new();
    row_string.append(start);
    let mut at: usize = 0;
    assert(row_string@ =~= start@ + label_cells(
        cells,
        widths.labels,
        separator@,
        padding_char@,
        0,
    ));
    while at < labels.len() && at < max_length.labels.len()
        invariant
            at <= labels.len(),
            at <= max_length.labels.len(),
            cells == labels.deep_view(),
            widths == max_length@,
            fits(widths, cells, solution@, time@),
            row_string@ == start@ + label_cells(
                cells,
                widths.labels,
                separator@,
                padding_char@,
                at as nat,
            ),
        decreases labels.len() - at,
    {
        let label = labels[at];
        assert(cells[at as int] == label@);
        assert(widths.labels[at as int] == max_length.labels[at as int]);
        let label_padding: usize = max_length.labels[at] - label.unicode_len();
        let ghost so_far = row_string@;
        let padding = repeat(padding_char, label_padding);
        // A label made of digits alone goes to the right, any other to the left.
        if all_digits(label) {
            row_string.append(padding.as_str());
            row_string.append(label);
        } else {
            row_string.append(label);
            row_string.append(padding.as_str());
        }
        row_string.append(separator);
        assert(row_string@ =~= so_far + label_cell(label@, widths.labels[at as int], padding_char@)
            + separator@);
        at = at + 1;
        assert(row_string@ =~= start@ + label_cells(
            cells,
            widths.labels,
            separator@,
            padding_char@,
            at as nat,
        ));
    }
    assert(at == paired(cells, widths.labels));
    let ghost so_far = row_string@;
    let solution_padding: usize = max_length.solution - solution.unicode_len();
    row_string.append(repeat(padding_char, solution_padding).as_str());
    row_string.append(solution);
    row_string.append(separator);
    let time_padding: usize = max_length.time - time.unicode_len();
    row_string.append(repeat(padding_char, time_padding).as_str());
    row_string.append(time);
    row_string.append(end);
    assert(row_string@ =~= so_far + value_cell(solution@, widths.solution, padding_char@)
        + separator@ + value_cell(time@, widths.time, padding_char@) + end@);
    row_string
}

/// As many empty labels as the table has label columns.
fn empty_labels(columns: usize) -> (labels: Vec<&'static str>)
    ensures
        labels.deep_view() == blank_row(columns as nat).labels,
{
    let mut labels: Vec<&'static str> = Vec::new();
    let mut made: usize = 0;
    while made < columns
        invariant
            made <= columns,
            labels.len() == made,
            forall|i: int| 0 <= i < made ==> (#[trigger] labels[i])@ == Seq::<char>::empty(),
        decreases columns - made,
    {
        proof {
            reveal_strlit("");
        }
        labels.push("");
        made = made + 1;
    }
    assert(labels.deep_view() =~= blank_row(columns as nat).labels);
    labels
}

/// Lays out the top of the table: the upper border, the headings, and the
/// rule that parts them from the rows.
pub fn print_table_header(header_labels: &[&str], max_length: &MaxLength) -> (lines: Vec<String>)
    requires
        fits(max_length@, header_labels.deep_view(), solution_title(), time_title()),
    ensures
        lines.deep_view() == header_lines(header_labels.deep_view(), max_length@),
{
    let empty_labels = empty_labels(header_labels.len());
    proof {
        reveal_strlit("");
    }
    let mut lines: Vec<String> = Vec::new();
    lines.push(print_row(empty_labels.as_slice(), "", "", max_length, "╔═", "═╤═", "═╗", "═"));
    lines.push(
        print_row(header_labels, SOLUTION_TITLE, TIME_TITLE, max_length, "║ ", " │ ", " ║", " "),
    );
    lines.push(print_row(empty_labels.as_slice(), "", "", max_length, "╟─", "─┼─", "─╢", "─"));
    assert(lines.deep_view() =~= header_lines(header_labels.deep_view(), max_length@));
    lines
}

/// Lays out the bottom of the table: the lower border.
pub fn print_table_footer(header_labels: &[&str], max_length: &MaxLength) -> (lines: Vec<String>)
    ensures
        lines.deep_view() == footer_lines(header_labels.deep_view(), max_length@),
{
    let empty_labels = empty_labels(header_labels.len());
    proof {
        reveal_strlit("");
    }
    let mut lines: Vec<String> = Vec::new();
    lines.push(print_row(empty_labels.as_slice(), "", "", max_length, "╚═", "═╧═", "═╝", "═"));
    assert(lines.deep_view() =~= footer_lines(header_labels.deep_view(), max_length@));
    lines
}

/// Lays out one line for each row, in order.
pub fn print_table_data(row_formats: &[RowFormat], max_length: &MaxLength) -> (lines: Vec<String>)
    requires
        forall|i: int|
            0 <= i < row_formats.len() ==> fits(
                max_length@,
                (#[trigger] row_formats[i])@.labels,
                row_formats[i]@.solution,
                row_formats[i]@.time,
            ),
    ensures
        lines.deep_view() == data_lines(row_formats.deep_view(), max_length@),
{
    let mut lines: Vec<String> = Vec::new();
    let mut at: usize = 0;
    while at < row_formats.len()
        invariant
            at <= row_formats.len(),
            lines.len() == at,
            forall|i: int|
                0 <= i < row_formats.len() ==> fits(
                    max_length@,
                    (#[trigger] row_formats[i])@.labels,
                    row_formats[i]@.solution,
                    row_formats[i]@.time,
                ),
            forall|i: int|
                0 <= i < at ==> (#[trigger] lines[i])@ == data_line(row_formats[i]@, max_length@),
        decreases row_formats.len() - at,
    {
        let row_format = &row_formats[at];
        let mut labels: Vec<&str> = Vec::new();
        let mut column: usize = 0;
        while column < row_format.labels.len()
            invariant
                column <= row_format.labels.len(),
                labels.len() == column,
                forall|i: int| 0 <= i < column ==> (#[trigger] labels[i])@ == row_format.labels[i]@,
            decreases row_format.labels.len() - column,
        {
            labels.push(row_format.labels[column].as_str());
            column = column + 1;
        }
        assert(labels.deep_view() =~= row_format@.labels);
        lines.push(
            print_row(
                labels.as_slice(),
                row_format.solution.as_str(),
                row_format.time.as_str(),
                max_length,
                "║ ",
                " │ ",
                " ║",
                " ",
            ),
        );
        at = at + 1;
    }
    assert(lines.deep_view() =~= data_lines(row_formats.deep_view(), max_length@));
    lines
}

/// Lays the whole table out, line by line: the header, one line for each
/// row, and the footer.
pub fn print_results_table(
    header_labels: &[&str],
    row_formats: &[RowFormat],
    max_length: &MaxLength,
) -> (lines: Vec<String>)
    requires
        covers(max_length@, header_labels.deep_view(), row_formats.deep_view()),
    ensures
        lines.deep_view() == table_lines(
            header_labels.deep_view(),
            row_formats.deep_view(),
            max_length@,
        ),
{
    assert forall|i: int| 0 <= i < row_formats.len() implies fits(
        max_length@,
        (#[trigger] row_formats[i])@.labels,
        row_formats[i]@.solution,
        row_formats[i]@.time,
    ) by {
        assert(row_formats.deep_view()[i] == row_formats[i]@);
    }
    let mut lines = print_table_header(header_labels, max_length);
    let mut data = print_table_data(row_formats, max_length);
    let mut footer = print_table_footer(header_labels, max_length);
    let ghost header_part = lines.deep_view();
    let ghost data_part = data.deep_view();
    let ghost footer_part = footer.deep_view();
    lines.append(&mut data);
    lines.append(&mut footer);
    assert(lines.deep_view() =~= header_part + data_part + footer_part);
    lines
}

} // verus!
