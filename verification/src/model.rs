//! The table as mathematics: rows of text, column widths, and the record of
//! what the solvers handed back.

use crate::solver::{duration_micros, Result, Solver};
use crate::text::duration_text;
use vstd::prelude::*;

verus! {

/// One row of the table: the text of each of its cells.
pub struct RowView {
    pub labels: Seq<Seq<char>>,
    pub solution: Seq<char>,
    pub time: Seq<char>,
}

/// The width of each column, in characters.
pub struct Widths {
    pub labels: Seq<nat>,
    pub solution: nat,
    pub time: nat,
}

/// The heading of the solution column.
pub open spec fn solution_title() -> Seq<char> {
    "Solution"@
}

/// The heading of the time column.
pub open spec fn time_title() -> Seq<char> {
    "Time (ms)"@
}

/// The larger of two widths.
pub open spec fn larger(a: nat, b: nat) -> nat {
    if a >= b {
        a
    } else {
        b
    }
}

/// The widths of a table that has its headings and no rows yet.
pub open spec fn seed_widths(headers: Seq<Seq<char>>) -> Widths {
    Widths {
        labels: Seq::new(headers.len(), |i: int| headers[i].len()),
        solution: solution_title().len(),
        time: time_title().len(),
    }
}

/// The widths after one more row: no column gets narrower, and each is wide
/// enough for the row's cell in it. Labels pair up with the label columns in
/// order; what is left over on either side is ignored.
pub open spec fn widen(widths: Widths, row: RowView) -> Widths {
    Widths {
        labels: Seq::new(
            widths.labels.len(),
            |i: int|
                if i < row.labels.len() {
                    larger(widths.labels[i], row.labels[i].len())
                } else {
                    widths.labels[i]
                },
        ),
        solution: larger(widths.solution, row.solution.len()),
        time: larger(widths.time, row.time.len()),
    }
}

/// The widths of a table with the given headings and rows.
pub open spec fn measure(headers: Seq<Seq<char>>, rows: Seq<RowView>) -> Widths
    decreases rows.len(),
{
    if rows.len() == 0 {
        seed_widths(headers)
    } else {
        widen(measure(headers, rows.drop_last()), rows.last())
    }
}

/// The row that separates two solvers: `columns` empty labels, no solution,
/// no time.
pub open spec fn blank_row(columns: nat) -> RowView {
    RowView {
        labels: Seq::new(columns, |i: int| Seq::<char>::empty()),
        solution: Seq::empty(),
        time: Seq::empty(),
    }
}

/// Whether every cell of a row is empty.
pub open spec fn is_blank(row: RowView) -> bool {
    &&& row.solution.len() == 0
    &&& row.time.len() == 0
    &&& forall|i: int| 0 <= i < row.labels.len() ==> (#[trigger] row.labels[i]).len() == 0
}

/// What a solver handed back for one row.
pub struct Measurement {
    pub labels: Vec<String>,
    pub result: Result,
}

/// The table row of a measurement: its labels, the printed solution, and the
/// duration in milliseconds.
pub open spec fn measured_row(measurement: Measurement) -> RowView {
    RowView {
        labels: measurement.labels.deep_view(),
        solution: measurement.result.solution@,
        time: duration_text(duration_micros(measurement.result.duration)),
    }
}

/// The table rows of a solver's measurements, in order.
pub open spec fn measured_rows(measurements: Seq<Measurement>) -> Seq<RowView> {
    Seq::new(measurements.len(), |i: int| measured_row(measurements[i]))
}

/// For each solver its rows, or `None` where the solver was left out.
pub open spec fn groups_of(trace: Seq<Option<Seq<Measurement>>>) -> Seq<Option<Seq<RowView>>> {
    Seq::new(
        trace.len(),
        |i: int|
            match trace[i] {
                Some(measurements) => Some(measured_rows(measurements)),
                None => None,
            },
    )
}

/// The rows of the table: the rows of each solver that ran, in order, with
/// one blank row before the rows of a solver wherever the table already
/// holds rows. Nothing stands before the first rows of the table.
pub open spec fn table_rows(columns: nat, groups: Seq<Option<Seq<RowView>>>) -> Seq<RowView>
    decreases groups.len(),
{
    if groups.len() == 0 {
        Seq::empty()
    } else {
        let before = table_rows(columns, groups.drop_last());
        match groups.last() {
            Some(rows) => if before.len() > 0 {
                before.push(blank_row(columns)) + rows
            } else {
                before + rows
            },
            None => before,
        }
    }
}

/// Whether `measurement` is something that `solver` can hand back for `row`,
/// with one label for each of the `columns` label columns.
pub open spec fn row_observed<T: Solver>(
    columns: nat,
    solver: T,
    row: int,
    measurement: Measurement,
) -> bool {
    &&& call_ensures(T::get_labels, (&solver, row as usize), measurement.labels)
    &&& measurement.labels.len() == columns
    &&& call_ensures(T::execute, (&solver, row as usize), measurement.result)
}

/// Whether `run` is a way the benchmark of one solver can go: the predicate
/// answers whether it runs, and if so the solver reports its number of rows
/// and each of them is measured once.
pub open spec fn run_observed<T: Solver, F: Fn(&T) -> bool>(
    columns: nat,
    solver: T,
    predicate: F,
    run: Option<Seq<Measurement>>,
) -> bool {
    &&& call_ensures(predicate, (&solver,), run is Some)
    &&& run matches Some(measurements) ==> {
        &&& measurements.len() <= usize::MAX
        &&& call_ensures(T::get_row_count, (&solver,), measurements.len() as usize)
        &&& forall|row: int|
            0 <= row < measurements.len() ==> row_observed(
                columns,
                solver,
                row,
                #[trigger] measurements[row],
            )
    }
}

/// Whether `trace` is a way the benchmark of all the solvers can go.
pub open spec fn observed<T: Solver, F: Fn(&T) -> bool>(
    columns: nat,
    solvers: Seq<T>,
    predicate: F,
    trace: Seq<Option<Seq<Measurement>>>,
) -> bool {
    &&& trace.len() == solvers.len()
    &&& forall|i: int|
        0 <= i < trace.len() ==> run_observed(columns, solvers[i], predicate, #[trigger] trace[i])
}

/// Whether the predicate lets none of the solvers in, whatever it answers.
pub open spec fn rejects_all<T: Solver, F: Fn(&T) -> bool>(solvers: Seq<T>, predicate: F) -> bool {
    forall|i: int, accepted: bool|
        0 <= i < solvers.len() && #[trigger] call_ensures(predicate, (&solvers[i],), accepted)
            ==> !accepted
}

/// Measuring one more row widens what the rows before it gave.
pub proof fn lemma_measure_push(headers: Seq<Seq<char>>, rows: Seq<RowView>, row: RowView)
    ensures
        measure(headers, rows.push(row)) == widen(measure(headers, rows), row),
{
    assert(rows.push(row).drop_last() =~= rows);
}

/// A blank row widens nothing.
pub proof fn lemma_widen_blank(widths: Widths, columns: nat)
    ensures
        widen(widths, blank_row(columns)) == widths,
{
    assert(widen(widths, blank_row(columns)).labels =~= widths.labels);
}

/// What one more solver adds to the table.
pub proof fn lemma_table_rows_push(
    columns: nat,
    groups: Seq<Option<Seq<RowView>>>,
    group: Option<Seq<RowView>>,
)
    ensures
        table_rows(columns, groups.push(group)) == match group {
            Some(rows) => if table_rows(columns, groups).len() > 0 {
                table_rows(columns, groups).push(blank_row(columns)) + rows
            } else {
                table_rows(columns, groups) + rows
            },
            None => table_rows(columns, groups),
        },
{
    assert(groups.push(group).drop_last() =~= groups);
}

/// The groups of a trace that is one solver longer.
pub proof fn lemma_groups_push(trace: Seq<Option<Seq<Measurement>>>, run: Option<Seq<Measurement>>)
    ensures
        groups_of(trace.push(run)) == groups_of(trace).push(
            match run {
                Some(measurements) => Some(measured_rows(measurements)),
                None => None,
            },
        ),
{
    assert(groups_of(trace.push(run)) =~= groups_of(trace).push(
        match run {
            Some(measurements) => Some(measured_rows(measurements)),
            None => None,
        },
    ));
}

} // verus!
