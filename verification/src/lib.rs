//! A benchmarking harness that times the rows of a set of solvers and lays
//! the measurements out as a box-drawn table.

use crate::laws::lemma_measure_covers;
use crate::layout::table_lines;
use crate::model::{
    groups_of, measure, observed, rejects_all, seed_widths, table_rows, Measurement, RowView,
};
use crate::runner::{halted_at, print_results_table, run_solvers, LabelCountMismatch};
use crate::solver::Solver;
use vstd::prelude::*;

pub mod laws;
pub mod layout;
pub mod model;
pub mod runner;
pub mod solver;
pub mod text;

verus! {

/// Benchmarks every solver that `solver_predicate` lets in and lays the
/// measurements out as a table, line by line, each column as wide as its
/// widest cell.
///
/// No line is produced if a solver gives a row a number of labels other than
/// the number of label headers.
pub fn create_results_table<T: Solver, F: Fn(&T) -> bool>(
    label_headers: &[&str],
    solvers: &[T],
    solver_predicate: F,
) -> (outcome: Result<Vec<String>, LabelCountMismatch>)
    requires
        forall|i: int|
            0 <= i < solvers.len() ==> call_requires(solver_predicate, (&#[trigger] solvers[i],)),
    ensures
        outcome matches Ok(lines) ==> exists|trace: Seq<Option<Seq<Measurement>>>|
            {
                let rows = table_rows(label_headers.len() as nat, groups_of(trace));
                &&& #[trigger] observed(
                    label_headers.len() as nat,
                    solvers@,
                    solver_predicate,
                    trace,
                )
                &&& lines.deep_view() == table_lines(
                    label_headers.deep_view(),
                    rows,
                    measure(label_headers.deep_view(), rows),
                )
            },
        rejects_all(solvers@, solver_predicate) ==> {
            &&& outcome matches Ok(lines)
            &&& lines.deep_view() == table_lines(
                label_headers.deep_view(),
                Seq::empty(),
                seed_widths(label_headers.deep_view()),
            )
        },
        outcome matches Err(mismatch) ==> exists|
            trace: Seq<Option<Seq<Measurement>>>,
            count: usize,
            measurements: Seq<Measurement>,
            labels: Vec<String>,
        |
            #[trigger] halted_at(
                label_headers.len() as nat,
                solvers@,
                solver_predicate,
                mismatch,
                trace,
                count,
                measurements,
                labels,
            ),
{
    match run_solvers(label_headers, solvers, solver_predicate) {
        Ok((row_formats, max_length)) => {
            proof {
                lemma_measure_covers(label_headers.deep_view(), row_formats.deep_view());
            }
            let lines = print_results_table(label_headers, row_formats.as_slice(), &max_length);
            assert(row_formats.len() == 0 ==> row_formats.deep_view() =~= Seq::<RowView>::empty());
            let outcome: Result<Vec<String>, LabelCountMismatch> = Ok(lines);
            assert(outcome matches Ok(table) ==> table == lines);
            outcome
        },
        Err(mismatch) => {
            let outcome: Result<Vec<String>, LabelCountMismatch> = Err(mismatch);
            assert(outcome matches Err(stop) ==> stop == mismatch);
            outcome
        },
    }
}

} // verus!
