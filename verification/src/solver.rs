//! What a solver has to offer, and what it hands back for one row.

use crate::text::{decimal, decimal_string, signed_decimal, signed_decimal_string};
use std::time::Duration;
use vstd::prelude::*;

verus! {

/// A unit under benchmark: a fixed number of rows, each with its labels and
/// its own timed computation.
pub trait Solver {
    /// The number of rows this solver offers.
    fn get_row_count(&self) -> (count: usize);

    /// The display labels of one row, one per label column of the table.
    /// Asked only of a row below a count that the solver has reported.
    fn get_labels(&self, row: usize) -> (labels: Vec<String>)
        requires
            exists|count: usize| #[trigger]
                call_ensures(Self::get_row_count, (self,), count) && row < count,
    ;

    /// Runs one row and reports its solution with the time the computation
    /// took. Asked only of a row below a count that the solver has reported.
    fn execute(&self, row: usize) -> (result: Result)
        requires
            exists|count: usize| #[trigger]
                call_ensures(Self::get_row_count, (self,), count) && row < count,
    ;
}

/// The whole microseconds that a duration holds.
pub uninterp spec fn duration_micros(duration: Duration) -> nat;

/// `Duration::as_micros` reads off the duration's whole microseconds, a
/// function of the duration alone.
pub assume_specification[ Duration::as_micros ](duration: &Duration) -> (micros: u128)
    ensures
        micros == duration_micros(*duration),
;

/// The outcome of running one row of a solver.
pub struct Result {
    pub solution: Solution,
    pub duration: Duration,
}

/// A computed answer: an integer of any width, or text.
#[derive(Debug)]
pub enum Solution {
    U8(u8),
    U16(u16),
    U32(u32),
    U64(u64),
    U128(u128),
    USize(usize),
    I8(i8),
    I16(i16),
    I32(i32),
    I64(i64),
    I128(i128),
    ISize(isize),
    String(String),
}

impl View for Solution {
    type V = Seq<char>;

    /// A solution is its printed form: the decimal numeral of a number, the
    /// characters of a text.
    open spec fn view(&self) -> Seq<char> {
        match self {
            Solution::U8(value) => decimal(*value as nat),
            Solution::U16(value) => decimal(*value as nat),
            Solution::U32(value) => decimal(*value as nat),
            Solution::U64(value) => decimal(*value as nat),
            Solution::U128(value) => decimal(*value as nat),
            Solution::USize(value) => decimal(*value as nat),
            Solution::I8(value) => signed_decimal(*value as int),
            Solution::I16(value) => signed_decimal(*value as int),
            Solution::I32(value) => signed_decimal(*value as int),
            Solution::I64(value) => signed_decimal(*value as int),
            Solution::I128(value) => signed_decimal(*value as int),
            Solution::ISize(value) => signed_decimal(*value as int),
            Solution::String(value) => value@,
        }
    }
}

impl Solution {
    /// The printed form of the solution.
    pub fn to_string(&self) -> (text: String)
        ensures
            text@ == self@,
    {
        match self {
            Solution::U8(value) => decimal_string(*value as u128),
            Solution::U16(value) => decimal_string(*value as u128),
            Solution::U32(value) => decimal_string(*value as u128),
            Solution::U64(value) => decimal_string(*value as u128),
            Solution::U128(value) => decimal_string(*value),
            Solution::USize(value) => decimal_string(*value as u128),
            Solution::I8(value) => signed_decimal_string(*value as i128),
            Solution::I16(value) => signed_decimal_string(*value as i128),
            Solution::I32(value) => signed_decimal_string(*value as i128),
            Solution::I64(value) => signed_decimal_string(*value as i128),
            Solution::I128(value) => signed_decimal_string(*value),
            Solution::ISize(value) => signed_decimal_string(*value as i128),
            Solution::String(value) => value.clone(),
        }
    }
}

impl PartialEq for Solution {
    /// Solutions are compared by their printed form, whatever their variants.
    fn eq(&self, other: &Self) -> (equal: bool) {
        self.to_string() == other.to_string()
    }
}

impl vstd::std_specs::cmp::PartialEqSpecImpl for Solution {
    open spec fn obeys_eq_spec() -> bool {
        true
    }

    open spec fn eq_spec(&self, other: &Self) -> bool {
        self@ == other@
    }
}

} // verus!
