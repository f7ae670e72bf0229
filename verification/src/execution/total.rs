//! Totals of a column.

use crate::contract::dataset::SumBounds;
use crate::error::{ErrorView, ProofFrameError};
use crate::numbers::{is_nan64, key64, nan64, order_key64};
use crate::text::{cat2, decimal_i128, decimal_int, text};
use crate::value::Cell;
use vstd::prelude::*;
use vstd::string::*;

verus! {

/// A float that the caller worked out: its bit pattern and its spelling, with the
/// spellings of the limits that it is held to.
#[derive(Debug)]
pub struct Measured {
    pub bits: u64,
    pub shown: String,
    pub min_shown: String,
    pub max_shown: String,
}

/// A running total in the arithmetic of its column. A float total is added up by the
/// caller, in row order.
#[derive(Debug)]
pub enum Total {
    Integer(i128),
    Float(Measured),
}

/// The integer of a cell, where its column has integer totals.
pub open spec fn addend(cell: Cell) -> Option<int> {
    match cell {
        Cell::Int8(v) => Some(v as int),
        Cell::Int16(v) => Some(v as int),
        Cell::Int32(v) => Some(v as int),
        Cell::Int64(v) => Some(v as int),
        Cell::UInt8(v) => Some(v as int),
        Cell::UInt16(v) => Some(v as int),
        Cell::UInt32(v) => Some(v as int),
        Cell::UInt64(v) => Some(v as int),
        _ => None,
    }
}

fn addend_of(cell: &Cell) -> (r: Option<i128>)
    ensures
        match addend(*cell) {
            Some(v) => r matches Some(x) && x == v,
            None => r is None,
        },
{
    match cell {
        Cell::Int8(v) => Some(*v as i128),
        Cell::Int16(v) => Some(*v as i128),
        Cell::Int32(v) => Some(*v as i128),
        Cell::Int64(v) => Some(*v as i128),
        Cell::UInt8(v) => Some(*v as i128),
        Cell::UInt16(v) => Some(*v as i128),
        Cell::UInt32(v) => Some(*v as i128),
        Cell::UInt64(v) => Some(*v as i128),
        _ => None,
    }
}

impl Total {
    /// A total of nothing.
    pub fn integer() -> (r: Self)
        ensures
            r == Total::Integer(0),
    {
        Total::Integer(0)
    }

    /// Adds an integer, or reports that the total leaves the integers of 128 bits. A float
    /// total is left to the caller.
    pub fn add_integer(&mut self, value: i128) -> (r: Result<(), ProofFrameError>)
        ensures
            match *old(self) {
                Total::Integer(t) => if i128::MIN <= t + value <= i128::MAX {
                    r is Ok && *final(self) == Total::Integer((t + value) as i128)
                } else {
                    (r matches Err(e) && e@ == ErrorView::CorruptData(
                        "Column total left the 128-bit integer range"@,
                    )) && *final(self) == *old(self)
                },
                Total::Float(_) => r is Ok && *final(self) == *old(self),
            },
    {
        match self {
            Total::Integer(t) => match t.checked_add(value) {
                Some(sum) => {
                    *t = sum;
                    Ok(())
                },
                None => Err(
                    ProofFrameError::CorruptData(
                        text("Column total left the 128-bit integer range"),
                    ),
                ),
            },
            Total::Float(_) => Ok(()),
        }
    }
}

/// The sum of the first `n` cells of a column, without nulls.
pub open spec fn sum_of(cells: Seq<Cell>, n: nat) -> int
    decreases n,
{
    if n == 0 {
        0
    } else {
        sum_of(cells, (n - 1) as nat) + match addend(cells[n - 1]) {
            Some(v) => v,
            None => 0,
        }
    }
}

/// Adds every cell of a batch that is not null to an integer total, in row order.
pub fn accumulate(total: i128, cells: &Vec<Cell>) -> (r: Result<i128, ProofFrameError>)
    ensures
        match r {
            Ok(t) => t == total + sum_of(cells@, cells@.len()) && forall|k: nat|
                k <= cells@.len() ==> i128::MIN <= total + #[trigger] sum_of(cells@, k)
                    <= i128::MAX,
            Err(e) => e@ == ErrorView::CorruptData(
                "Column total left the 128-bit integer range"@,
            ) && exists|k: nat|
                k <= cells@.len() && !(i128::MIN <= total + #[trigger] sum_of(cells@, k)
                    <= i128::MAX),
        },
{
    let mut running = Total::Integer(total);
    let mut i: usize = 0;
    while i < cells.len()
        invariant
            i <= cells@.len(),
            running matches Total::Integer(t) && t == total + sum_of(cells@, i as nat),
            forall|k: nat|
                k <= i ==> i128::MIN <= total + #[trigger] sum_of(cells@, k) <= i128::MAX,
        decreases cells@.len() - i,
    {
        match addend_of(&cells[i]) {
            Some(v) => match running.add_integer(v) {
                Ok(()) => {},
                Err(e) => {
                    assert(!(i128::MIN <= total + sum_of(cells@, (i + 1) as nat) <= i128::MAX));
                    return Err(e);
                },
            },
            None => {},
        }
        assert(i128::MIN <= total + sum_of(cells@, (i + 1) as nat) <= i128::MAX);
        i = i + 1;
    }
    match running {
        Total::Integer(t) => Ok(t),
        Total::Float(_) => Ok(total),
    }
}

/// The integers of 128 bits hold the total of any column of fewer than two to the power
/// of sixty-three rows.
pub proof fn sums_of_few_rows_fit(cells: Seq<Cell>, n: nat)
    requires
        n <= 0x7fff_ffff_ffff_ffff,
    ensures
        -(n * 0x1_0000_0000_0000_0000) <= sum_of(cells, n) <= n * 0x1_0000_0000_0000_0000,
    decreases n,
{
    if n > 0 {
        sums_of_few_rows_fit(cells, (n - 1) as nat);
    }
}

/// The spelling of a total.
pub open spec fn total_text(total: Total) -> Seq<char> {
    match total {
        Total::Integer(t) => decimal_int(t as int),
        Total::Float(m) => m.shown@,
    }
}

/// The spelling of a total.
pub fn describe(total: &Total) -> (r: String)
    ensures
        r@ == total_text(*total),
{
    match total {
        Total::Integer(t) => decimal_i128(*t),
        Total::Float(m) => m.shown.clone(),
    }
}

/// Whether one float is less than another; false where either is not a number.
pub open spec fn float_less(a: u64, b: u64) -> bool {
    !nan64(a) && !nan64(b) && key64(a) < key64(b)
}

/// Whether one float is less than another.
pub fn is_float_less(a: u64, b: u64) -> (r: bool)
    ensures
        r == float_less(a, b),
{
    !is_nan64(a) && !is_nan64(b) && order_key64(a) < order_key64(b)
}

/// Why a float lies outside its limits, or nothing where it does not.
pub open spec fn float_outside(m: Measured, min: Option<u64>, max: Option<u64>) -> Option<Seq<char>> {
    if min is Some && float_less(m.bits, min.unwrap()) {
        Some("below the minimum "@ + m.min_shown@)
    } else if max is Some && float_less(max.unwrap(), m.bits) {
        Some("above the maximum "@ + m.max_shown@)
    } else {
        None
    }
}

/// Why a float lies outside its limits.
pub fn measured_outside(m: &Measured, min: Option<u64>, max: Option<u64>) -> (r: Option<String>)
    ensures
        match float_outside(*m, min, max) {
            Some(t) => r matches Some(s) && s@ == t,
            None => r is None,
        },
{
    match min {
        Some(low) => if is_float_less(m.bits, low) {
            return Some(cat2("below the minimum ", m.min_shown.as_str()));
        },
        None => {},
    }
    match max {
        Some(high) => if is_float_less(high, m.bits) {
            return Some(cat2("above the maximum ", m.max_shown.as_str()));
        },
        None => {},
    }
    None
}

/// Why a total is unacceptable, or nothing where it lies inside its limits.
pub open spec fn total_outside(total: Total, bounds: SumBounds) -> Option<Seq<char>> {
    match (total, bounds) {
        (Total::Integer(t), SumBounds::Integer { low, high }) => if low is Some && t < low.unwrap() {
            Some("below the minimum "@ + decimal_int(low.unwrap() as int))
        } else if high is Some && t > high.unwrap() {
            Some("above the maximum "@ + decimal_int(high.unwrap() as int))
        } else {
            None
        },
        (Total::Float(m), SumBounds::Float { min, max }) => float_outside(m, min, max),
        _ => Some("not comparable with its declared bounds"@),
    }
}

/// Why a total is unacceptable, or nothing where it lies inside its limits.
pub fn outside(total: &Total, bounds: &SumBounds) -> (r: Option<String>)
    ensures
        match total_outside(*total, *bounds) {
            Some(t) => r matches Some(s) && s@ == t,
            None => r is None,
        },
{
    match (total, bounds) {
        (Total::Integer(t), SumBounds::Integer { low, high }) => {
            match low {
                Some(l) => if *t < *l {
                    let shown = decimal_i128(*l);
                    return Some(cat2("below the minimum ", shown.as_str()));
                },
                None => {},
            }
            match high {
                Some(h) => if *t > *h {
                    let shown = decimal_i128(*h);
                    return Some(cat2("above the maximum ", shown.as_str()));
                },
                None => {},
            }
            None
        },
        (Total::Float(m), SumBounds::Float { min, max }) => measured_outside(m, *min, *max),
        _ => Some(text("not comparable with its declared bounds")),
    }
}

} // verus!
