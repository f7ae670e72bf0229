//! What is counted of a column.

use crate::distinct::budget::{drawn_none, draws, draws_more};
use crate::distinct::order::{Entry, Key, ValueKind, ValueRef};
use crate::distinct::state::{not_inserted, plenty_accepts, plenty_stays, ExactState};
use crate::encoding::{canonical_value_bytes, encodable, encoded, item_of};
use crate::error::{ErrorView, ProofFrameError};
use crate::execution::exact_rules::{
    fed_none, fed_one_more, fed_state, insert_is_step, same_account, same_exact,
};
use crate::numbers::{is_nan64, key64, nan64, order_key64};
use crate::resource::ResourceAccount;
use crate::text::{cat3, str_eq};
use crate::value::Cell;
use vstd::prelude::*;
use vstd::string::*;

verus! {

/// Exact distinct counting can dominate large profiles, so callers can opt out.
#[derive(Debug, Clone, Copy, PartialEq, Eq, Structural)]
pub enum DistinctMode {
    Off,
    Exact,
}

impl DistinctMode {
    /// The mode with a name.
    pub fn from_name(value: &str) -> (r: Result<Self, ProofFrameError>)
        ensures
            if value@ == "none"@ {
                r matches Ok(m) && m == DistinctMode::Off
            } else if value@ == "exact"@ {
                r matches Ok(m) && m == DistinctMode::Exact
            } else {
                r matches Err(e) && e@ == ErrorView::InvalidContract(
                    "Unsupported distinct mode `"@ + value@ + "`; expected `none` or `exact`"@,
                )
            },
    {
        if str_eq(value, "none") {
            Ok(DistinctMode::Off)
        } else if str_eq(value, "exact") {
            Ok(DistinctMode::Exact)
        } else {
            Err(
                ProofFrameError::InvalidContract(
                    cat3("Unsupported distinct mode `", value, "`; expected `none` or `exact`"),
                ),
            )
        }
    }
}

/// How many cells are null.
pub open spec fn nulls(cells: Seq<Cell>) -> nat
    decreases cells.len(),
{
    if cells.len() == 0 {
        0
    } else {
        nulls(cells.drop_last()) + if cells.last() is Null {
            1nat
        } else {
            0
        }
    }
}

/// The lower of two floats, by their bit patterns. What is not a number gives way to what
/// is.
pub open spec fn lower64(a: u64, b: u64) -> u64 {
    if nan64(a) {
        b
    } else if nan64(b) {
        a
    } else if key64(b) < key64(a) {
        b
    } else {
        a
    }
}

/// The higher of two floats, by their bit patterns.
pub open spec fn higher64(a: u64, b: u64) -> u64 {
    if nan64(a) {
        b
    } else if nan64(b) {
        a
    } else if key64(b) > key64(a) {
        b
    } else {
        a
    }
}

/// The lowest number of a column, where it had one before.
pub open spec fn lowest(so_far: Option<u64>, cells: Seq<Cell>, numbers: Seq<Option<u64>>) -> Option<
    u64,
>
    decreases cells.len(),
{
    if cells.len() == 0 {
        so_far
    } else {
        let before = lowest(so_far, cells.drop_last(), numbers);
        match numbers[cells.len() - 1] {
            Some(n) => if cells.last() is Null {
                before
            } else {
                match before {
                    Some(m) => Some(lower64(m, n)),
                    None => Some(n),
                }
            },
            None => before,
        }
    }
}

/// The highest number of a column, where it had one before.
pub open spec fn highest(so_far: Option<u64>, cells: Seq<Cell>, numbers: Seq<Option<u64>>) -> Option<
    u64,
>
    decreases cells.len(),
{
    if cells.len() == 0 {
        so_far
    } else {
        let before = highest(so_far, cells.drop_last(), numbers);
        match numbers[cells.len() - 1] {
            Some(n) => if cells.last() is Null {
                before
            } else {
                match before {
                    Some(m) => Some(higher64(m, n)),
                    None => Some(n),
                }
            },
            None => before,
        }
    }
}

/// The values of a column, each with the number of its row. Nulls are passed over.
pub open spec fn column_entries(cells: Seq<Cell>, row_offset: int) -> Seq<Entry>
    decreases cells.len(),
{
    if cells.len() == 0 {
        Seq::empty()
    } else {
        let before = column_entries(cells.drop_last(), row_offset);
        if cells.last() is Null {
            before
        } else {
            before.push(
                (
                    Key::Bytes(encoded(item_of(cells.last()))),
                    (row_offset + cells.len() - 1) as u64,
                ),
            )
        }
    }
}

proof fn entries_grow(cells: Seq<Cell>, row_offset: int, n: int)
    requires
        0 <= n <= cells.len(),
    ensures
        column_entries(cells.take(n), row_offset).len() <= column_entries(
            cells,
            row_offset,
        ).len(),
        column_entries(cells.take(n), row_offset) == column_entries(cells, row_offset).take(
            column_entries(cells.take(n), row_offset).len() as int,
        ),
    decreases cells.len(),
{
    let a = column_entries(cells.take(n), row_offset);
    if n < cells.len() {
        entries_grow(cells.drop_last(), row_offset, n);
        assert(cells.drop_last().take(n) =~= cells.take(n));
        let m = column_entries(cells.drop_last(), row_offset);
        assert(column_entries(cells, row_offset).take(a.len() as int) =~= m.take(
            a.len() as int,
        ));
    } else {
        assert(cells.take(n) =~= cells);
        assert(a.take(a.len() as int) =~= a);
    }
}

fn lower(a: Option<u64>, n: u64) -> (r: Option<u64>)
    ensures
        r == Some(
            match a {
                Some(m) => lower64(m, n),
                None => n,
            },
        ),
{
    match a {
        None => Some(n),
        Some(m) => if is_nan64(m) {
            Some(n)
        } else if is_nan64(n) {
            Some(m)
        } else if order_key64(n) < order_key64(m) {
            Some(n)
        } else {
            Some(m)
        },
    }
}

fn higher(a: Option<u64>, n: u64) -> (r: Option<u64>)
    ensures
        r == Some(
            match a {
                Some(m) => higher64(m, n),
                None => n,
            },
        ),
{
    match a {
        None => Some(n),
        Some(m) => if is_nan64(m) {
            Some(n)
        } else if is_nan64(n) {
            Some(m)
        } else if order_key64(n) > order_key64(m) {
            Some(n)
        } else {
            Some(m)
        },
    }
}

/// What has been counted of a column. The lowest and highest numbers are bit patterns.
pub struct ColumnState {
    pub null_count: u64,
    pub non_null_count: u64,
    pub distinct: Option<ExactState>,
    pub min: Option<u64>,
    pub max: Option<u64>,
}

impl ColumnState {
    /// The exact state, where there is one, stands at a node of an account.
    pub open spec fn wf(&self, account: ResourceAccount) -> bool {
        self.distinct matches Some(s) ==> s.wf() && s.spec_node() < account.nodes().len()
            && s.spec_kind() == ValueKind::Bytes
    }

    /// Nothing counted yet.
    pub fn new(distinct: Option<ExactState>) -> (r: Self)
        ensures
            r.null_count == 0,
            r.non_null_count == 0,
            r.distinct == distinct,
            r.min is None,
            r.max is None,
    {
        ColumnState { null_count: 0, non_null_count: 0, distinct, min: None, max: None }
    }

    /// What one more batch leaves of the counts.
    pub open spec fn counted(
        &self,
        after: ColumnState,
        cells: Seq<Cell>,
        numbers: Seq<Option<u64>>,
    ) -> bool {
        &&& after.null_count == self.null_count + nulls(cells)
        &&& after.non_null_count == self.non_null_count + cells.len() - nulls(cells)
        &&& after.min == lowest(self.min, cells, numbers)
        &&& after.max == highest(self.max, cells, numbers)
    }

    /// Counts the cells of a batch. The runs that exact state had to write are returned.
    #[verifier::spinoff_prover]
    #[verifier::rlimit(80)]
    pub fn update(
        &mut self,
        account: &mut ResourceAccount,
        cells: &Vec<Cell>,
        numbers: &Vec<Option<u64>>,
        row_offset: u64,
    ) -> (r: Result<Vec<Vec<u8>>, ProofFrameError>)
        requires
            old(account).wf(),
            old(self).wf(*old(account)),
            numbers@.len() == cells@.len(),
            forall|i: int| 0 <= i < cells@.len() ==> encodable(item_of(#[trigger] cells@[i])),
            row_offset + cells@.len() <= u64::MAX,
            old(self).null_count + old(self).non_null_count <= row_offset,
        ensures
            same_account(*old(account), *final(account)),
            final(self).wf(*final(account)),
            final(self).distinct is Some == old(self).distinct is Some,
            old(self).distinct is None ==> r is Ok && *final(account) == *old(account),
            r matches Err(e) ==> not_inserted(e@),
            r matches Ok(runs) ==> old(self).counted(*final(self), cells@, numbers@),
            old(self).distinct matches Some(s) ==> {
                let list = column_entries(cells@, row_offset as int);
                &&& same_exact(s, final(self).distinct.unwrap())
                &&& r matches Ok(runs) ==> fed_state(s, final(self).distinct.unwrap(), list, runs@)
                    && draws(
                    old(account).nodes(),
                    final(account).nodes(),
                    s,
                    final(self).distinct.unwrap(),
                    list,
                )
                &&& s.plenty(old(account), list) ==> r is Ok
            },
            old(self).distinct is None ==> (r matches Ok(runs) && runs@.len() == 0),
    {
        let mut runs: Vec<Vec<u8>> = Vec::new();
        let ghost first = self.distinct;
        let ghost all = column_entries(cells@, row_offset as int);
        let ghost roomy = first matches Some(s) && s.plenty(account, all);
        let mut i: usize = 0;
        let mut distinct = None;
        std::mem::swap(&mut distinct, &mut self.distinct);
        proof {
            assert(cells@.take(0) =~= Seq::empty());
            if first is Some {
                fed_none(first.unwrap());
                drawn_none(account.nodes(), first.unwrap());
                assert(all.skip(0) =~= all);
            }
        }
        let mut failure: Option<ProofFrameError> = None;
        while i < cells.len() && failure.is_none()
            invariant
                i <= cells@.len(),
                numbers@.len() == cells@.len(),
                forall|k: int| 0 <= k < cells@.len() ==> encodable(item_of(#[trigger] cells@[k])),
                row_offset + cells@.len() <= u64::MAX,
                first == old(self).distinct,
                old(self).wf(*old(account)),
                old(self).null_count + old(self).non_null_count <= row_offset,
                all == column_entries(cells@, row_offset as int),
                roomy == (first matches Some(s) && s.plenty(old(account), all)),
                same_account(*old(account), *account),
                distinct is Some == first is Some,
                first is None ==> *account == *old(account) && runs@.len() == 0
                    && failure is None,
                first matches Some(s) ==> same_exact(s, distinct.unwrap())
                    && distinct.unwrap().spec_node() < account.nodes().len(),
                failure matches Some(e) ==> not_inserted(e@),
                roomy ==> failure is None,
                failure is None ==> old(self).counted(*self, cells@.take(i as int), numbers@),
                failure is None && first is Some ==> ({
                    let done = column_entries(cells@.take(i as int), row_offset as int);
                    &&& fed_state(first.unwrap(), distinct.unwrap(), done, runs@)
                    &&& draws(
                        old(account).nodes(),
                        account.nodes(),
                        first.unwrap(),
                        distinct.unwrap(),
                        done,
                    )
                    &&& roomy ==> distinct.unwrap().plenty(account, all.skip(done.len() as int))
                }),
            decreases cells@.len() - i,
        {
            let cell = &cells[i];
            let ghost now = cells@.take(i as int);
            let ghost next = cells@.take(i + 1);
            proof {
                assert(next.drop_last() =~= now);
                assert(next.last() == *cell);
                nulls_bound(now);
                entries_grow(cells@, row_offset as int, i + 1);
            }
            let null = match cell {
                Cell::Null => true,
                _ => false,
            };
            if null {
                self.null_count = self.null_count + 1;
                i = i + 1;
            } else {
                let ghost done = column_entries(now, row_offset as int);
                let ghost more = column_entries(next, row_offset as int);
                match numbers[i] {
                    Some(n) => {
                        self.min = lower(self.min, n);
                        self.max = higher(self.max, n);
                    },
                    None => {},
                }
                self.non_null_count = self.non_null_count + 1;
                match distinct.take() {
                    None => {},
                    Some(mut state) => {
                        let bytes = match canonical_value_bytes(cell) {
                            Some(b) => b,
                            None => Vec::new(),
                        };
                        let row: u64 = row_offset + i as u64;
                        let ghost b4 = state;
                        let ghost a4 = *account;
                        let ghost rest = all.skip(done.len() as int);
                        let ghost had = runs@;
                        let ghost entry = (Key::Bytes(bytes@), row);
                        proof {
                            assert(more.last() == entry);
                            assert(all.take(more.len() as int).last() == entry);
                            assert(rest[0] == entry);
                            if roomy {
                                plenty_accepts(&state, account, rest);
                            }
                        }
                        match state.insert(account, ValueRef::Bytes(bytes.as_slice()), row) {
                            Ok(written) => {
                                proof {
                                    insert_is_step(b4, a4, state, *account, entry, written);
                                    if roomy {
                                        plenty_stays(&b4, &a4, rest, &state, account, written);
                                        assert(rest.drop_first() =~= all.skip(
                                            more.len() as int,
                                        ));
                                    }
                                }
                                let ghost given = written;
                                match written {
                                    Some(b) => runs.push(b),
                                    None => {},
                                }
                                proof {
                                    draws_more(
                                        old(account).nodes(),
                                        a4.nodes(),
                                        account.nodes(),
                                        first.unwrap(),
                                        b4,
                                        state,
                                        done,
                                        entry,
                                    );
                                    assert(more =~= done.push(entry));
                                    fed_one_more(
                                        first.unwrap(),
                                        b4,
                                        state,
                                        done,
                                        entry,
                                        had,
                                        given,
                                        runs@,
                                    );
                                }
                            },
                            Err(e) => {
                                failure = Some(e);
                            },
                        }
                        distinct = Some(state);
                    },
                }
                i = i + 1;
            }
        }
        self.distinct = distinct;
        assert(failure is None ==> cells@.take(i as int) =~= cells@);
        match failure {
            Some(e) => Err(e),
            None => Ok(runs),
        }
    }
}

proof fn nulls_bound(cells: Seq<Cell>)
    ensures
        nulls(cells) <= cells.len(),
    decreases cells.len(),
{
    if cells.len() > 0 {
        nulls_bound(cells.drop_last());
    }
}

} // verus!
