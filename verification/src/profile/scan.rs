//! A pass over a dataset: its profile, its fingerprint, and its findings.

use crate::digest::{blake3_digest, hex};
use crate::distinct::budget::{
    column_storages, column_storages_grow, columns_need, columns_need_grows, columns_restored,
    columns_storage, columns_suit, damage_has_room, end_has_room, plenty_of_spare, room_for_columns,
    some_column_damaged, spare, spare_after, spare_once_stored, told_and_whole, told_for_columns,
};
use crate::distinct::order::{
    keys, sorted, tally, tally_of_sorted_is_exact, Entry, ValueKind,
};
use crate::distinct::run::readable as run_readable;
use crate::distinct::state::{
    damaged, kept, not_inserted, not_merged, record_total, summed, ExactState,
};
use crate::encoding::{encodable, item_of};
use crate::error::{ErrorView, ProofFrameError};
use crate::execution::dataset_state::{
    exact_at, exact_empty, open_states, sample_bytes, samples_refused,
};
use crate::execution::exact_rules::{fed_state, same_account};
use crate::execution::validation::{
    finding_views, recorded_all, Finding, Found, ValidationOutcome,
};
use crate::fingerprint::{body_v1, header_v1, readable, rows_of, V1FingerprintState};
use crate::profile::columns::{column_entries, ColumnState, DistinctMode};
use crate::profile::legacy::Contract;
use crate::profile::rules::{
    absent_columns, checked_rows, described, pattern_error, Checked, RuleValidation,
};
use crate::resource::{root_room, ResourceAccount, ResourceLimits};
use crate::text::text;
use crate::value::{same_schema, schema_eq, Batch, Field, Schema};
use vstd::prelude::*;
use vstd::string::*;

verus! {

/// Summary of a column. The lowest and highest numbers are bit patterns of floats.
#[derive(Debug)]
pub struct ColumnProfile {
    pub name: String,
    pub data_type: String,
    pub null_count: u64,
    pub non_null_count: u64,
    pub distinct_count: Option<usize>,
    pub min: Option<u64>,
    pub max: Option<u64>,
}

/// Deterministic profile of a dataset with the fingerprint of its contents.
#[derive(Debug)]
pub struct Profile {
    pub rows: u64,
    pub columns: Vec<ColumnProfile>,
    pub fingerprint: String,
}

/// Findings, with the profile and fingerprint of the dataset.
#[derive(Debug)]
pub struct ValidationReport {
    pub valid: bool,
    pub violation_count: u64,
    pub truncated: bool,
    pub findings: Vec<Finding>,
    pub profile: Profile,
}

/// The first cell of the first `n` rows, row by row, that has no encoding: its column.
pub open spec fn first_unencodable(batch: Batch, n: nat) -> Option<int>
    decreases n,
{
    if n == 0 {
        None
    } else {
        match first_unencodable(batch, (n - 1) as nat) {
            Some(c) => Some(c),
            None => unencodable_in_row(batch, n - 1, batch.columns@.len()),
        }
    }
}

/// The first of the first `n` cells of a row that has no encoding.
pub open spec fn unencodable_in_row(batch: Batch, row: int, n: nat) -> Option<int>
    decreases n,
{
    if n == 0 {
        None
    } else {
        match unencodable_in_row(batch, row, (n - 1) as nat) {
            Some(c) => Some(c),
            None => if encodable(item_of(batch.columns@[n - 1]@[row])) {
                None
            } else {
                Some(n - 1)
            },
        }
    }
}

proof fn unencodable_row_stays(batch: Batch, row: int, early: nat, late: nat)
    requires
        early <= late,
        unencodable_in_row(batch, row, early) is Some,
    ensures
        unencodable_in_row(batch, row, late) == unencodable_in_row(batch, row, early),
    decreases late,
{
    if early < late {
        unencodable_row_stays(batch, row, early, (late - 1) as nat);
    }
}

proof fn first_unencodable_stays(batch: Batch, early: nat, late: nat)
    requires
        early <= late,
        first_unencodable(batch, early) is Some,
    ensures
        first_unencodable(batch, late) == first_unencodable(batch, early),
    decreases late,
{
    if early < late {
        first_unencodable_stays(batch, early, (late - 1) as nat);
    }
}

/// The first cell, row by row, that has no encoding: its column.
fn find_unencodable(batch: &Batch) -> (r: Option<usize>)
    requires
        batch.wf(),
    ensures
        match first_unencodable(*batch, batch.rows as nat) {
            Some(c) => r matches Some(x) && x == c && x < batch.columns@.len(),
            None => r is None && readable(*batch, batch.columns@.len()),
        },
{
    let mut row: usize = 0;
    while row < batch.rows
        invariant
            row <= batch.rows,
            batch.wf(),
            first_unencodable(*batch, row as nat) is None,
            forall|c: int, k: int|
                #![trigger batch.columns@[c]@[k]]
                0 <= c < batch.columns@.len() && 0 <= k < row ==> encodable(
                    item_of(batch.columns@[c]@[k]),
                ),
        decreases batch.rows - row,
    {
        let mut c: usize = 0;
        while c < batch.columns.len()
            invariant
                row < batch.rows,
                c <= batch.columns@.len(),
                batch.wf(),
                first_unencodable(*batch, row as nat) is None,
                unencodable_in_row(*batch, row as int, c as nat) is None,
                forall|j: int|
                    0 <= j < c ==> encodable(
                        item_of(#[trigger] batch.columns@[j]@[row as int]),
                    ),
            decreases batch.columns@.len() - c,
        {
            assert(batch.columns@[c as int]@.len() == batch.rows);
            if crate::encoding::canonical_value_bytes(&batch.columns[c][row]).is_none() {
                proof {
                    unencodable_row_stays(
                        *batch,
                        row as int,
                        (c + 1) as nat,
                        batch.columns@.len(),
                    );
                    first_unencodable_stays(*batch, (row + 1) as nat, batch.rows as nat);
                }
                return Some(c);
            }
            c = c + 1;
        }
        row = row + 1;
    }
    None
}

/// A dataset while it is profiled.
pub struct ProfileScan {
    pub columns: Vec<ColumnState>,
    rules: RuleValidation,
    fingerprint: V1FingerprintState,
}

impl ProfileScan {
    /// What has been counted of the columns.
    pub closed spec fn columns(&self) -> Seq<ColumnState> {
        self.columns@
    }

    /// What the rules have found.
    pub closed spec fn found(&self) -> Found {
        self.rules.found()
    }

    /// The values that each set of rules has seen.
    pub closed spec fn seen(&self) -> Seq<Set<Seq<u8>>> {
        self.rules.seen()
    }

    /// The bytes of the fingerprint.
    pub closed spec fn stream(&self) -> Seq<u8> {
        self.fingerprint.stream()
    }

    /// The number of rows.
    pub closed spec fn rows(&self) -> u64 {
        self.fingerprint.count()
    }

    /// The scan belongs to a table and a contract, and stands at nodes of an account.
    pub closed spec fn wf(&self, schema: Schema, contract: Contract, account: ResourceAccount) -> bool {
        &&& self.columns@.len() == schema.fields@.len()
        &&& self.fingerprint.width() == schema.fields@.len()
        &&& self.rules.wf(contract, schema.fields@)
        &&& forall|c: int|
            #![trigger self.columns@[c]]
            0 <= c < self.columns@.len() ==> self.columns@[c].wf(account)
                && self.columns@[c].null_count + self.columns@[c].non_null_count
                == self.fingerprint.count()
    }

    /// Starts a scan.
    pub fn begin(
        schema: &Schema,
        contract: &Contract,
        mode: DistinctMode,
        resources: ResourceLimits,
        row_count_hint: Option<u64>,
    ) -> (r: Result<(ResourceAccount, Self), ProofFrameError>)
        ensures
            mode == DistinctMode::Off ==> match pattern_error(contract.columns@) {
                Some(m) => r matches Err(e) && e@ == ErrorView::Regex(m),
                None => r is Ok,
            },
            mode == DistinctMode::Exact ==> {
                let roomy = schema.fields@.len() == 0 || (resources.max_samples * 16 <= usize::MAX
                    && schema.fields@.len() * (resources.max_samples * 16)
                    <= resources.max_memory_bytes);
                &&& r is Ok <==> roomy && pattern_error(contract.columns@) is None
                &&& r matches Err(e) ==> if roomy {
                    e@ == ErrorView::Regex(pattern_error(contract.columns@).unwrap())
                } else {
                    samples_refused(resources.max_samples, e@)
                }
            },
            r matches Ok(pair) ==> {
                &&& pair.0.wf()
                &&& pair.0.spec_limits() == resources
                &&& pair.1.wf(*schema, *contract, pair.0)
                &&& pair.1.rows() == 0
                &&& pair.1.stream() == header_v1(*schema)
                &&& pair.1.found() == recorded_all(
                    Found {
                        findings: Seq::empty(),
                        count: 0,
                        limit: contract.max_findings as nat,
                        places: 0,
                        owed: 0,
                    },
                    absent_columns(schema.fields@, contract.columns@),
                )
                &&& pair.1.seen() == Seq::new(
                    contract.columns@.len(),
                    |i: int| Set::<Seq<u8>>::empty(),
                )
                &&& pair.1.columns().len() == schema.fields@.len()
                &&& forall|c: int|
                    #![trigger pair.1.columns()[c]]
                    0 <= c < schema.fields@.len() ==> {
                        let s = pair.1.columns()[c];
                        &&& s.null_count == 0 && s.non_null_count == 0
                        &&& s.min is None && s.max is None
                        &&& (mode == DistinctMode::Off) == s.distinct is None
                        &&& s.distinct matches Some(x) ==> exact_empty(x, ValueKind::Bytes, true)
                    }
            },
    {
        let mut account = ResourceAccount::root(resources);
        let mut columns: Vec<ColumnState> = Vec::new();
        let n: usize = schema.fields.len();
        match mode {
            DistinctMode::Off => {
                let mut i: usize = 0;
                while i < n
                    invariant
                        i <= n,
                        columns@.len() == i,
                        forall|k: int|
                            #![trigger columns@[k]]
                            0 <= k < i ==> columns@[k].null_count == 0
                                && columns@[k].non_null_count == 0 && columns@[k].min is None
                                && columns@[k].max is None && columns@[k].distinct is None,
                    decreases n - i,
                {
                    columns.push(ColumnState::new(None));
                    i = i + 1;
                }
            },
            DistinctMode::Exact => {
                let share: u64 = resources.max_memory_bytes;
                let ghost start = account;
                proof {
                    root_room(start);
                    assert(0 * sample_bytes(start) == 0) by (nonlinear_arith);
                    let x = sample_bytes(start);
                    if n > 0 {
                        assert(x <= n * x) by (nonlinear_arith)
                            requires
                                n > 0,
                                x >= 0,
                        ;
                    }
                }
                let mut states = match open_states(
                    n,
                    &mut account,
                    0,
                    share,
                    true,
                    row_count_hint,
                    Ghost(start),
                    Ghost(0),
                ) {
                    Ok(v) => v,
                    Err(e) => return Err(e),
                };
                while states.len() > 0
                    invariant
                        states@.len() + columns@.len() == n,
                        forall|k: int|
                            #![trigger states@[k]]
                            0 <= k < states@.len() ==> exact_at(states@[k], account)
                                && exact_empty(states@[k], ValueKind::Bytes, true),
                        forall|k: int|
                            #![trigger columns@[k]]
                            0 <= k < columns@.len() ==> columns@[k].null_count == 0
                                && columns@[k].non_null_count == 0 && columns@[k].min is None
                                && columns@[k].max is None && (
                            columns@[k].distinct matches Some(x) && exact_at(x, account)
                                && exact_empty(x, ValueKind::Bytes, true)),
                    decreases states@.len(),
                {
                    let ghost last = states@.last();
                    assert(states@[states@.len() - 1] == last);
                    match states.pop() {
                        Some(s) => columns.push(ColumnState::new(Some(s))),
                        None => {},
                    }
                }
            },
        }
        let rules = RuleValidation::new(schema, contract)?;
        let fingerprint = V1FingerprintState::begin(schema);
        Ok((account, ProfileScan { columns, rules, fingerprint }))
    }

    /// Whether no column has exact state.
    pub open spec fn inexact(&self) -> bool {
        forall|c: int|
            0 <= c < self.columns().len() ==> (#[trigger] self.columns()[c]).distinct is None
    }

    /// The memory that the exact states may come to hold while a batch is taken in.
    pub open spec fn batch_need(&self, batch: Batch) -> int {
        columns_need(
            states_of(self.columns()),
            batch_entries(batch, self.rows() as int),
            self.columns().len(),
        )
    }

    /// The temporary storage that the exact states may come to take while a batch is taken
    /// in.
    pub open spec fn batch_storage(&self, batch: Batch) -> int {
        columns_storage(
            states_of(self.columns()),
            batch_entries(batch, self.rows() as int),
            self.columns().len(),
        )
    }

    /// Takes in a batch. `shown` holds the display texts of the cells, and `numbers` the
    /// floats that they are. The runs that the exact state of each column had to write are
    /// returned.
    #[verifier::spinoff_prover]
    #[verifier::rlimit(80)]
    pub fn update(
        &mut self,
        schema: &Schema,
        contract: &Contract,
        batch_schema: &Schema,
        batch: &Batch,
        shown: &Vec<Vec<String>>,
        numbers: &Vec<Vec<Option<u64>>>,
        account: &mut ResourceAccount,
    ) -> (r: Result<Vec<Vec<Vec<u8>>>, ProofFrameError>)
        requires
            old(account).wf(),
            old(self).wf(*schema, *contract, *old(account)),
            described(schema.fields@, *batch, shown@, numbers@),
            old(self).rows() + batch.rows <= u64::MAX,
        ensures
            same_account(*old(account), *final(account)),
            if !same_schema(*batch_schema, *schema) {
                r matches Err(e) && e@ == ErrorView::SchemaMismatch(
                    "record batch schema changed during profiling"@,
                )
            } else {
                match first_unencodable(*batch, batch.rows as nat) {
                    Some(c) => r matches Err(e) && e@ == ErrorView::UnsupportedType(
                        schema.fields@[c].type_text@,
                    ),
                    None => {
                        &&& old(self).inexact() ==> r is Ok
                        &&& r matches Err(e) ==> not_inserted(e@)
                        &&& columns_suit(
                            states_of(old(self).columns()),
                            batch_entries(*batch, old(self).rows() as int),
                        ) ==> forall|m: int, t: int|
                            #![trigger spare(old(account).nodes(), m, t)]
                            spare(old(account).nodes(), m, t) && m >= old(self).batch_need(*batch)
                                && t >= old(self).batch_storage(*batch) ==> r is Ok && spare(
                                final(account).nodes(),
                                m - old(self).batch_need(*batch),
                                t - old(self).batch_storage(*batch),
                            )
                    },
                }
            },
            r matches Ok(runs) ==> {
                &&& final(self).wf(*schema, *contract, *final(account))
                &&& final(self).rows() == old(self).rows() + batch.rows
                &&& final(self).stream() == old(self).stream() + body_v1(rows_of(*batch))
                &&& final(self).columns().len() == old(self).columns().len()
                &&& runs@.len() == schema.fields@.len()
                &&& forall|c: int|
                    #![trigger final(self).columns()[c]]
                    0 <= c < schema.fields@.len() ==> old(self).columns()[c].counted(
                        final(self).columns()[c],
                        batch.columns@[c]@,
                        numbers@[c]@,
                    ) && final(self).columns()[c].distinct is Some == old(
                        self,
                    ).columns()[c].distinct is Some
                &&& forall|c: int|
                    #![trigger runs@[c]]
                    0 <= c < schema.fields@.len() ==> match old(self).columns()[c].distinct {
                        Some(s) => fed_state(
                            s,
                            final(self).columns()[c].distinct.unwrap(),
                            column_entries(batch.columns@[c]@, old(self).rows() as int),
                            runs@[c]@,
                        ),
                        None => runs@[c]@.len() == 0,
                    }
                &&& ({
                    let t = checked_rows(
                        Checked { findings: Seq::empty(), seen: old(self).seen() },
                        contract.columns@,
                        schema.fields@,
                        *batch,
                        shown@,
                        numbers@,
                        old(self).rows() as int,
                        batch.rows as nat,
                    );
                    final(self).seen() == t.seen && final(self).found() == recorded_all(
                        old(self).found(),
                        t.findings,
                    )
                })
            },
    {
        if !schema_eq(batch_schema, schema) {
            return Err(
                ProofFrameError::SchemaMismatch(
                    text("record batch schema changed during profiling"),
                ),
            );
        }
        match find_unencodable(batch) {
            Some(c) => {
                return Err(
                    ProofFrameError::UnsupportedType(text(schema.fields[c].type_text.as_str())),
                );
            },
            None => {},
        }
        let row_offset: u64 = self.fingerprint.rows();
        self.fingerprint.update(batch);
        let ghost given = self.columns@;
        let ghost exact = !old(self).inexact();
        let ghost states = states_of(given);
        let ghost lists = batch_entries(*batch, row_offset as int);
        let ghost good = columns_suit(states, lists);
        let ghost start = account.nodes();
        let ghost width = given.len();
        let mut runs: Vec<Vec<Vec<u8>>> = Vec::new();
        let mut c: usize = 0;
        while c < batch.columns.len()
            invariant
                c <= batch.columns@.len(),
                described(schema.fields@, *batch, shown@, numbers@),
                readable(*batch, schema.fields@.len()),
                row_offset + batch.rows <= u64::MAX,
                same_account(*old(account), *account),
                given == old(self).columns@,
                exact == !old(self).inexact(),
                states == states_of(given),
                lists == batch_entries(*batch, row_offset as int),
                good == columns_suit(states, lists),
                start == old(account).nodes(),
                width == given.len(),
                good ==> forall|m: int, t: int|
                    #![trigger spare(start, m, t)]
                    spare(start, m, t) && m >= columns_need(states, lists, width) && t
                        >= columns_storage(states, lists, width) ==> spare(
                        account.nodes(),
                        m - columns_need(states, lists, c as nat),
                        t - columns_storage(states, lists, c as nat),
                    ),
                same_schema(*batch_schema, *schema),
                first_unencodable(*batch, batch.rows as nat) is None,
                self.columns@.len() == schema.fields@.len(),
                given.len() == schema.fields@.len(),
                self.rules == old(self).rules,
                self.fingerprint.width() == schema.fields@.len(),
                self.fingerprint.count() == row_offset + batch.rows,
                self.fingerprint.stream() == old(self).stream() + body_v1(rows_of(*batch)),
                row_offset == old(self).rows(),
                runs@.len() == c,
                forall|k: int|
                    #![trigger self.columns@[k]]
                    c <= k < given.len() ==> self.columns@[k] == given[k],
                forall|k: int|
                    #![trigger given[k]]
                    0 <= k < given.len() ==> given[k].wf(*old(account)) && given[k].null_count
                        + given[k].non_null_count == row_offset,
                forall|k: int|
                    #![trigger self.columns@[k]]
                    0 <= k < c ==> self.columns@[k].wf(*account) && given[k].counted(
                        self.columns@[k],
                        batch.columns@[k]@,
                        numbers@[k]@,
                    ) && self.columns@[k].distinct is Some == given[k].distinct is Some,
                forall|k: int|
                    #![trigger runs@[k]]
                    0 <= k < c ==> match given[k].distinct {
                        Some(s) => fed_state(
                            s,
                            self.columns@[k].distinct.unwrap(),
                            column_entries(batch.columns@[k]@, row_offset as int),
                            runs@[k]@,
                        ),
                        None => runs@[k]@.len() == 0,
                    },
            decreases batch.columns@.len() - c,
        {
            proof {
                assert(batch.columns@[c as int]@.len() == batch.rows);
                assert(numbers@[c as int]@.len() == batch.rows);
                assert(self.columns@[c as int] == given[c as int]);
                assert forall|i: int| 0 <= i < batch.columns@[c as int]@.len() implies encodable(
                    item_of(#[trigger] batch.columns@[c as int]@[i]),
                ) by {}
                assert(old(self).columns()[c as int] == given[c as int]);
                assert forall|k: int|
                    #![trigger states[k]]
                    0 <= k < states.len() implies (states[k] matches Some(s) ==> s.wf()) by {
                    assert(given[k].wf(*old(account)));
                }
                columns_need_grows(states, lists, (c + 1) as nat, width);
                if good && states[c as int] is Some && lists[c as int].len() > 0 && exists|
                    m: int,
                    t: int,
                |
                    #![trigger spare(start, m, t)]
                    spare(start, m, t) && m >= columns_need(states, lists, width) && t
                        >= columns_storage(states, lists, width) {
                    let (m, t) = choose|m: int, t: int|
                        #![trigger spare(start, m, t)]
                        spare(start, m, t) && m >= columns_need(states, lists, width) && t
                            >= columns_storage(states, lists, width);
                    plenty_of_spare(
                        &states[c as int]->0,
                        account,
                        lists[c as int],
                        m - columns_need(states, lists, c as nat),
                        t - columns_storage(states, lists, c as nat),
                    );
                }
            }
            let ghost before = account.nodes();
            match self.columns[c].update(account, &batch.columns[c], &numbers[c], row_offset) {
                Ok(written) => {
                    proof {
                        assert forall|m: int, t: int|
                            #![trigger spare(start, m, t)]
                            good && spare(start, m, t) && m >= columns_need(states, lists, width)
                                && t >= columns_storage(states, lists, width) implies spare(
                            account.nodes(),
                            m - columns_need(states, lists, (c + 1) as nat),
                            t - columns_storage(states, lists, (c + 1) as nat),
                        ) by {
                            if states[c as int] is Some {
                                spare_after(
                                    before,
                                    account.nodes(),
                                    states[c as int]->0,
                                    self.columns@[c as int].distinct->0,
                                    lists[c as int],
                                    m - columns_need(states, lists, c as nat),
                                    t - columns_storage(states, lists, c as nat),
                                );
                            }
                        }
                    }
                    runs.push(written);
                },
                Err(e) => {
                    assert(states[c as int] is Some);
                    return Err(e);
                },
            }
            c = c + 1;
        }
        proof {
            assert forall|k: int| 0 <= k < self.columns@.len() implies {
                &&& (#[trigger] self.columns@[k]).null_count + self.columns@[k].non_null_count
                    == self.fingerprint.count()
            } by {
                assert(given[k].null_count + given[k].non_null_count == row_offset);
                assert(batch.columns@[k]@.len() == batch.rows);
            }
        }
        self.rules.update(contract, schema, batch, shown, numbers, row_offset);
        Ok(runs)
    }

    /// Ends the scan: the profile of all rows, and what the rules found. `stored` holds the
    /// bytes of the runs of every column with exact state.
    #[verifier::spinoff_prover]
    #[verifier::rlimit(60)]
    pub fn finish(
        self,
        schema: &Schema,
        contract: &Contract,
        account: &mut ResourceAccount,
        stored: &Vec<Vec<&[u8]>>,
        cancelled: bool,
    ) -> (r: Result<(Profile, ValidationOutcome), ProofFrameError>)
        requires
            old(account).wf(),
            self.wf(*schema, *contract, *old(account)),
            stored@.len() == self.columns().len(),
            forall|c: int|
                #![trigger self.columns()[c]]
                0 <= c < self.columns().len() ==> countable(self.columns()[c], stored@[c]@),
        ensures
            same_account(*old(account), *final(account)),
            self.inexact() ==> r is Ok,
            r matches Err(e) ==> (if cancelled {
                e@ == ErrorView::Cancelled
            } else {
                e@ is CorruptData || e@ is ResourceLimit
            }),
            !cancelled ==> forall|m: int, t: int| #[trigger]
                room_for_columns(
                    old(account).nodes(),
                    states_of(self.columns()),
                    stored@,
                    m,
                    t,
                ) ==> r is Ok && spare(
                    final(account).nodes(),
                    m,
                    t - column_storages(states_of(self.columns()), self.columns().len()),
                ),
            !cancelled && columns_restored(states_of(self.columns()), stored@) ==> (r matches Err(e) ==> not_merged(
                e@,
            )),
            some_column_damaged(states_of(self.columns()), stored@) ==> r is Err,
            !cancelled && some_column_damaged(states_of(self.columns()), stored@) ==> forall|m: int, t: int| #[trigger]
                told_for_columns(old(account).nodes(), states_of(self.columns()), stored@, m, t) ==> (r matches Err(e)
                    && e@ is CorruptData),
            r matches Ok(pair) ==> {
                &&& pair.0.rows == self.rows()
                &&& pair.0.fingerprint@ == "pf-fp-v1:"@ + hex(blake3_digest(self.stream()))
                &&& pair.0.columns@.len() == schema.fields@.len()
                &&& forall|c: int|
                    #![trigger pair.0.columns@[c]]
                    0 <= c < schema.fields@.len() ==> profiled(
                        pair.0.columns@[c],
                        schema.fields@[c],
                        self.columns()[c],
                        stored@[c]@,
                    )
                &&& finding_views(pair.1.findings@) == self.found().findings
                &&& pair.1.violation_count == self.found().count
                &&& pair.1.truncated == (self.found().count > self.found().findings.len())
            },
    {
        let rows: u64 = self.fingerprint.rows();
        let given = self;
        let ProfileScan { mut columns, rules, fingerprint } = given;
        let ghost all = columns@;
        let mut profiles: Vec<ColumnProfile> = Vec::new();
        let n: usize = columns.len();
        let mut backward: Vec<ColumnState> = Vec::new();
        while columns.len() > 0
            invariant
                columns@.len() + backward@.len() == all.len(),
                columns@ == all.take(columns@.len() as int),
                forall|k: int|
                    0 <= k < backward@.len() ==> #[trigger] backward@[k] == all[all.len() - 1 - k],
            decreases columns@.len(),
        {
            let ghost last = columns@.last();
            match columns.pop() {
                Some(x) => {
                    assert(x == all[columns@.len() as int]);
                    backward.push(x);
                },
                None => {},
            }
            assert(columns@ =~= all.take(columns@.len() as int));
        }
        let ghost states = states_of(all);
        let ghost start = account.nodes();
        let mut c: usize = 0;
        while c < n
            invariant
                c <= n,
                states == states_of(all),
                start == old(account).nodes(),
                !cancelled ==> forall|m: int, t: int| #[trigger]
                    room_for_columns(start, states, stored@, m, t) ==> spare(
                        account.nodes(),
                        m,
                        t - column_storages(states, c as nat),
                    ),
                !cancelled ==> forall|m: int, t: int| #[trigger]
                    told_for_columns(start, states, stored@, m, t) ==> spare(
                        account.nodes(),
                        m,
                        t - column_storages(states, c as nat),
                    ),
                n == all.len(),
                n == schema.fields@.len(),
                n == stored@.len(),
                all == self.columns@,
                backward@.len() == n - c,
                forall|k: int|
                    0 <= k < backward@.len() ==> #[trigger] backward@[k] == all[n - 1 - k],
                same_account(*old(account), *account),
                forall|k: int|
                    #![trigger all[k]]
                    0 <= k < n ==> all[k].wf(*old(account)) && countable(all[k], stored@[k]@),
                profiles@.len() == c,
                forall|k: int|
                    #![trigger profiles@[k]]
                    0 <= k < c ==> profiled(
                        profiles@[k],
                        schema.fields@[k],
                        all[k],
                        stored@[k]@,
                    ),
                forall|k: int|
                    #![trigger all[k]]
                    0 <= k < c ==> !(all[k].distinct matches Some(s) && damaged(
                        s.metas(),
                        stored@[k]@,
                    )),
            decreases n - c,
        {
            let ghost state = all[c as int];
            assert(backward@[backward@.len() - 1] == state);
            let column = match backward.pop() {
                Some(x) => x,
                None => ColumnState::new(None),
            };
            assert(column == state);
            let ColumnState { null_count, non_null_count, distinct, min, max } = column;
            let distinct_count: Option<usize> = match distinct {
                None => None,
                Some(s) => {
                    let ghost exact = s;
                    let ghost before = account.nodes();
                    proof {
                        column_storages_grow(states, (c + 1) as nat, n as nat);
                        assert(states[c as int] == Some(exact));
                        if !cancelled && exact.metas().len() > 0 && exists|m: int, t: int|
                            #[trigger]
                            room_for_columns(start, states, stored@, m, t) {
                            let (m, t) = choose|m: int, t: int| #[trigger]
                                room_for_columns(start, states, stored@, m, t);
                            end_has_room(
                                &exact,
                                account,
                                stored@[c as int]@,
                                m,
                                t - column_storages(states, c as nat),
                            );
                        }
                    }
                    proof {
                        let here = stored@[c as int]@;
                        if !cancelled && exact.metas().len() > 0 && exists|m: int, t: int|
                            #[trigger]
                            told_for_columns(start, states, stored@, m, t) {
                            let (m, t) = choose|m: int, t: int| #[trigger]
                                told_for_columns(start, states, stored@, m, t);
                            let left = t - column_storages(states, c as nat);
                            damage_has_room(&exact, account, here, m, left);
                            if !damaged(exact.metas(), here) {
                                told_and_whole(exact, here);
                                end_has_room(&exact, account, here, m, left);
                            }
                        }
                    }
                    match s.finish(account, &stored[c], cancelled) {
                        Ok(summary) => {
                            proof {
                                assert forall|m: int, t: int| #[trigger]
                                    told_for_columns(start, states, stored@, m, t)
                                        && !cancelled implies spare(
                                    account.nodes(),
                                    m,
                                    t - column_storages(states, (c + 1) as nat),
                                ) by {
                                    assert(states[c as int] is Some);
                                    told_and_whole(exact, stored@[c as int]@);
                                    spare_once_stored(
                                        before,
                                        account.nodes(),
                                        m,
                                        t - column_storages(states, c as nat),
                                        exact.end_storage(),
                                    );
                                }
                                assert forall|m: int, t: int| #[trigger]
                                    room_for_columns(start, states, stored@, m, t)
                                        && !cancelled implies spare(
                                    account.nodes(),
                                    m,
                                    t - column_storages(states, (c + 1) as nat),
                                ) by {
                                    assert(states[c as int] is Some);
                                    spare_once_stored(
                                        before,
                                        account.nodes(),
                                        m,
                                        t - column_storages(states, c as nat),
                                        exact.end_storage(),
                                    );
                                }
                                if kept(&exact, stored@[c as int]@) && all_readable(exact) {
                                    let list = choose|list: Seq<Entry>| #[trigger]
                                        sorted(list) && list.to_multiset() == exact.all() && summed(
                                            summary,
                                            tally(
                                                list,
                                                account.spec_limits().max_samples as nat,
                                            ),
                                        );
                                    tally_of_sorted_is_exact(
                                        list,
                                        account.spec_limits().max_samples as nat,
                                    );
                                    assert(holds_distinct(exact, summary.distinct_count));
                                }
                            }
                            Some(summary.distinct_count as usize)
                        },
                        Err(e) => {
                            assert(states[c as int] is Some);
                            return Err(e);
                        },
                    }
                },
            };
            profiles.push(
                ColumnProfile {
                    name: text(schema.fields[c].name.as_str()),
                    data_type: text(schema.fields[c].type_text.as_str()),
                    null_count,
                    non_null_count,
                    distinct_count,
                    min,
                    max,
                },
            );
            c = c + 1;
        }
        assert(!some_column_damaged(states, stored@));
        let print = fingerprint.finish();
        let profile = Profile { rows, columns: profiles, fingerprint: print.to_tagged_string() };
        Ok((profile, rules.finish()))
    }
}

/// The exact states of columns.
pub open spec fn states_of(columns: Seq<ColumnState>) -> Seq<Option<ExactState>> {
    Seq::new(columns.len(), |c: int| columns[c].distinct)
}

/// What a batch feeds to the exact states of its columns.
pub open spec fn batch_entries(batch: Batch, row_offset: int) -> Seq<Seq<Entry>> {
    Seq::new(
        batch.columns@.len(),
        |c: int| column_entries(batch.columns@[c]@, row_offset),
    )
}

/// Whether the stored runs of a column can be counted.
pub open spec fn countable(column: ColumnState, stored: Seq<&[u8]>) -> bool {
    column.distinct matches Some(s) ==> {
        &&& stored.len() == s.metas().len()
        &&& record_total(s.metas(), s.metas().len()) + s.in_memory().len() <= u64::MAX
        &&& forall|i: int|
            0 <= i < s.metas().len() ==> (#[trigger] s.metas()[i]).payload_bytes <= u64::MAX - 60
    }
}

/// Whether every value in memory can be given back by a run.
pub open spec fn all_readable(s: ExactState) -> bool {
    forall|j: int|
        0 <= j < s.in_memory().len() ==> run_readable(#[trigger] s.in_memory()[j], s.spec_kind())
}

/// Whether a state holds so many distinct values.
pub open spec fn holds_distinct(s: ExactState, n: u64) -> bool {
    exists|list: Seq<Entry>| #[trigger]
        sorted(list) && list.to_multiset() == s.all() && keys(list).len() == n
}

/// Whether a summary says what was counted of a column. Distinct values are counted where
/// the runs have the bytes that were written.
pub open spec fn profiled(
    p: ColumnProfile,
    field: Field,
    column: ColumnState,
    stored: Seq<&[u8]>,
) -> bool {
    &&& p.name@ == field.name@
    &&& p.data_type@ == field.type_text@
    &&& p.null_count == column.null_count
    &&& p.non_null_count == column.non_null_count
    &&& p.min == column.min
    &&& p.max == column.max
    &&& match column.distinct {
        None => p.distinct_count is None,
        Some(s) => p.distinct_count is Some && (kept(&s, stored) && all_readable(s) ==> exists|
            n: u64,
        | #[trigger]
            holds_distinct(s, n) && p.distinct_count == Some(n as usize)),
    }
}

/// The report of a validation with its profile.
pub fn validation_report(outcome: ValidationOutcome, profile: Profile) -> (r: ValidationReport)
    ensures
        r.valid == (outcome.violation_count == 0),
        r.violation_count == outcome.violation_count,
        r.truncated == outcome.truncated,
        r.findings == outcome.findings,
        r.profile == profile,
{
    ValidationReport {
        valid: outcome.violation_count == 0,
        violation_count: outcome.violation_count,
        truncated: outcome.truncated,
        findings: outcome.findings,
        profile,
    }
}

/// A column has as many nulls and other values as the dataset has rows.
pub proof fn counts_add_up(
    scan: ProfileScan,
    schema: Schema,
    contract: Contract,
    account: ResourceAccount,
    c: int,
)
    requires
        scan.wf(schema, contract, account),
        0 <= c < scan.columns().len(),
    ensures
        scan.columns()[c].null_count + scan.columns()[c].non_null_count == scan.rows(),
{
    assert(scan.columns@[c].wf(account));
}

} // verus!
