//! Identities that two datasets share.

use crate::bytes::{le, prefixed, push_all, push_le, push_prefixed, span};
use crate::contract::ast::outcome;
use crate::contract::rules::copy_texts;
use crate::diff::rows::{
    key_error, key_indexes, key_value_error, key_value_error_stays, resolved,
};
use crate::digest::{blake3_digest, digest_of, hex, tagged_hex};
use crate::distinct::merge::{
    common, distinct_count, merged, past, past_is_shorter, value_keys, SharedValues,
};
use crate::distinct::order::{
    key_less, key_total, Entry, Key, OwnedValue, ValueKind, ValueRef,
};
use crate::distinct::sets::{can_compare, intersect_exact_states, kept_account, sealed};
use crate::distinct::state::{
    damaged, kept, not_inserted, plenty_accepts, plenty_stays, ExactState,
};
use crate::encoding::{canonical_value_bytes, encoded, item_of, prefixed_splits};
use crate::error::{ErrorView, ProofFrameError};
use crate::execution::dataset_state::{
    can_open, exact_at, exact_empty, open_state, sample_bytes, samples_refused,
};
use crate::execution::exact_rules::{
    fed_none, fed_one_more, fed_state, insert_is_step, same_account, same_exact,
};
use crate::resource::{
    refusal, room, root_room, stop_when, CancellationToken, ResourceAccount, ResourceKind,
    ResourceLimits,
};
use crate::text::{cat3, decimal, decimal_u64, str_eq, text, texts, utf8};
use crate::value::{first_named, same_schema, same_type, schema_eq, type_eq, Batch, Field, Schema};
use vstd::prelude::*;
use vstd::string::*;

verus! {

/// The choices of a search for shared identities.
pub struct LeakageOptions {
    pub resources: ResourceLimits,
    pub max_samples: usize,
    pub cancellation: CancellationToken,
}

impl Default for LeakageOptions {
    fn default() -> (r: Self)
        ensures
            r.max_samples == r.resources.max_samples,
            r.resources.max_samples == 100,
            r.resources.max_memory_bytes == 512 * 1024 * 1024,
            r.resources.max_temp_bytes == 4 * 1024 * 1024 * 1024,
            r.resources.max_output_records == 100_000,
    {
        let resources = ResourceLimits::default();
        LeakageOptions {
            max_samples: resources.max_samples,
            resources,
            cancellation: CancellationToken::new(),
        }
    }
}

impl LeakageOptions {
    /// The most samples: those asked for, as far as the limits allow.
    pub open spec fn spec_limit(&self) -> usize {
        if self.max_samples < self.resources.max_samples {
            self.max_samples
        } else {
            self.resources.max_samples
        }
    }

    /// The most samples: those asked for, as far as the limits allow.
    pub fn sample_limit(&self) -> (r: usize)
        ensures
            r == self.spec_limit(),
    {
        if self.max_samples < self.resources.max_samples {
            self.max_samples
        } else {
            self.resources.max_samples
        }
    }
}

/// Whether two columns cannot be parts of the same key.
pub open spec fn incompatible(a: Field, b: Field) -> bool {
    a.name@ != b.name@ || !same_type(a.data_type, b.data_type) || a.nullable != b.nullable
}

/// The field that a key names.
pub open spec fn named_field(schema: Schema, key: Seq<char>) -> Field {
    schema.fields@[first_named(schema.fields@, key).unwrap()]
}

/// The first of the first `n` keys whose columns are not compatible.
pub open spec fn first_incompatible(
    train: Schema,
    test: Schema,
    keys: Seq<Seq<char>>,
    n: nat,
) -> Option<nat>
    decreases n,
{
    if n == 0 {
        None
    } else {
        match first_incompatible(train, test, keys, (n - 1) as nat) {
            Some(i) => Some(i),
            None => if incompatible(
                named_field(train, keys[n - 1]),
                named_field(test, keys[n - 1]),
            ) {
                Some((n - 1) as nat)
            } else {
                None
            },
        }
    }
}

proof fn first_incompatible_stays(
    train: Schema,
    test: Schema,
    keys: Seq<Seq<char>>,
    early: nat,
    late: nat,
)
    requires
        early <= late,
        first_incompatible(train, test, keys, early) is Some,
    ensures
        first_incompatible(train, test, keys, late) == first_incompatible(
            train,
            test,
            keys,
            early,
        ),
    decreases late,
{
    if early < late {
        first_incompatible_stays(train, test, keys, early, (late - 1) as nat);
    }
}

/// The error of two datasets whose identities cannot be compared.
pub open spec fn identity_error(train: Schema, test: Schema, keys: Seq<Seq<char>>) -> Option<
    ErrorView,
> {
    if keys.len() == 0 {
        if same_schema(train, test) {
            None
        } else {
            Some(
                ErrorView::SchemaMismatch(
                    "full-row leakage detection requires identical Arrow schemas"@,
                ),
            )
        }
    } else if key_error(train, keys, keys.len()) is Some {
        key_error(train, keys, keys.len())
    } else if key_error(test, keys, keys.len()) is Some {
        key_error(test, keys, keys.len())
    } else {
        match first_incompatible(train, test, keys, keys.len()) {
            Some(i) => Some(
                ErrorView::SchemaMismatch(
                    "logical leakage key "@ + decimal(i) + " has incompatible Arrow fields"@,
                ),
            ),
            None => None,
        }
    }
}

/// The columns of an identity: all of a table, or those that keys name.
pub open spec fn identity_columns(schema: Schema, keys: Seq<Seq<char>>, indexes: Seq<usize>) -> bool {
    if keys.len() == 0 {
        indexes.len() == schema.fields@.len() && forall|i: int|
            0 <= i < indexes.len() ==> (#[trigger] indexes[i]) == i
    } else {
        resolved(schema, keys, indexes)
    }
}

/// The positions of all columns of a table.
fn all_columns(schema: &Schema) -> (r: Vec<usize>)
    ensures
        r@.len() == schema.fields@.len(),
        forall|i: int| 0 <= i < r@.len() ==> (#[trigger] r@[i]) == i,
{
    let mut out: Vec<usize> = Vec::new();
    let mut i: usize = 0;
    while i < schema.fields.len()
        invariant
            i <= schema.fields@.len(),
            out@.len() == i,
            forall|k: int| 0 <= k < i ==> (#[trigger] out@[k]) == k,
        decreases schema.fields@.len() - i,
    {
        out.push(i);
        i = i + 1;
    }
    out
}

/// The columns by which the rows of two datasets are identified.
pub fn identity_indexes(train: &Schema, test: &Schema, keys: &Vec<String>) -> (r: Result<
    (Vec<usize>, Vec<usize>),
    ProofFrameError,
>)
    ensures
        outcome(r, identity_error(*train, *test, texts(keys@))),
        r matches Ok(pair) ==> {
            &&& identity_columns(*train, texts(keys@), pair.0@)
            &&& identity_columns(*test, texts(keys@), pair.1@)
            &&& pair.0@.len() == pair.1@.len()
            &&& forall|i: int|
                0 <= i < pair.0@.len() ==> (#[trigger] pair.0@[i]) < train.fields@.len()
            &&& forall|i: int| 0 <= i < pair.1@.len() ==> (#[trigger] pair.1@[i]) < test.fields@.len()
        },
{
    if keys.len() == 0 {
        if !schema_eq(train, test) {
            return Err(
                ProofFrameError::SchemaMismatch(
                    text("full-row leakage detection requires identical Arrow schemas"),
                ),
            );
        }
        return Ok((all_columns(train), all_columns(test)));
    }
    let ghost names = texts(keys@);
    let ours = key_indexes(train, keys)?;
    let theirs = key_indexes(test, keys)?;
    let mut i: usize = 0;
    while i < ours.len()
        invariant
            i <= ours@.len(),
            ours@.len() == keys@.len(),
            theirs@.len() == keys@.len(),
            names == texts(keys@),
            keys@.len() > 0,
            key_error(*train, names, names.len()) is None,
            key_error(*test, names, names.len()) is None,
            resolved(*train, names, ours@),
            resolved(*test, names, theirs@),
            forall|k: int| 0 <= k < ours@.len() ==> (#[trigger] ours@[k]) < train.fields@.len(),
            forall|k: int| 0 <= k < theirs@.len() ==> (#[trigger] theirs@[k]) < test.fields@.len(),
            first_incompatible(*train, *test, names, i as nat) is None,
        decreases ours@.len() - i,
    {
        let a = &train.fields[ours[i]];
        let b = &test.fields[theirs[i]];
        assert(*a == named_field(*train, names[i as int]));
        assert(*b == named_field(*test, names[i as int]));
        if !str_eq(a.name.as_str(), b.name.as_str()) || !type_eq(&a.data_type, &b.data_type)
            || a.nullable != b.nullable {
            proof {
                first_incompatible_stays(*train, *test, names, (i + 1) as nat, names.len());
            }
            let ordinal = decimal_u64(i as u64);
            return Err(
                ProofFrameError::SchemaMismatch(
                    cat3(
                        "logical leakage key ",
                        ordinal.as_str(),
                        " has incompatible Arrow fields",
                    ),
                ),
            );
        }
        i = i + 1;
    }
    Ok((ours, theirs))
}

/// The domain of the identities of whole rows, or of keys.
pub open spec fn identity_domain(full_row: bool) -> Seq<u8> {
    if full_row {
        utf8("proofframe:leakage:full-row:v2\0"@)
    } else {
        utf8("proofframe:leakage:key:v2\0"@)
    }
}

/// A column of an identity: its place, its name, its type, and whether it has nulls.
pub open spec fn field_identity(ordinal: nat, field: Field) -> Seq<u8> {
    le(ordinal, 8) + prefixed(utf8(field.name@)) + prefixed(utf8(field.type_text@)) + seq![
        if field.nullable {
            1u8
        } else {
            0
        },
    ]
}

/// The bytes of the first `n` columns of an identity.
pub open spec fn identity_stream(
    schema: Schema,
    batch: Batch,
    row: int,
    indexes: Seq<usize>,
    n: nat,
) -> Seq<u8>
    decreases n,
{
    if n == 0 {
        Seq::empty()
    } else {
        identity_stream(schema, batch, row, indexes, (n - 1) as nat) + identity_part(
            schema,
            batch,
            row,
            indexes,
            (n - 1) as nat,
        )
    }
}

/// The bytes of one column of an identity.
pub open spec fn identity_part(
    schema: Schema,
    batch: Batch,
    row: int,
    indexes: Seq<usize>,
    i: nat,
) -> Seq<u8> {
    let at = indexes[i as int] as int;
    field_identity(i, schema.fields@[at]) + prefixed(
        encoded(item_of(batch.columns@[at]@[row])),
    )
}

/// The identity of a row.
pub open spec fn identity_of(
    schema: Schema,
    batch: Batch,
    row: int,
    indexes: Seq<usize>,
    full_row: bool,
) -> Seq<u8> {
    blake3_digest(
        identity_domain(full_row) + identity_stream(schema, batch, row, indexes, indexes.len()),
    )
}

/// Whether a batch has the columns of a table and of an identity.
pub open spec fn identifiable(schema: Schema, batch: Batch, indexes: Seq<usize>) -> bool {
    &&& batch.wf()
    &&& batch.columns@.len() == schema.fields@.len()
    &&& forall|i: int|
        0 <= i < indexes.len() ==> (#[trigger] indexes[i]) < schema.fields@.len()
}

/// The identity of a row.
pub fn row_identity(
    schema: &Schema,
    batch: &Batch,
    row: usize,
    indexes: &Vec<usize>,
    full_row: bool,
) -> (r: Result<[u8; 32], ProofFrameError>)
    requires
        identifiable(*schema, *batch, indexes@),
        row < batch.rows,
    ensures
        outcome(r, key_value_error(*schema, *batch, row as int, indexes@, indexes@.len())),
        r matches Ok(d) ==> d@ == identity_of(*schema, *batch, row as int, indexes@, full_row),
{
    let mut out: Vec<u8> = Vec::new();
    if full_row {
        push_all(&mut out, "proofframe:leakage:full-row:v2\0".as_bytes());
    } else {
        push_all(&mut out, "proofframe:leakage:key:v2\0".as_bytes());
    }
    let ghost head = out@;
    assert(head =~= identity_domain(full_row));
    assert(head + identity_stream(*schema, *batch, row as int, indexes@, 0) =~= head);
    let mut i: usize = 0;
    while i < indexes.len()
        invariant
            i <= indexes@.len(),
            identifiable(*schema, *batch, indexes@),
            row < batch.rows,
            head == identity_domain(full_row),
            key_value_error(*schema, *batch, row as int, indexes@, i as nat) is None,
            out@ == head + identity_stream(*schema, *batch, row as int, indexes@, i as nat),
        decreases indexes@.len() - i,
    {
        let ghost before = out@;
        let index: usize = indexes[i];
        assert(batch.columns@[index as int]@.len() == batch.rows);
        let field = &schema.fields[index];
        push_le(&mut out, i as u128, 8);
        push_prefixed(&mut out, field.name.as_str().as_bytes());
        push_prefixed(&mut out, field.type_text.as_str().as_bytes());
        out.push(
            if field.nullable {
                1
            } else {
                0
            },
        );
        match canonical_value_bytes(&batch.columns[index][row]) {
            Some(value) => {
                push_prefixed(&mut out, value.as_slice());
                assert(out@ =~= before + identity_part(
                    *schema,
                    *batch,
                    row as int,
                    indexes@,
                    i as nat,
                ));
                assert(out@ =~= head + identity_stream(
                    *schema,
                    *batch,
                    row as int,
                    indexes@,
                    (i + 1) as nat,
                ));
            },
            None => {
                proof {
                    assert(key_value_error(
                        *schema,
                        *batch,
                        row as int,
                        indexes@,
                        (i + 1) as nat,
                    ) is Some);
                    key_value_error_stays(
                        *schema,
                        *batch,
                        row as int,
                        indexes@,
                        (i + 1) as nat,
                        indexes@.len(),
                    );
                }
                return Err(ProofFrameError::UnsupportedType(text(field.type_text.as_str())));
            },
        }
        i = i + 1;
    }
    Ok(digest_of(out.as_slice()))
}

/// The identities of rows, each with the number of its row, and the error that stops them.
pub struct Identities {
    pub entries: Seq<Entry>,
    pub error: Option<ErrorView>,
}

/// The identities of the first `n` rows of a batch, where so many rows came before it.
pub open spec fn identities(
    schema: Schema,
    batch: Batch,
    indexes: Seq<usize>,
    full_row: bool,
    before: int,
    n: nat,
) -> Identities
    decreases n,
{
    if n == 0 {
        Identities { entries: Seq::empty(), error: None }
    } else {
        let so_far = identities(schema, batch, indexes, full_row, before, (n - 1) as nat);
        let row = n - 1;
        if so_far.error is Some {
            so_far
        } else {
            match key_value_error(schema, batch, row, indexes, indexes.len()) {
                Some(e) => Identities { error: Some(e), ..so_far },
                None => Identities {
                    entries: so_far.entries.push(
                        (
                            Key::Bytes(identity_of(schema, batch, row, indexes, full_row)),
                            (before + row) as u64,
                        ),
                    ),
                    error: if before + n > usize::MAX {
                        Some(ErrorView::CorruptData("Leakage row count overflowed usize"@))
                    } else {
                        None
                    },
                },
            }
        }
    }
}

proof fn identities_grow(
    schema: Schema,
    batch: Batch,
    indexes: Seq<usize>,
    full_row: bool,
    before: int,
    early: nat,
    late: nat,
)
    requires
        early <= late,
    ensures
        ({
            let a = identities(schema, batch, indexes, full_row, before, early);
            let b = identities(schema, batch, indexes, full_row, before, late);
            &&& a.entries.len() <= b.entries.len()
            &&& a.entries == b.entries.take(a.entries.len() as int)
            &&& a.error is Some ==> b == a
        }),
    decreases late,
{
    let a = identities(schema, batch, indexes, full_row, before, early);
    if early < late {
        identities_grow(schema, batch, indexes, full_row, before, early, (late - 1) as nat);
        let m = identities(schema, batch, indexes, full_row, before, (late - 1) as nat);
        let b = identities(schema, batch, indexes, full_row, before, late);
        assert(b.entries.take(a.entries.len() as int) =~= m.entries.take(a.entries.len() as int));
    } else {
        assert(a.entries.take(a.entries.len() as int) =~= a.entries);
    }
}

/// A dataset while its identities are collected.
pub struct LeakageScan {
    pub indexes: Vec<usize>,
    pub full_row: bool,
    pub exact: ExactState,
    pub rows: usize,
}

impl LeakageScan {
    /// Whether the scan stands at a node of the account and fits a schema.
    pub open spec fn wf(&self, account: ResourceAccount, schema: Schema) -> bool {
        &&& exact_at(self.exact, account)
        &&& self.exact.spec_kind() == ValueKind::Bytes
        &&& forall|i: int|
            0 <= i < self.indexes@.len() ==> (#[trigger] self.indexes@[i]) < schema.fields@.len()
    }

    /// The identities of a batch that comes next.
    pub open spec fn next(&self, schema: Schema, batch: Batch) -> Identities {
        identities(
            schema,
            batch,
            self.indexes@,
            self.full_row,
            self.rows as int,
            batch.rows as nat,
        )
    }

    /// Collects the identities of a batch. The runs that had to be written are returned.
    #[verifier::spinoff_prover]
    #[verifier::rlimit(60)]
    pub fn update(
        &mut self,
        schema: &Schema,
        batch: &Batch,
        account: &mut ResourceAccount,
        cancelled: bool,
    ) -> (r: Result<Vec<Vec<u8>>, ProofFrameError>)
        requires
            old(account).wf(),
            old(self).wf(*old(account), *schema),
            batch.wf(),
            batch.columns@.len() == schema.fields@.len(),
        ensures
            same_account(*old(account), *final(account)),
            same_exact(old(self).exact, final(self).exact),
            final(self).indexes == old(self).indexes,
            final(self).full_row == old(self).full_row,
            cancelled ==> (r matches Err(e) && e@ == ErrorView::Cancelled),
            !cancelled ==> ({
                let f = old(self).next(*schema, *batch);
                &&& r matches Ok(runs) ==> f.error is None && fed_state(
                    old(self).exact,
                    final(self).exact,
                    f.entries,
                    runs@,
                ) && final(self).rows == old(self).rows + batch.rows
                &&& r matches Err(e) ==> f.error == Some(e@) || not_inserted(e@)
                &&& f.entries.len() == 0 ==> outcome(r, f.error)
                &&& old(self).exact.plenty(old(account), f.entries) ==> outcome(r, f.error)
            }),
    {
        match stop_when(cancelled) {
            Ok(()) => {},
            Err(e) => return Err(e),
        }
        let mut runs: Vec<Vec<u8>> = Vec::new();
        let mut i: usize = 0;
        let ghost indexes = self.indexes@;
        let ghost full_row = self.full_row;
        let ghost start = self.rows as int;
        let ghost first = self.exact;
        let ghost n = batch.rows as nat;
        let ghost all = identities(*schema, *batch, indexes, full_row, start, n);
        let ghost roomy = first.plenty(account, all.entries);
        proof {
            fed_none(self.exact);
            assert(all.entries.skip(0) =~= all.entries);
        }
        while i < batch.rows
            invariant
                i <= batch.rows,
                n == batch.rows,
                batch.wf(),
                batch.columns@.len() == schema.fields@.len(),
                !cancelled,
                old(self).wf(*old(account), *schema),
                same_exact(first, self.exact),
                first == old(self).exact,
                start == old(self).rows,
                same_account(*old(account), *account),
                self.exact.spec_node() < account.nodes().len(),
                self.indexes == old(self).indexes,
                self.full_row == old(self).full_row,
                indexes == self.indexes@,
                full_row == self.full_row,
                self.rows == start + i,
                all == identities(*schema, *batch, indexes, full_row, start, n),
                roomy == first.plenty(old(account), all.entries),
                ({
                    let f = identities(*schema, *batch, indexes, full_row, start, i as nat);
                    &&& f.error is None
                    &&& fed_state(first, self.exact, f.entries, runs@)
                    &&& roomy ==> self.exact.plenty(
                        account,
                        all.entries.skip(f.entries.len() as int),
                    )
                }),
            decreases batch.rows - i,
        {
            let ghost f = identities(*schema, *batch, indexes, full_row, start, i as nat);
            let ghost g = identities(*schema, *batch, indexes, full_row, start, (i + 1) as nat);
            proof {
                identities_grow(*schema, *batch, indexes, full_row, start, (i + 1) as nat, n);
            }
            let digest = match row_identity(schema, batch, i, &self.indexes, self.full_row) {
                Ok(d) => d,
                Err(e) => return Err(e),
            };
            let row: u64 = self.rows as u64;
            let ghost b4 = self.exact;
            let ghost a4 = *account;
            let ghost rest = all.entries.skip(f.entries.len() as int);
            let ghost had = runs@;
            let ghost entry = (Key::Bytes(digest@), row);
            proof {
                assert(g.entries.last() == entry);
                assert(all.entries.take(g.entries.len() as int).last() == entry);
                assert(rest[0] == entry);
                if roomy {
                    plenty_accepts(&self.exact, account, rest);
                }
            }
            match self.exact.insert(account, ValueRef::Bytes(digest.as_slice()), row) {
                Ok(written) => {
                    proof {
                        insert_is_step(b4, a4, self.exact, *account, entry, written);
                        if roomy {
                            plenty_stays(&b4, &a4, rest, &self.exact, account, written);
                            assert(rest.drop_first() =~= all.entries.skip(
                                g.entries.len() as int,
                            ));
                        }
                    }
                    let ghost given = written;
                    match written {
                        Some(b) => runs.push(b),
                        None => {},
                    }
                    proof {
                        fed_one_more(
                            first,
                            b4,
                            self.exact,
                            f.entries,
                            entry,
                            had,
                            given,
                            runs@,
                        );
                    }
                },
                Err(e) => return Err(e),
            }
            if self.rows == usize::MAX {
                return Err(
                    ProofFrameError::CorruptData(text("Leakage row count overflowed usize")),
                );
            }
            self.rows = self.rows + 1;
            i = i + 1;
        }
        Ok(runs)
    }
}

/// Starts the collection of the identities of two datasets: each at a node of its own.
pub fn begin_leakage(
    train: &Schema,
    test: &Schema,
    keys: &Vec<String>,
    options: &LeakageOptions,
) -> (r: Result<(ResourceAccount, LeakageScan, LeakageScan), ProofFrameError>)
    ensures
        match identity_error(*train, *test, texts(keys@)) {
            Some(v) => r matches Err(e) && e@ == v,
            None => {
                &&& r is Ok <==> options.resources.max_samples * 16 <= usize::MAX
                    && options.resources.max_samples * 32 <= options.resources.max_memory_bytes
                &&& r matches Err(e) ==> samples_refused(options.resources.max_samples, e@)
            },
        },
        r matches Ok(t) ==> {
            &&& t.0.wf()
            &&& t.0.spec_limits() == options.resources
            &&& t.1.wf(t.0, *train)
            &&& t.2.wf(t.0, *test)
            &&& t.1.exact.spec_node() != t.2.exact.spec_node()
            &&& identity_columns(*train, texts(keys@), t.1.indexes@)
            &&& identity_columns(*test, texts(keys@), t.2.indexes@)
            &&& t.1.indexes@.len() == t.2.indexes@.len()
            &&& t.1.full_row == (keys@.len() == 0)
            &&& t.2.full_row == (keys@.len() == 0)
            &&& exact_empty(t.1.exact, ValueKind::Bytes, true)
            &&& exact_empty(t.2.exact, ValueKind::Bytes, true)
            &&& t.1.rows == 0
            &&& t.2.rows == 0
        },
{
    let (ours, theirs) = identity_indexes(train, test, keys)?;
    let mut account = ResourceAccount::root(options.resources);
    let share: u64 = options.resources.max_memory_bytes;
    let ghost start = account;
    proof {
        root_room(start);
        assert(0 * sample_bytes(start) == 0) by (nonlinear_arith);
    }
    let first = match open_state(
        ValueKind::Bytes,
        &mut account,
        0,
        share,
        true,
        None,
        Ghost(start),
        Ghost(0),
    ) {
        Ok(e) => e,
        Err(e) => {
            proof {
                assert(!can_open(start, 0, share, 1));
                assert(!can_open(start, 0, share, 2));
            }
            return Err(e);
        },
    };
    let second = match open_state(
        ValueKind::Bytes,
        &mut account,
        0,
        share,
        true,
        None,
        Ghost(start),
        Ghost(1),
    ) {
        Ok(e) => e,
        Err(e) => return Err(e),
    };
    let full_row = keys.len() == 0;
    Ok(
        (
            account,
            LeakageScan { indexes: ours, full_row, exact: first, rows: 0 },
            LeakageScan { indexes: theirs, full_row, exact: second, rows: 0 },
        ),
    )
}

/// Two datasets compared. The rates of overlap are the overlap over the distinct identities
/// of each.
#[derive(Debug)]
pub struct LeakageReport {
    pub detected: bool,
    pub mode: &'static str,
    pub keys: Vec<String>,
    pub train_rows: usize,
    pub test_rows: usize,
    pub overlap_count: usize,
    pub train_distinct: u64,
    pub test_distinct: u64,
    pub sample_fingerprints: Vec<String>,
    pub truncated: bool,
}

/// The error of samples that are no digests, among the first `n`.
pub open spec fn sample_error(samples: Seq<Key>, n: nat) -> Option<ErrorView>
    decreases n,
{
    if n == 0 || n > samples.len() {
        None
    } else {
        match sample_error(samples, (n - 1) as nat) {
            Some(e) => Some(e),
            None => match samples[n - 1] {
                Key::Bytes(b) => if b.len() == 32 {
                    None
                } else {
                    Some(ErrorView::CorruptData("Leakage identity digest is not 32 bytes"@))
                },
                _ => Some(
                    ErrorView::CorruptData("Leakage intersection requires byte identities"@),
                ),
            },
        }
    }
}

proof fn sample_error_stays(samples: Seq<Key>, early: nat, late: nat)
    requires
        early <= late <= samples.len(),
        sample_error(samples, early) is Some,
    ensures
        sample_error(samples, late) == sample_error(samples, early),
    decreases late,
{
    if early < late {
        sample_error_stays(samples, early, (late - 1) as nat);
    }
}

/// The texts of sampled digests.
pub open spec fn sample_texts(samples: Seq<Key>) -> Seq<Seq<char>> {
    Seq::new(samples.len(), |i: int| hex(samples[i]->Bytes_0))
}

/// The texts of sampled digests.
fn show_samples(samples: &Vec<OwnedValue>) -> (r: Result<Vec<String>, ProofFrameError>)
    ensures
        outcome(r, sample_error(value_keys(samples@), samples@.len())),
        r matches Err(e) ==> e@ is CorruptData,
        r matches Ok(v) ==> texts(v@) == sample_texts(value_keys(samples@)),
{
    let ghost all = value_keys(samples@);
    let ghost wanted = sample_texts(all);
    let mut out: Vec<String> = Vec::new();
    let mut i: usize = 0;
    assert(texts(out@) =~= wanted.take(0));
    while i < samples.len()
        invariant
            i <= samples@.len(),
            all == value_keys(samples@),
            wanted == sample_texts(all),
            sample_error(all, i as nat) is None,
            texts(out@) == wanted.take(i as int),
        decreases samples@.len() - i,
    {
        let ghost before = out@;
        assert(all[i as int] == samples@[i as int]@);
        match &samples[i] {
            OwnedValue::Bytes(bytes) => {
                if bytes.len() != 32 {
                    proof {
                        sample_error_stays(all, (i + 1) as nat, samples@.len());
                    }
                    return Err(
                        ProofFrameError::CorruptData(
                            text("Leakage identity digest is not 32 bytes"),
                        ),
                    );
                }
                let shown = tagged_hex("", bytes.as_slice());
                proof {
                    reveal_strlit("");
                    assert(shown@ =~= hex(bytes@));
                }
                out.push(shown);
                assert(texts(out@) =~= texts(before).push(wanted[i as int]));
                assert(wanted.take(i + 1) =~= wanted.take(i as int).push(wanted[i as int]));
            },
            _ => {
                proof {
                    sample_error_stays(all, (i + 1) as nat, samples@.len());
                }
                return Err(
                    ProofFrameError::CorruptData(
                        text("Leakage intersection requires byte identities"),
                    ),
                );
            },
        }
        i = i + 1;
    }
    assert(wanted.take(samples@.len() as int) =~= wanted);
    Ok(out)
}

/// The error of a comparison that cannot be reported.
pub open spec fn report_error(summary: SharedValues) -> Option<ErrorView> {
    let samples = value_keys(summary.samples@);
    if sample_error(samples, samples.len()) is Some {
        sample_error(samples, samples.len())
    } else if summary.overlap > usize::MAX {
        Some(ErrorView::CorruptData("Leakage overlap exceeds usize"@))
    } else {
        None
    }
}

/// Whether a report says what two datasets share.
pub open spec fn tells(
    r: LeakageReport,
    keys: Seq<Seq<char>>,
    train_rows: usize,
    test_rows: usize,
    train_distinct: nat,
    test_distinct: nat,
    overlap: nat,
    samples: Seq<Key>,
) -> bool {
    &&& r.detected == (overlap > 0)
    &&& r.mode@ == if keys.len() == 0 {
        "full_row"@
    } else {
        "key"@
    }
    &&& texts(r.keys@) == keys
    &&& r.train_rows == train_rows
    &&& r.test_rows == test_rows
    &&& r.overlap_count == overlap
    &&& r.train_distinct == train_distinct
    &&& r.test_distinct == test_distinct
    &&& texts(r.sample_fingerprints@) == sample_texts(samples)
    &&& r.truncated == (overlap > samples.len())
}

/// The report of a comparison.
pub fn report_leakage(
    summary: &SharedValues,
    keys: &Vec<String>,
    train_rows: usize,
    test_rows: usize,
) -> (r: Result<LeakageReport, ProofFrameError>)
    ensures
        outcome(r, report_error(*summary)),
        r matches Err(e) ==> e@ is CorruptData,
        r matches Ok(x) ==> tells(
            x,
            texts(keys@),
            train_rows,
            test_rows,
            summary.left_distinct as nat,
            summary.right_distinct as nat,
            summary.overlap as nat,
            value_keys(summary.samples@),
        ),
{
    let sample_fingerprints = show_samples(&summary.samples)?;
    if summary.overlap > usize::MAX as u64 {
        return Err(ProofFrameError::CorruptData(text("Leakage overlap exceeds usize")));
    }
    let overlap_count: usize = summary.overlap as usize;
    proof {
        assert(texts(sample_fingerprints@).len() == sample_fingerprints@.len());
    }
    let truncated = overlap_count > sample_fingerprints.len();
    let copied = copy_texts(keys);
    Ok(
        LeakageReport {
            detected: overlap_count != 0,
            mode: if keys.len() == 0 {
                "full_row"
            } else {
                "key"
            },
            keys: copied,
            train_rows,
            test_rows,
            overlap_count,
            train_distinct: summary.left_distinct,
            test_distinct: summary.right_distinct,
            sample_fingerprints,
            truncated,
        },
    )
}

/// The values that two collected datasets share.
pub open spec fn shared_identities(train: LeakageScan, test: LeakageScan) -> Seq<Key> {
    common(merged(train.exact.written()), merged(test.exact.written()))
}

/// The first shared values, up to a limit.
pub open spec fn first_shared(shared: Seq<Key>, limit: nat) -> Seq<Key> {
    shared.take(
        if shared.len() < limit {
            shared.len() as int
        } else {
            limit as int
        },
    )
}

/// Compares two collected datasets, given the bytes of their runs.
pub fn compare_leakage(
    train: &LeakageScan,
    train_stored: &Vec<&[u8]>,
    test: &LeakageScan,
    test_stored: &Vec<&[u8]>,
    keys: &Vec<String>,
    options: &LeakageOptions,
    cancelled: bool,
    account: &mut ResourceAccount,
) -> (r: Result<LeakageReport, ProofFrameError>)
    requires
        old(account).wf(),
        sealed(&train.exact, old(account), train_stored@),
        sealed(&test.exact, old(account), test_stored@),
    ensures
        kept_account(old(account), final(account)),
        damaged(train.exact.metas(), train_stored@) || damaged(
            test.exact.metas(),
            test_stored@,
        ) ==> r is Err,
        ({
            let limit = options.spec_limit();
            let first = room(
                old(account).nodes(),
                train.exact.spec_node(),
                ResourceKind::Memory,
                0,
                limit * 32,
            );
            let roomy = can_compare(&train.exact, &test.exact, old(account), limit * 32);
            &&& limit * 32 > usize::MAX ==> (r matches Err(e) && e@ == ErrorView::CorruptData(
                "Leakage sample size overflowed"@,
            ))
            &&& limit * 32 <= usize::MAX && !first ==> (r matches Err(e) && e@ == refusal(
                old(account).nodes(),
                train.exact.spec_node(),
                ResourceKind::Memory,
                (limit * 32) as u64,
            ))
            &&& limit * 32 <= usize::MAX && first && cancelled ==> (r matches Err(e) && e@
                == ErrorView::Cancelled)
            &&& limit * 32 <= usize::MAX && first && !cancelled ==> {
                &&& r matches Err(e) ==> e@ is CorruptData || e@ is ResourceLimit
                &&& damaged(train.exact.metas(), train_stored@) || (damaged(
                    test.exact.metas(),
                    test_stored@,
                ) && roomy) ==> (r matches Err(e) && e@ is CorruptData)
            }
        }),
        kept(&train.exact, train_stored@) && kept(&test.exact, test_stored@) ==> ({
            let limit = options.spec_limit();
            let shared = shared_identities(*train, *test);
            let samples = first_shared(shared, limit as nat);
            let untold = sample_error(samples, samples.len());
            &&& !cancelled && limit * 32 <= usize::MAX && can_compare(
                &train.exact,
                &test.exact,
                old(account),
                limit * 32,
            ) ==> outcome(
                r,
                if untold is Some {
                    untold
                } else if shared.len() > usize::MAX {
                    Some(ErrorView::CorruptData("Leakage overlap exceeds usize"@))
                } else {
                    None
                },
            )
            &&& !cancelled && limit * 32 <= usize::MAX && can_compare(
                &train.exact,
                &test.exact,
                old(account),
                limit * 32,
            ) && sample_error(samples, samples.len()) is None && shared.len() <= usize::MAX
                ==> r is Ok
            &&& r matches Ok(x) ==> !cancelled && tells(
                x,
                texts(keys@),
                train.rows,
                test.rows,
                distinct_count(merged(train.exact.written())),
                distinct_count(merged(test.exact.written())),
                shared.len(),
                samples,
            )
        }),
{
    let limit: usize = options.sample_limit();
    let summary = intersect_exact_states(
        &train.exact,
        train_stored,
        &test.exact,
        test_stored,
        limit,
        cancelled,
        account,
    )?;
    report_leakage(&summary, keys, train.rows, test.rows)
}

/// The shared identities of two datasets are the same from either side.
pub proof fn overlap_is_symmetric(a: Seq<Entry>, b: Seq<Entry>)
    ensures
        common(a, b) == common(b, a),
    decreases a.len() + b.len(),
{
    if a.len() > 0 && b.len() > 0 {
        let x = a[0].0;
        let y = b[0].0;
        past_is_shorter(a, x);
        past_is_shorter(b, y);
        key_total(x, y);
        if x == y {
            overlap_is_symmetric(past(a, x), past(b, y));
        } else if key_less(x, y) {
            overlap_is_symmetric(past(a, x), b);
        } else {
            overlap_is_symmetric(a, past(b, y));
        }
    } else {
        assert(common(a, b) =~= common(b, a));
    }
}

/// No more identities are shared than either dataset has: the rates of overlap are at most
/// one.
pub proof fn overlap_is_bounded(a: Seq<Entry>, b: Seq<Entry>)
    ensures
        common(a, b).len() <= distinct_count(a),
        common(a, b).len() <= distinct_count(b),
    decreases a.len() + b.len(),
{
    if a.len() > 0 && b.len() > 0 {
        let x = a[0].0;
        let y = b[0].0;
        past_is_shorter(a, x);
        past_is_shorter(b, y);
        if x == y {
            overlap_is_bounded(past(a, x), past(b, y));
        } else if key_less(x, y) {
            overlap_is_bounded(past(a, x), b);
        } else {
            overlap_is_bounded(a, past(b, y));
        }
    }
}

/// A dataset shares every identity with itself.
pub proof fn overlap_with_itself_is_whole(a: Seq<Entry>)
    ensures
        common(a, a).len() == distinct_count(a),
    decreases a.len(),
{
    if a.len() > 0 {
        past_is_shorter(a, a[0].0);
        overlap_with_itself_is_whole(past(a, a[0].0));
    }
}

/// The columns of an identity from one place on.
spec fn stream_from(
    schema: Schema,
    batch: Batch,
    row: int,
    indexes: Seq<usize>,
    from: nat,
    n: nat,
) -> Seq<u8>
    decreases n - from,
{
    if from >= n {
        Seq::empty()
    } else {
        identity_part(schema, batch, row, indexes, from) + stream_from(
            schema,
            batch,
            row,
            indexes,
            from + 1,
            n,
        )
    }
}

proof fn stream_push(
    schema: Schema,
    batch: Batch,
    row: int,
    indexes: Seq<usize>,
    from: nat,
    n: nat,
)
    requires
        from <= n,
    ensures
        stream_from(schema, batch, row, indexes, from, n + 1) == stream_from(
            schema,
            batch,
            row,
            indexes,
            from,
            n,
        ) + identity_part(schema, batch, row, indexes, n),
    decreases n - from,
{
    let p = identity_part(schema, batch, row, indexes, n);
    if from < n {
        stream_push(schema, batch, row, indexes, from + 1, n);
        assert(stream_from(schema, batch, row, indexes, from, n + 1) =~= stream_from(
            schema,
            batch,
            row,
            indexes,
            from,
            n,
        ) + p);
    } else {
        assert(stream_from(schema, batch, row, indexes, n + 1, n + 1) =~= Seq::empty());
        assert(p + Seq::<u8>::empty() =~= Seq::<u8>::empty() + p);
    }
}

proof fn stream_is_from(schema: Schema, batch: Batch, row: int, indexes: Seq<usize>, n: nat)
    ensures
        identity_stream(schema, batch, row, indexes, n) == stream_from(
            schema,
            batch,
            row,
            indexes,
            0,
            n,
        ),
    decreases n,
{
    if n > 0 {
        stream_is_from(schema, batch, row, indexes, (n - 1) as nat);
        stream_push(schema, batch, row, indexes, 0, (n - 1) as nat);
    }
}

/// The canonical bytes of one value of an identity.
pub open spec fn identity_value(batch: Batch, row: int, indexes: Seq<usize>, i: int) -> Seq<u8> {
    encoded(item_of(batch.columns@[indexes[i] as int]@[row]))
}

/// Whether two columns are described alike in an identity.
pub open spec fn alike(a: Field, b: Field) -> bool {
    a.name@ == b.name@ && a.type_text@ == b.type_text@ && a.nullable == b.nullable
}

proof fn streams_split(
    ours: Schema,
    one: Batch,
    row: int,
    here: Seq<usize>,
    theirs: Schema,
    other: Batch,
    place: int,
    there: Seq<usize>,
    from: nat,
    n: nat,
)
    requires
        from <= n,
        n == here.len(),
        n == there.len(),
        forall|i: int|
            #![trigger here[i]]
            #![trigger there[i]]
            0 <= i < n ==> alike(
                ours.fields@[here[i] as int],
                theirs.fields@[there[i] as int],
            ) && identity_value(one, row, here, i).len() < span(8) && identity_value(
                other,
                place,
                there,
                i,
            ).len() < span(8),
        stream_from(ours, one, row, here, from, n) == stream_from(
            theirs,
            other,
            place,
            there,
            from,
            n,
        ),
    ensures
        forall|i: int|
            from <= i < n ==> #[trigger] identity_value(one, row, here, i) == identity_value(
                other,
                place,
                there,
                i,
            ),
    decreases n - from,
{
    if from < n {
        let f = from as int;
        let a = here[f] as int;
        let b = there[f] as int;
        assert(alike(ours.fields@[a], theirs.fields@[b]));
        let head = field_identity(from, ours.fields@[a]);
        assert(head == field_identity(from, theirs.fields@[b]));
        let p = identity_value(one, row, here, f);
        let q = identity_value(other, place, there, f);
        let x = stream_from(ours, one, row, here, from + 1, n);
        let y = stream_from(theirs, other, place, there, from + 1, n);
        let l = stream_from(ours, one, row, here, from, n);
        let r = stream_from(theirs, other, place, there, from, n);
        assert(l.skip(head.len() as int) =~= prefixed(p) + x);
        assert(r.skip(head.len() as int) =~= prefixed(q) + y);
        prefixed_splits(p, x, q, y);
        streams_split(ours, one, row, here, theirs, other, place, there, from + 1, n);
    }
}

/// What is hashed for two rows is the same exactly where their key columns hold the same
/// values place by place. Rows of two datasets whose identities agree without that are a
/// collision of the digest.
pub proof fn identity_is_injective(
    ours: Schema,
    one: Batch,
    row: int,
    here: Seq<usize>,
    theirs: Schema,
    other: Batch,
    place: int,
    there: Seq<usize>,
)
    requires
        here.len() == there.len(),
        forall|i: int|
            #![trigger here[i]]
            #![trigger there[i]]
            0 <= i < here.len() ==> alike(
                ours.fields@[here[i] as int],
                theirs.fields@[there[i] as int],
            ) && identity_value(one, row, here, i).len() < span(8) && identity_value(
                other,
                place,
                there,
                i,
            ).len() < span(8),
    ensures
        identity_stream(ours, one, row, here, here.len()) == identity_stream(
            theirs,
            other,
            place,
            there,
            there.len(),
        ) <==> forall|i: int|
            0 <= i < here.len() ==> #[trigger] identity_value(one, row, here, i) == identity_value(
                other,
                place,
                there,
                i,
            ),
{
    let n = here.len();
    stream_is_from(ours, one, row, here, n);
    stream_is_from(theirs, other, place, there, n);
    if identity_stream(ours, one, row, here, n) == identity_stream(
        theirs,
        other,
        place,
        there,
        n,
    ) {
        streams_split(ours, one, row, here, theirs, other, place, there, 0, n);
    }
    if forall|i: int|
        0 <= i < n ==> #[trigger] identity_value(one, row, here, i) == identity_value(
            other,
            place,
            there,
            i,
        ) {
        same_streams(ours, one, row, here, theirs, other, place, there, n);
    }
}

proof fn same_streams(
    ours: Schema,
    one: Batch,
    row: int,
    here: Seq<usize>,
    theirs: Schema,
    other: Batch,
    place: int,
    there: Seq<usize>,
    n: nat,
)
    requires
        n <= here.len(),
        here.len() == there.len(),
        forall|i: int|
            #![trigger here[i]]
            0 <= i < n ==> alike(
                ours.fields@[here[i] as int],
                theirs.fields@[there[i] as int],
            ),
        forall|i: int|
            0 <= i < n ==> #[trigger] identity_value(one, row, here, i) == identity_value(
                other,
                place,
                there,
                i,
            ),
    ensures
        identity_stream(ours, one, row, here, n) == identity_stream(
            theirs,
            other,
            place,
            there,
            n,
        ),
    decreases n,
{
    if n > 0 {
        same_streams(ours, one, row, here, theirs, other, place, there, (n - 1) as nat);
        assert(alike(ours.fields@[here[n - 1] as int], theirs.fields@[there[n - 1] as int]));
        assert(identity_value(one, row, here, n - 1) == identity_value(
            other,
            place,
            there,
            n - 1,
        ));
    }
}

} // verus!
