//! Keys that must occur in another dataset.

use crate::contract::ast::{fail, fail_at_root, failure, failure_at_root};
use crate::contract::dataset::ReferencePlan;
use crate::error::{ErrorCode, ErrorView, ProofFrameError};
use crate::text::{
    cat3, cat5, cat7, decimal, decimal_u64, join, joined, lex_irreflexive, lex_less, lex_total,
    lex_transitive, str_eq, str_less, text, texts, utf8, utf8_injective,
};
use crate::value::{first_named, same_type, type_eq, DataType, Schema};
use vstd::prelude::*;

verus! {

/// The names to which datasets are bound, in ascending order.
#[derive(Debug)]
pub struct ReferenceBindings {
    names: Vec<String>,
}

/// Names in ascending order of their bytes, each once.
pub open spec fn ascending(names: Seq<Seq<char>>) -> bool {
    forall|i: int, j: int|
        0 <= i < j < names.len() ==> lex_less(utf8(#[trigger] names[i]), utf8(#[trigger] names[j]))
}

impl ReferenceBindings {
    /// The bound names.
    pub closed spec fn bound(&self) -> Seq<Seq<char>> {
        texts(self.names@)
    }

    /// Whether the names ascend.
    pub open spec fn wf(&self) -> bool {
        ascending(self.bound())
    }

    /// No names.
    pub fn new() -> (r: Self)
        ensures
            r.wf(),
            r.bound() == Seq::<Seq<char>>::empty(),
    {
        let r = ReferenceBindings { names: Vec::new() };
        assert(r.bound() =~= Seq::empty());
        r
    }

    /// Where a name stands, or would stand.
    fn place(&self, name: &str) -> (r: (usize, bool))
        requires
            self.wf(),
        ensures
            r.0 <= self.bound().len(),
            r.1 == self.bound().contains(name@),
            r.1 ==> r.0 < self.bound().len() && self.bound()[r.0 as int] == name@,
            forall|i: int|
                0 <= i < r.0 ==> lex_less(utf8(#[trigger] self.bound()[i]), utf8(name@)),
            !r.1 ==> forall|i: int|
                r.0 <= i < self.bound().len() ==> lex_less(
                    utf8(name@),
                    utf8(#[trigger] self.bound()[i]),
                ),
    {
        let mut i: usize = 0;
        while i < self.names.len() && str_less(self.names[i].as_str(), name)
            invariant
                i <= self.names@.len(),
                self.bound().len() == self.names@.len(),
                forall|k: int|
                    0 <= k < i ==> lex_less(utf8(#[trigger] self.bound()[k]), utf8(name@)),
            decreases self.names@.len() - i,
        {
            assert(self.bound()[i as int] == self.names@[i as int]@);
            i = i + 1;
        }
        let found = i < self.names.len() && str_eq(self.names[i].as_str(), name);
        proof {
            let b = self.bound();
            if i < b.len() {
                assert(b[i as int] == self.names@[i as int]@);
            }
            if b.contains(name@) && !found {
                let k = choose|k: int| 0 <= k < b.len() && b[k] == name@;
                if k < i {
                    lex_irreflexive(utf8(name@));
                } else {
                    assert(lex_less(utf8(b[i as int]), utf8(b[k])) || k == i);
                }
            }
            if found {
                assert(b.contains(name@));
            } else {
                assert forall|k: int| i <= k < b.len() implies lex_less(
                    utf8(name@),
                    utf8(#[trigger] b[k]),
                ) by {
                    lex_total(utf8(name@), utf8(b[i as int]));
                    if utf8(name@) == utf8(b[i as int]) {
                        utf8_injective(name@, b[i as int]);
                    }
                    if k > i {
                        lex_transitive(utf8(name@), utf8(b[i as int]), utf8(b[k]));
                    }
                }
            }
        }
        (i, found)
    }

    /// Binds a name, and says whether it was bound before.
    pub fn insert(&mut self, name: &str) -> (r: bool)
        requires
            old(self).wf(),
        ensures
            final(self).wf(),
            r == old(self).bound().contains(name@),
            forall|n: Seq<char>| #[trigger]
                final(self).bound().contains(n) <==> n == name@ || old(self).bound().contains(n),
            r ==> final(self).bound() == old(self).bound(),
    {
        let ghost had = self.bound();
        let (at, found) = self.place(name);
        if !found {
            self.names.insert(at, text(name));
            proof {
                let now = self.bound();
                assert(now =~= had.insert(at as int, name@));
                assert forall|i: int, j: int| 0 <= i < j < now.len() implies lex_less(
                    utf8(#[trigger] now[i]),
                    utf8(#[trigger] now[j]),
                ) by {
                    if i < at && j > at {
                        assert(lex_less(utf8(had[i]), utf8(had[j - 1])));
                    } else if i > at {
                        assert(lex_less(utf8(had[i - 1]), utf8(had[j - 1])));
                    }
                }
                assert forall|n: Seq<char>| #[trigger] now.contains(n) <==> n == name@
                    || had.contains(n) by {
                    if had.contains(n) {
                        let k = choose|k: int| 0 <= k < had.len() && had[k] == n;
                        if k < at {
                            assert(now[k] == n);
                        } else {
                            assert(now[k + 1] == n);
                        }
                    }
                    if n == name@ {
                        assert(now[at as int] == n);
                    }
                    if now.contains(n) {
                        let k = choose|k: int| 0 <= k < now.len() && now[k] == n;
                        if k < at {
                            assert(had[k] == n);
                        } else if k > at {
                            assert(had[k - 1] == n);
                        }
                    }
                }
            }
        }
        found
    }

    /// Whether no name is bound.
    pub fn is_empty(&self) -> (r: bool)
        ensures
            r == (self.bound().len() == 0),
    {
        self.names.len() == 0
    }

    /// Takes a name out, and says whether it was bound.
    pub fn take(&mut self, name: &str) -> (r: bool)
        requires
            old(self).wf(),
        ensures
            final(self).wf(),
            r == old(self).bound().contains(name@),
            r ==> !final(self).bound().contains(name@),
            forall|n: Seq<char>|
                n != name@ ==> (#[trigger] final(self).bound().contains(n) <==> old(
                    self,
                ).bound().contains(n)),
            !r ==> final(self).bound() == old(self).bound(),
    {
        let ghost had = self.bound();
        let (at, found) = self.place(name);
        if found {
            let removed = self.names.remove(at);
            proof {
                let now = self.bound();
                assert(now =~= had.remove(at as int));
                assert forall|i: int, j: int| 0 <= i < j < now.len() implies lex_less(
                    utf8(#[trigger] now[i]),
                    utf8(#[trigger] now[j]),
                ) by {
                    let p = if i < at {
                        i
                    } else {
                        i + 1
                    };
                    let q = if j < at {
                        j
                    } else {
                        j + 1
                    };
                    assert(lex_less(utf8(had[p]), utf8(had[q])));
                }
                if now.contains(name@) {
                    let k = choose|k: int| 0 <= k < now.len() && now[k] == name@;
                    let p = if k < at {
                        k
                    } else {
                        k + 1
                    };
                    assert(had[p] == name@ && p != at);
                    lex_irreflexive(utf8(name@));
                    if p < at {
                        assert(lex_less(utf8(had[p]), utf8(had[at as int])));
                    } else {
                        assert(lex_less(utf8(had[at as int]), utf8(had[p])));
                    }
                }
                assert forall|n: Seq<char>| n != name@ implies (#[trigger] now.contains(n)
                    <==> had.contains(n)) by {
                    if had.contains(n) {
                        let k = choose|k: int| 0 <= k < had.len() && had[k] == n;
                        if k < at {
                            assert(now[k] == n);
                        } else {
                            assert(now[k - 1] == n);
                        }
                    }
                    if now.contains(n) {
                        let k = choose|k: int| 0 <= k < now.len() && now[k] == n;
                        if k < at {
                            assert(had[k] == n);
                        } else {
                            assert(had[k + 1] == n);
                        }
                    }
                }
            }
        }
        found
    }

    /// Succeeds where no name is left over.
    pub fn finish(&self) -> (r: Result<(), ProofFrameError>)
        ensures
            if self.bound().len() == 0 {
                r is Ok
            } else {
                r matches Err(e) && e@ == failure_at_root(
                    ErrorCode::ReferenceUnbound,
                    "No reference rule uses the bound dataset(s): "@ + joined(
                        self.bound(),
                        ", "@,
                    ),
                )
            },
    {
        if self.names.len() == 0 {
            return Ok(());
        }
        let list = join(&self.names, ", ");
        Err(
            fail_at_root(
                ErrorCode::ReferenceUnbound,
                crate::text::cat2(
                    "No reference rule uses the bound dataset(s): ",
                    list.as_str(),
                ),
            ),
        )
    }
}

/// Where the keys of a reference rule come from: a scan that was made for an earlier rule,
/// or a scan of the bound dataset.
#[derive(Debug, Clone, Copy, PartialEq, Eq, Structural)]
pub enum ReferenceSource {
    Cached(usize),
    Scan,
}

/// The identity of a scan: the dataset and its key columns.
pub open spec fn scan_key(reference: Seq<char>, columns: Seq<Seq<char>>) -> Seq<char>
    decreases columns.len(),
{
    if columns.len() == 0 {
        reference
    } else {
        scan_key(reference, columns.drop_last()) + "\u{1f}"@ + columns.last()
    }
}

/// The identity of the scan of a rule.
pub fn reference_cache_key(plan: &ReferencePlan) -> (r: String)
    ensures
        r@ == scan_key(plan.reference@, texts(plan.reference_columns@)),
{
    let mut key = text(plan.reference.as_str());
    let ghost columns = texts(plan.reference_columns@);
    let mut i: usize = 0;
    assert(columns.take(0) =~= Seq::empty());
    while i < plan.reference_columns.len()
        invariant
            i <= plan.reference_columns@.len(),
            columns == texts(plan.reference_columns@),
            key@ == scan_key(plan.reference@, columns.take(i as int)),
        decreases plan.reference_columns@.len() - i,
    {
        assert(columns.take(i + 1).drop_last() =~= columns.take(i as int));
        key.append("\u{1f}");
        key.append(plan.reference_columns[i].as_str());
        i = i + 1;
    }
    assert(columns.take(columns.len() as int) =~= columns);
    key
}

/// The first of a list of texts that equals a text.
pub open spec fn first_equal(list: Seq<Seq<char>>, value: Seq<char>) -> Option<int>
    decreases list.len(),
{
    if list.len() == 0 {
        None
    } else {
        match first_equal(list.drop_last(), value) {
            Some(i) => Some(i),
            None => if list.last() == value {
                Some(list.len() - 1)
            } else {
                None
            },
        }
    }
}

fn find_text(list: &Vec<String>, value: &str) -> (r: Option<usize>)
    ensures
        match first_equal(texts(list@), value@) {
            Some(i) => (r matches Some(k) && k == i) && 0 <= i < list@.len(),
            None => r is None,
        },
{
    let ghost all = texts(list@);
    let mut i: usize = 0;
    assert(all.take(0) =~= Seq::empty());
    while i < list.len()
        invariant
            i <= list@.len(),
            all == texts(list@),
            first_equal(all.take(i as int), value@) is None,
        decreases list@.len() - i,
    {
        assert(all.take(i + 1).drop_last() =~= all.take(i as int));
        if str_eq(list[i].as_str(), value) {
            proof {
                first_equal_stays(all, value@, (i + 1) as int);
            }
            return Some(i);
        }
        i = i + 1;
    }
    assert(all.take(all.len() as int) =~= all);
    None
}

proof fn first_equal_stays(list: Seq<Seq<char>>, value: Seq<char>, n: int)
    requires
        0 <= n <= list.len(),
        first_equal(list.take(n), value) is Some,
    ensures
        first_equal(list, value) == first_equal(list.take(n), value),
    decreases list.len() - n,
{
    if n < list.len() {
        assert(list.take(n + 1).drop_last() =~= list.take(n));
        first_equal_stays(list, value, n + 1);
    } else {
        assert(list.take(n) =~= list);
    }
}

/// The scans made so far, each under its identity.
#[derive(Debug)]
pub struct ReferenceScans {
    keys: Vec<String>,
}

impl ReferenceScans {
    /// The identities of the scans.
    pub closed spec fn made(&self) -> Seq<Seq<char>> {
        texts(self.keys@)
    }

    /// No scan.
    pub fn new() -> (r: Self)
        ensures
            r.made() == Seq::<Seq<char>>::empty(),
    {
        let r = ReferenceScans { keys: Vec::new() };
        assert(r.made() =~= Seq::empty());
        r
    }

    /// Where the keys of a rule come from. A rule whose dataset is not bound, or whose
    /// dataset was already scanned by other key columns, is an error: a rule that is
    /// passed over would report as one that held.
    pub fn source(&mut self, plan: &ReferencePlan, bindings: &mut ReferenceBindings) -> (r: Result<
        ReferenceSource,
        ProofFrameError,
    >)
        requires
            old(bindings).wf(),
        ensures
            final(bindings).wf(),
            ({
                let key = scan_key(plan.reference@, texts(plan.reference_columns@));
                match first_equal(old(self).made(), key) {
                    Some(k) => (r matches Ok(s) && s == ReferenceSource::Cached(k as usize)) && k
                        < old(self).made().len() && final(self).made() == old(self).made()
                        && final(bindings).bound() == old(bindings).bound(),
                    None => if old(bindings).bound().contains(plan.reference@) {
                        &&& r matches Ok(s) && s == ReferenceSource::Scan
                        &&& final(self).made() == old(self).made().push(key)
                        &&& !final(bindings).bound().contains(plan.reference@)
                        &&& forall|n: Seq<char>|
                            n != plan.reference@ ==> (#[trigger] final(bindings).bound().contains(n)
                                <==> old(bindings).bound().contains(n))
                    } else {
                        r matches Err(e) && e@ == failure(
                            ErrorCode::ReferenceUnbound,
                            "Reference rule `"@ + plan.name@ + "` needs a dataset bound to `"@
                                + plan.reference@ + "`"@,
                            "$.dataset_rules.references["@ + plan.name@ + "]"@,
                        )
                    },
                }
            }),
    {
        let key = reference_cache_key(plan);
        match find_text(&self.keys, key.as_str()) {
            Some(k) => Ok(ReferenceSource::Cached(k)),
            None => {
                if !bindings.take(plan.reference.as_str()) {
                    return Err(
                        fail(
                            ErrorCode::ReferenceUnbound,
                            cat5(
                                "Reference rule `",
                                plan.name.as_str(),
                                "` needs a dataset bound to `",
                                plan.reference.as_str(),
                                "`",
                            ),
                            cat3("$.dataset_rules.references[", plan.name.as_str(), "]"),
                        ),
                    );
                }
                let ghost had = self.keys@;
                self.keys.push(key);
                assert(self.made() =~= texts(had).push(self.keys@.last()@));
                Ok(ReferenceSource::Scan)
            },
        }
    }
}

/// Whether two key types hold the same values: timestamps by unit only, since their zone
/// is how they are shown.
pub open spec fn key_types_match(local: DataType, remote: DataType) -> bool {
    match (local, remote) {
        (DataType::Timestamp(u, _), DataType::Timestamp(v, _)) => u == v,
        _ => same_type(local, remote),
    }
}

/// Whether two key types hold the same values.
pub fn types_match(local: &DataType, remote: &DataType) -> (r: bool)
    ensures
        r == key_types_match(*local, *remote),
{
    match (local, remote) {
        (DataType::Timestamp(u, _), DataType::Timestamp(v, _)) => *u == *v,
        _ => type_eq(local, remote),
    }
}

/// The error of the first `n` key columns, if any.
pub open spec fn key_error(plan: ReferencePlan, local: Schema, remote: Schema, n: nat) -> Option<
    ErrorView,
>
    decreases n,
{
    if n == 0 {
        None
    } else {
        match key_error(plan, local, remote, (n - 1) as nat) {
            Some(e) => Some(e),
            None => {
                let column = plan.reference_columns@[n - 1]@;
                match first_named(remote.fields@, column) {
                    None => Some(
                        failure_at_root(
                            ErrorCode::MissingColumn,
                            "Reference dataset `"@ + plan.reference@ + "` has no column `"@ + column
                                + "` for rule `"@ + plan.name@ + "`"@,
                        ),
                    ),
                    Some(i) => {
                        let here = local.fields@[plan.columns@[n - 1] as int];
                        let there = remote.fields@[i];
                        if key_types_match(here.data_type, there.data_type) {
                            None
                        } else {
                            Some(
                                failure_at_root(
                                    ErrorCode::ContractTypeMismatch,
                                    "Reference rule `"@ + plan.name@ + "` pairs `"@
                                        + here.type_text@ + "` with `"@ + there.type_text@
                                        + "` at key position "@ + decimal((n - 1) as nat),
                                ),
                            )
                        }
                    },
                }
            },
        }
    }
}

proof fn key_error_stays(plan: ReferencePlan, local: Schema, remote: Schema, i: nat, n: nat)
    requires
        i <= n,
        key_error(plan, local, remote, i) is Some,
    ensures
        key_error(plan, local, remote, n) == key_error(plan, local, remote, i),
    decreases n,
{
    if i < n {
        key_error_stays(plan, local, remote, i, (n - 1) as nat);
    }
}

/// Whether a rule names as many local columns as it needs, all of them in the schema.
pub open spec fn reference_fits(plan: ReferencePlan, columns: int) -> bool {
    &&& plan.columns@.len() == plan.reference_columns@.len()
    &&& forall|j: int| 0 <= j < plan.columns@.len() ==> (#[trigger] plan.columns@[j]) < columns
}

/// Finds the key columns in the other dataset, and holds both sides to the same types.
pub fn resolve_reference_key(plan: &ReferencePlan, local: &Schema, remote: &Schema) -> (r: Result<
    Vec<usize>,
    ProofFrameError,
>)
    requires
        reference_fits(*plan, local.fields@.len() as int),
    ensures
        match key_error(*plan, *local, *remote, plan.reference_columns@.len()) {
            Some(e) => r matches Err(x) && x@ == e,
            None => r matches Ok(v) && v@.len() == plan.reference_columns@.len() && forall|j: int|
                #![trigger v@[j]]
                0 <= j < v@.len() ==> v@[j] < remote.fields@.len() && first_named(
                    remote.fields@,
                    plan.reference_columns@[j]@,
                ) == Some(v@[j] as int),
        },
{
    let mut out: Vec<usize> = Vec::new();
    let mut j: usize = 0;
    while j < plan.reference_columns.len()
        invariant
            j <= plan.reference_columns@.len(),
            out@.len() == j,
            reference_fits(*plan, local.fields@.len() as int),
            key_error(*plan, *local, *remote, j as nat) is None,
            forall|k: int|
                #![trigger out@[k]]
                0 <= k < out@.len() ==> out@[k] < remote.fields@.len() && first_named(
                    remote.fields@,
                    plan.reference_columns@[k]@,
                ) == Some(out@[k] as int),
        decreases plan.reference_columns@.len() - j,
    {
        let column = plan.reference_columns[j].as_str();
        let index = match remote.index_of(column) {
            Some(i) => i,
            None => {
                proof {
                    key_error_stays(
                        *plan,
                        *local,
                        *remote,
                        (j + 1) as nat,
                        plan.reference_columns@.len(),
                    );
                }
                return Err(
                    fail_at_root(
                        ErrorCode::MissingColumn,
                        cat7(
                            "Reference dataset `",
                            plan.reference.as_str(),
                            "` has no column `",
                            column,
                            "` for rule `",
                            plan.name.as_str(),
                            "`",
                        ),
                    ),
                );
            },
        };
        assert(plan.columns@[j as int] < local.fields@.len());
        let here = &local.fields[plan.columns[j]];
        let there = &remote.fields[index];
        if !types_match(&here.data_type, &there.data_type) {
            let place = decimal_u64(j as u64);
            let start = cat7(
                "Reference rule `",
                plan.name.as_str(),
                "` pairs `",
                here.type_text.as_str(),
                "` with `",
                there.type_text.as_str(),
                "` at key position ",
            );
            proof {
                key_error_stays(
                    *plan,
                    *local,
                    *remote,
                    (j + 1) as nat,
                    plan.reference_columns@.len(),
                );
            }
            return Err(
                fail_at_root(
                    ErrorCode::ContractTypeMismatch,
                    crate::text::cat2(start.as_str(), place.as_str()),
                ),
            );
        }
        out.push(index);
        j = j + 1;
    }
    Ok(out)
}

} // verus!
