//! Values of the exact state, their order, sorting, and counting in sorted order.

use crate::text::{bytes_eq, bytes_less, lex_less, lex_total, lex_transitive};
use vstd::multiset::Multiset;
use vstd::prelude::*;

verus! {

/// The kind of the values that one exact state holds.
#[derive(Debug, Clone, Copy, PartialEq, Eq, Structural)]
pub enum ValueKind {
    I64,
    U64,
    F64,
    Bytes,
}

/// A value handed to an exact state. A float is its bit pattern.
#[derive(Debug)]
pub enum ValueRef<'a> {
    I64(i64),
    U64(u64),
    F64(u64),
    Bytes(&'a [u8]),
}

/// A value held by an exact state.
#[derive(Debug)]
pub enum OwnedValue {
    I64(i64),
    U64(u64),
    F64(u64),
    Bytes(Vec<u8>),
}

/// A value as a mathematical object.
pub enum Key {
    I64(int),
    U64(int),
    F64(int),
    Bytes(Seq<u8>),
}

/// A value with the row that it stands in.
pub type Entry = (Key, u64);

impl<'a> View for ValueRef<'a> {
    type V = Key;

    open spec fn view(&self) -> Key {
        match *self {
            ValueRef::I64(v) => Key::I64(v as int),
            ValueRef::U64(v) => Key::U64(v as int),
            ValueRef::F64(v) => Key::F64(v as int),
            ValueRef::Bytes(b) => Key::Bytes(b@),
        }
    }
}

impl View for OwnedValue {
    type V = Key;

    open spec fn view(&self) -> Key {
        match *self {
            OwnedValue::I64(v) => Key::I64(v as int),
            OwnedValue::U64(v) => Key::U64(v as int),
            OwnedValue::F64(v) => Key::F64(v as int),
            OwnedValue::Bytes(b) => Key::Bytes(b@),
        }
    }
}

impl Key {
    /// The kind of a value.
    pub open spec fn kind(self) -> ValueKind {
        match self {
            Key::I64(_) => ValueKind::I64,
            Key::U64(_) => ValueKind::U64,
            Key::F64(_) => ValueKind::F64,
            Key::Bytes(_) => ValueKind::Bytes,
        }
    }
}

impl<'a> ValueRef<'a> {
    /// The kind of a value.
    pub fn kind(&self) -> (r: ValueKind)
        ensures
            r == self@.kind(),
    {
        match self {
            ValueRef::I64(_) => ValueKind::I64,
            ValueRef::U64(_) => ValueKind::U64,
            ValueRef::F64(_) => ValueKind::F64,
            ValueRef::Bytes(_) => ValueKind::Bytes,
        }
    }
}

/// A value with the row that it stands in.
#[derive(Debug)]
pub struct Record {
    pub value: OwnedValue,
    pub row: u64,
}

impl View for Record {
    type V = Entry;

    open spec fn view(&self) -> Entry {
        (self.value@, self.row)
    }
}

/// The entries of a list of records.
pub open spec fn entries(records: Seq<Record>) -> Seq<Entry> {
    records.map_values(|r: Record| r@)
}

/// The order of kinds.
pub open spec fn rank(k: Key) -> int {
    match k {
        Key::I64(_) => 0,
        Key::U64(_) => 1,
        Key::F64(_) => 2,
        Key::Bytes(_) => 3,
    }
}

/// The order of values: by kind, then by number or by bytes.
pub open spec fn key_less(a: Key, b: Key) -> bool {
    match (a, b) {
        (Key::I64(x), Key::I64(y)) => x < y,
        (Key::U64(x), Key::U64(y)) => x < y,
        (Key::F64(x), Key::F64(y)) => x < y,
        (Key::Bytes(x), Key::Bytes(y)) => lex_less(x, y),
        _ => rank(a) < rank(b),
    }
}

/// The order of entries: by value, then by row.
pub open spec fn entry_less(a: Entry, b: Entry) -> bool {
    key_less(a.0, b.0) || (a.0 == b.0 && a.1 < b.1)
}

/// An entry that does not come behind another.
pub open spec fn entry_le(a: Entry, b: Entry) -> bool {
    a == b || entry_less(a, b)
}

/// Entries in order.
pub open spec fn sorted(s: Seq<Entry>) -> bool {
    forall|i: int, j: int| 0 <= i < j < s.len() ==> entry_le(#[trigger] s[i], #[trigger] s[j])
}

/// Any two values are equal or ordered one way.
pub proof fn key_total(a: Key, b: Key)
    ensures
        a == b || key_less(a, b) || key_less(b, a),
        key_less(a, b) ==> !key_less(b, a) && a != b,
{
    match (a, b) {
        (Key::Bytes(x), Key::Bytes(y)) => {
            lex_total(x, y);
        },
        _ => {},
    }
}

/// The order of values is transitive.
pub proof fn key_transitive(a: Key, b: Key, c: Key)
    requires
        key_less(a, b),
        key_less(b, c),
    ensures
        key_less(a, c),
{
    match (a, b, c) {
        (Key::Bytes(x), Key::Bytes(y), Key::Bytes(z)) => {
            lex_transitive(x, y, z);
        },
        _ => {},
    }
}

/// Any two entries are in order one way.
pub proof fn entry_total(a: Entry, b: Entry)
    ensures
        entry_le(a, b) || entry_le(b, a),
        entry_le(a, b) && entry_le(b, a) ==> a == b,
        !entry_less(a, b) ==> entry_le(b, a),
{
    key_total(a.0, b.0);
    key_total(b.0, a.0);
}

/// The order of entries is transitive.
pub proof fn entry_transitive(a: Entry, b: Entry, c: Entry)
    requires
        entry_le(a, b),
        entry_le(b, c),
    ensures
        entry_le(a, c),
{
    if a != b && b != c {
        if key_less(a.0, b.0) && key_less(b.0, c.0) {
            key_transitive(a.0, b.0, c.0);
        }
    }
}

/// Whether one value comes before another.
pub fn value_less(a: &OwnedValue, b: &OwnedValue) -> (r: bool)
    ensures
        r == key_less(a@, b@),
{
    match (a, b) {
        (OwnedValue::I64(x), OwnedValue::I64(y)) => *x < *y,
        (OwnedValue::U64(x), OwnedValue::U64(y)) => *x < *y,
        (OwnedValue::F64(x), OwnedValue::F64(y)) => *x < *y,
        (OwnedValue::Bytes(x), OwnedValue::Bytes(y)) => bytes_less(x.as_slice(), y.as_slice()),
        (OwnedValue::I64(_), _) => true,
        (OwnedValue::U64(_), OwnedValue::I64(_)) => false,
        (OwnedValue::U64(_), _) => true,
        (OwnedValue::F64(_), OwnedValue::Bytes(_)) => true,
        (OwnedValue::F64(_), _) => false,
        (OwnedValue::Bytes(_), _) => false,
    }
}

/// Whether two values are equal.
pub fn value_eq(a: &OwnedValue, b: &OwnedValue) -> (r: bool)
    ensures
        r == (a@ == b@),
{
    match (a, b) {
        (OwnedValue::I64(x), OwnedValue::I64(y)) => *x == *y,
        (OwnedValue::U64(x), OwnedValue::U64(y)) => *x == *y,
        (OwnedValue::F64(x), OwnedValue::F64(y)) => *x == *y,
        (OwnedValue::Bytes(x), OwnedValue::Bytes(y)) => bytes_eq(x.as_slice(), y.as_slice()),
        _ => false,
    }
}

/// Whether one record comes before another.
pub fn record_less(a: &Record, b: &Record) -> (r: bool)
    ensures
        r == entry_less(a@, b@),
{
    value_less(&a.value, &b.value) || (value_eq(&a.value, &b.value) && a.row < b.row)
}

/// A copy of a value.
pub fn copy_value(value: &OwnedValue) -> (r: OwnedValue)
    ensures
        r@ == value@,
{
    match value {
        OwnedValue::I64(v) => OwnedValue::I64(*v),
        OwnedValue::U64(v) => OwnedValue::U64(*v),
        OwnedValue::F64(v) => OwnedValue::F64(*v),
        OwnedValue::Bytes(b) => {
            let copy = crate::bytes::slice_of(b.as_slice(), 0, b.len());
            assert(copy@ =~= b@);
            OwnedValue::Bytes(copy)
        },
    }
}

/// Two sorted lists of the same entries are the same list.
pub proof fn sorted_list_is_unique(a: Seq<Entry>, b: Seq<Entry>)
    requires
        sorted(a),
        sorted(b),
        a.to_multiset() == b.to_multiset(),
    ensures
        a == b,
    decreases a.len(),
{
    broadcast use vstd::seq_lib::group_to_multiset_ensures;

    assert(a.len() == b.len()) by {
        assert(a.to_multiset().len() == a.len());
        assert(b.to_multiset().len() == b.len());
    }
    if a.len() == 0 {
        assert(a =~= b);
    } else {
        let x = a.last();
        let y = b.last();
        assert(a.to_multiset().count(x) > 0);
        assert(b.to_multiset().count(y) > 0);
        assert(b.contains(x)) by {
            assert(b.to_multiset().count(x) > 0);
        }
        assert(a.contains(y)) by {
            assert(a.to_multiset().count(y) > 0);
        }
        let i = choose|i: int| 0 <= i < b.len() && b[i] == x;
        let j = choose|j: int| 0 <= j < a.len() && a[j] == y;
        assert(entry_le(x, y)) by {
            if i < b.len() - 1 {
                assert(entry_le(b[i], b[b.len() - 1]));
            }
        }
        assert(entry_le(y, x)) by {
            if j < a.len() - 1 {
                assert(entry_le(a[j], a[a.len() - 1]));
            }
        }
        entry_total(x, y);
        assert(a =~= a.drop_last().push(x));
        assert(b =~= b.drop_last().push(y));
        assert(a.drop_last().to_multiset() =~= a.to_multiset().remove(x));
        assert(b.drop_last().to_multiset() =~= b.to_multiset().remove(y));
        assert forall|p: int, q: int| 0 <= p < q < a.drop_last().len() implies entry_le(
            #[trigger] a.drop_last()[p],
            #[trigger] a.drop_last()[q],
        ) by {
            assert(entry_le(a[p], a[q]));
        }
        assert forall|p: int, q: int| 0 <= p < q < b.drop_last().len() implies entry_le(
            #[trigger] b.drop_last()[p],
            #[trigger] b.drop_last()[q],
        ) by {
            assert(entry_le(b[p], b[q]));
        }
        sorted_list_is_unique(a.drop_last(), b.drop_last());
    }
}

/// The bag of the entries of a list of records.
pub open spec fn bag(records: Seq<Record>) -> Multiset<Entry> {
    entries(records).to_multiset()
}

proof fn bag_push(records: Seq<Record>, r: Record)
    ensures
        bag(records.push(r)) == bag(records).insert(r@),
        entries(records.push(r)) == entries(records).push(r@),
{
    broadcast use vstd::seq_lib::group_to_multiset_ensures;

    assert(entries(records.push(r)) =~= entries(records).push(r@));
}

/// Turns a list around.
fn reversed(mut from: Vec<Record>) -> (r: Vec<Record>)
    ensures
        r@.len() == from@.len(),
        forall|i: int| 0 <= i < r@.len() ==> r@[i] == from@[from@.len() - 1 - i],
        bag(r@) == bag(from@),
{
    let ghost all = from@;
    let mut r: Vec<Record> = Vec::new();
    proof {
        assert(bag(r@) =~= Multiset::empty()) by {
            broadcast use vstd::seq_lib::group_to_multiset_ensures;

            assert(entries(r@) =~= Seq::empty());
        }
        assert(bag(all).add(Multiset::empty()) =~= bag(all));
    }
    while from.len() > 0
        invariant
            r@.len() + from@.len() == all.len(),
            from@ == all.take(from@.len() as int),
            forall|i: int| 0 <= i < r@.len() ==> r@[i] == all[all.len() - 1 - i],
            bag(from@).add(bag(r@)) == bag(all),
        decreases from@.len(),
    {
        let ghost before = from@;
        let ghost had = r@;
        match from.pop() {
            Some(x) => {
                proof {
                    assert(before =~= from@.push(x));
                    bag_push(from@, x);
                    bag_push(had, x);
                    assert(bag(from@).insert(x@).add(bag(had)) =~= bag(from@).add(
                        bag(had).insert(x@),
                    ));
                }
                r.push(x);
            },
            None => {},
        }
    }
    proof {
        assert(bag(from@) =~= Multiset::empty()) by {
            broadcast use vstd::seq_lib::group_to_multiset_ensures;

            assert(entries(from@) =~= Seq::empty());
        }
        assert(Multiset::<Entry>::empty().add(bag(r@)) =~= bag(r@));
    }
    r
}

/// Descending order.
spec fn descending(s: Seq<Entry>) -> bool {
    forall|i: int, j: int| 0 <= i < j < s.len() ==> entry_le(#[trigger] s[j], #[trigger] s[i])
}

/// Merges two sorted lists.
fn merge_sorted(mut a: Vec<Record>, mut b: Vec<Record>) -> (r: Vec<Record>)
    requires
        sorted(entries(a@)),
        sorted(entries(b@)),
    ensures
        sorted(entries(r@)),
        bag(r@) == bag(a@).add(bag(b@)),
{
    let ghost total = bag(a@).add(bag(b@));
    let mut out: Vec<Record> = Vec::new();
    proof {
        assert(bag(out@) =~= Multiset::empty()) by {
            broadcast use vstd::seq_lib::group_to_multiset_ensures;

            assert(entries(out@) =~= Seq::empty());
        }
        assert(bag(a@).add(bag(b@)).add(bag(out@)) =~= total);
    }
    while a.len() > 0 || b.len() > 0
        invariant
            sorted(entries(a@)),
            sorted(entries(b@)),
            descending(entries(out@)),
            forall|i: int, k: int|
                0 <= i < a@.len() && 0 <= k < out@.len() ==> entry_le(
                    #[trigger] a@[i]@,
                    #[trigger] out@[k]@,
                ),
            forall|i: int, k: int|
                0 <= i < b@.len() && 0 <= k < out@.len() ==> entry_le(
                    #[trigger] b@[i]@,
                    #[trigger] out@[k]@,
                ),
            bag(a@).add(bag(b@)).add(bag(out@)) == total,
        decreases a@.len() + b@.len(),
    {
        let from_a = if a.len() == 0 {
            false
        } else if b.len() == 0 {
            true
        } else {
            !record_less(&a[a.len() - 1], &b[b.len() - 1])
        };
        let ghost old_a = a@;
        let ghost old_b = b@;
        let ghost old_out = out@;
        if from_a {
            match a.pop() {
                Some(x) => {
                    proof {
                        assert(old_a =~= a@.push(x));
                        last_is_largest(old_a, x);
                        if old_b.len() > 0 {
                            entry_total(x@, old_b.last()@);
                            assert forall|i: int| 0 <= i < old_b.len() implies entry_le(
                                #[trigger] old_b[i]@,
                                x@,
                            ) by {
                                last_is_largest(old_b, old_b.last());
                                entry_transitive(old_b[i]@, old_b.last()@, x@);
                            }
                        }
                        bag_push(a@, x);
                        bag_push(old_out, x);
                        assert(bag(old_a).add(bag(b@)).add(bag(old_out)) =~= bag(a@).add(
                            bag(b@),
                        ).add(bag(old_out).insert(x@)));
                        shorter_stays_sorted(old_a, a@);
                        push_descending(old_out, x);
                    }
                    out.push(x);
                },
                None => {},
            }
        } else {
            match b.pop() {
                Some(x) => {
                    proof {
                        assert(old_b =~= b@.push(x));
                        last_is_largest(old_b, x);
                        if old_a.len() > 0 {
                            assert forall|i: int| 0 <= i < old_a.len() implies entry_le(
                                #[trigger] old_a[i]@,
                                x@,
                            ) by {
                                last_is_largest(old_a, old_a.last());
                                entry_transitive(old_a[i]@, old_a.last()@, x@);
                            }
                        }
                        bag_push(b@, x);
                        bag_push(old_out, x);
                        assert(bag(a@).add(bag(old_b)).add(bag(old_out)) =~= bag(a@).add(
                            bag(b@),
                        ).add(bag(old_out).insert(x@)));
                        shorter_stays_sorted(old_b, b@);
                        push_descending(old_out, x);
                    }
                    out.push(x);
                },
                None => {},
            }
        }
    }
    let ghost desc = out@;
    let r = reversed(out);
    proof {
        assert(bag(a@) =~= Multiset::empty()) by {
            broadcast use vstd::seq_lib::group_to_multiset_ensures;

            assert(entries(a@) =~= Seq::empty());
        }
        assert(bag(b@) =~= Multiset::empty()) by {
            broadcast use vstd::seq_lib::group_to_multiset_ensures;

            assert(entries(b@) =~= Seq::empty());
        }
        assert(bag(a@).add(bag(b@)).add(bag(desc)) =~= bag(desc));
        assert forall|i: int, j: int| 0 <= i < j < entries(r@).len() implies entry_le(
            #[trigger] entries(r@)[i],
            #[trigger] entries(r@)[j],
        ) by {
            assert(entries(r@)[i] == entries(desc)[desc.len() - 1 - i]);
            assert(entries(r@)[j] == entries(desc)[desc.len() - 1 - j]);
        }
    }
    r
}

proof fn last_is_largest(records: Seq<Record>, x: Record)
    requires
        records.len() > 0,
        sorted(entries(records)),
        x == records.last(),
    ensures
        forall|i: int| 0 <= i < records.len() ==> entry_le(#[trigger] records[i]@, x@),
{
    assert forall|i: int| 0 <= i < records.len() implies entry_le(#[trigger] records[i]@, x@) by {
        if i < records.len() - 1 {
            assert(entries(records)[i] == records[i]@);
            assert(entries(records)[records.len() - 1] == x@);
        }
    }
}

proof fn shorter_stays_sorted(longer: Seq<Record>, shorter: Seq<Record>)
    requires
        sorted(entries(longer)),
        shorter.len() <= longer.len(),
        forall|i: int| 0 <= i < shorter.len() ==> #[trigger] shorter[i] == longer[i],
    ensures
        sorted(entries(shorter)),
{
    assert forall|i: int, j: int| 0 <= i < j < entries(shorter).len() implies entry_le(
        #[trigger] entries(shorter)[i],
        #[trigger] entries(shorter)[j],
    ) by {
        assert(shorter[i] == longer[i] && shorter[j] == longer[j]);
        assert(entry_le(entries(longer)[i], entries(longer)[j]));
    }
}

proof fn push_descending(out: Seq<Record>, x: Record)
    requires
        descending(entries(out)),
        forall|k: int| 0 <= k < out.len() ==> entry_le(x@, #[trigger] out[k]@),
    ensures
        descending(entries(out.push(x))),
{
    assert forall|i: int, j: int| 0 <= i < j < entries(out.push(x)).len() implies entry_le(
        #[trigger] entries(out.push(x))[j],
        #[trigger] entries(out.push(x))[i],
    ) by {
        assert(entries(out.push(x))[i] == out.push(x)[i]@);
        assert(entries(out.push(x))[j] == out.push(x)[j]@);
        if j < out.len() {
            assert(entry_le(entries(out)[j], entries(out)[i]));
        } else {
            assert(out.push(x)[i] == out[i]);
        }
    }
}

/// Sorts records by value, then by row.
pub fn sort_records(mut records: Vec<Record>) -> (r: Vec<Record>)
    ensures
        sorted(entries(r@)),
        bag(r@) == bag(records@),
        r@.len() == records@.len(),
    decreases records@.len(),
{
    let n: usize = records.len();
    let ghost all = records@;
    if n <= 1 {
        return records;
    }
    let tail = records.split_off(n / 2);
    proof {
        broadcast use vstd::seq_lib::group_to_multiset_ensures;

        assert(all =~= records@ + tail@);
        assert(entries(all) =~= entries(records@) + entries(tail@));
        vstd::seq_lib::lemma_multiset_commutative(entries(records@), entries(tail@));
    }
    let a = sort_records(records);
    let b = sort_records(tail);
    let r = merge_sorted(a, b);
    proof {
        broadcast use vstd::seq_lib::group_to_multiset_ensures;

        assert(bag(r@).len() == entries(r@).len());
        assert(bag(all).len() == entries(all).len());
    }
    r
}

/// What counting in sorted order finds: how many values are distinct, how many entries
/// repeat one, the first repeats with the row of the first occurrence, and the first entry
/// of the last value.
pub struct Tally {
    pub distinct: nat,
    pub duplicates: nat,
    pub samples: Seq<(u64, u64)>,
    pub first: Option<Entry>,
}

/// A tally with one more entry.
pub open spec fn tally_step(t: Tally, e: Entry, max_samples: nat) -> Tally {
    match t.first {
        Some(f) => if f.0 == e.0 {
            Tally {
                distinct: t.distinct,
                duplicates: t.duplicates + 1,
                samples: if t.samples.len() < max_samples {
                    t.samples.push((f.1, e.1))
                } else {
                    t.samples
                },
                first: t.first,
            }
        } else {
            Tally { distinct: t.distinct + 1, first: Some(e), ..t }
        },
        None => Tally { distinct: t.distinct + 1, first: Some(e), ..t },
    }
}

/// The tally of a list of entries.
pub open spec fn tally(s: Seq<Entry>, max_samples: nat) -> Tally
    decreases s.len(),
{
    if s.len() == 0 {
        Tally { distinct: 0, duplicates: 0, samples: Seq::empty(), first: None }
    } else {
        tally_step(tally(s.drop_last(), max_samples), s.last(), max_samples)
    }
}

/// Every entry is counted once: as a distinct value or as a repeat. Repeats are sampled
/// up to the limit.
pub proof fn tally_counts_every_entry(s: Seq<Entry>, max_samples: nat)
    ensures
        tally(s, max_samples).distinct + tally(s, max_samples).duplicates == s.len(),
        tally(s, max_samples).samples.len() == if tally(s, max_samples).duplicates < max_samples {
            tally(s, max_samples).duplicates
        } else {
            max_samples
        },
        s.len() > 0 ==> tally(s, max_samples).first is Some,
    decreases s.len(),
{
    if s.len() > 0 {
        tally_counts_every_entry(s.drop_last(), max_samples);
    }
}

/// The values of a list of entries.
pub open spec fn keys(s: Seq<Entry>) -> Set<Key> {
    Set::new(|k: Key| exists|i: int| 0 <= i < s.len() && (#[trigger] s[i]).0 == k)
}

/// In sorted order the number of distinct values is exact.
pub proof fn tally_of_sorted_is_exact(s: Seq<Entry>, max_samples: nat)
    requires
        sorted(s),
    ensures
        keys(s).finite(),
        keys(s).len() == tally(s, max_samples).distinct,
        s.len() > 0 ==> tally(s, max_samples).first is Some && tally(s, max_samples).first.unwrap().0
            == s.last().0,
    decreases s.len(),
{
    if s.len() == 0 {
        assert(keys(s) =~= Set::empty());
    } else {
        let rest = s.drop_last();
        let e = s.last();
        assert forall|i: int, j: int| 0 <= i < j < rest.len() implies entry_le(
            #[trigger] rest[i],
            #[trigger] rest[j],
        ) by {
            assert(entry_le(s[i], s[j]));
        }
        tally_of_sorted_is_exact(rest, max_samples);
        tally_counts_every_entry(rest, max_samples);
        assert(keys(s) =~= keys(rest).insert(e.0)) by {
            assert forall|k: Key| keys(s).contains(k) implies keys(rest).insert(e.0).contains(
                k,
            ) by {
                let i = choose|i: int| 0 <= i < s.len() && (#[trigger] s[i]).0 == k;
                if i < rest.len() {
                    assert(rest[i].0 == k);
                }
            }
            assert forall|k: Key| keys(rest).insert(e.0).contains(k) implies keys(s).contains(
                k,
            ) by {
                if k == e.0 {
                    assert(s[s.len() - 1].0 == k);
                } else {
                    let i = choose|i: int| 0 <= i < rest.len() && (#[trigger] rest[i]).0 == k;
                    assert(s[i].0 == k);
                }
            }
        }
        if rest.len() > 0 && rest.last().0 == e.0 {
            assert(rest[rest.len() - 1].0 == e.0);
            assert(keys(rest).contains(e.0));
        } else {
            if keys(rest).contains(e.0) {
                let i = choose|i: int| 0 <= i < rest.len() && (#[trigger] rest[i]).0 == e.0;
                let last = rest.last();
                if i < rest.len() - 1 {
                    assert(entry_le(rest[i], rest[rest.len() - 1]));
                }
                assert(entry_le(s[rest.len() - 1], s[s.len() - 1]));
                key_total(e.0, last.0);
                key_total(last.0, e.0);
                assert(false);
            }
        }
    }
}

} // verus!
