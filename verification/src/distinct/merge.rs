//! Merging sorted runs: counting, compacting, intersecting and subtracting.

use crate::distinct::order::{
    copy_value, entries, entry_le, entry_total, entry_transitive, key_less, key_total,
    key_transitive, keys, record_less, sorted, sorted_list_is_unique, tally, tally_step,
    tally_counts_every_entry, value_eq, value_less, Entry, Key, OwnedValue, Record, Tally,
};
use crate::distinct::run::RunCursor;
use vstd::multiset::Multiset;
use vstd::prelude::*;
use vstd::relations::{antisymmetric, reflexive, strongly_connected, total_ordering, transitive};

verus! {

/// The rows of a repeated value: where it stood first, and where it came again.
#[derive(Debug, Clone, Copy, PartialEq, Eq, Structural)]
pub struct DuplicateSample {
    pub first_row: u64,
    pub duplicate_row: u64,
}

/// The rows of a list of samples.
pub open spec fn sample_rows(samples: Seq<DuplicateSample>) -> Seq<(u64, u64)> {
    samples.map_values(|s: DuplicateSample| (s.first_row, s.duplicate_row))
}

/// The order of entries as a relation.
pub open spec fn in_order() -> spec_fn(Entry, Entry) -> bool {
    |a: Entry, b: Entry| entry_le(a, b)
}

proof fn in_order_is_total()
    ensures
        total_ordering(in_order()),
{
    let r = in_order();
    assert forall|a: Entry, b: Entry| #[trigger] r(a, b) && #[trigger] r(b, a) implies a == b by {
        entry_total(a, b);
    }
    assert forall|a: Entry, b: Entry, c: Entry| #[trigger] r(a, b) && #[trigger] r(b, c) implies r(
        a,
        c,
    ) by {
        entry_transitive(a, b, c);
    }
    assert forall|a: Entry, b: Entry| #[trigger] r(a, b) || #[trigger] r(b, a) by {
        entry_total(a, b);
    }
    assert(reflexive(r));
    assert(antisymmetric(r));
    assert(transitive(r));
    assert(strongly_connected(r));
}

/// The entries of several lists, one list behind the other.
pub open spec fn joined(lists: Seq<Seq<Entry>>) -> Seq<Entry>
    decreases lists.len(),
{
    if lists.len() == 0 {
        Seq::empty()
    } else {
        joined(lists.drop_last()) + lists.last()
    }
}

/// The entries of several lists in order.
pub open spec fn merged(lists: Seq<Seq<Entry>>) -> Seq<Entry> {
    joined(lists).sort_by(in_order())
}

/// The merged list is sorted and holds just the entries of the lists.
pub proof fn merged_is_sorted(lists: Seq<Seq<Entry>>)
    ensures
        sorted(merged(lists)),
        merged(lists).to_multiset() == joined(lists).to_multiset(),
        merged(lists).len() == joined(lists).len(),
{
    broadcast use vstd::seq_lib::group_to_multiset_ensures;

    in_order_is_total();
    joined(lists).lemma_sort_by_ensures(in_order());
    let m = merged(lists);
    assert forall|i: int, j: int| 0 <= i < j < m.len() implies entry_le(
        #[trigger] m[i],
        #[trigger] m[j],
    ) by {
        assert(in_order()(m[i], m[j]));
    }
    assert(m.to_multiset().len() == m.len());
    assert(joined(lists).to_multiset().len() == joined(lists).len());
}

proof fn joined_update(lists: Seq<Seq<Entry>>, i: int)
    requires
        0 <= i < lists.len(),
        lists[i].len() > 0,
    ensures
        joined(lists).to_multiset() == joined(
            lists.update(i, lists[i].drop_first()),
        ).to_multiset().insert(lists[i][0]),
    decreases lists.len(),
{
    broadcast use vstd::seq_lib::group_to_multiset_ensures;

    let after = lists.update(i, lists[i].drop_first());
    if i == lists.len() - 1 {
        assert(after.drop_last() =~= lists.drop_last());
        let l = lists.last();
        assert(l =~= seq![l[0]] + l.drop_first());
        vstd::seq_lib::lemma_multiset_commutative(joined(lists.drop_last()), l);
        vstd::seq_lib::lemma_multiset_commutative(joined(lists.drop_last()), l.drop_first());
        vstd::seq_lib::lemma_multiset_commutative(seq![l[0]], l.drop_first());
        assert(seq![l[0]] =~= Seq::<Entry>::empty().push(l[0]));
        assert(seq![l[0]].to_multiset() =~= Multiset::<Entry>::empty().insert(l[0]));
        assert(joined(lists).to_multiset() =~= joined(after).to_multiset().insert(l[0]));
    } else {
        assert(after.drop_last() =~= lists.drop_last().update(i, lists[i].drop_first()));
        joined_update(lists.drop_last(), i);
        vstd::seq_lib::lemma_multiset_commutative(joined(lists.drop_last()), lists.last());
        vstd::seq_lib::lemma_multiset_commutative(joined(after.drop_last()), lists.last());
        assert(joined(lists).to_multiset() =~= joined(after).to_multiset().insert(lists[i][0]));
    }
}

proof fn joined_contains(lists: Seq<Seq<Entry>>, i: int, k: int)
    requires
        0 <= i < lists.len(),
        0 <= k < lists[i].len(),
    ensures
        joined(lists).contains(lists[i][k]),
    decreases lists.len(),
{
    let x = lists[i][k];
    if i == lists.len() - 1 {
        let n = joined(lists.drop_last()).len();
        assert(joined(lists)[n + k] == x);
    } else {
        joined_contains(lists.drop_last(), i, k);
        let p = choose|p: int|
            0 <= p < joined(lists.drop_last()).len() && joined(lists.drop_last())[p] == x;
        assert(joined(lists)[p] == x);
    }
}

/// Where an entry of several lists stands.
pub proof fn joined_member(lists: Seq<Seq<Entry>>, x: Entry) -> (at: (int, int))
    requires
        joined(lists).contains(x),
    ensures
        0 <= at.0 < lists.len(),
        0 <= at.1 < lists[at.0].len(),
        lists[at.0][at.1] == x,
    decreases lists.len(),
{
    let p = choose|p: int| 0 <= p < joined(lists).len() && joined(lists)[p] == x;
    let n = joined(lists.drop_last()).len();
    if p >= n {
        assert(lists.last()[p - n] == x);
        (lists.len() - 1, p - n)
    } else {
        assert(joined(lists.drop_last())[p] == x);
        joined_member(lists.drop_last(), x)
    }
}

/// Lists that are each in order.
pub open spec fn all_sorted(lists: Seq<Seq<Entry>>) -> bool {
    forall|i: int| 0 <= i < lists.len() ==> sorted(#[trigger] lists[i])
}

proof fn least_head_comes_first(lists: Seq<Seq<Entry>>, i: int)
    requires
        all_sorted(lists),
        0 <= i < lists.len(),
        lists[i].len() > 0,
        forall|j: int|
            0 <= j < lists.len() && (#[trigger] lists[j]).len() > 0 ==> entry_le(
                lists[i][0],
                lists[j][0],
            ),
    ensures
        merged(lists).len() > 0,
        merged(lists)[0] == lists[i][0],
        merged(lists.update(i, lists[i].drop_first())) == merged(lists).drop_first(),
        all_sorted(lists.update(i, lists[i].drop_first())),
{
    broadcast use vstd::seq_lib::group_to_multiset_ensures;

    let m = merged(lists);
    let x = lists[i][0];
    let after = lists.update(i, lists[i].drop_first());
    merged_is_sorted(lists);
    merged_is_sorted(after);
    joined_update(lists, i);
    joined_contains(lists, i, 0);
    assert(m.contains(x)) by {
        assert(joined(lists).to_multiset().count(x) > 0);
        assert(m.to_multiset().count(x) > 0);
    }
    let p = choose|p: int| 0 <= p < m.len() && m[p] == x;
    assert(entry_le(m[0], x)) by {
        if p > 0 {
            assert(entry_le(m[0], m[p]));
        }
    }
    assert(entry_le(x, m[0])) by {
        let y = m[0];
        assert(m.to_multiset().count(y) > 0);
        assert(joined(lists).to_multiset().count(y) > 0);
        let (a, b) = joined_member(lists, y);
        if b > 0 {
            assert(entry_le(lists[a][0], lists[a][b]));
        }
        entry_transitive(x, lists[a][0], y);
    }
    entry_total(x, m[0]);
    let rest = m.drop_first();
    assert(m =~= seq![x] + rest);
    vstd::seq_lib::lemma_multiset_commutative(seq![x], rest);
    assert(seq![x] =~= Seq::<Entry>::empty().push(x));
    assert(seq![x].to_multiset() =~= Multiset::<Entry>::empty().insert(x));
    assert(m.to_multiset() =~= rest.to_multiset().insert(x));
    assert(rest.to_multiset() =~= m.to_multiset().remove(x));
    assert(merged(after).to_multiset() =~= m.to_multiset().remove(x));
    assert forall|a: int, b: int| 0 <= a < b < rest.len() implies entry_le(
        #[trigger] rest[a],
        #[trigger] rest[b],
    ) by {
        assert(entry_le(m[a + 1], m[b + 1]));
    }
    sorted_list_is_unique(merged(after), rest);
    assert forall|j: int| 0 <= j < after.len() implies sorted(#[trigger] after[j]) by {
        assert(sorted(lists[j]));
        if j == i {
            assert forall|a: int, b: int| 0 <= a < b < after[j].len() implies entry_le(
                #[trigger] after[j][a],
                #[trigger] after[j][b],
            ) by {
                assert(entry_le(lists[i][a + 1], lists[i][b + 1]));
            }
        }
    }
}

/// Several runs read side by side: the next entry of each, and its reader.
pub struct Merge<'a> {
    cursors: Vec<RunCursor<'a>>,
    heads: Vec<Option<Record>>,
}

/// What is left of a run: its next entry, and what stands behind it.
pub open spec fn left_of(head: Option<Record>, rest: Seq<Entry>) -> Seq<Entry> {
    match head {
        Some(r) => seq![r@] + rest,
        None => Seq::empty(),
    }
}

impl<'a> Merge<'a> {
    /// Every run is whole, and one without a next entry is at its end.
    pub closed spec fn wf(&self) -> bool {
        &&& self.cursors@.len() == self.heads@.len()
        &&& forall|i: int| 0 <= i < self.cursors@.len() ==> (#[trigger] self.cursors@[i]).wf()
        &&& forall|i: int|
            0 <= i < self.heads@.len() ==> (#[trigger] self.heads@[i] is None
                ==> self.cursors@[i].rest().len() == 0)
    }

    /// What is left of each run.
    pub closed spec fn lists(&self) -> Seq<Seq<Entry>> {
        Seq::new(
            self.heads@.len(),
            |i: int| left_of(self.heads@[i], self.cursors@[i].rest()),
        )
    }

    /// What is left of all runs, in order.
    pub open spec fn order(&self) -> Seq<Entry> {
        merged(self.lists())
    }

    /// Reads runs side by side.
    pub fn new(mut cursors: Vec<RunCursor<'a>>) -> (r: Self)
        requires
            forall|i: int| 0 <= i < cursors@.len() ==> (#[trigger] cursors@[i]).wf(),
        ensures
            r.wf(),
            r.lists().len() == cursors@.len(),
            forall|i: int|
                0 <= i < cursors@.len() ==> #[trigger] r.lists()[i] == cursors@[i].rest(),
    {
        let ghost given = cursors@;
        let mut heads: Vec<Option<Record>> = Vec::new();
        let mut i: usize = 0;
        while i < cursors.len()
            invariant
                i <= cursors@.len(),
                cursors@.len() == given.len(),
                heads@.len() == i,
                forall|k: int| 0 <= k < cursors@.len() ==> (#[trigger] cursors@[k]).wf(),
                forall|k: int| i <= k < given.len() ==> #[trigger] cursors@[k] == given[k],
                forall|k: int|
                    0 <= k < i ==> left_of(#[trigger] heads@[k], cursors@[k].rest())
                        == given[k].rest() && (heads@[k] is None ==> cursors@[k].rest().len() == 0),
            decreases cursors@.len() - i,
        {
            assert(cursors@[i as int].wf());
            let ghost before = cursors@[i as int].rest();
            let head = cursors[i].next();
            proof {
                if head is Some {
                    assert(before =~= seq![head->0@] + before.drop_first());
                } else {
                    assert(before =~= Seq::empty());
                }
            }
            heads.push(head);
            i = i + 1;
        }
        let r = Merge { cursors, heads };
        assert forall|k: int| 0 <= k < given.len() implies #[trigger] r.lists()[k]
            == given[k].rest() by {
            assert(left_of(r.heads@[k], r.cursors@[k].rest()) == given[k].rest());
        }
        r
    }

    /// The number of the run with the least next entry.
    fn least(&self) -> (r: Option<usize>)
        requires
            self.wf(),
        ensures
            match r {
                Some(i) => i < self.lists().len() && self.heads@[i as int] is Some && forall|j: int|
                    0 <= j < self.lists().len() && (#[trigger] self.lists()[j]).len() > 0
                        ==> entry_le(self.lists()[i as int][0], self.lists()[j][0]),
                None => forall|j: int|
                    0 <= j < self.lists().len() ==> (#[trigger] self.lists()[j]).len() == 0,
            },
    {
        let mut best: Option<usize> = None;
        let mut i: usize = 0;
        while i < self.heads.len()
            invariant
                i <= self.heads@.len(),
                self.wf(),
                match best {
                    Some(b) => b < i && self.heads@[b as int] is Some && forall|j: int|
                        0 <= j < i && (#[trigger] self.heads@[j]) is Some ==> entry_le(
                            self.heads@[b as int].unwrap()@,
                            self.heads@[j].unwrap()@,
                        ),
                    None => forall|j: int| 0 <= j < i ==> (#[trigger] self.heads@[j]) is None,
                },
            decreases self.heads@.len() - i,
        {
            match &self.heads[i] {
                Some(r) => {
                    let better = match best {
                        Some(b) => match &self.heads[b] {
                            Some(held) => record_less(r, held),
                            None => true,
                        },
                        None => true,
                    };
                    proof {
                        match best {
                            Some(b) => {
                                let held = self.heads@[b as int].unwrap()@;
                                entry_total(r@, held);
                                entry_total(held, r@);
                                if better {
                                    assert forall|j: int|
                                        0 <= j < i + 1 && (#[trigger] self.heads@[j])
                                            is Some implies entry_le(
                                        r@,
                                        self.heads@[j].unwrap()@,
                                    ) by {
                                        if j < i {
                                            entry_transitive(r@, held, self.heads@[j].unwrap()@);
                                        }
                                    }
                                }
                            },
                            None => {},
                        }
                    }
                    if better {
                        best = Some(i);
                    }
                },
                None => {},
            }
            i = i + 1;
        }
        proof {
            assert forall|j: int| 0 <= j < self.lists().len() implies ((
            #[trigger] self.lists()[j]).len() > 0) == (self.heads@[j] is Some) by {}
            match best {
                Some(b) => {
                    assert forall|j: int|
                        0 <= j < self.lists().len() && (#[trigger] self.lists()[j]).len()
                            > 0 implies entry_le(self.lists()[b as int][0], self.lists()[j][0]) by {
                        assert(self.heads@[j] is Some);
                        assert(self.heads@[b as int] is Some);
                    }
                },
                None => {},
            }
        }
        best
    }

    /// Takes the least entry of all runs.
    pub fn pop(&mut self) -> (r: Option<Record>)
        requires
            old(self).wf(),
            all_sorted(old(self).lists()),
        ensures
            final(self).wf(),
            all_sorted(final(self).lists()),
            match r {
                Some(record) => old(self).order().len() > 0 && record@ == old(self).order()[0]
                    && final(self).order() == old(self).order().drop_first(),
                None => old(self).order().len() == 0 && final(self).order().len() == 0,
            },
    {
        match self.least() {
            None => {
                proof {
                    merged_is_sorted(self.lists());
                    empty_lists(self.lists());
                }
                None
            },
            Some(i) => {
                let ghost before = self.lists();
                proof {
                    least_head_comes_first(before, i as int);
                }
                assert(self.cursors@[i as int].wf());
                let ghost rest = self.cursors@[i as int].rest();
                let ghost old_heads = self.heads@;
                let ghost old_cursors = self.cursors@;
                let next = self.cursors[i].next();
                proof {
                    if next is Some {
                        assert(rest =~= seq![next->0@] + rest.drop_first());
                    } else {
                        assert(rest =~= Seq::empty());
                    }
                }
                let mut slot = next;
                core::mem::swap(&mut self.heads[i], &mut slot);
                proof {
                    let after = before.update(i as int, before[i as int].drop_first());
                    assert(before[i as int].drop_first() =~= rest);
                    assert forall|j: int| 0 <= j < after.len() implies #[trigger] self.lists()[j]
                        == after[j] by {
                        if j != i {
                            assert(self.heads@[j] == old_heads[j]);
                            assert(self.cursors@[j] == old_cursors[j]);
                        }
                    }
                    assert(self.lists() =~= after);
                    assert forall|j: int|
                        0 <= j < self.heads@.len() && (#[trigger] self.heads@[j])
                            is None implies self.cursors@[j].rest().len() == 0 by {
                        if j != i {
                            assert(self.heads@[j] == old_heads[j]);
                            assert(self.cursors@[j] == old_cursors[j]);
                        }
                    }
                    assert forall|j: int| 0 <= j < self.cursors@.len() implies (
                    #[trigger] self.cursors@[j]).wf() by {
                        if j != i {
                            assert(self.cursors@[j] == old_cursors[j]);
                        }
                    }
                }
                slot
            },
        }
    }
}

proof fn empty_lists(lists: Seq<Seq<Entry>>)
    requires
        forall|j: int| 0 <= j < lists.len() ==> (#[trigger] lists[j]).len() == 0,
    ensures
        joined(lists).len() == 0,
    decreases lists.len(),
{
    if lists.len() > 0 {
        assert forall|j: int| 0 <= j < lists.drop_last().len() implies (
        #[trigger] lists.drop_last()[j]).len() == 0 by {
            assert(lists[j].len() == 0);
        }
        empty_lists(lists.drop_last());
    }
}

/// A tally in machine numbers.
#[derive(Debug)]
pub struct Counts {
    pub distinct: u64,
    pub duplicates: u64,
    pub samples: Vec<DuplicateSample>,
}

/// A count that equals a tally.
pub open spec fn counted(c: Counts, t: Tally) -> bool {
    c.distinct == t.distinct && c.duplicates == t.duplicates && sample_rows(c.samples@)
        == t.samples
}

/// Counts entries as they come in order.
pub struct Counter {
    counts: Counts,
    first: Option<Record>,
    max_samples: usize,
}

impl Counter {
    /// The tally so far.
    pub closed spec fn so_far(&self) -> Tally {
        Tally {
            distinct: self.counts.distinct as nat,
            duplicates: self.counts.duplicates as nat,
            samples: sample_rows(self.counts.samples@),
            first: match self.first {
                Some(r) => Some(r@),
                None => None,
            },
        }
    }

    /// The most samples to keep.
    pub closed spec fn limit(&self) -> nat {
        self.max_samples as nat
    }

    /// A counter that has seen nothing.
    pub fn new(max_samples: usize) -> (r: Self)
        ensures
            r.so_far() == tally(Seq::empty(), max_samples as nat),
            r.limit() == max_samples,
    {
        let r = Counter {
            counts: Counts { distinct: 0, duplicates: 0, samples: Vec::new() },
            first: None,
            max_samples,
        };
        assert(sample_rows(r.counts.samples@) =~= Seq::empty());
        r
    }

    /// Counts one more entry.
    pub fn add(&mut self, record: Record)
        requires
            old(self).so_far().distinct + old(self).so_far().duplicates < u64::MAX,
        ensures
            final(self).limit() == old(self).limit(),
            final(self).so_far() == tally_step(old(self).so_far(), record@, old(self).limit()),
    {
        let repeat = match &self.first {
            Some(f) => value_eq(&f.value, &record.value),
            None => false,
        };
        if repeat {
            let first_row: u64 = match &self.first {
                Some(f) => f.row,
                None => 0,
            };
            self.counts.duplicates = self.counts.duplicates + 1;
            if self.counts.samples.len() < self.max_samples {
                let ghost had = self.counts.samples@;
                let sample = DuplicateSample { first_row, duplicate_row: record.row };
                self.counts.samples.push(sample);
                assert(sample_rows(self.counts.samples@) =~= sample_rows(had).push(
                    (first_row, record.row),
                ));
            }
        } else {
            self.counts.distinct = self.counts.distinct + 1;
            self.first = Some(record);
        }
    }

    /// The counts.
    pub fn finish(self) -> (r: Counts)
        ensures
            counted(r, self.so_far()),
    {
        self.counts
    }
}

/// Counts the entries of a list that stands in order.
pub fn count_records(records: &Vec<Record>, max_samples: usize) -> (r: Counts)
    ensures
        counted(r, tally(entries(records@), max_samples as nat)),
{
    let ghost all = entries(records@);
    let mut distinct: u64 = 0;
    let mut duplicates: u64 = 0;
    let mut samples: Vec<DuplicateSample> = Vec::new();
    let mut first: Option<usize> = None;
    let mut i: usize = 0;
    assert(all.take(0) =~= Seq::empty());
    assert(sample_rows(samples@) =~= Seq::empty());
    while i < records.len()
        invariant
            i <= records@.len(),
            all == entries(records@),
            distinct + duplicates == i,
            distinct == tally(all.take(i as int), max_samples as nat).distinct,
            duplicates == tally(all.take(i as int), max_samples as nat).duplicates,
            sample_rows(samples@) == tally(all.take(i as int), max_samples as nat).samples,
            match tally(all.take(i as int), max_samples as nat).first {
                Some(f) => (first matches Some(k) && k < i) && all[first.unwrap() as int] == f,
                None => first is None,
            },
        decreases records@.len() - i,
    {
        proof {
            assert(all.take(i + 1).drop_last() =~= all.take(i as int));
            assert(all.take(i + 1).last() == records@[i as int]@);
        }
        let repeat = match first {
            Some(k) => value_eq(&records[k].value, &records[i].value),
            None => false,
        };
        if repeat {
            duplicates = duplicates + 1;
            if samples.len() < max_samples {
                let ghost had = samples@;
                let first_row: u64 = match first {
                    Some(k) => records[k].row,
                    None => 0,
                };
                samples.push(DuplicateSample { first_row, duplicate_row: records[i].row });
                assert(sample_rows(samples@) =~= sample_rows(had).push(
                    (first_row, records@[i as int].row),
                ));
            } else {
                assert(sample_rows(samples@).len() == samples@.len());
            }
        } else {
            distinct = distinct + 1;
            first = Some(i);
        }
        i = i + 1;
    }
    assert(all.take(records@.len() as int) =~= all);
    Counts { distinct, duplicates, samples }
}

/// Counts the entries of several runs in order.
pub fn count_merged<'a>(mut merge: Merge<'a>, max_samples: usize) -> (r: Counts)
    requires
        merge.wf(),
        all_sorted(merge.lists()),
        merge.order().len() <= u64::MAX,
    ensures
        counted(r, tally(merge.order(), max_samples as nat)),
{
    let ghost all = merge.order();
    let mut counter = Counter::new(max_samples);
    let ghost mut n: int = 0;
    assert(all.take(0) =~= Seq::empty());
    assert(all.skip(0) =~= all);
    loop
        invariant
            merge.wf(),
            all_sorted(merge.lists()),
            0 <= n <= all.len() <= u64::MAX,
            merge.order() == all.skip(n),
            counter.limit() == max_samples,
            counter.so_far() == tally(all.take(n), max_samples as nat),
        ensures
            n == all.len(),
            counter.so_far() == tally(all.take(n), max_samples as nat),
        decreases all.len() - n,
    {
        match merge.pop() {
            None => {
                break;
            },
            Some(record) => {
                proof {
                    tally_counts_every_entry(all.take(n), max_samples as nat);
                    assert(all.skip(n)[0] == all[n]);
                    assert(all.skip(n).drop_first() =~= all.skip(n + 1));
                    assert(all.take(n + 1).drop_last() =~= all.take(n));
                    n = n + 1;
                }
                counter.add(record);
            },
        }
    }
    assert(all.take(n) =~= all);
    counter.finish()
}

/// Takes every entry of several runs in order.
pub fn collect_merged<'a>(mut merge: Merge<'a>) -> (r: Vec<Record>)
    requires
        merge.wf(),
        all_sorted(merge.lists()),
    ensures
        entries(r@) == merge.order(),
{
    let ghost all = merge.order();
    let mut out: Vec<Record> = Vec::new();
    let ghost mut n: int = 0;
    assert(entries(out@) =~= all.take(0));
    assert(all.skip(0) =~= all);
    loop
        invariant
            merge.wf(),
            all_sorted(merge.lists()),
            0 <= n <= all.len(),
            merge.order() == all.skip(n),
            entries(out@) == all.take(n),
        ensures
            n == all.len(),
            entries(out@) == all.take(n),
        decreases all.len() - n,
    {
        match merge.pop() {
            None => {
                break;
            },
            Some(record) => {
                let ghost had = out@;
                out.push(record);
                proof {
                    assert(all.skip(n)[0] == all[n]);
                    assert(all.skip(n).drop_first() =~= all.skip(n + 1));
                    assert(entries(out@) =~= entries(had).push(record@));
                    assert(all.take(n + 1) =~= all.take(n).push(all[n]));
                    n = n + 1;
                }
            },
        }
    }
    assert(all.take(n) =~= all);
    out
}

/// A list without its leading entries of one value.
pub open spec fn past(s: Seq<Entry>, k: Key) -> Seq<Entry>
    decreases s.len(),
{
    if s.len() == 0 || s[0].0 != k {
        s
    } else {
        past(s.drop_first(), k)
    }
}

/// Skipping entries leaves an end of the list.
pub proof fn past_is_shorter(s: Seq<Entry>, k: Key)
    ensures
        past(s, k).len() <= s.len(),
        s.len() > 0 && s[0].0 == k ==> past(s, k).len() < s.len(),
        sorted(s) ==> sorted(past(s, k)),
        forall|i: int|
            0 <= i < past(s, k).len() ==> #[trigger] past(s, k)[i] == s[s.len() - past(s, k).len()
                + i],
        forall|i: int| 0 <= i < s.len() - past(s, k).len() ==> (#[trigger] s[i]).0 == k,
    decreases s.len(),
{
    if s.len() > 0 && s[0].0 == k {
        past_is_shorter(s.drop_first(), k);
        let rest = s.drop_first();
        if sorted(s) {
            assert forall|i: int, j: int| 0 <= i < j < rest.len() implies entry_le(
                #[trigger] rest[i],
                #[trigger] rest[j],
            ) by {
                assert(entry_le(s[i + 1], s[j + 1]));
            }
        }
        assert forall|i: int| 0 <= i < past(s, k).len() implies #[trigger] past(s, k)[i]
            == s[s.len() - past(s, k).len() + i] by {
            assert(past(rest, k)[i] == rest[rest.len() - past(rest, k).len() + i]);
        }
        assert forall|i: int| 0 <= i < s.len() - past(s, k).len() implies (#[trigger] s[i]).0
            == k by {
            if i > 0 {
                assert(rest[i - 1].0 == k);
            }
        }
    }
}

/// The values that two sorted lists share, in order.
pub open spec fn common(a: Seq<Entry>, b: Seq<Entry>) -> Seq<Key>
    decreases a.len() + b.len(),
    when true
    via common_decreases
{
    if a.len() == 0 || b.len() == 0 {
        Seq::empty()
    } else if a[0].0 == b[0].0 {
        seq![a[0].0] + common(past(a, a[0].0), past(b, b[0].0))
    } else if key_less(a[0].0, b[0].0) {
        common(past(a, a[0].0), b)
    } else {
        common(a, past(b, b[0].0))
    }
}

#[via_fn]
proof fn common_decreases(a: Seq<Entry>, b: Seq<Entry>) {
    if a.len() > 0 && b.len() > 0 {
        past_is_shorter(a, a[0].0);
        past_is_shorter(b, b[0].0);
    }
}

/// The first entries of the values that the first of two sorted lists has and the second
/// has not, in order.
pub open spec fn missing(a: Seq<Entry>, b: Seq<Entry>) -> Seq<Entry>
    decreases a.len() + b.len(),
    when true
    via missing_decreases
{
    if a.len() == 0 {
        Seq::empty()
    } else if b.len() == 0 || key_less(a[0].0, b[0].0) {
        seq![a[0]] + missing(past(a, a[0].0), b)
    } else if a[0].0 == b[0].0 {
        missing(past(a, a[0].0), past(b, b[0].0))
    } else {
        missing(a, past(b, b[0].0))
    }
}

#[via_fn]
proof fn missing_decreases(a: Seq<Entry>, b: Seq<Entry>) {
    if a.len() > 0 {
        past_is_shorter(a, a[0].0);
        if b.len() > 0 {
            past_is_shorter(b, b[0].0);
        }
    }
}

/// The number of distinct values of a sorted list.
pub open spec fn distinct_count(s: Seq<Entry>) -> nat
    decreases s.len(),
    when true
    via distinct_decreases
{
    if s.len() == 0 {
        0
    } else {
        1 + distinct_count(past(s, s[0].0))
    }
}

#[via_fn]
proof fn distinct_decreases(s: Seq<Entry>) {
    if s.len() > 0 {
        past_is_shorter(s, s[0].0);
    }
}

/// In a sorted list, skipping the first value leaves just the other values.
pub proof fn past_removes_one_value(s: Seq<Entry>)
    requires
        sorted(s),
        s.len() > 0,
    ensures
        keys(past(s, s[0].0)) == keys(s).remove(s[0].0),
        forall|k: Key| keys(past(s, s[0].0)).contains(k) ==> key_less(s[0].0, k),
{
    let x = s[0].0;
    let p = past(s, x);
    past_is_shorter(s, x);
    past_stops(s, x);
    assert forall|k: Key| keys(p).contains(k) implies key_less(x, k) by {
        let i = choose|i: int| 0 <= i < p.len() && (#[trigger] p[i]).0 == k;
        let at = s.len() - p.len() + i;
        assert(p[i] == s[at]);
        if at > 0 {
            assert(entry_le(s[0], s[at]));
        }
        assert(p[0] == s[s.len() - p.len()]);
        assert(p[0].0 != x);
        if i > 0 {
            assert(entry_le(p[0], p[i]));
        }
        assert(entry_le(s[0], p[0])) by {
            if s.len() - p.len() > 0 {
                assert(entry_le(s[0], s[s.len() - p.len()]));
            }
        }
        key_total(x, p[0].0);
        key_total(p[0].0, k);
        if p[0].0 != k {
            key_transitive(x, p[0].0, k);
        }
    }
    assert forall|k: Key| keys(p).contains(k) == keys(s).remove(x).contains(k) by {
        if keys(p).contains(k) {
            let i = choose|i: int| 0 <= i < p.len() && (#[trigger] p[i]).0 == k;
            assert(p[i] == s[s.len() - p.len() + i]);
            key_total(x, k);
        }
        if keys(s).remove(x).contains(k) {
            let i = choose|i: int| 0 <= i < s.len() && (#[trigger] s[i]).0 == k;
            if i < s.len() - p.len() {
                assert(s[i].0 == x);
            }
            assert(p[i - (s.len() - p.len())] == s[i]);
        }
    }
    assert(keys(p) =~= keys(s).remove(x));
}

proof fn past_stops(s: Seq<Entry>, k: Key)
    ensures
        past(s, k).len() > 0 ==> past(s, k)[0].0 != k,
    decreases s.len(),
{
    if s.len() > 0 && s[0].0 == k {
        past_stops(s.drop_first(), k);
    }
}

/// The shared values of two sorted lists are just the values that both have.
pub proof fn common_is_the_intersection(a: Seq<Entry>, b: Seq<Entry>)
    requires
        sorted(a),
        sorted(b),
    ensures
        common(a, b).to_set() == keys(a).intersect(keys(b)),
        forall|i: int, j: int|
            0 <= i < j < common(a, b).len() ==> key_less(
                #[trigger] common(a, b)[i],
                #[trigger] common(a, b)[j],
            ),
    decreases a.len() + b.len(),
{
    if a.len() == 0 || b.len() == 0 {
        assert(common(a, b).to_set() =~= keys(a).intersect(keys(b)));
    } else {
        let x = a[0].0;
        let y = b[0].0;
        past_is_shorter(a, x);
        past_is_shorter(b, y);
        past_removes_one_value(a);
        past_removes_one_value(b);
        key_total(x, y);
        assert(keys(a).contains(x)) by {
            assert(a[0].0 == x);
        }
        assert(keys(b).contains(y)) by {
            assert(b[0].0 == y);
        }
        if x == y {
            let rest = common(past(a, x), past(b, y));
            common_is_the_intersection(past(a, x), past(b, y));
            let c = common(a, b);
            assert(c =~= seq![x] + rest);
            assert forall|k: Key| c.to_set().contains(k) == keys(a).intersect(keys(b)).contains(
                k,
            ) by {
                if c.contains(k) {
                    let i = choose|i: int| 0 <= i < c.len() && c[i] == k;
                    if i > 0 {
                        assert(rest[i - 1] == k);
                        assert(rest.to_set().contains(k));
                    }
                }
                if keys(a).intersect(keys(b)).contains(k) {
                    if k == x {
                        assert(c[0] == k);
                    } else {
                        assert(rest.to_set().contains(k));
                        let i = choose|i: int| 0 <= i < rest.len() && rest[i] == k;
                        assert(c[i + 1] == k);
                    }
                }
            }
            assert(c.to_set() =~= keys(a).intersect(keys(b)));
            assert forall|i: int, j: int| 0 <= i < j < c.len() implies key_less(
                #[trigger] c[i],
                #[trigger] c[j],
            ) by {
                if i == 0 {
                    assert(rest[j - 1] == c[j]);
                    assert(rest.to_set().contains(c[j]));
                } else {
                    assert(rest[i - 1] == c[i] && rest[j - 1] == c[j]);
                }
            }
        } else if key_less(x, y) {
            common_is_the_intersection(past(a, x), b);
            assert(!keys(b).contains(x)) by {
                if keys(b).contains(x) {
                    assert(keys(past(b, y)).contains(x));
                }
            }
            assert(keys(a).intersect(keys(b)) =~= keys(past(a, x)).intersect(keys(b)));
        } else {
            common_is_the_intersection(a, past(b, y));
            assert(!keys(a).contains(y)) by {
                if keys(a).contains(y) {
                    assert(keys(past(a, x)).contains(y));
                }
            }
            assert(keys(a).intersect(keys(b)) =~= keys(a).intersect(keys(past(b, y))));
        }
    }
}

/// The missing values of two sorted lists are just the values that only the first has.
pub proof fn missing_is_the_difference(a: Seq<Entry>, b: Seq<Entry>)
    requires
        sorted(a),
        sorted(b),
    ensures
        keys(missing(a, b)) == keys(a).difference(keys(b)),
    decreases a.len() + b.len(),
{
    if a.len() == 0 {
        assert(keys(missing(a, b)) =~= keys(a).difference(keys(b)));
    } else {
        let x = a[0].0;
        past_is_shorter(a, x);
        past_removes_one_value(a);
        assert(keys(a).contains(x)) by {
            assert(a[0].0 == x);
        }
        if b.len() > 0 {
            past_is_shorter(b, b[0].0);
            past_removes_one_value(b);
            key_total(x, b[0].0);
            assert(keys(b).contains(b[0].0)) by {
                assert(b[0].0 == b[0].0);
            }
        }
        if b.len() == 0 || key_less(x, b[0].0) {
            let rest = missing(past(a, x), b);
            missing_is_the_difference(past(a, x), b);
            let m = missing(a, b);
            assert(m =~= seq![a[0]] + rest);
            assert(!keys(b).contains(x)) by {
                if keys(b).contains(x) {
                    let i = choose|i: int| 0 <= i < b.len() && (#[trigger] b[i]).0 == x;
                    assert(keys(past(b, b[0].0)).contains(x));
                }
            }
            assert forall|k: Key| keys(m).contains(k) == keys(a).difference(keys(b)).contains(
                k,
            ) by {
                if keys(m).contains(k) {
                    let i = choose|i: int| 0 <= i < m.len() && (#[trigger] m[i]).0 == k;
                    if i > 0 {
                        assert(rest[i - 1].0 == k);
                        assert(keys(rest).contains(k));
                    }
                }
                if keys(a).difference(keys(b)).contains(k) {
                    if k == x {
                        assert(m[0].0 == k);
                    } else {
                        assert(keys(rest).contains(k));
                        let i = choose|i: int| 0 <= i < rest.len() && (#[trigger] rest[i]).0 == k;
                        assert(m[i + 1].0 == k);
                    }
                }
            }
            assert(keys(m) =~= keys(a).difference(keys(b)));
        } else if x == b[0].0 {
            missing_is_the_difference(past(a, x), past(b, b[0].0));
            assert(keys(a).difference(keys(b)) =~= keys(past(a, x)).difference(
                keys(past(b, b[0].0)),
            ));
        } else {
            let y = b[0].0;
            missing_is_the_difference(a, past(b, y));
            assert(!keys(a).contains(y)) by {
                if keys(a).contains(y) {
                    assert(keys(past(a, x)).contains(y));
                }
            }
            assert(keys(a).difference(keys(b)) =~= keys(a).difference(keys(past(b, y))));
        }
    }
}

/// The distinct values of a sorted list are counted exactly.
pub proof fn distinct_count_is_exact(s: Seq<Entry>)
    requires
        sorted(s),
    ensures
        keys(s).finite(),
        keys(s).len() == distinct_count(s),
        distinct_count(s) <= s.len(),
    decreases s.len(),
{
    if s.len() == 0 {
        assert(keys(s) =~= Set::empty());
    } else {
        let x = s[0].0;
        past_is_shorter(s, x);
        past_removes_one_value(s);
        distinct_count_is_exact(past(s, x));
        assert(keys(s).contains(x)) by {
            assert(s[0].0 == x);
        }
        assert(keys(s) =~= keys(past(s, x)).insert(x));
    }
}

/// Reads several runs value by value.
pub struct UniqueMerge<'a> {
    merge: Merge<'a>,
    head: Option<Record>,
}

impl<'a> UniqueMerge<'a> {
    /// The runs are whole and each in order.
    pub closed spec fn wf(&self) -> bool {
        &&& self.merge.wf()
        &&& all_sorted(self.merge.lists())
        &&& self.head is None ==> self.merge.order().len() == 0
    }

    /// What is left of all runs, in order.
    pub closed spec fn order(&self) -> Seq<Entry> {
        left_of(self.head, self.merge.order())
    }

    /// Reads runs value by value.
    pub fn new(mut merge: Merge<'a>) -> (r: Self)
        requires
            merge.wf(),
            all_sorted(merge.lists()),
        ensures
            r.wf(),
            r.order() == merge.order(),
    {
        let ghost all = merge.order();
        let head = merge.pop();
        proof {
            if head is Some {
                assert(all =~= seq![head->0@] + all.drop_first());
            } else {
                assert(all =~= Seq::empty());
            }
        }
        UniqueMerge { merge, head }
    }

    /// Takes the next value, with its first row, and every entry that repeats it.
    pub fn next_unique(&mut self) -> (r: Option<Record>)
        requires
            old(self).wf(),
        ensures
            final(self).wf(),
            match r {
                Some(record) => old(self).order().len() > 0 && record@ == old(self).order()[0]
                    && final(self).order() == past(old(self).order(), record@.0),
                None => old(self).order().len() == 0 && final(self).order().len() == 0,
            },
    {
        let mut taken: Option<Record> = None;
        core::mem::swap(&mut self.head, &mut taken);
        match taken {
            None => None,
            Some(first) => {
                let ghost all = old(self).order();
                assert(all.drop_first() =~= self.merge.order());
                loop
                    invariant_except_break
                        self.merge.wf(),
                        all_sorted(self.merge.lists()),
                        self.head is None,
                        past(all, first@.0) == past(self.merge.order(), first@.0),
                    ensures
                        self.wf(),
                        self.order() == past(all, first@.0),
                    decreases self.merge.order().len(),
                {
                    let ghost rest = self.merge.order();
                    match self.merge.pop() {
                        None => {
                            assert(self.order() =~= Seq::empty());
                            assert(rest =~= Seq::empty());
                            break;
                        },
                        Some(x) => {
                            if !value_eq(&x.value, &first.value) {
                                self.head = Some(x);
                                assert(self.order() =~= rest);
                                break;
                            }
                        },
                    }
                }
                Some(first)
            },
        }
    }
}

/// What two sets of runs share.
#[derive(Debug)]
pub struct SharedValues {
    pub left_distinct: u64,
    pub right_distinct: u64,
    pub overlap: u64,
    pub samples: Vec<OwnedValue>,
}

/// The values of a list.
pub open spec fn value_keys(values: Seq<OwnedValue>) -> Seq<Key> {
    values.map_values(|v: OwnedValue| v@)
}

/// Counts the distinct values of two sets of runs and those that both have, with the
/// first shared values in order.
pub fn intersect<'a, 'b>(
    mut left: UniqueMerge<'a>,
    mut right: UniqueMerge<'b>,
    max_samples: usize,
) -> (r: SharedValues)
    requires
        left.wf(),
        right.wf(),
        left.order().len() <= u64::MAX,
        right.order().len() <= u64::MAX,
        sorted(left.order()),
        sorted(right.order()),
    ensures
        r.left_distinct == distinct_count(left.order()),
        r.right_distinct == distinct_count(right.order()),
        r.overlap == common(left.order(), right.order()).len(),
        value_keys(r.samples@) == common(left.order(), right.order()).take(
            if common(left.order(), right.order()).len() < max_samples {
                common(left.order(), right.order()).len() as int
            } else {
                max_samples as int
            },
        ),
{
    let ghost a = left.order();
    let ghost b = right.order();
    let ghost shared = common(a, b);
    let mut left_distinct: u64 = 0;
    let mut right_distinct: u64 = 0;
    let mut overlap: u64 = 0;
    let mut samples: Vec<OwnedValue> = Vec::new();
    proof {
        distinct_count_is_exact(a);
        distinct_count_is_exact(b);
    }
    let mut x = left.next_unique();
    let mut y = right.next_unique();
    let ghost mut ra = a;
    let ghost mut rb = b;
    assert(value_keys(samples@) =~= shared.take(0));
    assert(shared.skip(0) =~= shared);
    loop
        invariant
            left.wf(),
            right.wf(),
            sorted(ra),
            sorted(rb),
            match x {
                Some(r) => ra.len() > 0 && r@ == ra[0] && left.order() == past(ra, r@.0),
                None => ra.len() == 0 && left.order().len() == 0,
            },
            match y {
                Some(r) => rb.len() > 0 && r@ == rb[0] && right.order() == past(rb, r@.0),
                None => rb.len() == 0 && right.order().len() == 0,
            },
            left_distinct + distinct_count(ra) == distinct_count(a),
            right_distinct + distinct_count(rb) == distinct_count(b),
            distinct_count(a) <= u64::MAX,
            distinct_count(b) <= u64::MAX,
            overlap <= shared.len(),
            overlap <= left_distinct,
            common(ra, rb) == shared.skip(overlap as int),
            value_keys(samples@) == shared.take(
                if overlap < max_samples {
                    overlap as int
                } else {
                    max_samples as int
                },
            ),
        ensures
            left_distinct == distinct_count(a),
            right_distinct == distinct_count(b),
            overlap == shared.len(),
            value_keys(samples@) == shared.take(
                if overlap < max_samples {
                    overlap as int
                } else {
                    max_samples as int
                },
            ),
        decreases ra.len() + rb.len(),
    {
        proof {
            if ra.len() > 0 {
                past_is_shorter(ra, ra[0].0);
            }
            if rb.len() > 0 {
                past_is_shorter(rb, rb[0].0);
            }
        }
        let step = match (&x, &y) {
            (Some(l), Some(r)) => {
                if value_less(&l.value, &r.value) {
                    0u8
                } else if value_eq(&l.value, &r.value) {
                    2u8
                } else {
                    1u8
                }
            },
            (Some(_), None) => 0u8,
            (None, Some(_)) => 1u8,
            (None, None) => 3u8,
        };
        if step == 3 {
            assert(shared.skip(overlap as int).len() == 0);
            break;
        }
        proof {
            if ra.len() > 0 && rb.len() > 0 {
                key_total(ra[0].0, rb[0].0);
            }
            if step != 2 && (ra.len() == 0 || rb.len() == 0) {
                assert(common(ra, rb) =~= Seq::empty());
                if ra.len() > 0 {
                    assert(common(past(ra, ra[0].0), rb) =~= Seq::empty());
                }
                if rb.len() > 0 {
                    assert(common(ra, past(rb, rb[0].0)) =~= Seq::empty());
                }
            }
        }
        if step == 2 {
            proof {
                let rest = shared.skip(overlap as int);
                let tail = common(past(ra, ra[0].0), past(rb, rb[0].0));
                assert(rest == seq![ra[0].0] + tail);
                assert(rest.len() == 1 + tail.len());
                assert(rest[0] == ra[0].0);
                assert(shared[overlap as int] == ra[0].0);
                assert(rest.skip(1) =~= tail);
                assert(shared.skip(overlap + 1) =~= rest.skip(1));
            }
            if samples.len() < max_samples {
                match &x {
                    Some(l) => {
                        let ghost had = samples@;
                        let copy = copy_value(&l.value);
                        samples.push(copy);
                        proof {
                            assert(value_keys(samples@) =~= value_keys(had).push(l.value@));
                            assert(value_keys(had).len() == had.len());
                            assert(shared.take(overlap + 1) =~= shared.take(overlap as int).push(
                                shared[overlap as int],
                            ));
                        }
                    },
                    None => {},
                }
            } else {
                assert(value_keys(samples@).len() == samples@.len());
            }
            overlap = overlap + 1;
        }
        if step == 0 || step == 2 {
            left_distinct = left_distinct + 1;
            proof {
                ra = past(ra, ra[0].0);
            }
            x = left.next_unique();
        }
        if step == 1 || step == 2 {
            right_distinct = right_distinct + 1;
            proof {
                rb = past(rb, rb[0].0);
            }
            y = right.next_unique();
        }
    }
    SharedValues { left_distinct, right_distinct, overlap, samples }
}

/// What the first of two sets of runs has and the second has not.
#[derive(Debug)]
pub struct MissingValues {
    pub left_distinct: u64,
    pub right_distinct: u64,
    pub missing: u64,
    pub rows: Vec<u64>,
}

/// The rows of a list of entries.
pub open spec fn entry_rows(s: Seq<Entry>) -> Seq<u64> {
    s.map_values(|e: Entry| e.1)
}

/// Counts the distinct values of two sets of runs and those that only the first has, with
/// the first rows of the first of them in order.
pub fn anti_join<'a, 'b>(
    mut left: UniqueMerge<'a>,
    mut right: UniqueMerge<'b>,
    max_samples: usize,
) -> (r: MissingValues)
    requires
        left.wf(),
        right.wf(),
        left.order().len() <= u64::MAX,
        right.order().len() <= u64::MAX,
        sorted(left.order()),
        sorted(right.order()),
    ensures
        r.left_distinct == distinct_count(left.order()),
        r.right_distinct == distinct_count(right.order()),
        r.missing == missing(left.order(), right.order()).len(),
        r.rows@ == entry_rows(missing(left.order(), right.order())).take(
            if missing(left.order(), right.order()).len() < max_samples {
                missing(left.order(), right.order()).len() as int
            } else {
                max_samples as int
            },
        ),
{
    let ghost a = left.order();
    let ghost b = right.order();
    let ghost absent = missing(a, b);
    let ghost all_rows = entry_rows(absent);
    let mut left_distinct: u64 = 0;
    let mut right_distinct: u64 = 0;
    let mut count: u64 = 0;
    let mut rows: Vec<u64> = Vec::new();
    proof {
        distinct_count_is_exact(a);
        distinct_count_is_exact(b);
    }
    let mut x = left.next_unique();
    let mut y = right.next_unique();
    let ghost mut ra = a;
    let ghost mut rb = b;
    assert(rows@ =~= all_rows.take(0));
    assert(absent.skip(0) =~= absent);
    loop
        invariant
            left.wf(),
            right.wf(),
            sorted(ra),
            sorted(rb),
            match x {
                Some(r) => ra.len() > 0 && r@ == ra[0] && left.order() == past(ra, r@.0),
                None => ra.len() == 0 && left.order().len() == 0,
            },
            match y {
                Some(r) => rb.len() > 0 && r@ == rb[0] && right.order() == past(rb, r@.0),
                None => rb.len() == 0 && right.order().len() == 0,
            },
            left_distinct + distinct_count(ra) == distinct_count(a),
            right_distinct + distinct_count(rb) == distinct_count(b),
            distinct_count(a) <= u64::MAX,
            distinct_count(b) <= u64::MAX,
            count <= absent.len(),
            count <= left_distinct,
            all_rows == entry_rows(absent),
            missing(ra, rb) == absent.skip(count as int),
            rows@ == all_rows.take(
                if count < max_samples {
                    count as int
                } else {
                    max_samples as int
                },
            ),
        ensures
            left_distinct == distinct_count(a),
            right_distinct == distinct_count(b),
            count == absent.len(),
            rows@ == all_rows.take(
                if count < max_samples {
                    count as int
                } else {
                    max_samples as int
                },
            ),
        decreases ra.len() + rb.len(),
    {
        proof {
            if ra.len() > 0 {
                past_is_shorter(ra, ra[0].0);
            }
            if rb.len() > 0 {
                past_is_shorter(rb, rb[0].0);
            }
        }
        let step = match (&x, &y) {
            (Some(l), Some(r)) => {
                if value_less(&l.value, &r.value) {
                    0u8
                } else if value_eq(&l.value, &r.value) {
                    2u8
                } else {
                    1u8
                }
            },
            (Some(_), None) => 0u8,
            (None, Some(_)) => 1u8,
            (None, None) => 3u8,
        };
        if step == 3 {
            assert(absent.skip(count as int).len() == 0);
            break;
        }
        if step == 0 {
            proof {
                let rest = absent.skip(count as int);
                let tail = missing(past(ra, ra[0].0), rb);
                assert(rest == seq![ra[0]] + tail);
                assert(rest.len() == 1 + tail.len());
                assert(rest[0] == ra[0]);
                assert(absent[count as int] == ra[0]);
                assert(rest.skip(1) =~= tail);
                assert(absent.skip(count + 1) =~= rest.skip(1));
            }
            if rows.len() < max_samples {
                match &x {
                    Some(l) => {
                        rows.push(l.row);
                        proof {
                            assert(all_rows[count as int] == ra[0].1);
                            assert(all_rows.take(count + 1) =~= all_rows.take(count as int).push(
                                all_rows[count as int],
                            ));
                        }
                    },
                    None => {},
                }
            }
            count = count + 1;
        }
        if step == 0 || step == 2 {
            left_distinct = left_distinct + 1;
            proof {
                ra = past(ra, ra[0].0);
            }
            x = left.next_unique();
        }
        if step == 1 || step == 2 {
            right_distinct = right_distinct + 1;
            proof {
                rb = past(rb, rb[0].0);
            }
            y = right.next_unique();
        }
    }
    MissingValues { left_distinct, right_distinct, missing: count, rows }
}

} // verus!
