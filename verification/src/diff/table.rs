//! Rows under their keys, in the order of the keys.

use crate::diff::partition::Keyed;
use crate::diff::record::{RowEntry, RowView};
use crate::text::{
    bytes_eq, bytes_less, lex_irreflexive, lex_less, lex_total, lex_transitive,
};
use vstd::prelude::*;

verus! {

/// Whether no key occurs twice.
pub open spec fn distinct(rows: Seq<Keyed>) -> bool {
    forall|i: int, j: int|
        0 <= i < j < rows.len() ==> (#[trigger] rows[i]).0 != (#[trigger] rows[j]).0
}

/// The rows of a list by their keys.
pub open spec fn row_map(rows: Seq<Keyed>) -> Map<Seq<u8>, RowView>
    decreases rows.len(),
{
    if rows.len() == 0 {
        Map::empty()
    } else {
        row_map(rows.drop_last()).insert(rows.last().0, rows.last().1)
    }
}

/// The map of a list without repeated keys holds each row of it, and nothing else.
pub proof fn row_map_holds_rows(rows: Seq<Keyed>)
    requires
        distinct(rows),
    ensures
        forall|i: int|
            0 <= i < rows.len() ==> row_map(rows).contains_key((#[trigger] rows[i]).0) && row_map(
                rows,
            )[rows[i].0] == rows[i].1,
        forall|k: Seq<u8>| #[trigger]
            row_map(rows).contains_key(k) ==> exists|i: int|
                0 <= i < rows.len() && (#[trigger] rows[i]).0 == k,
    decreases rows.len(),
{
    if rows.len() > 0 {
        let rest = rows.drop_last();
        assert(distinct(rest)) by {
            assert forall|i: int, j: int| 0 <= i < j < rest.len() implies (#[trigger] rest[i]).0 != (
            #[trigger] rest[j]).0 by {
                assert(rows[i] == rest[i]);
                assert(rows[j] == rest[j]);
            }
        }
        row_map_holds_rows(rest);
        assert forall|i: int| 0 <= i < rows.len() implies row_map(rows).contains_key(
            (#[trigger] rows[i]).0,
        ) && row_map(rows)[rows[i].0] == rows[i].1 by {
            if i < rest.len() {
                assert(rest[i] == rows[i]);
                assert(rows[i].0 != rows[rows.len() - 1].0);
            }
        }
        assert forall|k: Seq<u8>| #[trigger] row_map(rows).contains_key(k) implies exists|i: int|
            0 <= i < rows.len() && (#[trigger] rows[i]).0 == k by {
            if k == rows.last().0 {
                assert(rows[rows.len() - 1].0 == k);
            } else {
                assert(row_map(rest).contains_key(k));
                let i = choose|i: int| 0 <= i < rest.len() && (#[trigger] rest[i]).0 == k;
                assert(rows[i].0 == k);
            }
        }
    }
}

/// Whether keys are in strictly ascending order.
pub open spec fn ascending(keys: Seq<Seq<u8>>) -> bool {
    forall|i: int, j: int|
        0 <= i < j < keys.len() ==> lex_less(#[trigger] keys[i], #[trigger] keys[j])
}

/// Keys as byte strings.
pub open spec fn key_views(keys: Seq<Vec<u8>>) -> Seq<Seq<u8>> {
    Seq::new(keys.len(), |i: int| keys[i]@)
}

/// The place of a key among ascending keys.
pub fn locate(keys: &Vec<Vec<u8>>, key: &[u8]) -> (r: (bool, usize))
    requires
        ascending(key_views(keys@)),
    ensures
        r.1 <= keys@.len(),
        r.0 ==> r.1 < keys@.len() && keys@[r.1 as int]@ == key@,
        r.0 <==> key_views(keys@).contains(key@),
        forall|i: int| 0 <= i < r.1 ==> lex_less(#[trigger] key_views(keys@)[i], key@),
        !r.0 ==> forall|i: int|
            r.1 <= i < keys@.len() ==> lex_less(key@, #[trigger] key_views(keys@)[i]),
{
    let ghost all = key_views(keys@);
    let mut low: usize = 0;
    let mut high: usize = keys.len();
    while low < high
        invariant
            low <= high <= keys@.len(),
            all == key_views(keys@),
            ascending(all),
            forall|i: int| 0 <= i < low ==> lex_less(#[trigger] all[i], key@),
            forall|i: int| high <= i < all.len() ==> !lex_less(#[trigger] all[i], key@),
        decreases high - low,
    {
        let middle: usize = low + (high - low) / 2;
        assert(all[middle as int] == keys@[middle as int]@);
        if bytes_less(keys[middle].as_slice(), key) {
            proof {
                assert forall|i: int| 0 <= i < middle + 1 implies lex_less(
                    #[trigger] all[i],
                    key@,
                ) by {
                    if i < middle {
                        lex_transitive(all[i], all[middle as int], key@);
                    }
                }
            }
            low = middle + 1;
        } else {
            proof {
                assert forall|i: int| middle <= i < all.len() implies !lex_less(
                    #[trigger] all[i],
                    key@,
                ) by {
                    if i > middle && lex_less(all[i], key@) {
                        lex_transitive(all[middle as int], all[i], key@);
                    }
                }
            }
            high = middle;
        }
    }
    let found = low < keys.len() && bytes_eq(keys[low].as_slice(), key);
    proof {
        if low < keys@.len() {
            assert(all[low as int] == keys@[low as int]@);
        }
        if found {
            assert(all.contains(key@));
        } else {
            assert forall|i: int| low <= i < all.len() implies lex_less(key@, #[trigger] all[i]) by {
                lex_total(key@, all[low as int]);
                if i > low {
                    lex_transitive(key@, all[low as int], all[i]);
                }
            }
            if all.contains(key@) {
                let i = choose|i: int| 0 <= i < all.len() && all[i] == key@;
                lex_irreflexive(key@);
                assert(all[i] == key@);
            }
        }
    }
    (found, low)
}

/// How many rows, from the first on, have a key before a key.
pub open spec fn row_place(rows: Seq<Keyed>, key: Seq<u8>) -> int
    decreases rows.len(),
{
    if rows.len() == 0 || !lex_less(rows[0].0, key) {
        0
    } else {
        1 + row_place(rows.drop_first(), key)
    }
}

/// Rows in the order of their keys.
pub open spec fn ordered(rows: Seq<Keyed>) -> Seq<Keyed>
    decreases rows.len(),
{
    if rows.len() == 0 {
        Seq::empty()
    } else {
        let rest = ordered(rows.drop_last());
        rest.insert(row_place(rest, rows.last().0), rows.last())
    }
}

proof fn row_place_is(rows: Seq<Keyed>, key: Seq<u8>, n: int)
    requires
        0 <= n <= rows.len(),
        forall|i: int| 0 <= i < n ==> lex_less((#[trigger] rows[i]).0, key),
        n < rows.len() ==> !lex_less(rows[n].0, key),
    ensures
        row_place(rows, key) == n,
    decreases rows.len(),
{
    if n > 0 {
        let rest = rows.drop_first();
        assert(lex_less(rows[0].0, key));
        assert forall|i: int| 0 <= i < n - 1 implies lex_less((#[trigger] rest[i]).0, key) by {
            assert(rest[i] == rows[i + 1]);
        }
        if n - 1 < rest.len() {
            assert(rest[n - 1] == rows[n]);
        }
        row_place_is(rest, key, n - 1);
    }
}

/// Rows under their keys.
pub struct RowTable {
    pub keys: Vec<Vec<u8>>,
    pub entries: Vec<RowEntry>,
}

impl RowTable {
    /// The rows in the order of their keys.
    pub open spec fn rows(&self) -> Seq<Keyed> {
        Seq::new(self.keys@.len(), |i: int| (self.keys@[i]@, self.entries@[i]@))
    }

    /// There is an entry for each key, and the keys ascend.
    pub open spec fn wf(&self) -> bool {
        self.keys@.len() == self.entries@.len() && ascending(key_views(self.keys@))
    }

    /// A table without rows.
    pub fn new() -> (r: Self)
        ensures
            r.wf(),
            r.rows() == Seq::<Keyed>::empty(),
    {
        let r = RowTable { keys: Vec::new(), entries: Vec::new() };
        assert(r.rows() =~= Seq::empty());
        r
    }

    /// Adds a row, unless its key is there.
    pub fn insert(&mut self, key: Vec<u8>, entry: RowEntry) -> (r: bool)
        requires
            old(self).wf(),
        ensures
            final(self).wf(),
            r == !row_map(old(self).rows()).contains_key(key@),
            r ==> row_map(final(self).rows()) == row_map(old(self).rows()).insert(key@, entry@)
                && final(self).rows() == old(self).rows().insert(
                row_place(old(self).rows(), key@),
                (key@, entry@),
            ),
            !r ==> *final(self) == *old(self),
    {
        let (found, at) = locate(&self.keys, key.as_slice());
        let ghost before = *self;
        let ghost views = key_views(self.keys@);
        proof {
            table_is_distinct(before);
            row_map_holds_rows(before.rows());
            if found {
                assert(before.rows()[at as int].0 == key@);
            } else if row_map(before.rows()).contains_key(key@) {
                let i = choose|i: int|
                    0 <= i < before.rows().len() && (#[trigger] before.rows()[i]).0 == key@;
                assert(views[i] == key@);
                assert(views.contains(key@));
            }
        }
        if found {
            return false;
        }
        let ghost k = key@;
        let ghost e = entry@;
        self.keys.insert(at, key);
        self.entries.insert(at, entry);
        proof {
            let now = key_views(self.keys@);
            assert(now =~= views.insert(at as int, k));
            assert forall|i: int, j: int| 0 <= i < j < now.len() implies lex_less(
                #[trigger] now[i],
                #[trigger] now[j],
            ) by {
                if i == at {
                    assert(now[j] == views[j - 1]);
                } else if j == at {
                    assert(now[i] == views[i]);
                } else {
                    let a = if i < at {
                        i
                    } else {
                        i - 1
                    };
                    let b = if j < at {
                        j
                    } else {
                        j - 1
                    };
                    assert(now[i] == views[a]);
                    assert(now[j] == views[b]);
                }
            }
            table_is_distinct(*self);
            row_map_holds_rows(self.rows());
            let old_map = row_map(before.rows());
            let new_map = row_map(self.rows());
            assert(self.rows() =~= before.rows().insert(at as int, (k, e)));
            assert forall|i: int| 0 <= i < at implies lex_less(
                (#[trigger] before.rows()[i]).0,
                k,
            ) by {
                assert(views[i] == before.rows()[i].0);
            }
            if at < before.rows().len() {
                assert(lex_less(k, views[at as int]));
                lex_total(k, views[at as int]);
            }
            row_place_is(before.rows(), k, at as int);
            assert forall|x: Seq<u8>| #[trigger] new_map.contains_key(x) == old_map.insert(
                k,
                e,
            ).contains_key(x) by {
                if new_map.contains_key(x) {
                    let i = choose|i: int|
                        0 <= i < self.rows().len() && (#[trigger] self.rows()[i]).0 == x;
                    if i < at {
                        assert(before.rows()[i].0 == x);
                    } else if i > at {
                        assert(before.rows()[i - 1].0 == x);
                    }
                }
                if old_map.contains_key(x) {
                    let i = choose|i: int|
                        0 <= i < before.rows().len() && (#[trigger] before.rows()[i]).0 == x;
                    if i < at {
                        assert(self.rows()[i].0 == x);
                    } else {
                        assert(self.rows()[i + 1].0 == x);
                    }
                }
                if x == k {
                    assert(self.rows()[at as int].0 == k);
                }
            }
            assert forall|x: Seq<u8>| #[trigger] new_map.contains_key(x) implies new_map[x]
                == old_map.insert(k, e)[x] by {
                let i = choose|i: int|
                    0 <= i < self.rows().len() && (#[trigger] self.rows()[i]).0 == x;
                if i < at {
                    assert(before.rows()[i] == self.rows()[i]);
                } else if i > at {
                    assert(before.rows()[i - 1] == self.rows()[i]);
                }
            }
            assert(new_map =~= old_map.insert(k, e));
        }
        true
    }

    /// The row of a key.
    pub fn get(&self, key: &[u8]) -> (r: Option<&RowEntry>)
        requires
            self.wf(),
        ensures
            match r {
                Some(entry) => row_map(self.rows()).contains_key(key@) && row_map(
                    self.rows(),
                )[key@] == entry@,
                None => !row_map(self.rows()).contains_key(key@),
            },
    {
        let (found, at) = locate(&self.keys, key);
        proof {
            table_is_distinct(*self);
            row_map_holds_rows(self.rows());
            if found {
                assert(self.rows()[at as int].0 == key@);
            } else if row_map(self.rows()).contains_key(key@) {
                let i = choose|i: int|
                    0 <= i < self.rows().len() && (#[trigger] self.rows()[i]).0 == key@;
                assert(key_views(self.keys@)[i] == key@);
                assert(key_views(self.keys@).contains(key@));
            }
        }
        if found {
            Some(&self.entries[at])
        } else {
            None
        }
    }
}

/// The keys of a table do not repeat.
pub proof fn table_is_distinct(table: RowTable)
    requires
        table.wf(),
    ensures
        distinct(table.rows()),
{
    let rows = table.rows();
    assert forall|i: int, j: int| 0 <= i < j < rows.len() implies (#[trigger] rows[i]).0 != (
    #[trigger] rows[j]).0 by {
        assert(lex_less(key_views(table.keys@)[i], key_views(table.keys@)[j]));
        lex_irreflexive(rows[i].0);
    }
}

/// A set of keys.
pub struct KeySet {
    pub keys: Vec<Vec<u8>>,
}

impl View for KeySet {
    type V = Set<Seq<u8>>;

    open spec fn view(&self) -> Set<Seq<u8>> {
        key_views(self.keys@).to_set()
    }
}

impl KeySet {
    /// The keys ascend.
    pub open spec fn wf(&self) -> bool {
        ascending(key_views(self.keys@))
    }

    /// A set without keys.
    pub fn new() -> (r: Self)
        ensures
            r.wf(),
            r@ == Set::<Seq<u8>>::empty(),
    {
        let r = KeySet { keys: Vec::new() };
        assert(r@ =~= Set::empty());
        r
    }

    /// Adds a key; whether it is new.
    pub fn insert(&mut self, key: &[u8]) -> (r: bool)
        requires
            old(self).wf(),
        ensures
            final(self).wf(),
            r == !old(self)@.contains(key@),
            final(self)@ == old(self)@.insert(key@),
    {
        let (found, at) = locate(&self.keys, key);
        let ghost views = key_views(self.keys@);
        if found {
            assert(self@ =~= self@.insert(key@));
            return false;
        }
        let copy = crate::bytes::slice_of(key, 0, key.len());
        assert(copy@ =~= key@);
        self.keys.insert(at, copy);
        proof {
            let now = key_views(self.keys@);
            assert(now =~= views.insert(at as int, key@));
            assert forall|i: int, j: int| 0 <= i < j < now.len() implies lex_less(
                #[trigger] now[i],
                #[trigger] now[j],
            ) by {
                if i == at {
                    assert(now[j] == views[j - 1]);
                } else if j == at {
                    assert(now[i] == views[i]);
                } else {
                    let a = if i < at {
                        i
                    } else {
                        i - 1
                    };
                    let b = if j < at {
                        j
                    } else {
                        j - 1
                    };
                    assert(now[i] == views[a]);
                    assert(now[j] == views[b]);
                }
            }
            assert forall|x: Seq<u8>| #[trigger] now.contains(x) == (views.contains(x) || x
                == key@) by {
                if views.contains(x) {
                    let i = choose|i: int| 0 <= i < views.len() && views[i] == x;
                    if i < at {
                        assert(now[i] == x);
                    } else {
                        assert(now[i + 1] == x);
                    }
                }
                if x == key@ {
                    assert(now[at as int] == x);
                }
                if now.contains(x) {
                    let i = choose|i: int| 0 <= i < now.len() && now[i] == x;
                    if i < at {
                        assert(views[i] == x);
                    } else if i > at {
                        assert(views[i - 1] == x);
                    }
                }
            }
            assert(self@ =~= old(self)@.insert(key@));
        }
        true
    }

    /// Whether a key is in the set.
    pub fn contains(&self, key: &[u8]) -> (r: bool)
        requires
            self.wf(),
        ensures
            r == self@.contains(key@),
    {
        let (found, at) = locate(&self.keys, key);
        found
    }
}

} // verus!
