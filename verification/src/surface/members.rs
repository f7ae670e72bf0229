//! Setting and removing members of JSON objects.

use crate::contract::json::{member, Json};
use crate::text::{str_eq, text};
use vstd::prelude::*;

verus! {

/// An object without the members of one name.
pub open spec fn without_member(object: Seq<(String, Json)>, key: Seq<char>) -> Seq<(String, Json)>
    decreases object.len(),
{
    if object.len() == 0 {
        Seq::empty()
    } else if object[0].0@ == key {
        without_member(object.drop_first(), key)
    } else {
        seq![object[0]] + without_member(object.drop_first(), key)
    }
}

/// Removing a member leaves just the others.
pub proof fn removed_member_is_gone(object: Seq<(String, Json)>, key: Seq<char>, other: Seq<char>)
    ensures
        member(without_member(object, key), other) == if other == key {
            None::<Json>
        } else {
            member(object, other)
        },
    decreases object.len(),
{
    if object.len() > 0 {
        let rest = object.drop_first();
        removed_member_is_gone(rest, key, other);
        let out = without_member(object, key);
        if object[0].0@ != key {
            assert(out.drop_first() =~= without_member(rest, key));
            assert(out[0] == object[0]);
        }
    }
}

/// The place of the first member of a name.
pub open spec fn place_of(object: Seq<(String, Json)>, key: Seq<char>) -> Option<int>
    decreases object.len(),
{
    if object.len() == 0 {
        None
    } else if object[0].0@ == key {
        Some(0)
    } else {
        match place_of(object.drop_first(), key) {
            Some(i) => Some(i + 1),
            None => None,
        }
    }
}

proof fn place_bound(object: Seq<(String, Json)>, key: Seq<char>)
    ensures
        place_of(object, key) matches Some(i) ==> 0 <= i < object.len(),
        place_of(object, key) is None ==> member(object, key) is None,
    decreases object.len(),
{
    if object.len() > 0 {
        place_bound(object.drop_first(), key);
    }
}

/// Whether an object is another with one member set.
pub open spec fn member_set(
    before: Seq<(String, Json)>,
    after: Seq<(String, Json)>,
    key: Seq<char>,
    value: Json,
) -> bool {
    match place_of(before, key) {
        Some(i) => {
            &&& after.len() == before.len()
            &&& after[i].0@ == key
            &&& after[i].1 == value
            &&& forall|k: int|
                0 <= k < before.len() && k != i ==> #[trigger] after[k] == before[k]
        },
        None => {
            &&& after.len() == before.len() + 1
            &&& after.last().0@ == key
            &&& after.last().1 == value
            &&& after.drop_last() == before
        },
    }
}

/// Setting a member changes it and leaves the others.
pub proof fn set_member_is_read_back(
    before: Seq<(String, Json)>,
    after: Seq<(String, Json)>,
    key: Seq<char>,
    value: Json,
    other: Seq<char>,
)
    requires
        member_set(before, after, key, value),
    ensures
        member(after, other) == if other == key {
            Some(value)
        } else {
            member(before, other)
        },
    decreases before.len(),
{
    place_bound(before, key);
    if before.len() == 0 {
        assert(after.drop_first() =~= Seq::empty());
        assert(after[0] == after.last());
        reveal_with_fuel(member, 2);
    } else {
        let rest = before.drop_first();
        let tail = after.drop_first();
        place_bound(rest, key);
        if before[0].0@ == key {
            assert(tail =~= rest);
        } else {
            match place_of(before, key) {
                Some(i) => {
                    assert(after[0] == before[0]);
                    assert(tail[i - 1] == after[i]);
                    assert forall|k: int| 0 <= k < rest.len() && k != i - 1 implies
                        #[trigger] tail[k] == rest[k] by {
                        assert(after[k + 1] == before[k + 1]);
                    }
                },
                None => {
                    assert(after.drop_last()[0] == before[0]);
                    assert(after[0] == before[0]);
                    assert(tail.drop_last() =~= rest) by {
                        assert forall|k: int| 0 <= k < rest.len() implies tail.drop_last()[k]
                            == rest[k] by {
                            assert(after.drop_last()[k + 1] == before[k + 1]);
                        }
                    }
                    assert(tail.last() == after.last());
                },
            }
            set_member_is_read_back(rest, tail, key, value, other);
        }
    }
}

/// Sets a member of an object.
pub fn set_member(object: &mut Vec<(String, Json)>, key: &str, value: Json)
    ensures
        member_set(old(object)@, final(object)@, key@, value),
{
    let mut i: usize = 0;
    let n: usize = object.len();
    assert(object@.skip(0) =~= object@);
    while i < n
        invariant
            i <= n,
            n == object@.len(),
            *object == *old(object),
            place_of(object@, key@) == match place_of(object@.skip(i as int), key@) {
                Some(k) => Some(k + i),
                None => None,
            },
        decreases n - i,
    {
        let ghost rest = object@.skip(i as int);
        if str_eq(object[i].0.as_str(), key) {
            assert(rest[0] == object@[i as int]);
            object.set(i, (text(key), value));
            return;
        }
        assert(rest.drop_first() =~= object@.skip(i + 1));
        i = i + 1;
    }
    assert(object@.skip(n as int) =~= Seq::empty());
    object.push((text(key), value));
    assert(object@.drop_last() =~= old(object)@);
}

/// Removes the members of one name.
pub fn remove_member(object: &mut Vec<(String, Json)>, key: &str)
    ensures
        final(object)@ == without_member(old(object)@, key@),
{
    let ghost all = object@;
    let mut i: usize = object.len();
    assert(all.skip(all.len() as int) =~= Seq::empty());
    assert(all.take(all.len() as int) =~= all);
    while i > 0
        invariant
            i <= all.len(),
            i <= object@.len(),
            object@ == all.take(i as int) + without_member(all.skip(i as int), key@),
        decreases i,
    {
        i = i - 1;
        let ghost now = object@;
        let ghost rest = all.skip(i as int);
        proof {
            assert(rest.drop_first() =~= all.skip(i + 1));
            assert(rest[0] == all[i as int]);
            assert(now[i as int] == all[i as int]);
        }
        if str_eq(object[i].0.as_str(), key) {
            let removed = object.remove(i);
            assert(object@ =~= all.take(i as int) + without_member(rest, key@));
        } else {
            assert(object@ =~= all.take(i as int) + without_member(rest, key@));
        }
    }
    assert(all.skip(0) =~= all);
    assert(object@ =~= without_member(all, key@));
}

} // verus!
