//! The members of a JSON object as a mathematical sequence, and the three
//! things that are done to them: looking a key up, putting a member in, and
//! taking one out.

use vstd::prelude::*;
use crate::json::{Json, Members};

verus! {

/// Whether some member stands under `key`.
pub open spec fn has_key(members: Members, key: Seq<char>) -> bool {
    exists|i: int| 0 <= i < members.len() && (#[trigger] members[i]).0 == key
}

/// Whether no two members share a key.
pub open spec fn distinct_keys(members: Members) -> bool {
    forall|i: int, j: int|
        0 <= i < j < members.len() ==> (#[trigger] members[i]).0 != (#[trigger] members[j]).0
}

/// The place of the first member under `key`, or the number of members where
/// none stands under it.
pub open spec fn place_of(members: Members, key: Seq<char>) -> int
    decreases members.len(),
{
    if members.len() == 0 {
        0
    } else if members[0].0 == key {
        0
    } else {
        1 + place_of(members.drop_first(), key)
    }
}

/// What stands under `key`, if anything does.
pub open spec fn value_at(members: Members, key: Seq<char>) -> Option<Json> {
    let place = place_of(members, key);
    if place < members.len() {
        Some(members[place].1)
    } else {
        None
    }
}

/// The members after `value` is put under `key`: in the place of what stood
/// under that key, or behind all others where nothing did.
pub open spec fn put(members: Members, key: Seq<char>, value: Json) -> Members {
    let place = place_of(members, key);
    if place < members.len() {
        members.update(place, (key, value))
    } else {
        members.push((key, value))
    }
}

/// The members after the one under `key` is taken out: the others close up
/// and keep their order.
pub open spec fn without(members: Members, key: Seq<char>) -> Members {
    let place = place_of(members, key);
    if place < members.len() {
        members.remove(place)
    } else {
        members
    }
}

/// The members after each of `more` is put in, first to last.
pub open spec fn put_all(members: Members, more: Members) -> Members
    decreases more.len(),
{
    if more.len() == 0 {
        members
    } else {
        let last = more.last();
        put(put_all(members, more.drop_last()), last.0, last.1)
    }
}

/// `place_of` finds the first member under the key and nothing else.
pub proof fn lemma_place_of(members: Members, key: Seq<char>)
    ensures
        0 <= place_of(members, key) <= members.len(),
        place_of(members, key) < members.len() ==> members[place_of(members, key)].0 == key,
        forall|j: int| 0 <= j < place_of(members, key) ==> (#[trigger] members[j]).0 != key,
        has_key(members, key) <==> place_of(members, key) < members.len(),
    decreases members.len(),
{
    if members.len() > 0 && members[0].0 != key {
        let rest = members.drop_first();
        lemma_place_of(rest, key);
        let place = place_of(members, key);
        assert forall|j: int| 0 <= j < place implies (#[trigger] members[j]).0 != key by {
            if j > 0 {
                assert(members[j] == rest[j - 1]);
            }
        }
        if place < members.len() {
            assert(members[place] == rest[place - 1]);
        }
        if has_key(members, key) {
            let i = choose|i: int| 0 <= i < members.len() && (#[trigger] members[i]).0 == key;
            assert(rest[i - 1] == members[i]);
        }
    }
}

/// A member under the key with no member under it before is the one that
/// `place_of` finds.
pub proof fn lemma_place_is(members: Members, key: Seq<char>, place: int)
    requires
        0 <= place <= members.len(),
        place < members.len() ==> members[place].0 == key,
        forall|j: int| 0 <= j < place ==> (#[trigger] members[j]).0 != key,
    ensures
        place_of(members, key) == place,
{
    lemma_place_of(members, key);
    let found = place_of(members, key);
    if found < place {
        assert(members[found].0 != key);
    }
}

/// Taking a member out brings no key in.
pub proof fn lemma_without_keeps_absent(members: Members, key: Seq<char>, other: Seq<char>)
    requires
        !has_key(members, other),
    ensures
        !has_key(without(members, key), other),
{
    lemma_place_of(members, key);
    let place = place_of(members, key);
    let rest = without(members, key);
    if has_key(rest, other) {
        let i = choose|i: int| 0 <= i < rest.len() && (#[trigger] rest[i]).0 == other;
        if place < members.len() {
            if i < place {
                assert(members[i].0 == other);
            } else {
                assert(members[i + 1].0 == other);
            }
        } else {
            assert(members[i].0 == other);
        }
    }
}

/// Taking a member out leaves what stands under every other key.
pub proof fn lemma_value_at_without(members: Members, key: Seq<char>, other: Seq<char>)
    requires
        key != other,
    ensures
        value_at(without(members, other), key) == value_at(members, key),
        has_key(without(members, other), key) == has_key(members, key),
{
    lemma_place_of(members, key);
    lemma_place_of(members, other);
    let gone = place_of(members, other);
    let place = place_of(members, key);
    let rest = without(members, other);
    if gone < members.len() {
        let moved = if place < gone {
            place
        } else {
            place - 1
        };
        assert forall|j: int| 0 <= j < moved implies (#[trigger] rest[j]).0 != key by {
            if j < gone {
                assert(rest[j] == members[j]);
            } else {
                assert(rest[j] == members[j + 1]);
            }
        }
        lemma_place_is(rest, key, moved);
    }
    lemma_place_of(rest, key);
}

/// Where the members after one is taken out have distinct keys, and the key
/// taken is none of them, the keys were distinct before.
pub proof fn lemma_distinct_before(members: Members, key: Seq<char>)
    requires
        distinct_keys(without(members, key)),
        !has_key(without(members, key), key),
    ensures
        distinct_keys(members),
{
    lemma_place_of(members, key);
    let gone = place_of(members, key);
    let rest = without(members, key);
    if gone < members.len() {
        assert forall|i: int, j: int| 0 <= i < j < members.len() implies (#[trigger] members[i]).0
            != (#[trigger] members[j]).0 by {
            let to_i = if i < gone {
                i
            } else {
                i - 1
            };
            let to_j = if j < gone {
                j
            } else {
                j - 1
            };
            if i == gone {
                assert(rest[to_j] == members[j]);
            } else if j == gone {
                assert(rest[to_i] == members[i]);
            } else {
                assert(rest[to_i] == members[i]);
                assert(rest[to_j] == members[j]);
            }
        }
    }
}

/// What taking a key out does to members with one more behind them: the
/// last member is the one taken where it stands under the key and none
/// before it does, and it stays last where it stands under another key.
pub proof fn lemma_without_push(members: Members, last: (Seq<char>, Json), key: Seq<char>)
    ensures
        last.0 != key ==> without(members.push(last), key) == without(members, key).push(last),
        last.0 == key && !has_key(members, key) ==> without(members.push(last), key) == members
            && without(members, key) == members,
{
    lemma_place_of(members, key);
    let place = place_of(members, key);
    let longer = members.push(last);
    if place < members.len() {
        assert forall|j: int| 0 <= j < place implies (#[trigger] longer[j]).0 != key by {
            assert(longer[j] == members[j]);
        }
        lemma_place_is(longer, key, place);
        assert(longer.remove(place) =~= members.remove(place).push(last));
    } else {
        assert forall|j: int| 0 <= j < members.len() implies (#[trigger] longer[j]).0 != key by {
            assert(longer[j] == members[j]);
        }
        if last.0 == key {
            lemma_place_is(longer, key, members.len() as int);
            assert(longer.remove(members.len() as int) =~= members);
        } else {
            assert forall|j: int| 0 <= j < longer.len() implies (#[trigger] longer[j]).0 != key by {
                if j < members.len() {
                    assert(longer[j] == members[j]);
                }
            }
            lemma_place_is(longer, key, longer.len() as int);
        }
    }
}

/// A value put under a key that is not there goes behind all others.
pub proof fn lemma_put_new(members: Members, key: Seq<char>, value: Json)
    requires
        !has_key(members, key),
    ensures
        put(members, key, value) == members.push((key, value)),
{
    lemma_place_of(members, key);
}

/// Members with distinct keys, none of them there yet, go behind all
/// others in their own order.
pub proof fn lemma_put_all_new(members: Members, more: Members)
    requires
        distinct_keys(more),
        forall|i: int| 0 <= i < more.len() ==> !has_key(members, (#[trigger] more[i]).0),
    ensures
        put_all(members, more) == members + more,
    decreases more.len(),
{
    if more.len() == 0 {
        assert(members + more =~= members);
    } else {
        let before = more.drop_last();
        let last = more.last();
        assert forall|i: int| 0 <= i < before.len() implies !has_key(
            members,
            (#[trigger] before[i]).0,
        ) by {
            assert(before[i] == more[i]);
        }
        assert(distinct_keys(before)) by {
            assert forall|i: int, j: int| 0 <= i < j < before.len() implies (#[trigger] before[i]).0
                != (#[trigger] before[j]).0 by {
                assert(before[i] == more[i]);
                assert(before[j] == more[j]);
            }
        }
        lemma_put_all_new(members, before);
        let so_far = members + before;
        assert(!has_key(so_far, last.0)) by {
            if has_key(so_far, last.0) {
                let i = choose|i: int| 0 <= i < so_far.len() && (#[trigger] so_far[i]).0 == last.0;
                assert(more[more.len() - 1] == last);
                if i < members.len() {
                    assert(members[i] == so_far[i]);
                } else {
                    assert(more[i - members.len()] == so_far[i]);
                }
            }
        }
        lemma_put_new(so_far, last.0, last.1);
        assert(so_far.push(last) =~= members + more);
    }
}

} // verus!
