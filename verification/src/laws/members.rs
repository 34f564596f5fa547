//! How setting a key changes the members of an object.

use crate::node::Tree;
use crate::normalize::{has_key, is_first_with_key, key_index, with_member};
use vstd::prelude::*;

verus! {

/// At most one place is the first to carry a key, so `key_index` is that place.
pub proof fn lemma_key_index(members: Seq<(Seq<char>, Tree)>, key: Seq<char>, i: int)
    requires
        is_first_with_key(members, key, i),
    ensures
        has_key(members, key),
        key_index(members, key) == i,
{
    let k = key_index(members, key);
    assert(is_first_with_key(members, key, k));
    if k < i {
        assert(members[k].0 != key);
    }
    if i < k {
        assert(members[i].0 != key);
    }
}

/// Where a member at `at` carries `key`, some member is the first to carry it.
pub proof fn lemma_first_with_key_exists(members: Seq<(Seq<char>, Tree)>, key: Seq<char>, at: int)
    requires
        0 <= at < members.len(),
        members[at].0 == key,
    ensures
        exists|i: int| is_first_with_key(members, key, i),
    decreases at,
{
    if exists|j: int| 0 <= j < at && (#[trigger] members[j]).0 == key {
        let j = choose|j: int| 0 <= j < at && (#[trigger] members[j]).0 == key;
        lemma_first_with_key_exists(members, key, j);
    } else {
        assert(is_first_with_key(members, key, at));
    }
}

/// Where some member carries `key`, `key_index` is the place of the first.
pub proof fn lemma_key_index_is_first(members: Seq<(Seq<char>, Tree)>, key: Seq<char>)
    requires
        has_key(members, key),
    ensures
        is_first_with_key(members, key, key_index(members, key)),
{
    let at = choose|i: int| 0 <= i < members.len() && (#[trigger] members[i]).0 == key;
    lemma_first_with_key_exists(members, key, at);
}

/// What `with_member` changes: where the key is carried already, the value at
/// its first place and nothing else; where it is not, one member more at the
/// end.
pub proof fn lemma_with_member(members: Seq<(Seq<char>, Tree)>, key: Seq<char>, value: Tree)
    ensures
        has_key(members, key) ==> {
            let at = key_index(members, key);
            &&& is_first_with_key(members, key, at)
            &&& with_member(members, key, value) == members.update(at, (key, value))
        },
        !has_key(members, key) ==> with_member(members, key, value) == members.push((key, value)),
        has_key(with_member(members, key, value), key),
{
    let after = with_member(members, key, value);
    if has_key(members, key) {
        lemma_key_index_is_first(members, key);
        assert(after[key_index(members, key)].0 == key);
    } else {
        assert(after[members.len() as int].0 == key);
    }
}

/// What holds of every member, and of the one that is set, holds of every
/// member afterwards.
pub proof fn lemma_with_member_keeps(
    members: Seq<(Seq<char>, Tree)>,
    key: Seq<char>,
    value: Tree,
    holds: spec_fn((Seq<char>, Tree)) -> bool,
)
    requires
        forall|i: int| 0 <= i < members.len() ==> holds(#[trigger] members[i]),
        holds((key, value)),
    ensures
        forall|i: int|
            0 <= i < with_member(members, key, value).len() ==> holds(
                #[trigger] with_member(members, key, value)[i],
            ),
{
    let after = with_member(members, key, value);
    lemma_with_member(members, key, value);
    assert forall|i: int| 0 <= i < after.len() implies holds(#[trigger] after[i]) by {
        if has_key(members, key) {
            if i != key_index(members, key) {
                assert(after[i] == members[i]);
            }
        } else if i < members.len() {
            assert(after[i] == members[i]);
        }
    }
}

} // verus!
