//! Cleaning keeps what survives in the order of the document.

use crate::laws::mapping::lemma_clean_members_well_formed;
use crate::laws::members::lemma_with_member;
use crate::node::Tree;
use crate::normalize::{
    clean, clean_items, clean_members, has_key, key_index, placeholder_member,
    EmptyContainerPolicy,
};
use crate::text::trimmed;
use vstd::prelude::*;

verus! {

/// Whether `places` ascends within `0 .. len`.
pub open spec fn ascends_within(places: Seq<int>, len: int) -> bool {
    &&& forall|i: int| 0 <= i < places.len() ==> 0 <= #[trigger] places[i] < len
    &&& forall|i: int, j: int|
        0 <= i < j < places.len() ==> #[trigger] places[i] < #[trigger] places[j]
}

/// Whether `from` gives, for each item that cleaning an array keeps, the place
/// of the item that it is the cleaned form of: the places ascend, and no item
/// of which cleaning leaves something is passed over.
pub open spec fn tells_item_places(
    items: Seq<Tree>,
    policy: EmptyContainerPolicy,
    from: Seq<int>,
) -> bool {
    let kept = clean_items(items, policy);
    &&& from.len() == kept.len()
    &&& ascends_within(from, items.len() as int)
    &&& forall|i: int|
        0 <= i < from.len() ==> clean(items[#[trigger] from[i]], policy) == Some(kept[i])
    &&& forall|k: int|
        0 <= k < items.len() && clean(#[trigger] items[k], policy) is Some ==> from.contains(k)
}

/// The items that cleaning keeps of an array are the cleaned forms of the
/// items of which something is left, in the order in which those stand in
/// the array. The places come back as the witness.
pub proof fn law_items_keep_their_order(items: Seq<Tree>, policy: EmptyContainerPolicy) -> (from:
    Seq<int>)
    ensures
        tells_item_places(items, policy, from),
    decreases items.len(),
{
    if items.len() == 0 {
        Seq::empty()
    } else {
        let before = items.drop_last();
        let last = items.len() - 1;
        let inner = law_items_keep_their_order(before, policy);
        assert forall|i: int| 0 <= i < inner.len() implies items[#[trigger] inner[i]]
            == before[inner[i]] by {}
        match clean(items.last(), policy) {
            Some(item) => {
                let from = inner.push(last);
                assert forall|k: int|
                    0 <= k < items.len() && clean(
                        #[trigger] items[k],
                        policy,
                    ) is Some implies from.contains(k) by {
                    if k < last {
                        assert(before[k] == items[k]);
                        let i = choose|i: int| 0 <= i < inner.len() && inner[i] == k;
                        assert(from[i] == k);
                    } else {
                        assert(from[inner.len() as int] == k);
                    }
                }
                from
            },
            None => {
                assert forall|k: int|
                    0 <= k < items.len() && clean(
                        #[trigger] items[k],
                        policy,
                    ) is Some implies inner.contains(k) by {
                    assert(before[k] == items[k]);
                }
                inner
            },
        }
    }
}

/// Whether cleaning leaves something of the value of the member at `place`.
pub open spec fn survives(
    members: Seq<(Seq<char>, Tree)>,
    policy: EmptyContainerPolicy,
    place: int,
) -> bool {
    0 <= place < members.len() && clean(members[place].1, policy) is Some
}

/// Whether the kept member `kept` stands for the surviving members of
/// `members` from `first` to `last`: those two carry its key once trimmed, as
/// does no surviving member outside them, and `last` gives its value.
pub open spec fn kept_from(
    members: Seq<(Seq<char>, Tree)>,
    policy: EmptyContainerPolicy,
    kept: (Seq<char>, Tree),
    first: int,
    last: int,
) -> bool {
    &&& survives(members, policy, first)
    &&& survives(members, policy, last)
    &&& kept.0 == trimmed(members[first].0)
    &&& kept.0 == trimmed(members[last].0)
    &&& clean(members[last].1, policy) == Some(kept.1)
    &&& forall|j: int|
        #[trigger] survives(members, policy, j) && trimmed(members[j].0) == kept.0 ==> first <= j
            <= last
}

/// Whether `first` and `last` give, for each member that cleaning an object
/// keeps, the places of the first and of the last surviving member with its
/// key: the kept members stand in the order of the first places, and every
/// surviving member has its key kept.
pub open spec fn tells_member_places(
    members: Seq<(Seq<char>, Tree)>,
    policy: EmptyContainerPolicy,
    first: Seq<int>,
    last: Seq<int>,
) -> bool {
    let kept = clean_members(members, policy);
    &&& first.len() == kept.len()
    &&& last.len() == kept.len()
    &&& ascends_within(first, members.len() as int)
    &&& forall|i: int|
        0 <= i < kept.len() ==> #[trigger] kept_from(members, policy, kept[i], first[i], last[i])
    &&& forall|j: int|
        #[trigger] survives(members, policy, j) ==> has_key(kept, trimmed(members[j].0))
}

/// A member of the document before its last is a member of the document,
/// and survives in the one as in the other.
proof fn lemma_survives_before(members: Seq<(Seq<char>, Tree)>, policy: EmptyContainerPolicy)
    requires
        members.len() > 0,
    ensures
        forall|j: int|
            0 <= j < members.len() - 1 ==> #[trigger] members[j] == members.drop_last()[j],
        forall|j: int|
            0 <= j < members.len() - 1 ==> (#[trigger] survives(members, policy, j) <==> survives(
                members.drop_last(),
                policy,
                j,
            )),
        forall|j: int|
            #[trigger] survives(members.drop_last(), policy, j) ==> survives(members, policy, j),
{
    let before = members.drop_last();
    assert forall|j: int| 0 <= j < members.len() - 1 implies (#[trigger] survives(
        members,
        policy,
        j,
    ) <==> survives(before, policy, j)) by {
        assert(members[j] == before[j]);
    }
    assert forall|j: int| #[trigger] survives(before, policy, j) implies survives(
        members,
        policy,
        j,
    ) by {
        assert(members[j] == before[j]);
    }
}

/// A kept member that stands for members of the document before its last
/// stands for the same members of the document, unless the last member
/// survives with its key.
proof fn lemma_kept_from_before(
    members: Seq<(Seq<char>, Tree)>,
    policy: EmptyContainerPolicy,
    kept: (Seq<char>, Tree),
    first: int,
    last: int,
)
    requires
        members.len() > 0,
        kept_from(members.drop_last(), policy, kept, first, last),
        clean(members.last().1, policy) is Some ==> trimmed(members.last().0) != kept.0,
    ensures
        kept_from(members, policy, kept, first, last),
{
    let before = members.drop_last();
    lemma_survives_before(members, policy);
    assert(members[first] == before[first]);
    assert(members[last] == before[last]);
    assert forall|j: int|
        #[trigger] survives(members, policy, j) && trimmed(members[j].0) == kept.0 implies first
        <= j <= last by {
        if j < members.len() - 1 {
            assert(survives(before, policy, j));
            assert(members[j] == before[j]);
        }
    }
}

/// Every surviving member before the last has its key kept after the last
/// member is cleaned too, as it had before.
proof fn lemma_keys_stay_kept(
    members: Seq<(Seq<char>, Tree)>,
    policy: EmptyContainerPolicy,
)
    requires
        members.len() > 0,
        forall|j: int|
            #[trigger] survives(members.drop_last(), policy, j) ==> has_key(
                clean_members(members.drop_last(), policy),
                trimmed(members.drop_last()[j].0),
            ),
    ensures
        forall|j: int|
            #[trigger] survives(members, policy, j) ==> has_key(
                clean_members(members, policy),
                trimmed(members[j].0),
            ),
{
    let before = members.drop_last();
    let n = members.len() - 1;
    let kept_before = clean_members(before, policy);
    let kept = clean_members(members, policy);
    lemma_survives_before(members, policy);
    assert forall|j: int| #[trigger] survives(members, policy, j) implies has_key(
        kept,
        trimmed(members[j].0),
    ) by {
        let key = trimmed(members[j].0);
        match clean(members.last().1, policy) {
            None => {
                assert(survives(before, policy, j));
                assert(members[j] == before[j]);
            },
            Some(value) => {
                let last_key = trimmed(members.last().0);
                lemma_with_member(kept_before, last_key, value);
                if j < n {
                    assert(survives(before, policy, j));
                    assert(members[j] == before[j]);
                    let i = choose|i: int|
                        0 <= i < kept_before.len() && (#[trigger] kept_before[i]).0 == key;
                    assert(kept[i].0 == key);
                }
            },
        }
    }
}

/// The places stay as they are where cleaning leaves nothing of the last member.
proof fn lemma_places_without_last(
    members: Seq<(Seq<char>, Tree)>,
    policy: EmptyContainerPolicy,
    first: Seq<int>,
    last: Seq<int>,
)
    requires
        members.len() > 0,
        clean(members.last().1, policy) is None,
        tells_member_places(members.drop_last(), policy, first, last),
    ensures
        tells_member_places(members, policy, first, last),
{
    let before = members.drop_last();
    let kept = clean_members(members, policy);
    assert(kept == clean_members(before, policy));
    lemma_keys_stay_kept(members, policy);
    assert forall|i: int| 0 <= i < kept.len() implies #[trigger] kept_from(
        members,
        policy,
        kept[i],
        first[i],
        last[i],
    ) by {
        assert(kept_from(before, policy, kept[i], first[i], last[i]));
        lemma_kept_from_before(members, policy, kept[i], first[i], last[i]);
    }
}

/// Where the last member's key is kept already, the kept member stays in its
/// place and the last member becomes the one that gives its value.
proof fn lemma_places_with_last_merged(
    members: Seq<(Seq<char>, Tree)>,
    policy: EmptyContainerPolicy,
    first: Seq<int>,
    last: Seq<int>,
)
    requires
        members.len() > 0,
        clean(members.last().1, policy) is Some,
        has_key(clean_members(members.drop_last(), policy), trimmed(members.last().0)),
        tells_member_places(members.drop_last(), policy, first, last),
    ensures
        tells_member_places(
            members,
            policy,
            first,
            last.update(
                key_index(clean_members(members.drop_last(), policy), trimmed(members.last().0)),
                members.len() - 1,
            ),
        ),
{
    let before = members.drop_last();
    let n = members.len() - 1;
    let kept_before = clean_members(before, policy);
    let kept = clean_members(members, policy);
    let key = trimmed(members.last().0);
    let value = clean(members.last().1, policy).unwrap();
    let at = key_index(kept_before, key);
    let new_last = last.update(at, n);
    lemma_survives_before(members, policy);
    lemma_clean_members_well_formed(before, policy);
    lemma_with_member(kept_before, key, value);
    lemma_keys_stay_kept(members, policy);
    assert(kept == kept_before.update(at, (key, value)));
    assert(survives(members, policy, n));
    assert forall|i: int| 0 <= i < kept.len() implies #[trigger] kept_from(
        members,
        policy,
        kept[i],
        first[i],
        new_last[i],
    ) by {
        assert(kept_from(before, policy, kept_before[i], first[i], last[i]));
        if i == at {
            assert(members[first[i]] == before[first[i]]);
            assert forall|j: int|
                #[trigger] survives(members, policy, j) && trimmed(members[j].0)
                    == key implies first[i] <= j <= n by {
                if j < n {
                    assert(survives(before, policy, j));
                    assert(members[j] == before[j]);
                }
            }
        } else {
            assert(kept_before[i].0 != kept_before[at].0);
            lemma_kept_from_before(members, policy, kept[i], first[i], last[i]);
        }
    }
}

/// Where the last member's key is new, the member is kept at the end, and is
/// both the first and the last with its key.
proof fn lemma_places_with_last_added(
    members: Seq<(Seq<char>, Tree)>,
    policy: EmptyContainerPolicy,
    first: Seq<int>,
    last: Seq<int>,
)
    requires
        members.len() > 0,
        clean(members.last().1, policy) is Some,
        !has_key(clean_members(members.drop_last(), policy), trimmed(members.last().0)),
        tells_member_places(members.drop_last(), policy, first, last),
    ensures
        tells_member_places(
            members,
            policy,
            first.push(members.len() - 1),
            last.push(members.len() - 1),
        ),
{
    let before = members.drop_last();
    let n = members.len() - 1;
    let kept_before = clean_members(before, policy);
    let kept = clean_members(members, policy);
    let key = trimmed(members.last().0);
    let value = clean(members.last().1, policy).unwrap();
    let new_first = first.push(n);
    let new_last = last.push(n);
    lemma_survives_before(members, policy);
    lemma_with_member(kept_before, key, value);
    lemma_keys_stay_kept(members, policy);
    assert(kept == kept_before.push((key, value)));
    assert(survives(members, policy, n));
    assert forall|i: int| 0 <= i < kept.len() implies #[trigger] kept_from(
        members,
        policy,
        kept[i],
        new_first[i],
        new_last[i],
    ) by {
        if i < kept_before.len() {
            assert(kept_from(before, policy, kept_before[i], first[i], last[i]));
            assert(kept_before[i].0 != key);
            lemma_kept_from_before(members, policy, kept[i], first[i], last[i]);
        } else {
            assert forall|j: int|
                #[trigger] survives(members, policy, j) && trimmed(members[j].0)
                    == key implies n <= j <= n by {
                if j < n {
                    assert(survives(before, policy, j));
                    assert(members[j] == before[j]);
                    assert(has_key(kept_before, trimmed(before[j].0)));
                }
            }
        }
    }
    assert forall|i: int, j: int| 0 <= i < j < new_first.len() implies #[trigger] new_first[i]
        < #[trigger] new_first[j] by {
        if j < first.len() {
            assert(first[i] < first[j]);
        } else {
            assert(0 <= first[i] < n);
        }
    }
}

/// The members that cleaning keeps of an object stand in the order in which
/// their keys first survive in the document; where several surviving
/// members have one trimmed key, the last of them gives the value. The places
/// come back as the witness.
pub proof fn law_members_keep_their_order(
    members: Seq<(Seq<char>, Tree)>,
    policy: EmptyContainerPolicy,
) -> (places: (Seq<int>, Seq<int>))
    ensures
        tells_member_places(members, policy, places.0, places.1),
    decreases members.len(),
{
    if members.len() == 0 {
        (Seq::empty(), Seq::empty())
    } else {
        let before = members.drop_last();
        let n = members.len() - 1;
        let (first, last) = law_members_keep_their_order(before, policy);
        if clean(members.last().1, policy) is None {
            lemma_places_without_last(members, policy, first, last);
            (first, last)
        } else if has_key(clean_members(before, policy), trimmed(members.last().0)) {
            lemma_places_with_last_merged(members, policy, first, last);
            let at = key_index(clean_members(before, policy), trimmed(members.last().0));
            (first, last.update(at, n))
        } else {
            lemma_places_with_last_added(members, policy, first, last);
            (first.push(n), last.push(n))
        }
    }
}

/// Whether the member at `place` survives and no surviving member after it
/// has its trimmed key: its value is the one that is kept under that key.
pub open spec fn prevails(
    members: Seq<(Seq<char>, Tree)>,
    policy: EmptyContainerPolicy,
    place: int,
) -> bool {
    &&& survives(members, policy, place)
    &&& forall|j: int|
        place < j && #[trigger] survives(members, policy, j) ==> trimmed(members[j].0) != trimmed(
            members[place].0,
        )
}

/// The members that give the kept values are the members that prevail, one
/// for one.
pub proof fn lemma_last_places_prevail(
    members: Seq<(Seq<char>, Tree)>,
    policy: EmptyContainerPolicy,
    first: Seq<int>,
    last: Seq<int>,
)
    requires
        tells_member_places(members, policy, first, last),
    ensures
        forall|i: int| 0 <= i < last.len() ==> prevails(members, policy, #[trigger] last[i]),
        forall|j: int| #[trigger]
            prevails(members, policy, j) ==> exists|i: int|
                0 <= i < last.len() && #[trigger] last[i] == j,
{
    let kept = clean_members(members, policy);
    assert forall|i: int| 0 <= i < last.len() implies prevails(
        members,
        policy,
        #[trigger] last[i],
    ) by {
        assert(kept_from(members, policy, kept[i], first[i], last[i]));
    }
    assert forall|j: int| #[trigger] prevails(members, policy, j) implies exists|i: int|
        0 <= i < last.len() && #[trigger] last[i] == j by {
        assert(survives(members, policy, j));
        let key = trimmed(members[j].0);
        assert(has_key(kept, key));
        let i = choose|i: int| 0 <= i < kept.len() && (#[trigger] kept[i]).0 == key;
        assert(kept_from(members, policy, kept[i], first[i], last[i]));
        assert(survives(members, policy, last[i]));
        assert(last[i] == j);
    }
}

/// An array that cleaning keeps holds the cleaned forms of its surviving
/// items in the order of the document, unless it is the `[null]` that
/// `Normalize` writes for an empty array. The places come back as the witness.
pub proof fn law_array_keeps_its_order(items: Seq<Tree>, policy: EmptyContainerPolicy) -> (from:
    Seq<int>)
    ensures
        clean(Tree::Array(items), policy) matches Some(Tree::Array(kept)) ==> {
            ||| items.len() == 0 && policy == EmptyContainerPolicy::Normalize && kept
                == seq![Tree::Null]
            ||| kept == clean_items(items, policy) && tells_item_places(items, policy, from)
        },
{
    law_items_keep_their_order(items, policy)
}

/// An object that cleaning keeps holds its surviving members in the order of
/// the document, unless it is the placeholder that `Collapse` writes for an
/// object of which no member is left. The places come back as the witness.
pub proof fn law_object_keeps_its_order(
    members: Seq<(Seq<char>, Tree)>,
    policy: EmptyContainerPolicy,
) -> (places: (Seq<int>, Seq<int>))
    ensures
        clean(Tree::Object(members), policy) matches Some(Tree::Object(kept)) && {
            ||| policy == EmptyContainerPolicy::Collapse && clean_members(members, policy).len()
                == 0 && kept == seq![placeholder_member()]
            ||| kept == clean_members(members, policy) && tells_member_places(
                members,
                policy,
                places.0,
                places.1,
            )
        },
{
    law_members_keep_their_order(members, policy)
}

} // verus!
