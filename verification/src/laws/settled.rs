//! The documents that cleaning leaves as they are, and when cleaning twice
//! is cleaning once.

use crate::laws::mapping::lemma_clean_members_well_formed;
use crate::laws::members::lemma_with_member;
use crate::laws::order::{
    kept_from, law_items_keep_their_order, law_members_keep_their_order,
    lemma_last_places_prevail, prevails,
};
use crate::laws::trimming::lemma_clean_members_trims;
use crate::node::{distinct_keys, Tree};
use crate::normalize::{
    all_null, clean, clean_items, clean_members, cleaned_object_members, has_key,
    placeholder_member, EmptyContainerPolicy,
};
use crate::text::{is_trimmed, law_trimming_peels_white_space, lemma_trimmed_of_trimmed, trimmed};
use vstd::prelude::*;

verus! {

/// Whether `tree` is in the form that cleaning aims at: it is not `null`,
/// no text or key in it starts or ends with white space, no array in it is
/// empty or holds `null`, and every object in it is a mapping without `null`
/// for a value, or the placeholder for an emptied object, and under `Collapse`
/// not empty.
pub open spec fn is_settled(tree: Tree, policy: EmptyContainerPolicy) -> bool
    decreases tree,
{
    match tree {
        Tree::Null => false,
        Tree::Bool(_) => true,
        Tree::Number(_) => true,
        Tree::String(s) => is_trimmed(s),
        Tree::Array(items) => items.len() > 0 && items_are_settled(items, policy),
        Tree::Object(members) => match policy {
            EmptyContainerPolicy::Collapse => {
                ||| members == seq![placeholder_member()]
                ||| members.len() > 0 && members_are_settled(members, policy)
            },
            EmptyContainerPolicy::Normalize => members_are_settled(members, policy),
        },
    }
}

/// Whether every item is settled.
pub open spec fn items_are_settled(items: Seq<Tree>, policy: EmptyContainerPolicy) -> bool
    decreases items,
{
    forall|i: int| #![trigger items[i]] 0 <= i < items.len() ==> is_settled(items[i], policy)
}

/// Whether the key of `member` is trimmed and its value settled.
pub open spec fn member_is_settled(member: (Seq<char>, Tree), policy: EmptyContainerPolicy) -> bool
    decreases member,
{
    is_trimmed(member.0) && is_settled(member.1, policy)
}

/// Whether the members are those of a mapping, each with a trimmed key and a
/// settled value.
pub open spec fn members_are_settled(
    members: Seq<(Seq<char>, Tree)>,
    policy: EmptyContainerPolicy,
) -> bool
    decreases members,
{
    &&& distinct_keys(members)
    &&& forall|i: int|
        #![trigger members[i]]
        0 <= i < members.len() ==> member_is_settled(members[i], policy)
}

/// Cleaning keeps no more items than the array has.
pub proof fn lemma_clean_items_len(items: Seq<Tree>, policy: EmptyContainerPolicy)
    ensures
        clean_items(items, policy).len() <= items.len(),
    decreases items.len(),
{
    if items.len() > 0 {
        lemma_clean_items_len(items.drop_last(), policy);
    }
}

/// Cleaning keeps no more members than the object has.
pub proof fn lemma_clean_members_len(members: Seq<(Seq<char>, Tree)>, policy: EmptyContainerPolicy)
    ensures
        clean_members(members, policy).len() <= members.len(),
    decreases members.len(),
{
    if members.len() > 0 {
        let before = members.drop_last();
        lemma_clean_members_len(before, policy);
        match clean(members.last().1, policy) {
            Some(value) => {
                lemma_with_member(clean_members(before, policy), trimmed(members.last().0), value);
            },
            None => {},
        }
    }
}

/// Cleaning leaves the items of an array as they are exactly where it
/// leaves each of them as it is.
pub proof fn lemma_clean_items_fixed(items: Seq<Tree>, policy: EmptyContainerPolicy)
    ensures
        clean_items(items, policy) == items <==> forall|i: int|
            #![trigger items[i]]
            0 <= i < items.len() ==> clean(items[i], policy) == Some(items[i]),
    decreases items.len(),
{
    if items.len() > 0 {
        let before = items.drop_last();
        let kept_before = clean_items(before, policy);
        let kept = clean_items(items, policy);
        lemma_clean_items_fixed(before, policy);
        lemma_clean_items_len(before, policy);
        if kept == items {
            // The last item is kept, or fewer items would be kept than there are.
            assert(kept_before =~= kept.drop_last());
        }
        if forall|i: int|
            #![trigger items[i]]
            0 <= i < items.len() ==> clean(items[i], policy) == Some(items[i]) {
            assert forall|i: int| #![trigger before[i]] 0 <= i < before.len() implies clean(
                before[i],
                policy,
            ) == Some(before[i]) by {}
            assert(kept =~= items);
        }
    } else {
        assert(clean_items(items, policy) =~= items);
    }
}

/// Whether cleaning leaves `member` as it is: its key is its own trimmed
/// form and its value is its own cleaned form.
pub open spec fn member_is_fixed(member: (Seq<char>, Tree), policy: EmptyContainerPolicy) -> bool {
    trimmed(member.0) == member.0 && clean(member.1, policy) == Some(member.1)
}

/// Cleaning leaves the members of an object as they are exactly where no two
/// of them carry one key and it leaves each of them as it is.
pub proof fn lemma_clean_members_fixed(
    members: Seq<(Seq<char>, Tree)>,
    policy: EmptyContainerPolicy,
)
    ensures
        clean_members(members, policy) == members <==> {
            &&& distinct_keys(members)
            &&& forall|i: int|
                #![trigger members[i]]
                0 <= i < members.len() ==> member_is_fixed(members[i], policy)
        },
    decreases members.len(),
{
    if members.len() > 0 {
        let before = members.drop_last();
        let kept_before = clean_members(before, policy);
        let kept = clean_members(members, policy);
        let key = trimmed(members.last().0);
        lemma_clean_members_fixed(before, policy);
        lemma_clean_members_len(before, policy);
        if kept == members {
            // The last member is kept under a new key, or fewer members would
            // be kept than there are.
            let value = clean(members.last().1, policy).unwrap();
            lemma_with_member(kept_before, key, value);
            assert(kept_before =~= kept.drop_last());
            assert forall|i: int|
                #![trigger members[i]]
                0 <= i < members.len() implies member_is_fixed(members[i], policy) by {}
            assert forall|i: int, j: int| 0 <= i < j < members.len() implies (
            #[trigger] members[i]).0 != (#[trigger] members[j]).0 by {}
        }
        if distinct_keys(members) && forall|i: int|
            #![trigger members[i]]
            0 <= i < members.len() ==> member_is_fixed(members[i], policy) {
            assert forall|i: int|
                #![trigger before[i]]
                0 <= i < before.len() implies member_is_fixed(before[i], policy) by {}
            assert forall|i: int, j: int| 0 <= i < j < before.len() implies (
            #[trigger] before[i]).0 != (#[trigger] before[j]).0 by {}
            assert(!has_key(before, key));
            lemma_with_member(kept_before, key, members.last().1);
            assert(kept =~= members);
        }
    } else {
        assert(clean_members(members, policy) =~= members);
    }
}

/// The settled documents are the documents that cleaning leaves as they are.
pub proof fn law_settled_is_left_as_it_is(tree: Tree, policy: EmptyContainerPolicy)
    ensures
        is_settled(tree, policy) <==> clean(tree, policy) == Some(tree),
    decreases tree,
{
    match tree {
        Tree::String(s) => {
            if is_trimmed(s) {
                lemma_trimmed_of_trimmed(s);
            }
            if trimmed(s) == s {
                let _ = law_trimming_peels_white_space(s);
            }
        },
        Tree::Array(items) => {
            lemma_clean_items_fixed(items, policy);
            assert forall|i: int| #![trigger items[i]] 0 <= i < items.len() implies (is_settled(
                items[i],
                policy,
            ) <==> clean(items[i], policy) == Some(items[i])) by {
                law_settled_is_left_as_it_is(items[i], policy);
            }
        },
        Tree::Object(members) => {
            lemma_clean_members_fixed(members, policy);
            assert forall|i: int| #![trigger members[i]] 0 <= i < members.len() implies (
            member_is_settled(members[i], policy) <==> member_is_fixed(members[i], policy)) by {
                law_settled_is_left_as_it_is(members[i].1, policy);
                if is_trimmed(members[i].0) {
                    lemma_trimmed_of_trimmed(members[i].0);
                }
                if trimmed(members[i].0) == members[i].0 {
                    let _ = law_trimming_peels_white_space(members[i].0);
                }
            }
            let placeholder = seq![placeholder_member()];
            if members == placeholder {
                // Nothing is kept of the placeholder, so it is written anew.
                assert(clean_members(placeholder.drop_last(), policy) =~= Seq::<
                    (Seq<char>, Tree),
                >::empty());
            }
        },
        _ => {},
    }
}

/// Whether cleaning settles `tree`: every array that cleaning keeps holds an
/// item other than `null`, down through the items of arrays and the values
/// of the members that prevail; an object of which cleaning keeps what reads
/// as the placeholder is settled whatever it held.
pub open spec fn settles(tree: Tree, policy: EmptyContainerPolicy) -> bool
    decreases tree,
{
    match tree {
        Tree::Array(items) => !all_null(items) && items_settle(items, policy),
        Tree::Object(members) => members_settle(members, policy),
        _ => true,
    }
}

/// Whether cleaning settles every item.
pub open spec fn items_settle(items: Seq<Tree>, policy: EmptyContainerPolicy) -> bool
    decreases items,
{
    forall|i: int| #![trigger items[i]] 0 <= i < items.len() ==> settles(items[i], policy)
}

/// Whether what cleaning keeps of `members` reads as the placeholder, or
/// cleaning settles the value of every member that prevails.
pub open spec fn members_settle(
    members: Seq<(Seq<char>, Tree)>,
    policy: EmptyContainerPolicy,
) -> bool
    decreases members,
{
    ||| policy == EmptyContainerPolicy::Collapse && cleaned_object_members(members, policy)
        == seq![placeholder_member()]
    ||| forall|j: int|
        #![trigger members[j]]
        0 <= j < members.len() && prevails(members, policy, j) ==> settles(members[j].1, policy)
}

/// The cleaned form of a document is settled exactly where cleaning settles
/// the document.
pub proof fn law_clean_settles_exactly(tree: Tree, policy: EmptyContainerPolicy)
    ensures
        clean(tree, policy) matches Some(cleaned) ==> (is_settled(cleaned, policy) <==> settles(
            tree,
            policy,
        )),
    decreases tree, 1nat,
{
    match tree {
        Tree::String(s) => {
            let _ = law_trimming_peels_white_space(s);
        },
        Tree::Array(items) => {
            lemma_items_settle(items, policy);
            let kept = clean_items(items, policy);
            let from = law_items_keep_their_order(items, policy);
            if !all_null(items) {
                // An item other than `null` is kept.
                let k = choose|k: int| 0 <= k < items.len() && !(#[trigger] items[k] == Tree::Null);
                assert(from.contains(k));
            }
            if kept.len() > 0 {
                // What is kept comes from an item other than `null`, and is
                // not `null` where it is settled.
                assert(clean(items[from[0]], policy) == Some(kept[0]));
                assert(is_settled(kept[0], policy) ==> !all_null(kept));
            }
            // The `[null]` that stands for an empty array is not settled.
            assert(!is_settled(seq![Tree::Null][0], policy));
        },
        Tree::Object(members) => {
            lemma_members_settle(members, policy);
        },
        _ => {},
    }
}

/// `law_clean_settles_exactly`, of the items of an array.
pub proof fn lemma_items_settle(items: Seq<Tree>, policy: EmptyContainerPolicy)
    ensures
        items_are_settled(clean_items(items, policy), policy) <==> items_settle(items, policy),
    decreases items, 0nat,
{
    let kept = clean_items(items, policy);
    let from = law_items_keep_their_order(items, policy);
    if items_are_settled(kept, policy) {
        assert forall|k: int| #![trigger items[k]] 0 <= k < items.len() implies settles(
            items[k],
            policy,
        ) by {
            if clean(items[k], policy) is Some {
                let i = choose|i: int| 0 <= i < from.len() && from[i] == k;
                assert(clean(items[k], policy) == Some(kept[i]));
                law_clean_settles_exactly(items[k], policy);
            }
        }
    }
    if items_settle(items, policy) {
        assert forall|i: int| #![trigger kept[i]] 0 <= i < kept.len() implies is_settled(
            kept[i],
            policy,
        ) by {
            law_clean_settles_exactly(items[from[i]], policy);
        }
    }
}

/// `law_clean_settles_exactly`, of the members of an object.
pub proof fn lemma_members_settle(members: Seq<(Seq<char>, Tree)>, policy: EmptyContainerPolicy)
    ensures
        is_settled(Tree::Object(cleaned_object_members(members, policy)), policy)
            <==> members_settle(members, policy),
    decreases members, 0nat,
{
    let kept = clean_members(members, policy);
    let out = cleaned_object_members(members, policy);
    let (first, last) = law_members_keep_their_order(members, policy);
    lemma_last_places_prevail(members, policy, first, last);
    lemma_clean_members_well_formed(members, policy);
    lemma_clean_members_trims(members, policy);
    if !(policy == EmptyContainerPolicy::Collapse && out == seq![placeholder_member()]) {
        if members_are_settled(kept, policy) {
            assert forall|j: int|
                #![trigger members[j]]
                0 <= j < members.len() && prevails(members, policy, j) implies settles(
                members[j].1,
                policy,
            ) by {
                let i = choose|i: int| 0 <= i < last.len() && #[trigger] last[i] == j;
                assert(kept_from(members, policy, kept[i], first[i], last[i]));
                law_clean_settles_exactly(members[j].1, policy);
            }
        }
        if members_settle(members, policy) {
            assert forall|i: int|
                #![trigger kept[i]]
                0 <= i < kept.len() implies member_is_settled(kept[i], policy) by {
                assert(kept_from(members, policy, kept[i], first[i], last[i]));
                law_clean_settles_exactly(members[last[i]].1, policy);
            }
        }
    }
}

/// Cleaning a second time changes nothing exactly where cleaning settles the
/// document. It does not always: an array that is emptied leaves a `null` or
/// a `[null]` behind, which a second cleaning takes away or empties.
pub proof fn law_cleaning_twice_is_cleaning_once(tree: Tree, policy: EmptyContainerPolicy)
    ensures
        clean(tree, policy) matches Some(cleaned) ==> (clean(cleaned, policy) == Some(cleaned)
            <==> settles(tree, policy)),
{
    if let Some(cleaned) = clean(tree, policy) {
        law_clean_settles_exactly(tree, policy);
        law_settled_is_left_as_it_is(cleaned, policy);
    }
}

/// Whether every array in `tree` holds an item other than `null`.
pub open spec fn arrays_hold_items(tree: Tree) -> bool
    decreases tree,
{
    match tree {
        Tree::Array(items) => !all_null(items) && items_arrays_hold_items(items),
        Tree::Object(members) => members_arrays_hold_items(members),
        _ => true,
    }
}

/// Whether `arrays_hold_items` holds of every item.
pub open spec fn items_arrays_hold_items(items: Seq<Tree>) -> bool
    decreases items,
{
    forall|i: int| #![trigger items[i]] 0 <= i < items.len() ==> arrays_hold_items(items[i])
}

/// Whether `arrays_hold_items` holds of the value of every member.
pub open spec fn members_arrays_hold_items(members: Seq<(Seq<char>, Tree)>) -> bool
    decreases members,
{
    forall|i: int| #![trigger members[i]] 0 <= i < members.len() ==> arrays_hold_items(members[i].1)
}

/// Cleaning settles every document in which each array holds an item other
/// than `null`, whatever the policy.
pub proof fn lemma_arrays_that_hold_items_settle(tree: Tree, policy: EmptyContainerPolicy)
    requires
        arrays_hold_items(tree),
    ensures
        settles(tree, policy),
    decreases tree,
{
    match tree {
        Tree::Array(items) => {
            assert forall|i: int| #![trigger items[i]] 0 <= i < items.len() implies settles(
                items[i],
                policy,
            ) by {
                lemma_arrays_that_hold_items_settle(items[i], policy);
            }
        },
        Tree::Object(members) => {
            assert forall|j: int|
                #![trigger members[j]]
                0 <= j < members.len() implies settles(members[j].1, policy) by {
                lemma_arrays_that_hold_items_settle(members[j].1, policy);
            }
        },
        _ => {},
    }
}

/// Of a document in which each array holds an item other than `null`,
/// cleaning twice is cleaning once.
pub proof fn law_cleaning_twice_where_arrays_hold_items(tree: Tree, policy: EmptyContainerPolicy)
    requires
        arrays_hold_items(tree),
    ensures
        clean(tree, policy) matches Some(cleaned) ==> clean(cleaned, policy) == Some(cleaned),
{
    lemma_arrays_that_hold_items_settle(tree, policy);
    law_cleaning_twice_is_cleaning_once(tree, policy);
}

} // verus!
