//! Where `null` can stand as the value of a member after cleaning.

use crate::laws::order::{
    kept_from, law_items_keep_their_order, law_members_keep_their_order,
    lemma_last_places_prevail, prevails,
};
use crate::node::Tree;
use crate::normalize::{
    all_null, clean, clean_items, clean_members, cleaned_object_members, placeholder_member,
    EmptyContainerPolicy,
};
use vstd::prelude::*;

verus! {

/// Whether no object in `tree` has `null` for the value of a member, the
/// placeholder that `Collapse` writes for an emptied object apart.
pub open spec fn no_null_member(tree: Tree, policy: EmptyContainerPolicy) -> bool
    decreases tree,
{
    match tree {
        Tree::Array(items) => items_no_null_member(items, policy),
        Tree::Object(members) => members_no_null_member(members, policy),
        _ => true,
    }
}

/// Whether `no_null_member` holds of every item.
pub open spec fn items_no_null_member(items: Seq<Tree>, policy: EmptyContainerPolicy) -> bool
    decreases items,
{
    forall|i: int| #![trigger items[i]] 0 <= i < items.len() ==> no_null_member(items[i], policy)
}

/// Whether the value of `member` is not `null` and `no_null_member` holds of it.
pub open spec fn member_is_not_null(member: (Seq<char>, Tree), policy: EmptyContainerPolicy) -> bool
    decreases member,
{
    !(member.1 is Null) && no_null_member(member.1, policy)
}

/// Whether these are the members of the placeholder for an emptied object, or
/// none of them has `null` for its value and `no_null_member` holds of each value.
pub open spec fn members_no_null_member(
    members: Seq<(Seq<char>, Tree)>,
    policy: EmptyContainerPolicy,
) -> bool
    decreases members,
{
    ||| policy == EmptyContainerPolicy::Collapse && members == seq![placeholder_member()]
    ||| forall|i: int|
        #![trigger members[i]]
        0 <= i < members.len() ==> member_is_not_null(members[i], policy)
}

/// Whether cleaning turns no value of a member that prevails into `null`,
/// in any object of `tree` that cleaning keeps, unless what it keeps of that
/// object reads as the placeholder for an emptied one.
pub open spec fn no_member_collapses(tree: Tree, policy: EmptyContainerPolicy) -> bool
    decreases tree,
{
    match tree {
        Tree::Array(items) => items_no_member_collapses(items, policy),
        Tree::Object(members) => members_no_member_collapses(members, policy),
        _ => true,
    }
}

/// Whether `no_member_collapses` holds of every item.
pub open spec fn items_no_member_collapses(items: Seq<Tree>, policy: EmptyContainerPolicy) -> bool
    decreases items,
{
    forall|i: int|
        #![trigger items[i]]
        0 <= i < items.len() ==> no_member_collapses(items[i], policy)
}

/// Whether cleaning turns the value of `member` into something other than
/// `null`, and `no_member_collapses` holds of the value.
pub open spec fn member_stays(member: (Seq<char>, Tree), policy: EmptyContainerPolicy) -> bool
    decreases member,
{
    clean(member.1, policy) != Some(Tree::Null) && no_member_collapses(member.1, policy)
}

/// Whether what cleaning keeps of `members` reads as the placeholder for an
/// emptied object, or cleaning turns no value of a member that prevails into
/// `null` and `no_member_collapses` holds of each such value.
pub open spec fn members_no_member_collapses(
    members: Seq<(Seq<char>, Tree)>,
    policy: EmptyContainerPolicy,
) -> bool
    decreases members,
{
    ||| policy == EmptyContainerPolicy::Collapse && clean_members(members, policy)
        == seq![placeholder_member()]
    ||| forall|j: int|
        #![trigger members[j]]
        0 <= j < members.len() && prevails(members, policy, j) ==> member_stays(
            members[j],
            policy,
        )
}

/// Under `Normalize`, cleaning never makes `null` of a value.
pub proof fn lemma_normalize_never_gives_null(tree: Tree)
    ensures
        clean(tree, EmptyContainerPolicy::Normalize) != Some(Tree::Null),
{
}

/// The cleaned form of a document has `null` for the value of a member,
/// other than in the placeholder for an emptied object, exactly where cleaning
/// turned the value of a member that prevails into `null`: under `Collapse`,
/// an array of which nothing but nulls is left.
pub proof fn law_null_members_come_from_collapsed_arrays(tree: Tree, policy: EmptyContainerPolicy)
    ensures
        clean(tree, policy) matches Some(cleaned) ==> (no_null_member(cleaned, policy)
            <==> no_member_collapses(tree, policy)),
    decreases tree, 1nat,
{
    match tree {
        Tree::Array(items) => {
            lemma_items_null_members(items, policy);
            let kept = clean_items(items, policy);
            assert(items_no_null_member(seq![Tree::Null], policy));
            if policy == EmptyContainerPolicy::Collapse && all_null(kept) {
                assert(items_no_null_member(kept, policy));
            }
        },
        Tree::Object(members) => {
            lemma_members_null_members(members, policy);
        },
        _ => {},
    }
}

/// `law_null_members_come_from_collapsed_arrays`, of the items of an array.
pub proof fn lemma_items_null_members(items: Seq<Tree>, policy: EmptyContainerPolicy)
    ensures
        items_no_null_member(clean_items(items, policy), policy) <==> items_no_member_collapses(
            items,
            policy,
        ),
    decreases items, 0nat,
{
    let kept = clean_items(items, policy);
    let from = law_items_keep_their_order(items, policy);
    if items_no_null_member(kept, policy) {
        assert forall|k: int| #![trigger items[k]] 0 <= k < items.len() implies no_member_collapses(
            items[k],
            policy,
        ) by {
            if clean(items[k], policy) is Some {
                let i = choose|i: int| 0 <= i < from.len() && from[i] == k;
                assert(clean(items[from[i]], policy) == Some(kept[i]));
                law_null_members_come_from_collapsed_arrays(items[k], policy);
            }
        }
    }
    if items_no_member_collapses(items, policy) {
        assert forall|i: int| #![trigger kept[i]] 0 <= i < kept.len() implies no_null_member(
            kept[i],
            policy,
        ) by {
            let k = from[i];
            assert(clean(items[from[i]], policy) == Some(kept[i]));
            law_null_members_come_from_collapsed_arrays(items[k], policy);
        }
    }
}

/// `law_null_members_come_from_collapsed_arrays`, of the members of an object.
pub proof fn lemma_members_null_members(
    members: Seq<(Seq<char>, Tree)>,
    policy: EmptyContainerPolicy,
)
    ensures
        members_no_null_member(cleaned_object_members(members, policy), policy)
            <==> members_no_member_collapses(members, policy),
    decreases members, 0nat,
{
    let kept = clean_members(members, policy);
    let out = cleaned_object_members(members, policy);
    let (first, last) = law_members_keep_their_order(members, policy);
    lemma_last_places_prevail(members, policy, first, last);
    if policy == EmptyContainerPolicy::Collapse && kept.len() == 0 {
        assert forall|j: int|
            #![trigger members[j]]
            0 <= j < members.len() && prevails(members, policy, j) implies member_stays(
            members[j],
            policy,
        ) by {
            let i = choose|i: int| 0 <= i < last.len() && #[trigger] last[i] == j;
            assert(false);
        }
    } else if policy == EmptyContainerPolicy::Collapse && kept == seq![placeholder_member()] {
    } else {
        if members_no_null_member(kept, policy) {
            assert forall|j: int|
                #![trigger members[j]]
                0 <= j < members.len() && prevails(members, policy, j) implies member_stays(
                members[j],
                policy,
            ) by {
                let i = choose|i: int| 0 <= i < last.len() && #[trigger] last[i] == j;
                assert(kept_from(members, policy, kept[i], first[i], last[i]));
                assert(member_is_not_null(kept[i], policy));
                law_null_members_come_from_collapsed_arrays(members[j].1, policy);
            }
        }
        if members_no_member_collapses(members, policy) {
            assert forall|i: int|
                #![trigger kept[i]]
                0 <= i < kept.len() implies member_is_not_null(kept[i], policy) by {
                let j = last[i];
                assert(kept_from(members, policy, kept[i], first[i], last[i]));
                assert(prevails(members, policy, j));
                assert(member_stays(members[j], policy));
                law_null_members_come_from_collapsed_arrays(members[j].1, policy);
            }
        }
    }
}

/// Under `Normalize`, nothing that cleaning does turns the value of a member
/// into `null`.
pub proof fn lemma_normalize_collapses_no_member(tree: Tree)
    ensures
        no_member_collapses(tree, EmptyContainerPolicy::Normalize),
    decreases tree,
{
    match tree {
        Tree::Array(items) => {
            assert forall|i: int|
                #![trigger items[i]]
                0 <= i < items.len() implies no_member_collapses(
                items[i],
                EmptyContainerPolicy::Normalize,
            ) by {
                lemma_normalize_collapses_no_member(items[i]);
            }
        },
        Tree::Object(members) => {
            assert forall|j: int|
                #![trigger members[j]]
                0 <= j < members.len() implies member_stays(
                members[j],
                EmptyContainerPolicy::Normalize,
            ) by {
                lemma_normalize_never_gives_null(members[j].1);
                lemma_normalize_collapses_no_member(members[j].1);
            }
        },
        _ => {},
    }
}

/// Under `Normalize`, whatever the document, no object of its cleaned form
/// has `null` for the value of a member.
pub proof fn law_normalize_leaves_no_null_member(tree: Tree)
    ensures
        clean(tree, EmptyContainerPolicy::Normalize) matches Some(cleaned) ==> no_null_member(
            cleaned,
            EmptyContainerPolicy::Normalize,
        ),
{
    lemma_normalize_collapses_no_member(tree);
    law_null_members_come_from_collapsed_arrays(tree, EmptyContainerPolicy::Normalize);
}

} // verus!
