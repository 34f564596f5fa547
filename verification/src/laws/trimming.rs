//! No text that cleaning writes starts or ends with white space.

use crate::laws::members::lemma_with_member_keeps;
use crate::node::Tree;
use crate::normalize::{
    clean, clean_items, clean_members, placeholder_member, EmptyContainerPolicy,
};
use crate::text::{is_trimmed, is_white_space, law_trimming_peels_white_space, trimmed};
use vstd::prelude::*;

verus! {

/// Whether no string and no key in `tree` starts or ends with white space.
pub open spec fn text_is_trimmed(tree: Tree) -> bool
    decreases tree,
{
    match tree {
        Tree::String(s) => is_trimmed(s),
        Tree::Array(items) => items_text_is_trimmed(items),
        Tree::Object(members) => members_text_is_trimmed(members),
        _ => true,
    }
}

/// Whether no string and no key in any of `items` starts or ends with white space.
pub open spec fn items_text_is_trimmed(items: Seq<Tree>) -> bool
    decreases items,
{
    forall|i: int| #![trigger items[i]] 0 <= i < items.len() ==> text_is_trimmed(items[i])
}

/// Whether neither the key of `member` nor any text in its value starts or
/// ends with white space.
pub open spec fn member_text_is_trimmed(member: (Seq<char>, Tree)) -> bool
    decreases member,
{
    is_trimmed(member.0) && text_is_trimmed(member.1)
}

/// Whether no key of `members` and no text in their values starts or ends
/// with white space.
pub open spec fn members_text_is_trimmed(members: Seq<(Seq<char>, Tree)>) -> bool
    decreases members,
{
    forall|i: int|
        #![trigger members[i]]
        0 <= i < members.len() ==> member_text_is_trimmed(members[i])
}

/// Whatever the document, no string and no key of its cleaned form starts or
/// ends with white space.
pub proof fn law_clean_trims_all_text(tree: Tree, policy: EmptyContainerPolicy)
    ensures
        clean(tree, policy) matches Some(cleaned) ==> text_is_trimmed(cleaned),
    decreases tree, 1nat,
{
    match tree {
        Tree::String(s) => {
            let _ = law_trimming_peels_white_space(s);
        },
        Tree::Array(items) => {
            lemma_clean_items_trims(items, policy);
            assert(items_text_is_trimmed(seq![Tree::Null]));
        },
        Tree::Object(members) => {
            lemma_clean_members_trims(members, policy);
            assert(members_text_is_trimmed(seq![placeholder_member()])) by {
                reveal_strlit("value");
                assert(!is_white_space('v'));
                assert(!is_white_space('e'));
                assert(member_text_is_trimmed(placeholder_member()));
            }
        },
        _ => {},
    }
}

/// No text in the cleaned items of an array starts or ends with white space.
pub proof fn lemma_clean_items_trims(items: Seq<Tree>, policy: EmptyContainerPolicy)
    ensures
        items_text_is_trimmed(clean_items(items, policy)),
    decreases items, 0nat,
{
    if items.len() > 0 {
        lemma_clean_items_trims(items.drop_last(), policy);
        law_clean_trims_all_text(items.last(), policy);
    }
}

/// No key and no text in the cleaned members of an object starts or ends with
/// white space.
pub proof fn lemma_clean_members_trims(
    members: Seq<(Seq<char>, Tree)>,
    policy: EmptyContainerPolicy,
)
    ensures
        members_text_is_trimmed(clean_members(members, policy)),
    decreases members, 0nat,
{
    if members.len() > 0 {
        lemma_clean_members_trims(members.drop_last(), policy);
        law_clean_trims_all_text(members.last().1, policy);
        match clean(members.last().1, policy) {
            Some(value) => {
                let key = trimmed(members.last().0);
                let _ = law_trimming_peels_white_space(members.last().0);
                lemma_with_member_keeps(
                    clean_members(members.drop_last(), policy),
                    key,
                    value,
                    |member: (Seq<char>, Tree)| member_text_is_trimmed(member),
                );
            },
            None => {},
        }
    }
}

} // verus!
