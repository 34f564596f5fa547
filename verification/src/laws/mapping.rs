//! Every object that cleaning writes is a mapping.

use crate::laws::members::lemma_key_index_is_first;
use crate::node::{items_well_formed, members_well_formed, Tree};
use crate::normalize::{
    clean, clean_items, clean_members, has_key, key_index, placeholder_member, with_member,
    EmptyContainerPolicy,
};
use crate::text::trimmed;
use vstd::prelude::*;

verus! {

/// Setting a key among the members of a mapping leaves a mapping.
pub proof fn lemma_with_member_well_formed(
    members: Seq<(Seq<char>, Tree)>,
    key: Seq<char>,
    value: Tree,
)
    requires
        members_well_formed(members),
        value.well_formed(),
    ensures
        members_well_formed(with_member(members, key, value)),
{
    let after = with_member(members, key, value);
    if has_key(members, key) {
        let k = key_index(members, key);
        lemma_key_index_is_first(members, key);
        assert forall|i: int, j: int| 0 <= i < j < after.len() implies (#[trigger] after[i]).0 != (
        #[trigger] after[j]).0 by {
            assert(after[i].0 == members[i].0);
            assert(after[j].0 == members[j].0);
        }
        assert forall|i: int|
            #![trigger after[i]]
            0 <= i < after.len() implies after[i].1.well_formed() by {
            if i != k {
                assert(after[i] == members[i]);
            }
        }
    } else {
        assert forall|i: int, j: int| 0 <= i < j < after.len() implies (#[trigger] after[i]).0 != (
        #[trigger] after[j]).0 by {
            if j < members.len() {
                assert(after[i] == members[i]);
                assert(after[j] == members[j]);
            } else {
                assert(after[i] == members[i]);
            }
        }
        assert forall|i: int|
            #![trigger after[i]]
            0 <= i < after.len() implies after[i].1.well_formed() by {
            if i < members.len() {
                assert(after[i] == members[i]);
            }
        }
    }
}

/// Whatever the document, every object of its cleaned form is a mapping: no
/// two of its members carry the same key.
pub proof fn law_clean_is_well_formed(tree: Tree, policy: EmptyContainerPolicy)
    ensures
        clean(tree, policy) matches Some(cleaned) ==> cleaned.well_formed(),
    decreases tree, 1nat,
{
    match tree {
        Tree::Array(items) => {
            lemma_clean_items_well_formed(items, policy);
            assert(items_well_formed(seq![Tree::Null]));
        },
        Tree::Object(members) => {
            lemma_clean_members_well_formed(members, policy);
            assert(members_well_formed(seq![placeholder_member()]));
        },
        _ => {},
    }
}

/// The cleaned items of an array are well formed.
pub proof fn lemma_clean_items_well_formed(items: Seq<Tree>, policy: EmptyContainerPolicy)
    ensures
        items_well_formed(clean_items(items, policy)),
    decreases items, 0nat,
{
    if items.len() > 0 {
        lemma_clean_items_well_formed(items.drop_last(), policy);
        law_clean_is_well_formed(items.last(), policy);
    }
}

/// The cleaned members of an object are those of a mapping.
pub proof fn lemma_clean_members_well_formed(
    members: Seq<(Seq<char>, Tree)>,
    policy: EmptyContainerPolicy,
)
    ensures
        members_well_formed(clean_members(members, policy)),
    decreases members, 0nat,
{
    if members.len() > 0 {
        lemma_clean_members_well_formed(members.drop_last(), policy);
        law_clean_is_well_formed(members.last().1, policy);
        match clean(members.last().1, policy) {
            Some(value) => {
                lemma_with_member_well_formed(
                    clean_members(members.drop_last(), policy),
                    trimmed(members.last().0),
                    value,
                );
            },
            None => {},
        }
    }
}

} // verus!
