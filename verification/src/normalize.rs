//! The cleaning pass: what it makes of a tree, and the code that does it.

use crate::text::trimmed;
use crate::laws::mapping::law_clean_is_well_formed;
use crate::laws::members::lemma_key_index;
use crate::node::{keyed_trees, Node, Tree};
use crate::traversal::{cursor_ready, effort, enter, leave, stack_ready, Cursor, Frame};
use vstd::prelude::*;

verus! {

/// How a container that cleaning has emptied is written.
#[derive(Clone, Copy, Debug, PartialEq, Eq, Structural)]
pub enum EmptyContainerPolicy {
    /// An array with nothing but nulls left becomes `null`; an object with no
    /// member left becomes `{"value": null}`.
    Collapse,
    /// An empty array becomes `[null]`; an array or object that cleaning
    /// empties stays empty.
    Normalize,
}

/// The one member of the placeholder, the object that `Collapse` writes for
/// an object of which no member is left.
pub open spec fn placeholder_member() -> (Seq<char>, Tree) {
    ("value"@, Tree::Null)
}

/// Whether some member carries `key`.
pub open spec fn has_key(members: Seq<(Seq<char>, Tree)>, key: Seq<char>) -> bool {
    exists|i: int| 0 <= i < members.len() && (#[trigger] members[i]).0 == key
}

/// Whether `i` is the place of the first member that carries `key`.
pub open spec fn is_first_with_key(
    members: Seq<(Seq<char>, Tree)>,
    key: Seq<char>,
    i: int,
) -> bool {
    &&& 0 <= i < members.len()
    &&& members[i].0 == key
    &&& forall|j: int| 0 <= j < i ==> (#[trigger] members[j]).0 != key
}

/// The place of the first member that carries `key`, where there is one.
pub open spec fn key_index(members: Seq<(Seq<char>, Tree)>, key: Seq<char>) -> int {
    choose|i: int| is_first_with_key(members, key, i)
}

/// `members` after `key` is set to `value`: a member that already carries the
/// key keeps its place and takes the value, a new key goes to the end.
pub open spec fn with_member(
    members: Seq<(Seq<char>, Tree)>,
    key: Seq<char>,
    value: Tree,
) -> Seq<(Seq<char>, Tree)> {
    if has_key(members, key) {
        members.update(key_index(members, key), (key, value))
    } else {
        members.push((key, value))
    }
}

/// Whether every item is `null`.
pub open spec fn all_null(items: Seq<Tree>) -> bool {
    forall|i: int| 0 <= i < items.len() ==> #[trigger] items[i] == Tree::Null
}

/// What cleaning makes of `tree`: `None` where nothing is left to stand in
/// its place.
pub open spec fn clean(tree: Tree, policy: EmptyContainerPolicy) -> Option<Tree>
    decreases tree,
{
    match tree {
        Tree::Null => None,
        Tree::Bool(_) => Some(tree),
        Tree::Number(_) => Some(tree),
        Tree::String(s) => Some(Tree::String(trimmed(s))),
        Tree::Array(items) => match policy {
            EmptyContainerPolicy::Collapse => {
                let kept = clean_items(items, policy);
                if all_null(kept) {
                    Some(Tree::Null)
                } else {
                    Some(Tree::Array(kept))
                }
            },
            EmptyContainerPolicy::Normalize => {
                if items.len() == 0 {
                    Some(Tree::Array(seq![Tree::Null]))
                } else {
                    Some(Tree::Array(clean_items(items, policy)))
                }
            },
        },
        Tree::Object(members) => Some(Tree::Object(cleaned_object_members(members, policy))),
    }
}

/// The members of the object that cleaning makes of an object with
/// `members`: the cleaned members, or under `Collapse`, where none is left,
/// the one member of the placeholder.
pub open spec fn cleaned_object_members(
    members: Seq<(Seq<char>, Tree)>,
    policy: EmptyContainerPolicy,
) -> Seq<(Seq<char>, Tree)>
    decreases members, 1nat,
{
    let kept = clean_members(members, policy);
    if policy == EmptyContainerPolicy::Collapse && kept.len() == 0 {
        seq![placeholder_member()]
    } else {
        kept
    }
}

/// The cleaned items of an array, in order: every item that cleaning leaves
/// something of, cleaned.
pub open spec fn clean_items(items: Seq<Tree>, policy: EmptyContainerPolicy) -> Seq<Tree>
    decreases items,
{
    if items.len() == 0 {
        Seq::empty()
    } else {
        let before = clean_items(items.drop_last(), policy);
        match clean(items.last(), policy) {
            Some(item) => before.push(item),
            None => before,
        }
    }
}

/// The cleaned members of an object: every member whose value cleaning
/// leaves something of is set, under its trimmed key, in document order.
pub open spec fn clean_members(
    members: Seq<(Seq<char>, Tree)>,
    policy: EmptyContainerPolicy,
) -> Seq<(Seq<char>, Tree)>
    decreases members, 0nat,
{
    if members.len() == 0 {
        Seq::empty()
    } else {
        let before = clean_members(members.drop_last(), policy);
        match clean(members.last().1, policy) {
            Some(value) => with_member(before, trimmed(members.last().0), value),
            None => before,
        }
    }
}

/// The tree that an optional value denotes.
pub open spec fn tree_of(value: Option<Node>) -> Option<Tree> {
    match value {
        Some(v) => Some(v@),
        None => None,
    }
}

/// Sets `key` to `value` among `members`: a member that already carries the
/// key keeps its place and takes the value, a new key goes to the end.
pub fn put_member(members: &mut Vec<(String, Node)>, key: String, value: Node)
    ensures
        keyed_trees(final(members)@) == with_member(keyed_trees(old(members)@), key@, value@),
{
    let ghost before = keyed_trees(members@);
    let mut i: usize = 0;
    while i < members.len()
        invariant
            i <= members.len(),
            before == keyed_trees(old(members)@),
            keyed_trees(members@) == before,
            forall|j: int| 0 <= j < i ==> (#[trigger] before[j]).0 != key@,
        decreases members.len() - i,
    {
        if members[i].0 == key {
            proof {
                lemma_key_index(before, key@, i as int);
            }
            members.set(i, (key, value));
            assert(keyed_trees(members@) =~= before.update(i as int, (key@, value@)));
            return ;
        }
        i += 1;
    }
    members.push((key, value));
    proof {
        assert(!has_key(before, key@));
        assert(keyed_trees(members@) =~= before.push((key@, value@)));
    }
}

/// Cleans `val`: trims every text and key, drops what is `null`, and writes
/// emptied containers as `policy` says. Returns `None` where nothing is left
/// to stand in the value's place. The value itself is left untouched.
///
/// The document is walked with a stack on the heap, so its depth is no
/// burden on the call stack.
pub fn clean_value(val: &Node, policy: EmptyContainerPolicy) -> (r: Option<Node>)
    ensures
        tree_of(r) == clean(val@, policy),
        r is None <==> val@ is Null,
        r matches Some(cleaned) ==> cleaned@.well_formed(),
{
    let mut stack: Vec<Frame> = Vec::new();
    let mut cursor = Cursor::Visit(val);
    loop
        invariant
            stack_ready(stack@, val@, policy),
            cursor_ready(cursor, stack@, val@, policy),
        decreases effort(cursor, stack@),
    {
        cursor =
        match cursor {
            Cursor::Visit(node) => enter(node, &mut stack, policy, Ghost(val@)),
            Cursor::Done(done) => {
                if stack.len() == 0 {
                    proof {
                        law_clean_is_well_formed(val@, policy);
                    }
                    return done;
                }
                leave(done, &mut stack, policy, Ghost(val@))
            },
        };
    }
}

} // verus!
