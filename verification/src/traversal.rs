//! Cleaning without recursion: the containers whose children are being
//! cleaned wait on a stack of their own, so that the depth of a document
//! costs memory on the heap and none on the call stack.

use crate::node::{keyed_trees, trees, Node, Tree};
use crate::normalize::{
    all_null, clean, clean_items, clean_members, cleaned_object_members, placeholder_member,
    put_member, tree_of, EmptyContainerPolicy,
};
use crate::text::trim_owned;
use vstd::prelude::*;

verus! {

/// The steps that a traversal spends on `tree`: two on the node itself, and
/// those on its children.
pub open spec fn size(tree: Tree) -> nat
    decreases tree,
{
    match tree {
        Tree::Array(items) => 2 + items_size(items),
        Tree::Object(members) => 2 + members_size(members),
        _ => 2,
    }
}

/// The steps that a traversal spends on `items`.
pub open spec fn items_size(items: Seq<Tree>) -> nat
    decreases items,
{
    if items.len() == 0 {
        0
    } else {
        size(items.first()) + items_size(items.drop_first())
    }
}

/// The steps that a traversal spends on the values of `members`.
pub open spec fn members_size(members: Seq<(Seq<char>, Tree)>) -> nat
    decreases members,
{
    if members.len() == 0 {
        0
    } else {
        size(members.first().1) + members_size(members.drop_first())
    }
}

/// The steps on the items from `from` on are those on the item at `from`
/// and those on the items after it.
pub proof fn lemma_items_size_from(items: Seq<Tree>, from: int)
    requires
        0 <= from < items.len(),
    ensures
        items_size(items.skip(from)) == size(items[from]) + items_size(items.skip(from + 1)),
{
    assert(items.skip(from).drop_first() =~= items.skip(from + 1));
}

/// The steps on the members from `from` on are those on the value of the
/// member at `from` and those on the members after it.
pub proof fn lemma_members_size_from(members: Seq<(Seq<char>, Tree)>, from: int)
    requires
        0 <= from < members.len(),
    ensures
        members_size(members.skip(from)) == size(members[from].1) + members_size(
            members.skip(from + 1),
        ),
{
    assert(members.skip(from).drop_first() =~= members.skip(from + 1));
}

/// A container some of whose children are cleaned and that waits for the
/// cleaned form of the next.
pub(crate) enum Frame<'a> {
    Array { items: &'a Vec<Node>, next: usize, kept: Vec<Node>, only_null: bool },
    Object { members: &'a Vec<(String, Node)>, next: usize, held: Vec<(String, Node)> },
}

impl<'a> Frame<'a> {
    /// The container that the frame stands for.
    pub(crate) open spec fn container(self) -> Tree {
        match self {
            Frame::Array { items, .. } => Tree::Array(trees(items@)),
            Frame::Object { members, .. } => Tree::Object(keyed_trees(members@)),
        }
    }

    /// The child whose cleaned form the frame waits for.
    pub(crate) open spec fn awaits(self) -> Tree {
        match self {
            Frame::Array { items, next, .. } => trees(items@)[next as int],
            Frame::Object { members, next, .. } => keyed_trees(members@)[next as int].1,
        }
    }

    /// Whether the frame holds what cleaning keeps of the children before the
    /// one that it waits for.
    pub(crate) open spec fn ready(self, policy: EmptyContainerPolicy) -> bool {
        match self {
            Frame::Array { items, next, kept, only_null } => {
                &&& next < items.len()
                &&& trees(kept@) == clean_items(trees(items@).take(next as int), policy)
                &&& only_null == all_null(trees(kept@))
            },
            Frame::Object { members, next, held } => {
                &&& next < members.len()
                &&& keyed_trees(held@) == clean_members(
                    keyed_trees(members@).take(next as int),
                    policy,
                )
            },
        }
    }

    /// The steps that are left to spend on the frame once the child that it
    /// waits for is cleaned: one on the container, and those on the children
    /// that follow.
    pub(crate) open spec fn rest(self) -> nat {
        match self {
            Frame::Array { items, next, .. } => 1 + items_size(trees(items@).skip(next + 1)),
            Frame::Object { members, next, .. } => 1 + members_size(
                keyed_trees(members@).skip(next + 1),
            ),
        }
    }
}

/// Where a traversal stands: before a node that is to be cleaned, or behind
/// one, with what cleaning made of it.
pub(crate) enum Cursor<'a> {
    Visit(&'a Node),
    Done(Option<Node>),
}

/// The node that the traversal is at: the child that the top frame waits
/// for, or the root where no frame is waiting.
pub(crate) open spec fn awaited(stack: Seq<Frame>, root: Tree) -> Tree {
    if stack.len() == 0 {
        root
    } else {
        stack.last().awaits()
    }
}

/// Whether every frame is ready and stands for the child that the frame
/// below it waits for, the lowest for the root.
pub(crate) open spec fn stack_ready(
    stack: Seq<Frame>,
    root: Tree,
    policy: EmptyContainerPolicy,
) -> bool
    decreases stack.len(),
{
    stack.len() > 0 ==> {
        &&& stack.last().ready(policy)
        &&& stack.last().container() == awaited(stack.drop_last(), root)
        &&& stack_ready(stack.drop_last(), root, policy)
    }
}

/// Whether the cursor is at the node that the traversal is at.
pub(crate) open spec fn cursor_ready(
    cursor: Cursor,
    stack: Seq<Frame>,
    root: Tree,
    policy: EmptyContainerPolicy,
) -> bool {
    match cursor {
        Cursor::Visit(node) => node@ == awaited(stack, root),
        Cursor::Done(done) => tree_of(done) == clean(awaited(stack, root), policy),
    }
}

/// The steps that are left to spend on the frames of the stack.
pub(crate) open spec fn work(stack: Seq<Frame>) -> nat
    decreases stack.len(),
{
    if stack.len() == 0 {
        0
    } else {
        stack.last().rest() + work(stack.drop_last())
    }
}

/// The steps that are left in all.
pub(crate) open spec fn effort(cursor: Cursor, stack: Seq<Frame>) -> nat {
    work(stack) + match cursor {
        Cursor::Visit(node) => size(node@),
        Cursor::Done(_) => 1,
    }
}

/// Steps into `node`. A node without children is cleaned on the spot; a
/// container with children is put on the stack to wait for its first child.
pub(crate) fn enter<'a>(
    node: &'a Node,
    stack: &mut Vec<Frame<'a>>,
    policy: EmptyContainerPolicy,
    Ghost(root): Ghost<Tree>,
) -> (cursor: Cursor<'a>)
    requires
        stack_ready(old(stack)@, root, policy),
        node@ == awaited(old(stack)@, root),
    ensures
        stack_ready(final(stack)@, root, policy),
        cursor_ready(cursor, final(stack)@, root, policy),
        effort(cursor, final(stack)@) < effort(Cursor::Visit(node), old(stack)@),
{
    let ghost below = stack@;
    match node {
        Node::Null => Cursor::Done(None),
        Node::Bool(b) => Cursor::Done(Some(Node::Bool(*b))),
        Node::Number(n) => Cursor::Done(Some(Node::Number(n.clone()))),
        Node::String(s) => Cursor::Done(Some(Node::String(trim_owned(s.as_str())))),
        Node::Array(items) => {
            let ghost sources = trees(items@);
            if items.len() == 0 {
                assert(clean_items(sources, policy) =~= Seq::<Tree>::empty());
                match policy {
                    EmptyContainerPolicy::Collapse => Cursor::Done(Some(Node::Null)),
                    EmptyContainerPolicy::Normalize => {
                        let mut single: Vec<Node> = Vec::new();
                        single.push(Node::Null);
                        assert(trees(single@) =~= seq![Tree::Null]);
                        Cursor::Done(Some(Node::Array(single)))
                    },
                }
            } else {
                let kept: Vec<Node> = Vec::new();
                let frame = Frame::Array { items, next: 0, kept, only_null: true };
                proof {
                    assert(sources.take(0) =~= Seq::<Tree>::empty());
                    assert(trees(kept@) =~= Seq::<Tree>::empty());
                    assert(sources.skip(0) =~= sources);
                    lemma_items_size_from(sources, 0);
                    assert(frame.ready(policy));
                }
                stack.push(frame);
                proof {
                    assert(stack@.drop_last() =~= below);
                }
                Cursor::Visit(&items[0])
            }
        },
        Node::Object(members) => {
            let ghost sources = keyed_trees(members@);
            if members.len() == 0 {
                assert(clean_members(sources, policy) =~= Seq::<(Seq<char>, Tree)>::empty());
                let mut kept: Vec<(String, Node)> = Vec::new();
                assert(keyed_trees(kept@) =~= Seq::<(Seq<char>, Tree)>::empty());
                if policy == EmptyContainerPolicy::Collapse {
                    kept.push(("value".to_owned(), Node::Null));
                    assert(keyed_trees(kept@) =~= seq![placeholder_member()]);
                }
                Cursor::Done(Some(Node::Object(kept)))
            } else {
                let held: Vec<(String, Node)> = Vec::new();
                let frame = Frame::Object { members, next: 0, held };
                proof {
                    assert(sources.take(0) =~= Seq::<(Seq<char>, Tree)>::empty());
                    assert(keyed_trees(held@) =~= Seq::<(Seq<char>, Tree)>::empty());
                    assert(sources.skip(0) =~= sources);
                    lemma_members_size_from(sources, 0);
                    assert(frame.ready(policy));
                }
                stack.push(frame);
                proof {
                    assert(stack@.drop_last() =~= below);
                }
                Cursor::Visit(&members[0].1)
            }
        },
    }
}

/// Steps out of a node with its cleaned form `done`: the frame on top of the
/// stack takes it in, and either waits for its next child or, with no child
/// left, is cleaned itself.
pub(crate) fn leave<'a>(
    done: Option<Node>,
    stack: &mut Vec<Frame<'a>>,
    policy: EmptyContainerPolicy,
    Ghost(root): Ghost<Tree>,
) -> (cursor: Cursor<'a>)
    requires
        old(stack).len() > 0,
        stack_ready(old(stack)@, root, policy),
        tree_of(done) == clean(awaited(old(stack)@, root), policy),
    ensures
        stack_ready(final(stack)@, root, policy),
        cursor_ready(cursor, final(stack)@, root, policy),
        effort(cursor, final(stack)@) < effort(Cursor::Done(done), old(stack)@),
{
    let ghost before = stack@;
    let frame = stack.pop().unwrap();
    let ghost below = stack@;
    proof {
        assert(below =~= before.drop_last());
        assert(frame == before.last());
    }
    match frame {
        Frame::Array { items, next, kept, only_null } => {
            let ghost sources = trees(items@);
            let ghost kept_before = trees(kept@);
            let mut kept = kept;
            let mut only_null = only_null;
            proof {
                assert(sources.take(next + 1).drop_last() =~= sources.take(next as int));
                assert(sources.take(next + 1).last() == sources[next as int]);
            }
            match done {
                Some(item) => {
                    let is_null = match item {
                        Node::Null => true,
                        _ => false,
                    };
                    only_null = only_null && is_null;
                    kept.push(item);
                    proof {
                        assert(trees(kept@) =~= kept_before.push(item@));
                        if all_null(kept_before) && is_null {
                            assert(all_null(trees(kept@)));
                        } else if all_null(trees(kept@)) {
                            assert(trees(kept@)[kept@.len() - 1] == Tree::Null);
                            assert forall|j: int| 0 <= j < kept_before.len() implies kept_before[j]
                                == Tree::Null by {
                                assert(trees(kept@)[j] == Tree::Null);
                            }
                        }
                    }
                },
                None => {},
            }
            let next = next + 1;
            if next < items.len() {
                let frame = Frame::Array { items, next, kept, only_null };
                proof {
                    lemma_items_size_from(sources, next as int);
                    assert(frame.ready(policy));
                }
                stack.push(frame);
                proof {
                    assert(stack@.drop_last() =~= below);
                }
                Cursor::Visit(&items[next])
            } else {
                proof {
                    assert(sources.take(next as int) =~= sources);
                }
                match policy {
                    EmptyContainerPolicy::Collapse => {
                        if only_null {
                            Cursor::Done(Some(Node::Null))
                        } else {
                            Cursor::Done(Some(Node::Array(kept)))
                        }
                    },
                    EmptyContainerPolicy::Normalize => Cursor::Done(Some(Node::Array(kept))),
                }
            }
        },
        Frame::Object { members, next, held } => {
            let ghost sources = keyed_trees(members@);
            let mut kept = held;
            proof {
                assert(sources.take(next + 1).drop_last() =~= sources.take(next as int));
                assert(sources.take(next + 1).last() == sources[next as int]);
            }
            match done {
                Some(value) => {
                    put_member(&mut kept, trim_owned(members[next].0.as_str()), value);
                },
                None => {},
            }
            let next = next + 1;
            if next < members.len() {
                let frame = Frame::Object { members, next, held: kept };
                proof {
                    lemma_members_size_from(sources, next as int);
                    assert(frame.ready(policy));
                }
                stack.push(frame);
                proof {
                    assert(stack@.drop_last() =~= below);
                }
                Cursor::Visit(&members[next].1)
            } else {
                proof {
                    assert(sources.take(next as int) =~= sources);
                    assert(keyed_trees(kept@) == clean_members(sources, policy));
                }
                if policy == EmptyContainerPolicy::Collapse && kept.len() == 0 {
                    kept.push(("value".to_owned(), Node::Null));
                    assert(keyed_trees(kept@) =~= seq![placeholder_member()]);
                }
                assert(keyed_trees(kept@) == cleaned_object_members(sources, policy));
                Cursor::Done(Some(Node::Object(kept)))
            }
        },
    }
}

} // verus!
