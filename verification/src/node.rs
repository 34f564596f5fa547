//! The document tree and its mathematical model.

use vstd::prelude::*;

verus! {

/// The mathematical model of a document: what a [`Node`] denotes.
pub ghost enum Tree {
    Null,
    Bool(bool),
    Number(serde_json::Number),
    String(Seq<char>),
    Array(Seq<Tree>),
    Object(Seq<(Seq<char>, Tree)>),
}

/// Whether no two members carry the same key.
pub open spec fn distinct_keys(members: Seq<(Seq<char>, Tree)>) -> bool {
    forall|i: int, j: int|
        0 <= i < j < members.len() ==> (#[trigger] members[i]).0 != (#[trigger] members[j]).0
}

impl Tree {
    /// Whether every object in the tree is a mapping: no two of its members
    /// carry the same key.
    pub open spec fn well_formed(self) -> bool
        decreases self,
    {
        match self {
            Tree::Array(items) => items_well_formed(items),
            Tree::Object(members) => members_well_formed(members),
            _ => true,
        }
    }
}

/// Whether every item is well formed.
pub open spec fn items_well_formed(items: Seq<Tree>) -> bool
    decreases items,
{
    forall|i: int| #![trigger items[i]] 0 <= i < items.len() ==> items[i].well_formed()
}

/// Whether the members are those of a mapping, and every value is well formed.
pub open spec fn members_well_formed(members: Seq<(Seq<char>, Tree)>) -> bool
    decreases members,
{
    &&& distinct_keys(members)
    &&& forall|i: int|
        #![trigger members[i]]
        0 <= i < members.len() ==> members[i].1.well_formed()
}

/// One node of a JSON document.
///
/// An object is held as its members in document order. It is well formed
/// where no two of them carry the same key; cleaning takes any node and
/// gives a well-formed one. A number is held as `serde_json` read it.
#[derive(Debug, PartialEq)]
pub enum Node {
    Null,
    Bool(bool),
    Number(serde_json::Number),
    String(String),
    Array(Vec<Node>),
    Object(Vec<(String, Node)>),
}

/// The trees that a run of values denotes, one for one.
pub open spec fn trees(items: Seq<Node>) -> Seq<Tree>
    decreases items,
{
    Seq::new(
        items.len(),
        |i: int|
            if 0 <= i < items.len() {
                items[i]@
            } else {
                Tree::Null
            },
    )
}

/// The keyed trees that a run of members denotes, one for one.
pub open spec fn keyed_trees(members: Seq<(String, Node)>) -> Seq<(Seq<char>, Tree)>
    decreases members,
{
    Seq::new(
        members.len(),
        |i: int|
            if 0 <= i < members.len() {
                (members[i].0@, members[i].1@)
            } else {
                (Seq::empty(), Tree::Null)
            },
    )
}

impl View for Node {
    type V = Tree;

    open spec fn view(&self) -> Tree
        decreases self,
    {
        match self {
            Node::Null => Tree::Null,
            Node::Bool(b) => Tree::Bool(*b),
            Node::Number(n) => Tree::Number(*n),
            Node::String(s) => Tree::String(s@),
            Node::Array(items) => Tree::Array(trees(items@)),
            Node::Object(members) => Tree::Object(keyed_trees(members@)),
        }
    }
}

impl Clone for Node {
    /// A deep copy: the copy denotes the same tree. The call stack grows with
    /// the depth of the node.
    fn clone(&self) -> (r: Self)
        ensures
            r@ == self@,
        decreases self,
    {
        match self {
            Node::Null => Node::Null,
            Node::Bool(b) => Node::Bool(*b),
            Node::Number(n) => Node::Number(n.clone()),
            Node::String(s) => Node::String(s.clone()),
            Node::Array(items) => {
                let mut copy: Vec<Node> = Vec::new();
                let mut i: usize = 0;
                while i < items.len()
                    invariant
                        *self == Node::Array(*items),
                        i <= items.len(),
                        copy.len() == i,
                        forall|j: int| 0 <= j < i ==> copy@[j]@ == items@[j]@,
                    decreases items.len() - i,
                {
                    proof {
                        assert(decreases_to!(self => self->Array_0));
                        assert(decreases_to!(items => items@));
                        assert(decreases_to!(items@ => items@[i as int]));
                    }
                    copy.push(items[i].clone());
                    i += 1;
                }
                assert(trees(copy@) =~= trees(items@));
                Node::Array(copy)
            },
            Node::Object(members) => {
                let mut copy: Vec<(String, Node)> = Vec::new();
                let mut i: usize = 0;
                while i < members.len()
                    invariant
                        *self == Node::Object(*members),
                        i <= members.len(),
                        copy.len() == i,
                        forall|j: int|
                            0 <= j < i ==> copy@[j].0@ == members@[j].0@ && copy@[j].1@
                                == members@[j].1@,
                    decreases members.len() - i,
                {
                    proof {
                        assert(decreases_to!(self => self->Object_0));
                        assert(decreases_to!(members => members@));
                        assert(decreases_to!(members@ => members@[i as int]));
                        assert(decreases_to!(members@[i as int] => members@[i as int].1));
                    }
                    copy.push((members[i].0.clone(), members[i].1.clone()));
                    i += 1;
                }
                assert(keyed_trees(copy@) =~= keyed_trees(members@));
                Node::Object(copy)
            },
        }
    }
}

/// Whether no two of `members` carry the same key.
pub fn keys_are_distinct(members: &Vec<(String, Node)>) -> (r: bool)
    ensures
        r == distinct_keys(keyed_trees(members@)),
{
    let ghost keyed = keyed_trees(members@);
    let mut j: usize = 0;
    while j < members.len()
        invariant
            keyed == keyed_trees(members@),
            j <= members.len(),
            forall|a: int, b: int|
                0 <= a < b < j ==> (#[trigger] keyed[a]).0 != (#[trigger] keyed[b]).0,
        decreases members.len() - j,
    {
        let mut i: usize = 0;
        while i < j
            invariant
                keyed == keyed_trees(members@),
                j < members.len(),
                i <= j,
                forall|a: int| 0 <= a < i ==> (#[trigger] keyed[a]).0 != keyed[j as int].0,
            decreases j - i,
        {
            if members[i].0 == members[j].0 {
                assert(keyed[i as int].0 == keyed[j as int].0);
                return false;
            }
            i += 1;
        }
        j += 1;
    }
    true
}

impl Node {
    /// Whether every object in the node is a mapping: no two of its members
    /// carry the same key. The call stack grows with the depth of the node.
    pub fn is_well_formed(&self) -> (r: bool)
        ensures
            r == self@.well_formed(),
        decreases self,
    {
        match self {
            Node::Array(items) => {
                let mut i: usize = 0;
                while i < items.len()
                    invariant
                        *self == Node::Array(*items),
                        i <= items.len(),
                        forall|j: int| 0 <= j < i ==> (#[trigger] trees(items@)[j]).well_formed(),
                    decreases items.len() - i,
                {
                    proof {
                        assert(decreases_to!(self => self->Array_0));
                        assert(decreases_to!(items => items@));
                        assert(decreases_to!(items@ => items@[i as int]));
                    }
                    if !items[i].is_well_formed() {
                        assert(!trees(items@)[i as int].well_formed());
                        return false;
                    }
                    i += 1;
                }
                assert(items_well_formed(trees(items@)));
                true
            },
            Node::Object(members) => {
                if !keys_are_distinct(members) {
                    return false;
                }
                let mut i: usize = 0;
                while i < members.len()
                    invariant
                        *self == Node::Object(*members),
                        i <= members.len(),
                        distinct_keys(keyed_trees(members@)),
                        forall|j: int|
                            0 <= j < i ==> (#[trigger] keyed_trees(members@)[j]).1.well_formed(),
                    decreases members.len() - i,
                {
                    proof {
                        assert(decreases_to!(self => self->Object_0));
                        assert(decreases_to!(members => members@));
                        assert(decreases_to!(members@ => members@[i as int]));
                        assert(decreases_to!(members@[i as int] => members@[i as int].1));
                    }
                    if !members[i].1.is_well_formed() {
                        assert(!keyed_trees(members@)[i as int].1.well_formed());
                        return false;
                    }
                    i += 1;
                }
                assert(members_well_formed(keyed_trees(members@)));
                true
            },
            _ => true,
        }
    }
}

} // verus!
