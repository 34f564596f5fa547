//! Between `serde_json::Value` and [`Node`], level by level.

use crate::bridge::{close_json, json_tree, open_json, Closing, Opened};
use crate::node::{items_well_formed, keyed_trees, members_well_formed, trees, Node, Tree};
use vstd::prelude::*;

verus! {

impl Node {
    /// The node that holds what `json` holds, the members of every object in
    /// the order in which its map walks them. It is well formed, as a map
    /// holds a key once.
    ///
    /// The call stack grows with the depth of the value, as it does where
    /// `serde_json` itself walks one.
    pub fn from_json(json: &serde_json::Value) -> (r: Node)
        ensures
            r@ == json_tree(*json),
            r@.well_formed(),
        decreases json_tree(*json),
    {
        match open_json(json) {
            Opened::Null => Node::Null,
            Opened::Bool(b) => Node::Bool(b),
            Opened::Number(n) => Node::Number(n.clone()),
            Opened::String(s) => Node::String(s.clone()),
            Opened::Array(items) => {
                let ghost sources = json_tree(*json)->Array_0;
                let mut nodes: Vec<Node> = Vec::new();
                let mut i: usize = 0;
                while i < items.len()
                    invariant
                        json_tree(*json) == Tree::Array(sources),
                        sources.len() == items.len(),
                        forall|j: int| 0 <= j < items.len() ==> sources[j] == json_tree(items@[j]),
                        i <= items.len(),
                        nodes.len() == i,
                        forall|j: int| 0 <= j < i ==> nodes@[j]@ == sources[j],
                        forall|j: int| 0 <= j < i ==> (#[trigger] sources[j]).well_formed(),
                    decreases items.len() - i,
                {
                    proof {
                        assert(decreases_to!(json_tree(*json) => json_tree(*json)->Array_0));
                        assert(decreases_to!(sources => sources[i as int]));
                    }
                    nodes.push(Node::from_json(&items[i]));
                    i += 1;
                }
                assert(trees(nodes@) =~= sources);
                assert(items_well_formed(sources));
                Node::Array(nodes)
            },
            Opened::Object(members) => {
                let ghost sources = json_tree(*json)->Object_0;
                let mut nodes: Vec<(String, Node)> = Vec::new();
                let mut i: usize = 0;
                while i < members.len()
                    invariant
                        json_tree(*json) == Tree::Object(sources),
                        sources.len() == members.len(),
                        forall|j: int|
                            0 <= j < members.len() ==> sources[j] == (
                                members@[j].0@,
                                json_tree(*members@[j].1),
                            ),
                        i <= members.len(),
                        nodes.len() == i,
                        forall|j: int|
                            0 <= j < i ==> (nodes@[j].0@, nodes@[j].1@) == sources[j],
                        forall|j: int| 0 <= j < i ==> (#[trigger] sources[j]).1.well_formed(),
                    decreases members.len() - i,
                {
                    proof {
                        assert(decreases_to!(json_tree(*json) => json_tree(*json)->Object_0));
                        assert(decreases_to!(sources => sources[i as int]));
                        assert(decreases_to!(sources[i as int] => sources[i as int].1));
                    }
                    nodes.push((members[i].0.clone(), Node::from_json(members[i].1)));
                    i += 1;
                }
                assert(keyed_trees(nodes@) =~= sources);
                assert(members_well_formed(sources));
                Node::Object(nodes)
            },
        }
    }

    /// The `serde_json::Value` that holds what this node holds. The node must
    /// be well formed, which `is_well_formed` tells: the map of a
    /// `serde_json::Value` holds a key once.
    ///
    /// The call stack grows with the depth of the node.
    pub fn to_json(&self) -> (r: serde_json::Value)
        requires
            self@.well_formed(),
        ensures
            json_tree(r) == self@,
        decreases self,
    {
        match self {
            Node::Null => close_json(Closing::Null),
            Node::Bool(b) => close_json(Closing::Bool(*b)),
            Node::Number(n) => close_json(Closing::Number(n.clone())),
            Node::String(s) => close_json(Closing::String(s.clone())),
            Node::Array(items) => {
                let mut made: Vec<serde_json::Value> = Vec::new();
                let mut i: usize = 0;
                while i < items.len()
                    invariant
                        *self == Node::Array(*items),
                        self@.well_formed(),
                        i <= items.len(),
                        made.len() == i,
                        forall|j: int| 0 <= j < i ==> json_tree(made@[j]) == items@[j]@,
                    decreases items.len() - i,
                {
                    proof {
                        assert(decreases_to!(self => self->Array_0));
                        assert(decreases_to!(items => items@));
                        assert(decreases_to!(items@ => items@[i as int]));
                        assert(items_well_formed(trees(items@)));
                        assert(trees(items@)[i as int].well_formed());
                    }
                    made.push(items[i].to_json());
                    i += 1;
                }
                let level = Closing::Array(made);
                assert(level.tree()->Array_0 =~= trees(items@));
                close_json(level)
            },
            Node::Object(members) => {
                let mut made: Vec<(String, serde_json::Value)> = Vec::new();
                let mut i: usize = 0;
                while i < members.len()
                    invariant
                        *self == Node::Object(*members),
                        self@.well_formed(),
                        i <= members.len(),
                        made.len() == i,
                        forall|j: int|
                            0 <= j < i ==> made@[j].0@ == members@[j].0@ && json_tree(made@[j].1)
                                == members@[j].1@,
                    decreases members.len() - i,
                {
                    proof {
                        assert(decreases_to!(self => self->Object_0));
                        assert(decreases_to!(members => members@));
                        assert(decreases_to!(members@ => members@[i as int]));
                        assert(decreases_to!(members@[i as int] => members@[i as int].1));
                        assert(members_well_formed(keyed_trees(members@)));
                        assert(keyed_trees(members@)[i as int].1.well_formed());
                    }
                    made.push((members[i].0.clone(), members[i].1.to_json()));
                    i += 1;
                }
                let level = Closing::Object(made);
                assert(level.tree()->Object_0 =~= keyed_trees(members@));
                close_json(level)
            },
        }
    }
}

} // verus!
