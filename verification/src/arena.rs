//! The arena that owns the tree.
//!
//! Nodes live in one growable sequence of slots and point at each other
//! with small integer handles instead of references: each slot holds its
//! payload, its optional parent and its children in insertion order.
//! The structure is append-only: ids are never reused, and a child is
//! always allocated after its parent, so every link points backwards —
//! that is what makes the recursive walks below terminate.

use vstd::prelude::*;

use crate::assoc::assoc_wf;
use crate::data::RegistriesData;
use crate::item::ItemModel;
use crate::item::RegistriesItem;

verus! {

/// A handle addressing one node of a `TreeStore`.
#[derive(Clone, Copy, PartialEq, Eq, Structural, Debug)]
pub struct NodeId {
    id: usize,
}

impl View for NodeId {
    type V = int;

    closed spec fn view(&self) -> int {
        self.id as int
    }
}

impl NodeId {
    pub(crate) fn from_index(id: usize) -> (r: NodeId)
        ensures
            r@ == id as int,
    {
        NodeId { id }
    }

    pub(crate) fn index(&self) -> (r: usize)
        ensures
            r as int == self@,
    {
        self.id
    }
}

struct Slot {
    item: RegistriesItem,
    parent: Option<usize>,
    children: Vec<usize>,
}

/// The mathematical value of one slot.
pub struct NodeModel {
    pub item: ItemModel,
    pub parent: Option<int>,
    pub children: Seq<int>,
}

spec fn slot_model(s: Slot) -> NodeModel {
    NodeModel {
        item: s.item@,
        parent: match s.parent {
            Some(p) => Some(p as int),
            None => None,
        },
        children: s.children@.map_values(|c: usize| c as int),
    }
}

/// The arena of nodes.
pub struct TreeStore {
    nodes: Vec<Slot>,
}

impl View for TreeStore {
    type V = Seq<NodeModel>;

    closed spec fn view(&self) -> Seq<NodeModel> {
        self.nodes@.map_values(|s: Slot| slot_model(s))
    }
}

/// The arena invariant, over the mathematical store: every parent link
/// points at an earlier slot, every child link at a later one, both
/// sides agree, children are distinct, and every node's value names are
/// unique.
pub open spec fn store_wf(v: Seq<NodeModel>) -> bool {
    &&& (forall|i: int|
        0 <= i < v.len() ==> ((#[trigger] v[i].parent) matches Some(p) ==> 0 <= p < i
            && v[p].children.contains(i)))
    &&& (forall|i: int, k: int|
        0 <= i < v.len() && 0 <= k < v[i].children.len() ==> i < #[trigger] v[i].children[k]
            < v.len())
    &&& (forall|i: int, k: int|
        0 <= i < v.len() && 0 <= k < v[i].children.len() ==> v[#[trigger] v[i].children[k]].parent
            == Some(i))
    &&& (forall|i: int, k1: int, k2: int|
        0 <= i < v.len() && 0 <= k1 < k2 < v[i].children.len() ==> #[trigger] v[i].children[k1]
            != #[trigger] v[i].children[k2])
    &&& (forall|i: int| 0 <= i < v.len() ==> assoc_wf(#[trigger] v[i].item.values))
}

impl TreeStore {
    /// The arena is one forest of trees growing backwards (see
    /// `store_wf`).
    pub open spec fn wf(&self) -> bool {
        store_wf(self@)
    }

    /// An empty arena.
    pub fn new() -> (r: TreeStore)
        ensures
            r@ == Seq::<NodeModel>::empty(),
            r.wf(),
    {
        let r = TreeStore { nodes: Vec::new() };
        proof {
            assert(r@ =~= Seq::<NodeModel>::empty());
        }
        r
    }

    /// How many nodes the arena holds.
    pub fn len(&self) -> (n: usize)
        ensures
            n == self@.len(),
    {
        self.nodes.len()
    }

    /// Allocate a fresh node with a payload; it has no parent and no
    /// children yet, and its id is the previous length.
    pub fn allocate(&mut self, item: RegistriesItem) -> (id: NodeId)
        requires
            old(self).wf(),
            item.wf(),
        ensures
            final(self).wf(),
            id@ == old(self)@.len(),
            final(self)@ == old(self)@.push(
                NodeModel { item: item@, parent: None, children: Seq::empty() },
            ),
    {
        let id = self.nodes.len();
        let slot = Slot { item, parent: Option::None, children: Vec::new() };
        proof {
            assert(slot_model(slot).children =~= Seq::<int>::empty());
        }
        self.nodes.push(slot);
        proof {
            let v0 = old(self)@;
            let v1 = self@;
            assert(v1 =~= v0.push(
                NodeModel { item: item@, parent: None, children: Seq::empty() },
            ));
            assert forall|i: int|
                0 <= i < v1.len() implies ((#[trigger] v1[i].parent) matches Some(p) ==> 0 <= p < i
                && v1[p].children.contains(i)) by {
                if i < v0.len() {
                    assert(v1[i] == v0[i]);
                    match v1[i].parent {
                        Some(p) => {
                            assert(v0[p].children.contains(i));
                            assert(v1[p] == v0[p]);
                        },
                        None => {},
                    }
                }
            }
        }
        NodeId::from_index(id)
    }

    /// Link an already-allocated, still parentless, later node as the
    /// last child of a parent.
    pub fn append_child(&mut self, parent: NodeId, child: NodeId)
        requires
            old(self).wf(),
            0 <= parent@ < old(self)@.len(),
            parent@ < child@ < old(self)@.len(),
            old(self)@[child@].parent is None,
        ensures
            final(self).wf(),
            final(self)@.len() == old(self)@.len(),
            final(self)@ == old(self)@.update(
                child@,
                NodeModel { parent: Some(parent@), ..old(self)@[child@] },
            ).update(
                parent@,
                NodeModel {
                    children: old(self)@[parent@].children.push(child@),
                    ..old(self)@[parent@]
                },
            ),
    {
        let p = parent.index();
        let c = child.index();
        self.nodes[c].parent = Option::Some(p);
        self.nodes[p].children.push(c);
        proof {
            let v0 = old(self)@;
            let v1 = self@;
            let target = v0.update(
                c as int,
                NodeModel { parent: Some(p as int), ..v0[c as int] },
            ).update(
                p as int,
                NodeModel { children: v0[p as int].children.push(c as int), ..v0[p as int] },
            );
            assert(v1[c as int].item == v0[c as int].item);
            assert(v1[c as int].children =~= v0[c as int].children);
            assert(v1[p as int].children =~= v0[p as int].children.push(c as int));
            assert(v1 =~= target);
            // nobody's children held the child before: it had no parent
            assert(forall|i: int, k: int|
                0 <= i < v0.len() && 0 <= k < v0[i].children.len() ==> #[trigger] v0[i].children[k]
                    != c as int);
            assert forall|i: int|
                0 <= i < v1.len() implies ((#[trigger] v1[i].parent) matches Some(q) ==> 0 <= q < i
                && v1[q].children.contains(i)) by {
                match v1[i].parent {
                    Some(q) => {
                        if i == c as int {
                            assert(q == p as int);
                            assert(v1[q].children.last() == c as int);
                        } else {
                            assert(v0[i].parent == v1[i].parent);
                            assert(v0[q].children.contains(i));
                            let k = choose|k: int|
                                0 <= k < v0[q].children.len() && v0[q].children[k] == i;
                            if q == p as int {
                                assert(v1[q].children[k] == i);
                            } else {
                                assert(v1[q].children == v0[q].children);
                            }
                        }
                    },
                    None => {},
                }
            }
        }
    }

    /// The payload of a node.
    pub fn node(&self, id: NodeId) -> (r: &RegistriesItem)
        requires
            0 <= id@ < self@.len(),
        ensures
            r@ == self@[id@].item,
    {
        &self.nodes[id.index()].item
    }

    /// The children of a node, in insertion order.
    pub fn children(&self, id: NodeId) -> (r: Vec<NodeId>)
        requires
            0 <= id@ < self@.len(),
        ensures
            r@.map_values(|n: NodeId| n@) == self@[id@].children,
    {
        let slot_children = &self.nodes[id.index()].children;
        let n = slot_children.len();
        let mut out: Vec<NodeId> = Vec::new();
        let mut i: usize = 0;
        while i < n
            invariant
                i <= n,
                n == slot_children@.len(),
                0 <= id@ < self@.len(),
                slot_children@.map_values(|c: usize| c as int) == self@[id@].children,
                out@.map_values(|x: NodeId| x@) =~= self@[id@].children.take(i as int),
        decreases n - i,
        {
            let ghost prevm = out@.map_values(|x: NodeId| x@);
            let nid = NodeId::from_index(slot_children[i]);
            out.push(nid);
            proof {
                assert(out@.map_values(|x: NodeId| x@) =~= prevm.push(nid@));
                assert(nid@ == self@[id@].children[i as int]);
                assert(self@[id@].children.take(i + 1) =~= self@[id@].children.take(
                    i as int,
                ).push(self@[id@].children[i as int]));
                assert(out@.map_values(|x: NodeId| x@) =~= self@[id@].children.take(i + 1));
            }
            i += 1;
        }
        proof {
            assert(self@[id@].children.take(n as int) =~= self@[id@].children);
        }
        out
    }

    /// Insert one decoded value into a node's value map.
    pub fn insert_value(&mut self, id: NodeId, name: String, value: RegistriesData)
        requires
            old(self).wf(),
            0 <= id@ < old(self)@.len(),
        ensures
            final(self).wf(),
            final(self)@ == old(self)@.update(
                id@,
                NodeModel {
                    item: ItemModel {
                        key_path: old(self)@[id@].item.key_path,
                        values: crate::assoc::assoc_insert(old(self)@[id@].item.values, name@, value@),
                    },
                    ..old(self)@[id@]
                },
            ),
    {
        let i = id.index();
        self.nodes[i].item.insert_value(name, value);
        proof {
            let v0 = old(self)@;
            let v1 = self@;
            let target = v0.update(
                i as int,
                NodeModel {
                    item: ItemModel {
                        key_path: v0[i as int].item.key_path,
                        values: crate::assoc::assoc_insert(v0[i as int].item.values, name@, value@),
                    },
                    ..v0[i as int]
                },
            );
            assert(v1[i as int].children =~= v0[i as int].children);
            assert(v1 =~= target);
            assert forall|j: int|
                0 <= j < v1.len() implies ((#[trigger] v1[j].parent) matches Some(p) ==> 0 <= p < j
                && v1[p].children.contains(j)) by {
                match v1[j].parent {
                    Some(p) => {
                        assert(v0[j].parent == v1[j].parent);
                        assert(v0[p].children.contains(j));
                        assert(v1[p].children == v0[p].children);
                    },
                    None => {},
                }
            }
        }
    }
}

} // verus!
