//! Building trees from a seed value, the error a build can end in, and
//! the owned projection of a subtree.

use vstd::prelude::*;

use crate::arena::NodeModel;
use crate::arena::NodeId;
use crate::arena::TreeStore;
use crate::item::ItemModel;
use crate::item::RegistriesItem;
use crate::projector::spec_json_of_item;
use crate::projector::spec_json_of_node;
use crate::projector::spec_json_of_kids;
use crate::projector::spec_render;
use crate::projector::spec_render_pretty;
use crate::projector::Json;

verus! {

/// A tree that can be built from a seed value; implementors drive
/// whatever walk fills the tree.
pub trait MakeTree<T>: Sized {
    fn make_tree(speed: T) -> Result<Self, MakeTreeError>;
}

/// Why a build failed outright: the root path had no separator, or the
/// root itself could not be opened.
#[derive(Debug)]
pub struct MakeTreeError(pub String);

/// One subtree copied out of the arena into an owned recursive value:
/// the node's payload and its children, in order.
pub struct TreeNode {
    data: RegistriesItem,
    children: Vec<TreeNode>,
}

impl TreeNode {
    /// The payload's mathematical value.
    pub closed spec fn spec_data(&self) -> ItemModel {
        self.data@
    }

    /// The children.
    pub closed spec fn spec_children(&self) -> Seq<TreeNode> {
        self.children@
    }

    /// The payload of this subtree's root.
    pub fn data(&self) -> (r: &RegistriesItem)
        ensures
            r@ == self.spec_data(),
    {
        &self.data
    }

    /// The children of this subtree's root.
    pub fn children(&self) -> (r: &Vec<TreeNode>)
        ensures
            r@ == self.spec_children(),
    {
        &self.children
    }
}

/// Whether an owned subtree mirrors the arena's subtree under a node:
/// same payload, same children in the same order, recursively.
pub closed spec fn spec_tn_matches(t: TreeNode, v: Seq<NodeModel>, i: int) -> bool
    decreases v.len() - i, 1int,
{
    &&& 0 <= i < v.len()
    &&& t.data@ == v[i].item
    &&& t.children@.len() == v[i].children.len()
    &&& (forall|k: int|
        0 <= k < t.children@.len() ==> i < #[trigger] v[i].children[k] < v.len()
            && spec_tn_matches_guarded(t.children@[k], v, v[i].children[k], i))
}

/// The same, guarded so that the recursion provably descends.
pub closed spec fn spec_tn_matches_guarded(t: TreeNode, v: Seq<NodeModel>, i: int, floor: int) -> bool
    decreases v.len() - floor, 0int,
{
    if floor < i < v.len() {
        spec_tn_matches(t, v, i)
    } else {
        false
    }
}

/// The JSON value of an owned subtree.
pub closed spec fn spec_json_of_treenode(t: TreeNode) -> Json
    decreases t, 1int,
{
    Json::Obj(
        seq![
            ("data"@, spec_json_of_item(t.data@)),
            ("children"@, Json::Arr(spec_json_of_tn_list(t.children@))),
        ],
    )
}

/// The JSON values of a run of owned subtrees.
pub closed spec fn spec_json_of_tn_list(ts: Seq<TreeNode>) -> Seq<Json>
    decreases ts, 0int,
{
    if ts.len() == 0 {
        Seq::empty()
    } else {
        seq![spec_json_of_treenode(ts[0])] + spec_json_of_tn_list(ts.drop_first())
    }
}

/// The JSON values of a run of owned subtrees, elementwise.
pub proof fn lemma_tn_list_map(ts: Seq<TreeNode>)
    ensures
        spec_json_of_tn_list(ts) == Seq::new(ts.len(), |k: int| spec_json_of_treenode(ts[k])),
    decreases ts.len(),
{
    if ts.len() == 0 {
        assert(spec_json_of_tn_list(ts) =~= Seq::new(
            ts.len(),
            |k: int| spec_json_of_treenode(ts[k]),
        ));
    } else {
        lemma_tn_list_map(ts.drop_first());
        assert(spec_json_of_tn_list(ts) =~= Seq::new(
            ts.len(),
            |k: int| spec_json_of_treenode(ts[k]),
        ));
    }
}

/// A matching owned subtree has exactly the JSON value of the arena's
/// subtree.
pub proof fn lemma_tn_json_matches(t: TreeNode, v: Seq<NodeModel>, i: int)
    requires
        spec_tn_matches(t, v, i),
    ensures
        spec_json_of_treenode(t) == spec_json_of_node(v, i),
    decreases v.len() - i, 1int,
{
    assert forall|k: int|
        0 <= k < t.children@.len() implies spec_json_of_treenode(#[trigger] t.children@[k])
        == spec_json_of_node(v, v[i].children[k]) by {
        assert(spec_tn_matches_guarded(t.children@[k], v, v[i].children[k], i));
        assert(spec_tn_matches(t.children@[k], v, v[i].children[k]));
        lemma_tn_json_matches(t.children@[k], v, v[i].children[k]);
    }
    lemma_tn_list_map(t.children@);
    crate::projector::lemma_kids_map(v, v[i].children, i);
    assert(spec_json_of_tn_list(t.children@) =~= spec_json_of_kids(v, v[i].children, i));
    assert(spec_json_of_treenode(t) == spec_json_of_node(v, i));
}

impl TreeNode {
    /// Copy the subtree under a node of the arena into an owned tree;
    /// `None` when the id lies outside the arena.
    pub fn from_node_id(node_id: &NodeId, arena: &TreeStore) -> (r: Option<TreeNode>)
        requires
            arena.wf(),
        ensures
            0 <= node_id@ < arena@.len() ==> (r matches Some(t) && spec_tn_matches(
                t,
                arena@,
                node_id@,
            )),
            !(0 <= node_id@ < arena@.len()) ==> r is None,
        decreases arena@.len() - node_id@,
    {
        let ghost v = arena@;
        let n = arena.len();
        if node_id.index() >= n {
            return Option::None;
        }
        let data = arena.node(*node_id).clone();
        let kid_ids = arena.children(*node_id);
        let m = kid_ids.len();
        let mut children: Vec<TreeNode> = Vec::new();
        let mut k: usize = 0;
        while k < m
            invariant
                k <= m,
                m == kid_ids@.len(),
                arena.wf(),
                v == arena@,
                0 <= node_id@ < v.len(),
                kid_ids@.map_values(|x: NodeId| x@) == v[node_id@].children,
                children@.len() == k,
                forall|j: int|
                    0 <= j < k ==> spec_tn_matches(
                        #[trigger] children@[j],
                        v,
                        v[node_id@].children[j],
                    ),
            decreases m - k,
        {
            proof {
                assert(kid_ids@[k as int]@ == v[node_id@].children[k as int]);
                assert(node_id@ < v[node_id@].children[k as int] < v.len());
            }
            match TreeNode::from_node_id(&kid_ids[k], arena) {
                Option::Some(child) => {
                    children.push(child);
                },
                Option::None => {
                    proof {
                        assert(false);
                    }
                },
            }
            k += 1;
        }
        let t = TreeNode { data, children };
        proof {
            assert(t.data@ == v[node_id@].item);
            assert(t.children@.len() == v[node_id@].children.len());
            assert forall|j: int|
                0 <= j < t.children@.len() implies node_id@ < #[trigger] v[node_id@].children[j]
                < v.len() && spec_tn_matches_guarded(
                t.children@[j],
                v,
                v[node_id@].children[j],
                node_id@,
            ) by {
                assert(spec_tn_matches(t.children@[j], v, v[node_id@].children[j]));
            }
            assert(spec_tn_matches(t, v, node_id@));
        }
        Option::Some(t)
    }

    /// The compact JSON text of this subtree.
    pub fn to_json(&self) -> (r: String)
        ensures
            r@ == spec_render(spec_json_of_treenode(*self)),
    {
        let mut out: Vec<char> = Vec::new();
        emit_treenode(self, &mut out);
        crate::text::chars_to_string(&out)
    }
}

/// Append the compact JSON object of an owned subtree.
fn emit_treenode(t: &TreeNode, out: &mut Vec<char>)
    ensures
        final(out)@ == old(out)@ + spec_render(spec_json_of_treenode(*t)),
    decreases *t,
{
    crate::projector::push_str_chars(out, "{\"data\":");
    crate::projector::emit_item(out, &t.data);
    crate::projector::push_str_chars(out, ",\"children\":[");
    let ghost base = out@;
    let ghost kj = spec_json_of_tn_list(t.children@);
    proof {
        lemma_tn_list_map(t.children@);
        assert(kj.take(0) =~= Seq::<Json>::empty());
        assert(out@ =~= base + crate::projector::spec_render_list(kj.take(0)));
    }
    let n = t.children.len();
    let mut k: usize = 0;
    while k < n
        invariant
            k <= n,
            n == t.children@.len(),
            kj == spec_json_of_tn_list(t.children@),
            kj == Seq::new(t.children@.len(), |m: int| spec_json_of_treenode(t.children@[m])),
            out@ == base + crate::projector::spec_render_list(kj.take(k as int)),
        decreases n - k,
    {
        if k > 0 {
            out.push(',');
        }
        emit_treenode(&t.children[k], out);
        proof {
            assert(kj[k as int] == spec_json_of_treenode(t.children@[k as int]));
            assert(kj.take(k + 1).drop_last() =~= kj.take(k as int));
            assert(kj.take(k + 1).last() == kj[k as int]);
            if k == 0 {
                assert(crate::projector::spec_render_list(kj.take(1)) == spec_render(kj[0]));
            } else {
                assert(crate::projector::spec_render_list(kj.take(k + 1))
                    == crate::projector::spec_render_list(kj.take(k as int)) + seq![',']
                    + spec_render(kj[k as int]));
            }
            assert(out@ =~= base + crate::projector::spec_render_list(kj.take(k + 1)));
        }
        k += 1;
    }
    crate::projector::push_str_chars(out, "]}");
    proof {
        assert(kj.take(n as int) =~= kj);
        reveal_strlit("{\"data\":");
        reveal_strlit(",\"children\":[");
        reveal_strlit("]}");
        reveal_strlit("data");
        reveal_strlit("children");
        crate::projector::lemma_escape_plain("data"@);
        crate::projector::lemma_escape_plain("children"@);
        let j = spec_json_of_treenode(*t);
        let p0 = ("data"@, spec_json_of_item(t.data@));
        let p1 = ("children"@, Json::Arr(kj));
        let two = seq![p0, p1];
        assert(two.drop_last() =~= seq![p0]);
        assert(two.last() == p1);
        assert(crate::projector::spec_render_pairs(seq![p0])
            == crate::projector::spec_render_pair(p0));
        assert(crate::projector::spec_render_pairs(two) == crate::projector::spec_render_pair(p0)
            + seq![','] + crate::projector::spec_render_pair(p1));
        assert(out@ =~= old(out)@ + spec_render(j));
    }
}

/// The height of an owned subtree: one more than its tallest child.
pub closed spec fn spec_tn_height(t: TreeNode) -> nat
    decreases t, 1int,
{
    1 + spec_tn_list_height(t.children@)
}

/// The tallest height in a run of owned subtrees.
pub closed spec fn spec_tn_list_height(ts: Seq<TreeNode>) -> nat
    decreases ts, 0int,
{
    if ts.len() == 0 {
        0
    } else if spec_tn_height(ts[0]) >= spec_tn_list_height(ts.drop_first()) {
        spec_tn_height(ts[0])
    } else {
        spec_tn_list_height(ts.drop_first())
    }
}

/// Every entry of a run is at most the run's tallest height.
pub proof fn lemma_tn_list_height(ts: Seq<TreeNode>, k: int)
    requires
        0 <= k < ts.len(),
    ensures
        spec_tn_height(ts[k]) <= spec_tn_list_height(ts),
    decreases ts.len(),
{
    if k > 0 {
        lemma_tn_list_height(ts.drop_first(), k - 1);
        assert(ts.drop_first()[k - 1] == ts[k]);
    }
}

/// A subtree matching a node of the arena is no taller than what is
/// left of the arena from that node on.
pub proof fn lemma_tn_height_bound(t: TreeNode, v: Seq<NodeModel>, i: int)
    requires
        spec_tn_matches(t, v, i),
    ensures
        spec_tn_height(t) <= v.len() - i,
    decreases v.len() - i, 1int,
{
    assert forall|k: int|
        0 <= k < t.children@.len() implies spec_tn_height(#[trigger] t.children@[k]) <= v.len() - i
        - 1 by {
        assert(spec_tn_matches_guarded(t.children@[k], v, v[i].children[k], i));
        assert(spec_tn_matches(t.children@[k], v, v[i].children[k]));
        lemma_tn_height_bound(t.children@[k], v, v[i].children[k]);
        assert(v[i].children[k] >= i + 1);
    }
    lemma_tn_list_height_all(t.children@, (v.len() - i - 1) as int);
}

/// A run whose every entry stays under a bound stays under it whole.
proof fn lemma_tn_list_height_all(ts: Seq<TreeNode>, bound: int)
    requires
        forall|k: int| 0 <= k < ts.len() ==> spec_tn_height(#[trigger] ts[k]) <= bound,
    ensures
        spec_tn_list_height(ts) <= if ts.len() == 0 {
            0int
        } else {
            bound
        },
    decreases ts.len(),
{
    if ts.len() > 0 {
        assert(forall|k: int|
            0 <= k < ts.drop_first().len() ==> spec_tn_height(#[trigger] ts.drop_first()[k])
                <= bound);
        lemma_tn_list_height_all(ts.drop_first(), bound);
    }
}

/// Append the pretty JSON array of a run of owned subtrees.
#[verifier::rlimit(60)]
#[verifier::spinoff_prover]
fn emit_tn_list_pretty(ts: &Vec<TreeNode>, depth: usize, out: &mut Vec<char>)
    requires
        depth + 2 * spec_tn_list_height(ts@) + 5 <= usize::MAX,
    ensures
        final(out)@ == old(out)@ + spec_render_pretty(
            Json::Arr(spec_json_of_tn_list(ts@)),
            depth as int,
        ),
    decreases ts@, 0int,
{
    let ghost kj = spec_json_of_tn_list(ts@);
    proof {
        lemma_tn_list_map(ts@);
    }
    let n = ts.len();
    if n == 0 {
        crate::projector::push_str_chars(out, "[]");
        proof {
            reveal_strlit("[]");
            assert(out@ =~= old(out)@ + spec_render_pretty(Json::Arr(kj), depth as int));
        }
        return ;
    }
    crate::projector::push_str_chars(out, "[\n");
    let ghost base = out@;
    let mut k: usize = 0;
    proof {
        assert(out@ =~= base + crate::projector::spec_render_pretty_list(kj.take(0), depth + 1));
    }
    while k < n
        invariant
            k <= n,
            n >= 1,
            n == ts@.len(),
            depth + 2 * spec_tn_list_height(ts@) + 5 <= usize::MAX,
            kj == spec_json_of_tn_list(ts@),
            kj == Seq::new(ts@.len(), |m: int| spec_json_of_treenode(ts@[m])),
            out@ == base + crate::projector::spec_render_pretty_list(kj.take(k as int), depth + 1),
        decreases n - k,
    {
        if k > 0 {
            out.push(',');
            out.push('\n');
        }
        crate::projector::push_indent(out, depth + 1);
        proof {
            lemma_tn_list_height(ts@, k as int);
        }
        emit_treenode_pretty(&ts[k], depth + 1, out);
        proof {
            assert(kj[k as int] == spec_json_of_treenode(ts@[k as int]));
            assert(kj.take(k + 1).drop_last() =~= kj.take(k as int));
            assert(kj.take(k + 1).last() == kj[k as int]);
            if k == 0 {
                assert(crate::projector::spec_render_pretty_list(kj.take(1), depth + 1)
                    == crate::projector::spec_indent(depth + 1) + spec_render_pretty(
                    kj[0],
                    depth + 1,
                ));
            } else {
                assert(crate::projector::spec_render_pretty_list(kj.take(k + 1), depth + 1)
                    == crate::projector::spec_render_pretty_list(kj.take(k as int), depth + 1)
                    + seq![',', '\n'] + crate::projector::spec_indent(depth + 1)
                    + spec_render_pretty(kj[k as int], depth + 1));
            }
            assert(out@ =~= base + crate::projector::spec_render_pretty_list(
                kj.take(k + 1),
                depth + 1,
            ));
        }
        k += 1;
    }
    out.push('\n');
    crate::projector::push_indent(out, depth);
    out.push(']');
    proof {
        reveal_strlit("[\n");
        assert(kj.take(n as int) =~= kj);
        assert(out@ =~= old(out)@ + spec_render_pretty(Json::Arr(kj), depth as int));
    }
}

/// Append the pretty JSON object of an owned subtree.
#[verifier::rlimit(60)]
#[verifier::spinoff_prover]
fn emit_treenode_pretty(t: &TreeNode, depth: usize, out: &mut Vec<char>)
    requires
        depth + 2 * spec_tn_height(*t) + 4 <= usize::MAX,
    ensures
        final(out)@ == old(out)@ + spec_render_pretty(
            spec_json_of_treenode(*t),
            depth as int,
        ),
    decreases *t, 1int,
{
    crate::projector::push_str_chars(out, "{\n");
    crate::projector::push_indent(out, depth + 1);
    crate::projector::push_str_chars(out, "\"data\": ");
    crate::projector::emit_item_pretty(out, &t.data, depth + 1);
    crate::projector::push_str_chars(out, ",\n");
    crate::projector::push_indent(out, depth + 1);
    crate::projector::push_str_chars(out, "\"children\": ");
    proof {
        assert(spec_tn_height(*t) == 1 + spec_tn_list_height(t.children@));
    }
    emit_tn_list_pretty(&t.children, depth + 1, out);
    out.push('\n');
    crate::projector::push_indent(out, depth);
    out.push('}');
    proof {
        let kj = spec_json_of_tn_list(t.children@);
        reveal_strlit("{\n");
        reveal_strlit(",\n");
        reveal_strlit("\"data\": ");
        reveal_strlit("\"children\": ");
        reveal_strlit("data");
        reveal_strlit("children");
        crate::projector::lemma_escape_plain("data"@);
        crate::projector::lemma_escape_plain("children"@);
        let j = spec_json_of_treenode(*t);
        let p0 = ("data"@, spec_json_of_item(t.data@));
        let p1 = ("children"@, Json::Arr(kj));
        let two = seq![p0, p1];
        assert(two.drop_last() =~= seq![p0]);
        assert(two.last() == p1);
        assert(crate::projector::spec_render_pretty_pairs(seq![p0], depth + 1)
            == crate::projector::spec_render_pretty_pair(p0, depth + 1));
        assert(crate::projector::spec_render_pretty_pairs(two, depth + 1)
            == crate::projector::spec_render_pretty_pair(p0, depth + 1) + seq![',', '\n']
            + crate::projector::spec_render_pretty_pair(p1, depth + 1));
        assert(out@ =~= old(out)@ + spec_render_pretty(j, depth as int));
    }
}

impl TreeNode {
    /// The pretty JSON text of this subtree: the same structure as
    /// `to_json`, human-formatted with two-space indentation.  The
    /// machine bound on the subtree's height keeps the indentation
    /// arithmetic in range.
    pub fn to_pretty_json(&self) -> (r: String)
        requires
            2 * spec_tn_height(*self) + 4 <= usize::MAX,
        ensures
            r@ == spec_render_pretty(spec_json_of_treenode(*self), 0),
    {
        let mut out: Vec<char> = Vec::new();
        emit_treenode_pretty(self, 0, &mut out);
        crate::text::chars_to_string(&out)
    }
}

} // verus!
