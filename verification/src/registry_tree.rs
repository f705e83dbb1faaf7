//! The mirrored tree of the store and the builder that constructs it.
//!
//! The builder walks the external hierarchical store pre-order with an
//! explicit work stack instead of call-stack recursion.  It owns every
//! decision — splitting the root path, resolving the root alias,
//! decoding values, linking nodes, indexing paths, containing failures —
//! while the caller only performs the store's open and enumeration
//! calls and hands the plain results back.  A failed open below the
//! root leaves a childless, valueless placeholder node and the walk
//! goes on with the siblings; only a failed root open fails the build.

use vstd::prelude::*;

use crate::arena::NodeId;
use crate::arena::NodeModel;
use crate::arena::TreeStore;
use crate::assoc::assoc_insert;
use crate::data::spec_decode_value;
use crate::data::decode_value;
use crate::data::RawModel;
use crate::data::RawValue;
use crate::data::RegistriesData;
use crate::index::normalize;
use crate::index::spec_normalize;
use crate::index::PathIndex;
use crate::item::RegistriesItem;
use crate::path::lemma_join_push;
use crate::path::lemma_join_split;
use crate::path::sep_char;
use crate::path::spec_join;
use crate::path::spec_split;
use crate::path::split_str;
use crate::path::Path;
use crate::text::to_upper;
use crate::text::upper_of;
use crate::tree::MakeTreeError;

verus! {

/// The normalized full path of a node, read off the arena: the root
/// node's stored path, extended with the uppercased local name of every
/// node on the way down.
pub open spec fn spec_node_path(v: Seq<NodeModel>, i: int) -> Seq<char>
    decreases i,
{
    if i < 0 || i >= v.len() {
        Seq::empty()
    } else {
        match v[i].parent {
            None => v[i].item.key_path,
            Some(p) => {
                if 0 <= p < i {
                    spec_node_path(v, p) + seq![sep_char()] + upper_of(v[i].item.key_path)
                } else {
                    Seq::empty()
                }
            },
        }
    }
}

/// A node's path depends only on the key names and parent links up to
/// its id, so growing the arena or touching values keeps it.
pub proof fn lemma_node_path_stable(v0: Seq<NodeModel>, v1: Seq<NodeModel>, i: int)
    requires
        0 <= i < v0.len(),
        v0.len() <= v1.len(),
        forall|j: int|
            0 <= j <= i ==> #[trigger] v1[j].parent == v0[j].parent && v1[j].item.key_path
                == v0[j].item.key_path,
    ensures
        spec_node_path(v1, i) == spec_node_path(v0, i),
    decreases i,
{
    match v0[i].parent {
        None => {
        },
        Some(p) => {
            if 0 <= p < i {
                lemma_node_path_stable(v0, v1, p);
            }
        },
    }
}

/// Decoding and inserting a run of raw values, in order, later names
/// overwriting earlier ones.
pub open spec fn spec_insert_all(
    vs: Seq<(Seq<char>, crate::data::DataModel)>,
    raws: Seq<(Seq<char>, RawModel)>,
) -> Seq<(Seq<char>, crate::data::DataModel)>
    decreases raws.len(),
{
    if raws.len() == 0 {
        vs
    } else {
        spec_insert_all(
            assoc_insert(vs, raws[0].0, spec_decode_value(raws[0].1.ty, raws[0].1.data)),
            raws.drop_first(),
        )
    }
}

/// The finished, immutable tree: the arena, the root's id, and the path
/// index filled during construction.
pub struct RegistriesTree {
    root: NodeId,
    arena: TreeStore,
    dict: PathIndex,
    indexed: Ghost<Set<int>>,
}

impl RegistriesTree {
    /// The nodes of the tree.
    pub closed spec fn store(&self) -> Seq<NodeModel> {
        self.arena@
    }

    /// The path index as a mathematical map.
    pub closed spec fn index_map(&self) -> Map<Seq<char>, int> {
        self.dict.as_map()
    }

    /// The nodes whose subtree visit opened successfully and whose
    /// normalized path the index therefore holds (a later sibling with
    /// the same normalized name shadows an earlier one).
    pub closed spec fn indexed_set(&self) -> Set<int> {
        self.indexed@
    }

    /// The root's id.
    pub closed spec fn root_id(&self) -> int {
        self.root@
    }

    /// A finished tree: a well-formed arena rooted at node 0, an index
    /// whose every entry names a node, and every indexed node found
    /// under exactly its normalized path.
    pub open spec fn wf(&self) -> bool {
        &&& crate::arena::store_wf(self.store())
        &&& self.arena_wf()
        &&& self.store().len() >= 1
        &&& self.root_id() == 0
        &&& self.store()[0].parent is None
        &&& (forall|k: Seq<char>|
            self.index_map().contains_key(k) ==> 0 <= #[trigger] self.index_map()[k]
                < self.store().len())
        &&& (forall|i: int| #[trigger]
            self.indexed_set().contains(i) ==> 0 <= i < self.store().len())
        &&& (forall|i: int| #[trigger]
            self.indexed_set().contains(i) ==> self.index_map().contains_key(
                spec_node_path(self.store(), i),
            ) && self.index_map()[spec_node_path(self.store(), i)] == i)
    }

    /// The arena's own well-formedness (see `TreeStore::wf`) and the
    /// index's.
    pub closed spec fn arena_wf(&self) -> bool {
        self.arena.wf() && self.dict.wf()
    }

    pub(crate) fn assemble(
        root: NodeId,
        arena: TreeStore,
        dict: PathIndex,
        Ghost(indexed): Ghost<Set<int>>,
    ) -> (t: RegistriesTree)
        ensures
            t.store() == arena@,
            t.index_map() == dict.as_map(),
            t.indexed_set() == indexed,
            t.root_id() == root@,
            arena.wf() && dict.wf() ==> t.arena_wf(),
    {
        RegistriesTree { root, arena, dict, indexed: Ghost(indexed) }
    }

    /// The root node's id.
    pub fn root(&self) -> (r: NodeId)
        ensures
            r@ == self.root_id(),
    {
        self.root
    }

    /// How many nodes the tree holds.
    pub fn len(&self) -> (n: usize)
        ensures
            n == self.store().len(),
    {
        self.arena.len()
    }

    /// The payload of a node.
    pub fn node(&self, id: NodeId) -> (r: &RegistriesItem)
        requires
            0 <= id@ < self.store().len(),
        ensures
            r@ == self.store()[id@].item,
    {
        self.arena.node(id)
    }

    /// The children of a node, in insertion order.
    pub fn children(&self, id: NodeId) -> (r: Vec<NodeId>)
        requires
            0 <= id@ < self.store().len(),
        ensures
            r@.map_values(|n: NodeId| n@) == self.store()[id@].children,
    {
        self.arena.children(id)
    }

    /// The id of the node under a full path, found through the index
    /// after normalizing.
    pub fn lookup(&self, path: &str) -> (r: Option<NodeId>)
        requires
            self.wf(),
        ensures
            match r {
                Some(id) => spec_split(path@).len() >= 2 && self.index_map().contains_key(
                    spec_normalize(path@),
                ) && id@ == self.index_map()[spec_normalize(path@)] && 0 <= id@
                    < self.store().len(),
                None => spec_split(path@).len() < 2 || !self.index_map().contains_key(
                    spec_normalize(path@),
                ),
            },
    {
        let normalized = match normalize(path) {
            Option::Some(p) => p,
            Option::None => {
                return Option::None;
            },
        };
        proof {
            assert(spec_split(path@).len() >= 2);
            assert(normalized@ == spec_normalize(path@));
            assert(self.dict.wf());
        }
        match self.dict.get(normalized.as_str()) {
            Option::Some(id) => {
                proof {
                    assert(self.index_map().contains_key(spec_normalize(path@)));
                    assert(self.index_map()[spec_normalize(path@)] == id as int);
                }
                Option::Some(NodeId::from_index(id))
            },
            Option::None => Option::None,
        }
    }

    /// The node under a full path: its payload, if the normalized path
    /// is indexed.
    pub fn get(&self, path: &str) -> (r: Option<&RegistriesItem>)
        requires
            self.wf(),
        ensures
            match r {
                Some(item) => spec_split(path@).len() >= 2 && self.index_map().contains_key(
                    spec_normalize(path@),
                ) && item@ == self.store()[self.index_map()[spec_normalize(path@)]].item,
                None => spec_split(path@).len() < 2 || !self.index_map().contains_key(
                    spec_normalize(path@),
                ),
            },
    {
        match self.lookup(path) {
            Option::Some(id) => Option::Some(self.arena.node(id)),
            Option::None => Option::None,
        }
    }

    /// One value of the node under a full path, by value name.
    pub fn get_with(&self, path: &str, item_name: &str) -> (r: Option<RegistriesData>)
        requires
            self.wf(),
        ensures
            match r {
                Some(d) => spec_split(path@).len() >= 2 && self.index_map().contains_key(
                    spec_normalize(path@),
                ) && d@ == crate::assoc::assoc_map(
                    self.store()[self.index_map()[spec_normalize(path@)]].item.values,
                ).index(item_name@),
                None => spec_split(path@).len() < 2 || !self.index_map().contains_key(
                    spec_normalize(path@),
                ) || !crate::assoc::assoc_map(
                    self.store()[self.index_map()[spec_normalize(path@)]].item.values,
                ).contains_key(item_name@),
            },
    {
        let item = match self.get(path) {
            Option::Some(item) => item,
            Option::None => {
                return Option::None;
            },
        };
        item.get(item_name)
    }

    /// The owned copy of the subtree under a node; `None` when the id
    /// lies outside the arena.
    pub fn sub_tree(&self, node_id: NodeId) -> (r: Option<crate::tree::TreeNode>)
        requires
            self.wf(),
        ensures
            0 <= node_id@ < self.store().len() ==> (r matches Some(t)
                && crate::tree::spec_tn_matches(t, self.store(), node_id@)),
            !(0 <= node_id@ < self.store().len()) ==> r is None,
    {
        crate::tree::TreeNode::from_node_id(&node_id, &self.arena)
    }

    /// Path-index completeness: every node whose visit opened
    /// successfully (and whose normalized path no later sibling
    /// shadows) is found by the index under exactly its normalized full
    /// path.
    pub proof fn lemma_path_index_complete(&self, i: int)
        requires
            self.wf(),
            self.indexed_set().contains(i),
        ensures
            self.index_map().contains_key(spec_node_path(self.store(), i)),
            self.index_map()[spec_node_path(self.store(), i)] == i,
    {
    }

    /// Path-index completeness over a caller's own full path: take the
    /// path the tree was built from and the chain of store-reported
    /// (separator-free) child names down to an indexed node; then
    /// normalizing that full path finds exactly that node, so `lookup`
    /// and `get` answer for it.
    pub proof fn lemma_full_path_indexed(&self, i: int, orig: Seq<char>, names: Seq<Seq<char>>)
        requires
            self.wf(),
            self.indexed_set().contains(i),
            spec_split(orig).len() >= 2,
            forall|k: int| 0 <= k < names.len() ==> !(#[trigger] names[k]).contains(sep_char()),
            spec_node_path(self.store(), i) == if names.len() == 0 {
                spec_normalize(orig)
            } else {
                spec_normalize(orig) + seq![sep_char()] + spec_join(
                    names.map_values(|n: Seq<char>| upper_of(n)),
                )
            },
        ensures
            self.index_map().contains_key(spec_normalize(spec_join(spec_split(orig) + names))),
            self.index_map()[spec_normalize(spec_join(spec_split(orig) + names))] == i,
    {
        let base = spec_split(orig);
        let full_segs = base + names;
        crate::path::lemma_split_segments_sep_free(orig);
        assert(forall|k: int|
            0 <= k < full_segs.len() ==> !(#[trigger] full_segs[k]).contains(sep_char())) by {
            assert(forall|k: int|
                0 <= k < base.len() ==> full_segs[k] == #[trigger] base[k]);
            assert(forall|k: int|
                base.len() <= k < full_segs.len() ==> full_segs[k] == #[trigger] names[k
                    - base.len()]);
        }
        crate::path::lemma_split_join(full_segs);
        let norm_full = crate::index::spec_normalize_segs(full_segs);
        let norm_base = crate::index::spec_normalize_segs(base);
        let upper_names = names.map_values(|n: Seq<char>| upper_of(n));
        assert(norm_full =~~= norm_base + upper_names);
        if names.len() == 0 {
            assert(full_segs =~= base);
            assert(norm_full =~~= norm_base);
            assert(spec_normalize(spec_join(full_segs)) == spec_normalize(orig));
        } else {
            lemma_join_append(norm_base, upper_names);
            assert(spec_normalize(spec_join(full_segs)) == spec_join(norm_full));
            assert(spec_join(norm_full) == spec_join(norm_base) + seq![sep_char()] + spec_join(
                upper_names,
            ));
            assert(spec_join(norm_base) == spec_normalize(orig));
        }
        assert(spec_normalize(spec_join(full_segs)) == spec_node_path(self.store(), i));
    }
}

/// The store's root collections that a root alias can select.
#[derive(Clone, Copy, PartialEq, Eq, Structural, Debug)]
pub enum RootCollection {
    LocalMachine,
    CurrentUser,
    Users,
}

/// ASCII uppercasing of one character.
pub open spec fn spec_ascii_upper_char(c: char) -> char {
    if 97 <= c as int <= 122 {
        ((c as int) - 32) as char
    } else {
        c
    }
}

/// ASCII uppercasing of a character sequence.
pub open spec fn spec_ascii_upper(s: Seq<char>) -> Seq<char> {
    s.map_values(|c: char| spec_ascii_upper_char(c))
}

/// The root collection named by an alias, long or short form, matched
/// without regard to ASCII case; `None` for every other name.
pub open spec fn spec_root_key(name: Seq<char>) -> Option<RootCollection> {
    let u = spec_ascii_upper(name);
    if u == "HKLM"@ || u == "HKEY_LOCAL_MACHINE"@ {
        Some(RootCollection::LocalMachine)
    } else if u == "HKCU"@ || u == "HKEY_CURRENT_USER"@ {
        Some(RootCollection::CurrentUser)
    } else if u == "HKU"@ || u == "HKEY_USERS"@ {
        Some(RootCollection::Users)
    } else {
        None
    }
}

/// ASCII uppercasing, executable form.
fn ascii_upper(s: &str) -> (r: String)
    ensures
        r@ == spec_ascii_upper(s@),
{
    let chars = crate::text::str_to_chars(s);
    let n = chars.len();
    let mut out: Vec<char> = Vec::new();
    let mut i: usize = 0;
    while i < n
        invariant
            i <= n,
            n == chars@.len(),
            chars@ == s@,
            out@ =~= spec_ascii_upper(s@).take(i as int),
        decreases n - i,
    {
        let c = chars[i];
        let v = c as u32;
        let u: char = if 97 <= v && v <= 122 {
            crate::text::char_from_u32(v - 32)
        } else {
            c
        };
        proof {
            assert(u == spec_ascii_upper_char(chars@[i as int]));
        }
        out.push(u);
        proof {
            assert(out@ =~= spec_ascii_upper(s@).take(i + 1));
        }
        i += 1;
    }
    proof {
        assert(spec_ascii_upper(s@).take(n as int) =~= spec_ascii_upper(s@));
    }
    crate::text::chars_to_string(&out)
}

/// Map a root alias to its root collection.
pub fn root_key(rootkey_name: &str) -> (r: Option<RootCollection>)
    ensures
        r == spec_root_key(rootkey_name@),
{
    let u = ascii_upper(rootkey_name);
    if u == String::from_str("HKLM") || u == String::from_str("HKEY_LOCAL_MACHINE") {
        Option::Some(RootCollection::LocalMachine)
    } else if u == String::from_str("HKCU") || u == String::from_str("HKEY_CURRENT_USER") {
        Option::Some(RootCollection::CurrentUser)
    } else if u == String::from_str("HKU") || u == String::from_str("HKEY_USERS") {
        Option::Some(RootCollection::Users)
    } else {
        Option::None
    }
}

/// What the builder asks its driver to do next.
pub enum BuildStep {
    /// Open the named sub-path under the most recently opened handle
    /// (for the first request: under the root collection), enumerate
    /// its children and values, and report through `opened` /
    /// `open_failed`.
    Open(String),
    /// Close the most recently opened handle and call `ascended`.
    Ascend,
    /// The walk is over; call `finish`.
    Finished,
}

struct Frame {
    node: NodeId,
    pending: Vec<String>,
    next: usize,
    pushed: usize,
    path_before: Ghost<Seq<Seq<char>>>,
}

/// The builder: the state machine of one tree construction.
pub struct TreeBuilder {
    arena: TreeStore,
    dict: PathIndex,
    path: Path,
    stack: Vec<Frame>,
    awaiting: bool,
    done: bool,
    cur_node: NodeId,
    cur_push: Vec<String>,
    cur_path: String,
    root_collection: RootCollection,
    failure: Option<String>,
    indexed: Ghost<Set<int>>,
}

impl TreeBuilder {
    /// The nodes built so far.
    pub closed spec fn store(&self) -> Seq<NodeModel> {
        self.arena@
    }

    /// The path index built so far.
    pub closed spec fn index_map(&self) -> Map<Seq<char>, int> {
        self.dict.as_map()
    }

    /// The nodes indexed so far (shadowed entries excluded).
    pub closed spec fn indexed_set(&self) -> Set<int> {
        self.indexed@
    }

    /// Whether an open request is outstanding.
    pub closed spec fn is_awaiting(&self) -> bool {
        self.awaiting
    }

    /// Whether the walk is over.
    pub closed spec fn is_done(&self) -> bool {
        self.done
    }

    /// Whether the build has failed (a root open failure).
    pub closed spec fn has_failed(&self) -> bool {
        self.failure is Some
    }

    /// The node the outstanding open request is for.
    pub closed spec fn current_node(&self) -> int {
        self.cur_node@
    }

    /// The sub-path of the outstanding open request.
    pub closed spec fn pending_open(&self) -> Seq<char> {
        self.cur_path@
    }

    /// How deep the walk currently is: one frame per successfully
    /// opened node on the path from the root down.
    pub closed spec fn depth(&self) -> int {
        self.stack@.len() as int
    }

    /// The builder's invariant.
    pub closed spec fn wf(&self) -> bool {
        &&& self.arena.wf()
        &&& self.dict.wf()
        &&& self.arena@.len() >= 1
        &&& self.arena@[0].parent is None
        &&& (forall|k: Seq<char>|
            self.dict.as_map().contains_key(k) ==> 0 <= #[trigger] self.dict.as_map()[k]
                < self.arena@.len())
        &&& (forall|i: int| #[trigger] self.indexed@.contains(i) ==> 0 <= i < self.arena@.len())
        &&& (forall|i: int| #[trigger]
            self.indexed@.contains(i) ==> self.dict.as_map().contains_key(
                spec_node_path(self.arena@, i),
            ) && self.dict.as_map()[spec_node_path(self.arena@, i)] == i)
        &&& (forall|f: int|
            0 <= f < self.stack@.len() ==> 0 <= #[trigger] self.stack@[f].node@
                < self.arena@.len())
        &&& (forall|f: int|
            0 <= f < self.stack@.len() ==> #[trigger] self.stack@[f].next
                <= self.stack@[f].pending@.len())
        &&& (forall|f: int| 0 <= f < self.stack@.len() ==> #[trigger] self.stack@[f].pushed >= 1)
        &&& (self.stack@.len() > 0 ==> self.stack@[0].node@ == 0 && self.stack@[0].path_before@
            =~= Seq::<Seq<char>>::empty())
        &&& (self.stack@.len() > 0 ==> {
            let top = self.stack@.last();
            &&& self.path@.len() == top.path_before@.len() + top.pushed
            &&& self.path@.take(top.path_before@.len() as int) == top.path_before@
            &&& spec_join(self.path@) == spec_node_path(self.arena@, top.node@)
        })
        &&& (forall|f: int|
            0 <= f < self.stack@.len() - 1 ==> {
                let lower = #[trigger] self.stack@[f];
                let upper = self.stack@[f + 1];
                &&& upper.path_before@.len() == lower.path_before@.len() + lower.pushed
                &&& upper.path_before@.take(lower.path_before@.len() as int) == lower.path_before@
                &&& spec_join(upper.path_before@) == spec_node_path(self.arena@, lower.node@)
            })
        &&& (self.stack@.len() == 0 && !self.done ==> self.awaiting && self.path@.len() == 0
            && self.cur_node@ == 0)
        &&& (self.awaiting ==> {
            &&& !self.done
            &&& 0 <= self.cur_node@ < self.arena@.len()
            &&& self.arena@[self.cur_node@].children.len() == 0
            &&& spec_join(self.path@ + self.cur_push.deep_view()) == spec_node_path(
                self.arena@,
                self.cur_node@,
            )
            &&& self.cur_push@.len() >= 1
        })
        &&& (self.awaiting && self.stack@.len() > 0 ==> self.arena@[self.cur_node@].item.values
            =~= Seq::<(Seq<char>, crate::data::DataModel)>::empty() && self.cur_node@
            > self.stack@.last().node@)
        &&& (self.done ==> !self.awaiting)
        &&& (self.failure is Some ==> self.done)
    }

    /// Begin a build from a root item.  The item's stored path must
    /// carry a root alias before a separator; without one the build is
    /// refused with `MakeTreeError`.
    pub fn new(item: RegistriesItem) -> (r: Result<TreeBuilder, MakeTreeError>)
        requires
            item.wf(),
        ensures
            match r {
                Ok(b) => {
                    &&& spec_split(item@.key_path).len() >= 2
                    &&& b.wf()
                    &&& !b.is_done()
                    &&& b.is_awaiting()
                    &&& b.store().len() == 1
                    &&& b.store()[0].item == item@
                    &&& b.current_node() == 0
                    &&& b.index_map() == Map::<Seq<char>, int>::empty()
                    &&& b.indexed_set() == Set::<int>::empty()
                    &&& b.pending_open() == spec_join(spec_split(item@.key_path).drop_first())
                    &&& b.spec_root_collection() == TreeBuilder::spec_chosen_root_of(spec_split(item@.key_path)[0])
                },
                Err(_) => spec_split(item@.key_path).len() < 2,
            },
    {
        let segs = split_str(item.key_path().as_str());
        if segs.len() < 2 {
            return Result::Err(MakeTreeError(String::from_str("invalid registry path")));
        }
        let collection = match root_key(segs[0].as_str()) {
            Option::Some(c) => c,
            Option::None => RootCollection::LocalMachine,
        };
        let ghost kp = item@.key_path;
        let mut arena = TreeStore::new();
        let root = arena.allocate(item);
        // the remainder of the path, after the alias: what the first
        // open request asks for
        let mut remainder = Path::new();
        let n = segs.len();
        let mut i: usize = 1;
        while i < n
            invariant
                1 <= i <= n,
                n == segs@.len(),
                segs.deep_view() == spec_split(kp),
                remainder@ =~= segs.deep_view().drop_first().take(i - 1),
            decreases n - i,
        {
            proof {
                assert(segs@[i as int]@ == segs.deep_view()[i as int]);
            }
            remainder.push(segs[i].as_str());
            proof {
                assert(remainder@ =~= segs.deep_view().drop_first().take(i as int));
            }
            i += 1;
        }
        proof {
            assert(segs.deep_view().drop_first().take(n - 1) =~= segs.deep_view().drop_first());
        }
        let cur_path = remainder.path();
        let b = TreeBuilder {
            arena,
            dict: PathIndex::new(),
            path: Path::new(),
            stack: Vec::new(),
            awaiting: true,
            done: false,
            cur_node: root,
            cur_push: segs,
            cur_path,
            root_collection: collection,
            failure: Option::None,
            indexed: Ghost(Set::empty()),
        };
        proof {
            assert(b.arena@.len() == 1);
            assert(b.arena@[0].parent is None);
            assert(b.arena@[0].item.key_path == kp);
            assert(b.path@ + b.cur_push.deep_view() =~= spec_split(kp));
            lemma_join_split(kp);
            assert(spec_node_path(b.arena@, 0) == kp);
            assert(b.dict.as_map() =~= Map::<Seq<char>, int>::empty());
            assert(spec_split(kp).len() >= 2);
        }
        Result::Ok(b)
    }

    /// The root collection that the root alias selected (the designated
    /// default for an unrecognized alias).
    pub open spec fn spec_chosen_root_of(alias: Seq<char>) -> RootCollection {
        match spec_root_key(alias) {
            Some(c) => c,
            None => RootCollection::LocalMachine,
        }
    }

    /// The chosen root collection of a full root path.
    pub closed spec fn spec_root_collection(&self) -> RootCollection {
        self.root_collection
    }

    /// The root collection the driver must open the first request under.
    pub fn root_collection(&self) -> (r: RootCollection)
        ensures
            r == self.spec_root_collection(),
    {
        self.root_collection
    }

    /// What the driver should do next.
    pub fn step(&self) -> (r: BuildStep)
        requires
            self.wf(),
        ensures
            self.is_done() ==> r is Finished,
            !self.is_done() && self.is_awaiting() ==> (r matches BuildStep::Open(p) && p@
                == self.pending_open()),
            !self.is_done() && !self.is_awaiting() ==> r is Ascend,
    {
        if self.done {
            BuildStep::Finished
        } else if self.awaiting {
            BuildStep::Open(self.cur_path.clone())
        } else {
            BuildStep::Ascend
        }
    }

    /// Pick the next pending child of the top frame, allocate and link
    /// its node, and request its open; with none left, leave the state
    /// at `Ascend`.
    #[verifier::rlimit(100)]
    fn advance_top(&mut self)
        requires
            old(self).wf(),
            !old(self).is_awaiting(),
            !old(self).is_done(),
            old(self).depth() > 0,
        ensures
            final(self).wf(),
            !final(self).is_done(),
            !final(self).has_failed(),
            final(self).index_map() == old(self).index_map(),
            final(self).indexed_set() == old(self).indexed_set(),
            final(self).depth() == old(self).depth(),
            final(self).store().len() >= old(self).store().len(),
            forall|j: int|
                0 <= j < old(self).store().len() ==> #[trigger] final(self).store()[j].item.values
                    == old(self).store()[j].item.values && final(self).store()[j].item.key_path
                    == old(self).store()[j].item.key_path && final(self).store()[j].parent
                    == old(self).store()[j].parent,
            forall|j: int|
                0 <= j < old(self).store().len() && j != old(self).stack@.last().node@
                    ==> #[trigger] final(self).store()[j].children
                    == old(self).store()[j].children,
            old(self).stack@.last().next < old(self).stack@.last().pending@.len()
                ==> final(self).is_awaiting() && final(self).pending_open()
                == old(self).stack@.last().pending@[old(self).stack@.last().next as int]@,
            old(self).stack@.last().next >= old(self).stack@.last().pending@.len()
                ==> !final(self).is_awaiting(),
    {
        let top_idx = self.stack.len() - 1;
        let next = self.stack[top_idx].next;
        let pending_len = self.stack[top_idx].pending.len();
        if next < pending_len {
            let name = self.stack[top_idx].pending[next].clone();
            self.stack[top_idx].next = next + 1;
            let parent = self.stack[top_idx].node;
            let ghost v0 = self.arena@;
            let child_item = RegistriesItem::with_name(name.clone());
            let child = self.arena.allocate(child_item);
            self.arena.append_child(parent, child);
            let up = to_upper(name.as_str());
            let mut push_segs: Vec<String> = Vec::new();
            push_segs.push(up);
            self.cur_node = child;
            self.cur_push = push_segs;
            self.cur_path = name;
            self.awaiting = true;
            proof {
                let v1 = self.arena@;
                assert(forall|j: int|
                    0 <= j < v0.len() ==> #[trigger] v1[j].item.values == v0[j].item.values
                        && v1[j].item.key_path == v0[j].item.key_path && v1[j].parent
                        == v0[j].parent);
                // every existing node keeps its path
                assert forall|i: int| 0 <= i < v0.len() implies spec_node_path(v1, i)
                    == spec_node_path(v0, i) by {
                    lemma_node_path_stable(v0, v1, i);
                }
                // the fresh child's path extends its parent's
                assert(v1[child@].parent == Some(parent@));
                assert(spec_node_path(v1, child@) == spec_node_path(v1, parent@) + seq![
                    sep_char(),
                ] + upper_of(v1[child@].item.key_path));
                let top = self.stack@.last();
                assert(top.node@ == parent@);
                assert(spec_join(self.path@) == spec_node_path(v1, parent@));
                assert(self.cur_push.deep_view() =~= seq![upper_of(name@)]);
                assert(self.path@ + self.cur_push.deep_view() =~= self.path@.push(
                    upper_of(name@),
                ));
                lemma_join_push(self.path@, upper_of(name@));
                assert(v1[child@].item.key_path == name@);
                assert(spec_join(self.path@ + self.cur_push.deep_view()) == spec_node_path(
                    v1,
                    child@,
                ));
            }
        }
    }

    /// The outstanding open succeeded: record the node's decoded
    /// values, index its normalized path, queue its children, and go
    /// on.  This never fails the build, whatever was enumerated.
    pub fn opened(&mut self, children: Vec<String>, values: Vec<(String, RawValue)>)
        requires
            old(self).wf(),
            old(self).is_awaiting(),
        ensures
            final(self).wf(),
            !final(self).is_done(),
            !final(self).has_failed(),
            final(self).depth() == old(self).depth() + 1,
            final(self).store()[old(self).current_node()].item.values == spec_insert_all(
                old(self).store()[old(self).current_node()].item.values,
                values@.map_values(|e: (String, RawValue)| (e.0@, e.1@)),
            ),
            final(self).index_map() == old(self).index_map().insert(
                spec_node_path(old(self).store(), old(self).current_node()),
                old(self).current_node(),
            ),
            final(self).indexed_set().contains(old(self).current_node()),
            forall|i: int|
                old(self).indexed_set().contains(i) && spec_node_path(old(self).store(), i)
                    != spec_node_path(old(self).store(), old(self).current_node()) ==> #[trigger] final(self).indexed_set().contains(i),
            forall|j: int|
                0 <= j < old(self).store().len() && j != old(self).current_node()
                    ==> #[trigger] final(self).store()[j].item.values
                    == old(self).store()[j].item.values,
            children@.len() > 0 ==> final(self).is_awaiting() && final(self).pending_open()
                == children@[0]@,
            children@.len() == 0 ==> !final(self).is_awaiting(),
    {
        self.awaiting = false;
        let ghost v_before = self.arena@;
        let ghost path_before = self.path@;
        let ghost cur = self.cur_node@;
        let ghost push_views = self.cur_push.deep_view();
        let ghost stack_before = self.stack@;
        // push this node's normalized segments onto the path
        let push_count = self.cur_push.len();
        let mut i: usize = 0;
        while i < push_count
            invariant
                i <= push_count,
                push_count == self.cur_push@.len(),
                self.arena@ == v_before,
                self.stack@ == stack_before,
                self.dict == old(self).dict,
                self.indexed@ == old(self).indexed@,
                self.cur_node@ == cur,
                self.cur_push.deep_view() == push_views,
                !self.awaiting,
                !self.done,
                self.failure == old(self).failure,
                self.path@ =~= path_before + push_views.take(i as int),
            decreases push_count - i,
        {
            proof {
                assert(self.cur_push@[i as int]@ == push_views[i as int]);
            }
            let seg = self.cur_push[i].clone();
            self.path.push(seg.as_str());
            proof {
                assert(self.path@ =~= path_before + push_views.take(i + 1));
            }
            i += 1;
        }
        proof {
            assert(push_views.take(push_count as int) =~= push_views);
            assert(self.path@ =~= path_before + push_views);
        }
        // index this node under its normalized full path
        let key = self.path.path();
        let ghost node_key = spec_node_path(v_before, cur);
        proof {
            assert(spec_join(path_before + push_views) == node_key);
            assert(key@ == node_key);
        }
        self.dict.insert(key, self.cur_node.index());
        let ghost dict_view = self.dict@;
        let ghost dict_map = self.dict.as_map();
        proof {
            assert(dict_map == old(self).dict.as_map().insert(node_key, cur));
            let shadowed = Set::new(
                |j: int| self.indexed@.contains(j) && spec_node_path(v_before, j) == node_key,
            );
            self.indexed@ = self.indexed@.difference(shadowed).insert(cur);
        }
        let ghost indexed_after = self.indexed@;
        // decode and record the values, later names overwriting earlier
        let ghost raws = values@.map_values(|e: (String, RawValue)| (e.0@, e.1@));
        let value_count = values.len();
        let mut k: usize = 0;
        while k < value_count
            invariant
                k <= value_count,
                value_count == values@.len(),
                self.arena.wf(),
                0 <= cur < self.arena@.len(),
                self.cur_node@ == cur,
                self.stack@ == stack_before,
                self.dict@ == dict_view,
                self.indexed@ == indexed_after,
                self.cur_push.deep_view() == push_views,
                !self.awaiting,
                !self.done,
                self.failure == old(self).failure,
                self.path@ == path_before + push_views,
                raws == values@.map_values(|e: (String, RawValue)| (e.0@, e.1@)),
                self.arena@[cur].item.values == spec_insert_all(
                    v_before[cur].item.values,
                    raws.take(k as int),
                ),
                self.arena@.len() == v_before.len(),
                forall|j: int|
                    0 <= j < self.arena@.len() && j != cur ==> #[trigger] self.arena@[j]
                        == v_before[j],
                self.arena@[cur].item.key_path == v_before[cur].item.key_path,
                self.arena@[cur].parent == v_before[cur].parent,
                self.arena@[cur].children == v_before[cur].children,
            decreases value_count - k,
        {
            let name = values[k].0.clone();
            let value = decode_value(&values[k].1);
            proof {
                assert(raws[k as int] == (values@[k as int].0@, values@[k as int].1@));
                assert(value@ == spec_decode_value(raws[k as int].1.ty, raws[k as int].1.data));
            }
            self.arena.insert_value(self.cur_node, name, value);
            proof {
                assert(raws.take(k + 1) =~= raws.take(k as int).push(raws[k as int]));
                lemma_insert_all_push(v_before[cur].item.values, raws.take(k as int), raws[k as int]);
            }
            k += 1;
        }
        proof {
            assert(raws.take(value_count as int) =~= raws);
        }
        // queue the children
        let frame = Frame {
            node: self.cur_node,
            pending: children,
            next: 0,
            pushed: push_count,
            path_before: Ghost(path_before),
        };
        self.stack.push(frame);
        proof {
            let v1 = self.arena@;
            assert forall|i2: int| 0 <= i2 < v1.len() implies spec_node_path(v1, i2)
                == spec_node_path(v_before, i2) by {
                assert(forall|j: int|
                    0 <= j <= i2 ==> #[trigger] v1[j].parent == v_before[j].parent
                        && v1[j].item.key_path == v_before[j].item.key_path);
                lemma_node_path_stable(v_before, v1, i2);
            }
            // well-formedness of the intermediate state
            assert(self.stack@ =~= stack_before.push(frame));
            assert(self.stack@.last() == frame);
            // the indexed set is still found under its paths
            assert forall|j: int| #[trigger]
                self.indexed@.contains(j) implies self.dict.as_map().contains_key(
                spec_node_path(v1, j),
            ) && self.dict.as_map()[spec_node_path(v1, j)] == j by {
                if j == cur {
                    assert(spec_node_path(v1, cur) == node_key);
                    assert(dict_map.contains_key(node_key) && dict_map[node_key] == cur);
                } else {
                    assert(old(self).indexed@.contains(j));
                    assert(spec_node_path(v_before, j) != node_key);
                    assert(old(self).dict.as_map().contains_key(spec_node_path(v_before, j)));
                    assert(spec_node_path(v1, j) == spec_node_path(v_before, j));
                }
            }
            // the frame chain still joins up
            assert(spec_join(self.path@) == spec_node_path(v1, cur)) by {
                assert(spec_join(path_before + push_views) == spec_node_path(v_before, cur));
            }
            if stack_before.len() > 0 {
                let lower = stack_before.last();
                assert(self.stack@[self.stack@.len() - 2] == lower);
                assert(path_before.len() == lower.path_before@.len() + lower.pushed);
                assert(path_before.take(lower.path_before@.len() as int) == lower.path_before@);
                assert(spec_join(path_before) == spec_node_path(v_before, lower.node@));
                assert(spec_join(path_before) == spec_node_path(v1, lower.node@));
            } else {
                assert(cur == 0);
                assert(path_before.len() == 0);
                assert(frame.path_before@ =~= Seq::<Seq<char>>::empty());
            }
            assert(self.path@.len() == path_before.len() + push_count);
            assert(self.path@.take(path_before.len() as int) =~= path_before);
            assert forall|f: int|
                0 <= f < self.stack@.len() - 1 implies {
                let lower = #[trigger] self.stack@[f];
                let upper = self.stack@[f + 1];
                &&& upper.path_before@.len() == lower.path_before@.len() + lower.pushed
                &&& upper.path_before@.take(lower.path_before@.len() as int) == lower.path_before@
                &&& spec_join(upper.path_before@) == spec_node_path(v1, lower.node@)
            } by {
                if f < stack_before.len() - 1 {
                    assert(self.stack@[f] == stack_before[f]);
                    assert(self.stack@[f + 1] == stack_before[f + 1]);
                    assert(spec_join(stack_before[f + 1].path_before@) == spec_node_path(
                        v_before,
                        stack_before[f].node@,
                    ));
                } else {
                    assert(f == stack_before.len() - 1);
                }
            }
            assert(self.wf());
        }
        self.advance_top();
    }

    /// The outstanding open failed.  At the root the whole build fails
    /// with the given message; below the root the failure is contained:
    /// the node stays as a childless placeholder with no values, it is
    /// not indexed, and the walk goes on with the siblings.
    pub fn open_failed(&mut self, message: String)
        requires
            old(self).wf(),
            old(self).is_awaiting(),
        ensures
            final(self).wf(),
            old(self).depth() == 0 ==> final(self).is_done() && final(self).has_failed(),
            old(self).depth() > 0 ==> {
                &&& !final(self).is_done()
                &&& !final(self).has_failed()
                &&& final(self).depth() == old(self).depth()
                &&& final(self).store()[old(self).current_node()].children == Seq::<int>::empty()
                &&& final(self).store()[old(self).current_node()].item.values == Seq::<
                    (Seq<char>, crate::data::DataModel),
                >::empty()
            },
            final(self).index_map() == old(self).index_map(),
            final(self).indexed_set() == old(self).indexed_set(),
            forall|j: int|
                0 <= j < old(self).store().len() ==> #[trigger] final(self).store()[j].item.values
                    == old(self).store()[j].item.values,
    {
        self.awaiting = false;
        if self.stack.len() == 0 {
            self.failure = Option::Some(message);
            self.done = true;
        } else {
            let ghost cur = self.cur_node@;
            proof {
                assert(self.arena@[cur].children.len() == 0);
                assert(self.arena@[cur].children =~= Seq::<int>::empty());
                assert(self.arena@[cur].item.values =~= Seq::<
                    (Seq<char>, crate::data::DataModel),
                >::empty());
            }
            self.advance_top();
        }
    }

    /// One frame of the walk is over: leave the node, shortening the
    /// current path again, and go on beside it; leaving the root ends
    /// the walk.
    pub fn ascended(&mut self)
        requires
            old(self).wf(),
            !old(self).is_awaiting(),
            !old(self).is_done(),
        ensures
            final(self).wf(),
            !final(self).has_failed(),
            final(self).depth() == old(self).depth() - 1,
            old(self).depth() == 1 ==> final(self).is_done(),
            old(self).depth() > 1 ==> !final(self).is_done(),
            final(self).index_map() == old(self).index_map(),
            final(self).indexed_set() == old(self).indexed_set(),
            forall|j: int|
                0 <= j < old(self).store().len() ==> #[trigger] final(self).store()[j].item.values
                    == old(self).store()[j].item.values,
    {
        let frame = match self.stack.pop() {
            Option::Some(f) => f,
            Option::None => {
                proof {
                    assert(false);
                }
                return ;
            },
        };
        proof {
            assert(frame == old(self).stack@.last());
            assert(self.stack@ =~= old(self).stack@.drop_last());
        }
        // drop this frame's path segments
        let mut k: usize = 0;
        while k < frame.pushed
            invariant
                k <= frame.pushed,
                self.arena == old(self).arena,
                self.dict == old(self).dict,
                self.indexed@ == old(self).indexed@,
                self.stack@ == old(self).stack@.drop_last(),
                frame == old(self).stack@.last(),
                !self.awaiting,
                !self.done,
                self.failure == old(self).failure,
                self.path@.len() == frame.path_before@.len() + (frame.pushed - k),
                self.path@.take(frame.path_before@.len() as int) == frame.path_before@,
            decreases frame.pushed - k,
        {
            let ghost before_pop = self.path@;
            let dropped = self.path.pop();
            proof {
                assert(before_pop.len() > frame.path_before@.len());
                assert(self.path@ =~= before_pop.drop_last());
                assert(self.path@.take(frame.path_before@.len() as int) =~= frame.path_before@);
            }
            k += 1;
        }
        proof {
            assert(self.path@ =~= frame.path_before@);
            let n0 = old(self).stack@.len();
            if n0 >= 2 {
                // the next frame down still lines up with the path
                let lower = old(self).stack@[n0 - 2];
                assert(self.stack@.last() == lower);
                assert(frame.path_before@.len() == lower.path_before@.len() + lower.pushed);
                assert(frame.path_before@.take(lower.path_before@.len() as int)
                    == lower.path_before@);
                assert(spec_join(frame.path_before@) == spec_node_path(self.arena@, lower.node@));
                assert(forall|f: int|
                    0 <= f < self.stack@.len() ==> self.stack@[f] == #[trigger] old(
                        self,
                    ).stack@[f]);
            }
        }
        if self.stack.len() == 0 {
            self.done = true;
            proof {
                assert(self.wf());
            }
        } else {
            proof {
                assert(self.wf());
            }
            self.advance_top();
        }
    }

    /// Close the build: the assembled tree, or the root failure.
    pub fn finish(self) -> (r: Result<RegistriesTree, MakeTreeError>)
        requires
            self.wf(),
            self.is_done(),
        ensures
            match r {
                Ok(t) => {
                    &&& !self.has_failed()
                    &&& t.wf()
                    &&& t.store() == self.store()
                    &&& t.index_map() == self.index_map()
                    &&& t.indexed_set() == self.indexed_set()
                    &&& t.root_id() == 0
                },
                Err(_) => self.has_failed(),
            },
    {
        match self.failure {
            Option::Some(message) => Result::Err(MakeTreeError(message)),
            Option::None => {
                let t = RegistriesTree::assemble(
                    NodeId::from_index(0),
                    self.arena,
                    self.dict,
                    Ghost(self.indexed@),
                );
                Result::Ok(t)
            },
        }
    }
}

/// Inserting one more raw value at the end of a run.
proof fn lemma_insert_all_push(
    vs: Seq<(Seq<char>, crate::data::DataModel)>,
    raws: Seq<(Seq<char>, RawModel)>,
    e: (Seq<char>, RawModel),
)
    ensures
        spec_insert_all(vs, raws.push(e)) == assoc_insert(
            spec_insert_all(vs, raws),
            e.0,
            spec_decode_value(e.1.ty, e.1.data),
        ),
    decreases raws.len(),
{
    let inserted = assoc_insert(vs, e.0, spec_decode_value(e.1.ty, e.1.data));
    if raws.len() == 0 {
        assert(raws.push(e).drop_first() =~= Seq::<(Seq<char>, RawModel)>::empty());
        assert(raws.push(e)[0] == e);
        assert(spec_insert_all(vs, raws.push(e)) == spec_insert_all(
            inserted,
            Seq::<(Seq<char>, RawModel)>::empty(),
        ));
        assert(spec_insert_all(inserted, Seq::<(Seq<char>, RawModel)>::empty()) == inserted);
        assert(spec_insert_all(vs, raws) == vs);
    } else {
        assert(raws.push(e)[0] == raws[0]);
        assert(raws.push(e).drop_first() =~= raws.drop_first().push(e));
        let head = assoc_insert(vs, raws[0].0, spec_decode_value(raws[0].1.ty, raws[0].1.data));
        assert(spec_insert_all(vs, raws.push(e)) == spec_insert_all(
            head,
            raws.drop_first().push(e),
        ));
        lemma_insert_all_push(head, raws.drop_first(), e);
        assert(spec_insert_all(vs, raws) == spec_insert_all(head, raws.drop_first()));
    }
}

/// Joining a concatenation: the right half's segments go on one by one.
proof fn lemma_join_append(a: Seq<Seq<char>>, b: Seq<Seq<char>>)
    requires
        b.len() >= 1,
    ensures
        spec_join(a + b) == if a.len() == 0 {
            spec_join(b)
        } else {
            spec_join(a) + seq![sep_char()] + spec_join(b)
        },
    decreases b.len(),
{
    if a.len() == 0 {
        assert(a + b =~= b);
    } else if b.len() == 1 {
        assert(a + b =~= a.push(b[0]));
        lemma_join_push(a, b[0]);
        assert(spec_join(b) == b[0]);
    } else {
        assert((a + b).drop_last() =~= a + b.drop_last());
        lemma_join_append(a, b.drop_last());
        assert((a + b).last() == b.last());
        assert(spec_join(b) == spec_join(b.drop_last()) + seq![sep_char()] + b.last());
    }
}

} // verus!
