//! One node of the mirrored store: its key name and its decoded values.

use vstd::prelude::*;

use crate::assoc::assoc_insert;
use crate::assoc::assoc_map;
use crate::assoc::assoc_wf;
use crate::assoc::lemma_assoc_insert_absent;
use crate::assoc::lemma_assoc_insert_found;
use crate::assoc::lemma_assoc_insert_map;
use crate::assoc::lemma_assoc_map_absent;
use crate::assoc::lemma_assoc_map_index;
use crate::data::DataModel;
use crate::data::RegistriesData;
use crate::index::normalize;
use crate::index::spec_normalize;
use crate::path::spec_split;

verus! {

/// A node's value map: value names to decoded values, names unique,
/// insertion order kept for rendering.
pub struct ValueMap {
    entries: Vec<(String, RegistriesData)>,
}

impl View for ValueMap {
    type V = Seq<(Seq<char>, DataModel)>;

    closed spec fn view(&self) -> Seq<(Seq<char>, DataModel)> {
        self.entries@.map_values(|e: (String, RegistriesData)| (e.0@, e.1@))
    }
}

impl ValueMap {
    /// Pairwise distinct names.
    pub open spec fn wf(&self) -> bool {
        assoc_wf(self@)
    }

    /// The values as a mathematical map.
    pub open spec fn as_map(&self) -> Map<Seq<char>, DataModel> {
        assoc_map(self@)
    }

    /// An empty value map.
    pub fn new() -> (r: ValueMap)
        ensures
            r@ == Seq::<(Seq<char>, DataModel)>::empty(),
            r.wf(),
    {
        let r = ValueMap { entries: Vec::new() };
        proof {
            assert(r@ =~= Seq::<(Seq<char>, DataModel)>::empty());
        }
        r
    }

    /// How many values the node holds.
    pub fn len(&self) -> (n: usize)
        ensures
            n == self@.len(),
    {
        self.entries.len()
    }

    /// The name of the value at a position, in insertion order.
    pub fn name_at(&self, i: usize) -> (r: &String)
        requires
            i < self@.len(),
        ensures
            r@ == self@[i as int].0,
    {
        &self.entries[i].0
    }

    /// The value at a position, in insertion order.
    pub fn value_at(&self, i: usize) -> (r: &RegistriesData)
        requires
            i < self@.len(),
        ensures
            r@ == self@[i as int].1,
    {
        &self.entries[i].1
    }

    /// Insert a value under a name, overwriting a present name in place.
    pub fn insert(&mut self, name: String, value: RegistriesData)
        requires
            old(self).wf(),
        ensures
            final(self).wf(),
            final(self)@ == assoc_insert(old(self)@, name@, value@),
            final(self).as_map() == old(self).as_map().insert(name@, value@),
    {
        let ghost s0 = self@;
        let n = self.entries.len();
        let mut i: usize = 0;
        while i < n
            invariant
                i <= n,
                n == self.entries@.len(),
                self@ == s0,
                s0 == old(self)@,
                assoc_wf(s0),
                forall|j: int| 0 <= j < i ==> s0[j].0 != name@,
            decreases n - i,
        {
            proof {
                assert(self.entries@[i as int].0@ == s0[i as int].0);
            }
            if self.entries[i].0 == name {
                self.entries.remove(i);
                self.entries.insert(i, (name, value));
                proof {
                    assert(self@ =~= s0.update(i as int, (name@, value@)));
                    lemma_assoc_insert_found(s0, name@, value@, i as int);
                    lemma_assoc_insert_map(s0, name@, value@);
                }
                return ;
            }
            i += 1;
        }
        self.entries.push((name, value));
        proof {
            assert(self@ =~= s0.push((name@, value@)));
            lemma_assoc_insert_absent(s0, name@, value@);
            lemma_assoc_insert_map(s0, name@, value@);
        }
    }

    /// The value under a name, if the node holds one; a copy.
    pub fn get(&self, name: &str) -> (r: Option<RegistriesData>)
        requires
            self.wf(),
        ensures
            match r {
                Some(d) => self.as_map().contains_key(name@) && d@ == self.as_map()[name@],
                None => !self.as_map().contains_key(name@),
            },
    {
        let wanted = name.to_owned();
        let n = self.entries.len();
        let mut i: usize = 0;
        while i < n
            invariant
                i <= n,
                n == self.entries@.len(),
                self.wf(),
                wanted@ == name@,
                forall|j: int| 0 <= j < i ==> self@[j].0 != name@,
            decreases n - i,
        {
            proof {
                assert(self.entries@[i as int].0@ == self@[i as int].0);
                assert(self.entries@[i as int].1@ == self@[i as int].1);
            }
            if self.entries[i].0 == wanted {
                let d = self.entries[i].1.clone();
                proof {
                    lemma_assoc_map_index(self@, i as int);
                }
                return Option::Some(d);
            }
            i += 1;
        }
        proof {
            lemma_assoc_map_absent(self@, name@);
        }
        Option::None
    }
}

impl Clone for ValueMap {
    /// A clone has the same mathematical value.
    fn clone(&self) -> (r: Self)
        ensures
            r@ == self@,
    {
        let mut entries: Vec<(String, RegistriesData)> = Vec::new();
        let n = self.entries.len();
        let mut i: usize = 0;
        while i < n
            invariant
                i <= n,
                n == self.entries@.len(),
                entries@.map_values(|e: (String, RegistriesData)| (e.0@, e.1@)) =~= self@.take(
                    i as int,
                ),
            decreases n - i,
        {
            let name = self.entries[i].0.clone();
            let value = self.entries[i].1.clone();
            entries.push((name, value));
            proof {
                assert(self.entries@[i as int].0@ == self@[i as int].0);
                assert(self.entries@[i as int].1@ == self@[i as int].1);
                assert(self@.take(i + 1) =~= self@.take(i as int).push(self@[i as int]));
                assert(entries@.map_values(|e: (String, RegistriesData)| (e.0@, e.1@)) =~= self@.take(
                    i + 1,
                ));
            }
            i += 1;
        }
        proof {
            assert(self@.take(n as int) =~= self@);
        }
        let r = ValueMap { entries };
        proof {
            assert(r@ =~= self@);
        }
        r
    }
}

/// The mathematical value of one node: its stored key name and its
/// value map.
pub struct ItemModel {
    pub key_path: Seq<char>,
    pub values: Seq<(Seq<char>, DataModel)>,
}

/// One entry of the store: the node's name (the root node stores the
/// whole normalized path instead) and its decoded values.
pub struct RegistriesItem {
    key_path: String,
    value_map: ValueMap,
}

impl Clone for RegistriesItem {
    /// A clone has the same mathematical value.
    fn clone(&self) -> (r: Self)
        ensures
            r@ == self@,
    {
        RegistriesItem { key_path: self.key_path.clone(), value_map: self.value_map.clone() }
    }
}

impl View for RegistriesItem {
    type V = ItemModel;

    closed spec fn view(&self) -> ItemModel {
        ItemModel { key_path: self.key_path@, values: self.value_map@ }
    }
}

impl RegistriesItem {
    /// Unique value names.
    pub open spec fn wf(&self) -> bool {
        assoc_wf(self@.values)
    }

    /// The node's values as a mathematical map.
    pub open spec fn values_map(&self) -> Map<Seq<char>, DataModel> {
        assoc_map(self@.values)
    }

    /// A root item: the given full path, normalized, with no values
    /// yet.  The path must carry a root alias, so it must hold a
    /// separator.
    pub fn new(key_path: &str) -> (r: RegistriesItem)
        requires
            spec_split(key_path@).len() >= 2,
        ensures
            r@.key_path == spec_normalize(key_path@),
            r@.values == Seq::<(Seq<char>, DataModel)>::empty(),
            r.wf(),
    {
        let normalized = match normalize(key_path) {
            Option::Some(p) => p,
            Option::None => String::new(),
        };
        RegistriesItem { key_path: normalized, value_map: ValueMap::new() }
    }

    /// An item holding a plain (already local or already normalized)
    /// name, with no values yet.
    pub fn with_name(key_path: String) -> (r: RegistriesItem)
        ensures
            r@.key_path == key_path@,
            r@.values == Seq::<(Seq<char>, DataModel)>::empty(),
            r.wf(),
    {
        RegistriesItem { key_path, value_map: ValueMap::new() }
    }

    /// The node's stored key name.
    pub fn key_path(&self) -> (r: &String)
        ensures
            r@ == self@.key_path,
    {
        &self.key_path
    }

    /// The node's value map.
    pub fn values(&self) -> (r: &ValueMap)
        ensures
            r@ == self@.values,
    {
        &self.value_map
    }

    /// Insert one decoded value, overwriting a present name.
    pub fn insert_value(&mut self, name: String, value: RegistriesData)
        requires
            old(self).wf(),
        ensures
            final(self).wf(),
            final(self)@.key_path == old(self)@.key_path,
            final(self)@.values == assoc_insert(old(self)@.values, name@, value@),
            final(self).values_map() == old(self).values_map().insert(name@, value@),
    {
        self.value_map.insert(name, value);
    }

    /// The value under a name, if the node holds one; a copy.
    pub fn get(&self, item_name: &str) -> (r: Option<RegistriesData>)
        requires
            self.wf(),
        ensures
            match r {
                Some(d) => self.values_map().contains_key(item_name@) && d@
                    == self.values_map().index(item_name@),
                None => !self.values_map().contains_key(item_name@),
            },
    {
        self.value_map.get(item_name)
    }
}

} // verus!
