//! Path normalization and the path index.
//!
//! Every lookup and every insertion goes through `normalize`: the path
//! is split at the separator, every segment is uppercased, and the
//! leading root alias is canonicalized to its short form, so that alias
//! and case variants of one path resolve to the same entry.

use vstd::prelude::*;

use crate::assoc::assoc_insert;
use crate::assoc::assoc_map;
use crate::assoc::assoc_wf;
use crate::assoc::lemma_assoc_insert_absent;
use crate::assoc::lemma_assoc_insert_found;
use crate::assoc::lemma_assoc_map_absent;
use crate::assoc::lemma_assoc_map_index;
use crate::path::spec_join;
use crate::path::spec_split;
use crate::path::split_str;
use crate::path::Path;
use crate::text::to_upper;
use crate::text::upper_of;

verus! {

/// The canonical short form of a root alias: the three long root names
/// map to their short names, anything else is left as it stands.
pub open spec fn spec_short_alias(seg: Seq<char>) -> Seq<char> {
    if seg == "HKEY_LOCAL_MACHINE"@ {
        "HKLM"@
    } else if seg == "HKEY_CURRENT_USER"@ {
        "HKCU"@
    } else if seg == "HKEY_USERS"@ {
        "HKU"@
    } else {
        seg
    }
}

/// Each segment uppercased, the first one also alias-canonicalized.
pub open spec fn spec_normalize_segs(segs: Seq<Seq<char>>) -> Seq<Seq<char>> {
    Seq::new(
        segs.len(),
        |i: int|
            if i == 0 {
                spec_short_alias(upper_of(segs[0]))
            } else {
                upper_of(segs[i])
            },
    )
}

/// The normalized form of a full path: split, uppercase each segment,
/// canonicalize the root alias, join again.
pub open spec fn spec_normalize(p: Seq<char>) -> Seq<char> {
    spec_join(spec_normalize_segs(spec_split(p)))
}

/// Normalize a full path.  A path without a separator carries no root
/// alias and is refused.
pub fn normalize(path: &str) -> (r: Option<String>)
    ensures
        spec_split(path@).len() >= 2 ==> (r matches Some(s) && s@ == spec_normalize(path@)),
        spec_split(path@).len() < 2 ==> r is None,
{
    let segs = split_str(path);
    let ghost sv = segs.deep_view();
    if segs.len() < 2 {
        return Option::None;
    }
    let n = segs.len();
    let ghost target = spec_normalize_segs(sv);
    let mut joined = Path::new();
    let mut i: usize = 0;
    while i < n
        invariant
            2 <= n == segs@.len(),
            i <= n,
            sv == segs.deep_view(),
            sv == spec_split(path@),
            target == spec_normalize_segs(sv),
            joined@ == target.take(i as int),
        decreases n - i,
    {
        proof {
            assert(segs@[i as int]@ == sv[i as int]);
        }
        let upper = to_upper(segs[i].as_str());
        if i == 0 {
            let mapped: String = if upper == String::from_str("HKEY_LOCAL_MACHINE") {
                String::from_str("HKLM")
            } else if upper == String::from_str("HKEY_CURRENT_USER") {
                String::from_str("HKCU")
            } else if upper == String::from_str("HKEY_USERS") {
                String::from_str("HKU")
            } else {
                upper
            };
            proof {
                assert(mapped@ == spec_short_alias(upper_of(sv[0])));
                assert(mapped@ == target[0]);
            }
            joined.push(mapped.as_str());
        } else {
            proof {
                assert(upper@ == target[i as int]);
            }
            joined.push(upper.as_str());
        }
        proof {
            assert(joined@ =~= target.take(i + 1));
        }
        i += 1;
    }
    proof {
        assert(target.take(n as int) =~= target);
    }
    Option::Some(joined.path())
}

/// The mapping from normalized full path to node id, built while the
/// tree is constructed.
pub struct PathIndex {
    entries: Vec<(String, usize)>,
}

impl View for PathIndex {
    type V = Seq<(Seq<char>, int)>;

    closed spec fn view(&self) -> Seq<(Seq<char>, int)> {
        self.entries@.map_values(|e: (String, usize)| (e.0@, e.1 as int))
    }
}

impl PathIndex {
    /// Pairwise distinct keys.
    pub open spec fn wf(&self) -> bool {
        assoc_wf(self@)
    }

    /// The index as a mathematical map.
    pub open spec fn as_map(&self) -> Map<Seq<char>, int> {
        assoc_map(self@)
    }

    /// An empty index.
    pub fn new() -> (r: PathIndex)
        ensures
            r@ == Seq::<(Seq<char>, int)>::empty(),
            r.wf(),
    {
        let r = PathIndex { entries: Vec::new() };
        proof {
            assert(r@ =~= Seq::<(Seq<char>, int)>::empty());
        }
        r
    }

    /// Insert an entry under an already-normalized key, overwriting any
    /// entry with the same key.
    pub fn insert(&mut self, key: String, id: usize)
        requires
            old(self).wf(),
        ensures
            final(self).wf(),
            final(self)@ == assoc_insert(old(self)@, key@, id as int),
            final(self).as_map() == old(self).as_map().insert(key@, id as int),
    {
        let ghost s0 = self@;
        let n = self.entries.len();
        let mut i: usize = 0;
        while i < n
            invariant
                i <= n,
                n == self.entries@.len(),
                self@ == s0,
                s0 == old(self)@,
                assoc_wf(s0),
                forall|j: int| 0 <= j < i ==> s0[j].0 != key@,
            decreases n - i,
        {
            proof {
                assert(self.entries@[i as int].0@ == s0[i as int].0);
            }
            if self.entries[i].0 == key {
                self.entries.remove(i);
                self.entries.insert(i, (key, id));
                proof {
                    assert(self@ =~= s0.update(i as int, (key@, id as int)));
                    lemma_assoc_insert_found(s0, key@, id as int, i as int);
                    crate::assoc::lemma_assoc_insert_map(s0, key@, id as int);
                }
                return ;
            }
            i += 1;
        }
        self.entries.push((key, id));
        proof {
            assert(self@ =~= s0.push((key@, id as int)));
            lemma_assoc_insert_absent(s0, key@, id as int);
            crate::assoc::lemma_assoc_insert_map(s0, key@, id as int);
        }
    }

    /// Look an already-normalized key up.
    pub fn get(&self, key: &str) -> (r: Option<usize>)
        requires
            self.wf(),
        ensures
            match r {
                Some(id) => self.as_map().contains_key(key@) && self.as_map()[key@] == id as int,
                None => !self.as_map().contains_key(key@),
            },
    {
        let wanted = key.to_owned();
        let n = self.entries.len();
        let mut i: usize = 0;
        while i < n
            invariant
                i <= n,
                n == self.entries@.len(),
                self.wf(),
                wanted@ == key@,
                forall|j: int| 0 <= j < i ==> self@[j].0 != key@,
            decreases n - i,
        {
            proof {
                assert(self.entries@[i as int].0@ == self@[i as int].0);
            }
            if self.entries[i].0 == wanted {
                let id = self.entries[i].1;
                proof {
                    lemma_assoc_map_index(self@, i as int);
                }
                return Option::Some(id);
            }
            i += 1;
        }
        proof {
            lemma_assoc_map_absent(self@, key@);
        }
        Option::None
    }
}

} // verus!
