//! The variable store: an associative map from variable names to replacement
//! text.  [`VarjMap`] keeps its entries in insertion order and, seen through
//! its view, is the mathematical map in which a later insertion of the same
//! key overwrites an earlier one.

use std::collections::HashMap;
use vstd::prelude::*;

use crate::text::str_eq;

verus! {

/// The mathematical map held by a list of entries: each entry inserted in
/// order, so that the latest entry for a key wins.
pub open spec fn map_of(entries: Seq<(String, String)>) -> Map<Seq<char>, Seq<char>>
    decreases entries.len(),
{
    if entries.len() == 0 {
        Map::empty()
    } else {
        map_of(entries.drop_last()).insert(entries.last().0@, entries.last().1@)
    }
}

/// A key that no entry carries is not in the map.
proof fn lemma_map_of_absent(entries: Seq<(String, String)>, k: Seq<char>)
    requires
        forall|j: int| 0 <= j < entries.len() ==> (#[trigger] entries[j]).0@ != k,
    ensures
        !map_of(entries).contains_key(k),
    decreases entries.len(),
{
    if entries.len() > 0 {
        lemma_map_of_absent(entries.drop_last(), k);
    }
}

/// The map carries the value of a key's last entry.
proof fn lemma_map_of_found(entries: Seq<(String, String)>, j: int)
    requires
        0 <= j < entries.len(),
        forall|jj: int| j < jj < entries.len() ==> (#[trigger] entries[jj]).0@ != entries[j].0@,
    ensures
        map_of(entries).contains_key(entries[j].0@),
        map_of(entries)[entries[j].0@] == entries[j].1@,
    decreases entries.len(),
{
    if j == entries.len() - 1 {
    } else {
        lemma_map_of_found(entries.drop_last(), j);
    }
}

/// Every key of the map is carried by some entry.
proof fn lemma_map_of_key_index(entries: Seq<(String, String)>, k: Seq<char>)
    requires
        map_of(entries).contains_key(k),
    ensures
        exists|j: int| 0 <= j < entries.len() && (#[trigger] entries[j]).0@ == k,
    decreases entries.len(),
{
    if entries.len() > 0 {
        if entries.last().0@ == k {
            assert(entries[entries.len() - 1].0@ == k);
        } else {
            lemma_map_of_key_index(entries.drop_last(), k);
            let j = choose|j: int|
                0 <= j < entries.len() - 1 && (#[trigger] entries.drop_last()[j]).0@ == k;
            assert(entries[j].0@ == k);
        }
    }
}

/// A map of variables to replace placeholders in a string.
///
/// Seen through its view, a `VarjMap` is a [`Map`] from key text to value
/// text; inserting an existing key overwrites its value.
#[derive(Debug, Clone, Eq)]
pub struct VarjMap {
    pairs: Vec<(String, String)>,
}

impl View for VarjMap {
    type V = Map<Seq<char>, Seq<char>>;

    closed spec fn view(&self) -> Map<Seq<char>, Seq<char>> {
        map_of(self.pairs@)
    }
}

impl Default for VarjMap {
    /// The empty map.
    fn default() -> (r: Self)
        ensures
            r@ == Map::<Seq<char>, Seq<char>>::empty(),
    {
        VarjMap { pairs: Vec::new() }
    }
}

impl VarjMap {
    /// Create an empty `VarjMap`.
    pub fn new() -> (r: Self)
        ensures
            r@ == Map::<Seq<char>, Seq<char>>::empty(),
    {
        VarjMap { pairs: Vec::new() }
    }

    /// Creates an empty `VarjMap` with the specified capacity.
    ///
    /// The map will be able to hold at least `capacity` elements without
    /// reallocating. If `capacity` is 0, the map will not allocate.
    pub fn with_capacity(capacity: usize) -> (r: Self)
        ensures
            r@ == Map::<Seq<char>, Seq<char>>::empty(),
    {
        VarjMap { pairs: Vec::with_capacity(capacity) }
    }

    /// Insert a key value pair into the `VarjMap`, overwriting the value of
    /// a key already present.
    pub fn insert(&mut self, key: &str, value: &str)
        ensures
            final(self)@ == old(self)@.insert(key@, value@),
    {
        let entry = (key.to_owned(), value.to_owned());
        proof {
            assert(self.pairs@.push(entry).drop_last() =~= self.pairs@);
        }
        self.pairs.push(entry);
    }

    /// Get a value from the `VarjMap` by key.
    pub fn get(&self, key: &str) -> (r: Option<&str>)
        ensures
            match r {
                Some(v) => self@.contains_key(key@) && v@ == self@[key@],
                None => !self@.contains_key(key@),
            },
    {
        let n = self.pairs.len();
        let mut j = n;
        while j > 0
            invariant
                j <= n,
                n == self.pairs@.len(),
                forall|jj: int| j <= jj < n ==> (#[trigger] self.pairs@[jj]).0@ != key@,
            decreases j,
        {
            j -= 1;
            if str_eq(self.pairs[j].0.as_str(), key) {
                proof {
                    lemma_map_of_found(self.pairs@, j as int);
                }
                return Some(self.pairs[j].1.as_str());
            }
        }
        proof {
            lemma_map_of_absent(self.pairs@, key@);
        }
        None
    }
}

impl PartialEq for VarjMap {
    /// Whether the two stores hold the same variables with the same values.
    fn eq(&self, other: &Self) -> (r: bool) {
        let n = self.pairs.len();
        let mut i: usize = 0;
        while i < n
            invariant
                i <= n,
                n == self.pairs@.len(),
                forall|j: int|
                    0 <= j < i ==> {
                        &&& other@.contains_key((#[trigger] self.pairs@[j]).0@)
                        &&& self@.contains_key(self.pairs@[j].0@)
                        &&& other@[self.pairs@[j].0@] == self@[self.pairs@[j].0@]
                    },
            decreases n - i,
        {
            let k = self.pairs[i].0.as_str();
            let mine = self.get(k);
            proof {
                lemma_map_of_found_somewhere(self.pairs@, i as int);
            }
            match other.get(k) {
                Some(theirs) => {
                    if !str_eq(mine.unwrap(), theirs) {
                        proof {
                            assert(self@[self.pairs@[i as int].0@] != other@[self.pairs@[i
                                as int].0@]);
                        }
                        return false;
                    }
                },
                None => {
                    return false;
                },
            }
            i += 1;
        }
        let m = other.pairs.len();
        let mut j: usize = 0;
        while j < m
            invariant
                j <= m,
                m == other.pairs@.len(),
                forall|jj: int|
                    0 <= jj < j ==> self@.contains_key((#[trigger] other.pairs@[jj]).0@),
                forall|jj: int|
                    0 <= jj < self.pairs@.len() ==> {
                        &&& other@.contains_key((#[trigger] self.pairs@[jj]).0@)
                        &&& self@.contains_key(self.pairs@[jj].0@)
                        &&& other@[self.pairs@[jj].0@] == self@[self.pairs@[jj].0@]
                    },
            decreases m - j,
        {
            let k = other.pairs[j].0.as_str();
            if self.get(k).is_none() {
                proof {
                    lemma_map_of_found_somewhere(other.pairs@, j as int);
                }
                return false;
            }
            j += 1;
        }
        proof {
            assert forall|k: Seq<char>| #[trigger] self@.contains_key(k) implies other@.contains_key(
                k,
            ) && other@[k] == self@[k] by {
                lemma_map_of_key_index(self.pairs@, k);
            }
            assert forall|k: Seq<char>| #[trigger] other@.contains_key(k) implies self@.contains_key(
                k,
            ) by {
                lemma_map_of_key_index(other.pairs@, k);
            }
            assert(self@ =~= other@);
        }
        true
    }
}

impl vstd::std_specs::cmp::PartialEqSpecImpl for VarjMap {
    open spec fn obeys_eq_spec() -> bool {
        true
    }

    open spec fn eq_spec(&self, other: &Self) -> bool {
        self@ == other@
    }
}

/// The key of any entry is in the map.
proof fn lemma_map_of_found_somewhere(entries: Seq<(String, String)>, j: int)
    requires
        0 <= j < entries.len(),
    ensures
        map_of(entries).contains_key(entries[j].0@),
    decreases entries.len(),
{
    if j < entries.len() - 1 {
        lemma_map_of_found_somewhere(entries.drop_last(), j);
    }
}

/// Relies on `HashMap::into_iter`: it yields the map's entries, one pair for
/// each key, so no two yielded entries share a key.
#[verifier::external_body]
fn hash_entries(map: HashMap<String, String>) -> (v: Vec<(String, String)>)
    ensures
        forall|i: int, j: int|
            0 <= i < j < v@.len() ==> (#[trigger] v@[i]).0@ != (#[trigger] v@[j]).0@,
{
    map.into_iter().collect()
}

impl VarjMap {
    /// Build a `VarjMap` holding the entries of a [`HashMap`].
    ///
    /// The entries arrive in whatever order the `HashMap` yields them; since
    /// its keys are distinct, the resulting store holds the same association.
    pub fn from_hash_map(map: HashMap<String, String>) -> Self {
        VarjMap { pairs: hash_entries(map) }
    }

    /// Collect the store's variables into a [`HashMap`].
    pub fn into_hash_map(self) -> HashMap<String, String> {
        let mut out: HashMap<String, String> = HashMap::new();
        let n = self.pairs.len();
        let mut i: usize = 0;
        while i < n
            invariant
                i <= n,
                n == self.pairs@.len(),
            decreases n - i,
        {
            out.insert(self.pairs[i].0.clone(), self.pairs[i].1.clone());
            i += 1;
        }
        out
    }
}

} // verus!
