//! A small string-to-string map that keeps insertion order and at most one
//! entry per key.

use vstd::prelude::*;
use vstd::string::StringSliceAdditionalSpecFns;
use crate::scan::bytes_eq;

verus! {

/// Entries of a map: (key, value) pairs, keys compared as strings.
pub struct TextMap {
    entries: Vec<(String, String)>,
}

/// Index of the entry with key `k` among the first `n` entries.
pub open spec fn key_index(e: Seq<(Seq<char>, Seq<char>)>, k: Seq<char>) -> Option<int> {
    if exists|i: int| 0 <= i < e.len() && (#[trigger] e[i]).0 == k {
        Some(choose|i: int| 0 <= i < e.len() && (#[trigger] e[i]).0 == k)
    } else {
        None
    }
}

/// No key occurs twice.
pub open spec fn distinct_keys(e: Seq<(Seq<char>, Seq<char>)>) -> bool {
    forall|i: int, j: int| 0 <= i < j < e.len() ==> (#[trigger] e[i]).0 != (#[trigger] e[j]).0
}

/// The map as a mathematical map.
pub open spec fn entries_map(e: Seq<(Seq<char>, Seq<char>)>) -> Map<Seq<char>, Seq<char>> {
    Map::new(
        |k: Seq<char>| exists|i: int| 0 <= i < e.len() && (#[trigger] e[i]).0 == k,
        |k: Seq<char>| e[key_index(e, k)->0].1,
    )
}

/// `m` with `k` bound to `v`: an existing entry is updated in place, a new
/// key goes at the end.
pub open spec fn entries_insert(e: Seq<(Seq<char>, Seq<char>)>, k: Seq<char>, v: Seq<char>) -> Seq<(Seq<char>, Seq<char>)> {
    match key_index(e, k) {
        Some(i) => e.update(i, (k, v)),
        None => e.push((k, v)),
    }
}

proof fn lemma_encode_injective(a: Seq<char>, b: Seq<char>)
    requires
        vstd::utf8::encode_utf8(a) == vstd::utf8::encode_utf8(b),
    ensures
        a == b,
{
    vstd::utf8::encode_utf8_decode_utf8(a);
    vstd::utf8::encode_utf8_decode_utf8(b);
}

impl TextMap {
    #[verifier::type_invariant]
    spec fn inv(self) -> bool {
        distinct_keys(self.entry_seq())
    }

    /// The entries in insertion order.
    pub closed spec fn entry_seq(self) -> Seq<(Seq<char>, Seq<char>)> {
        self.entries@.map_values(|p: (String, String)| (p.0@, p.1@))
    }

    /// The map as a mathematical map.
    pub open spec fn view_map(self) -> Map<Seq<char>, Seq<char>> {
        entries_map(self.entry_seq())
    }

    pub fn new() -> (res: Self)
        ensures
            res.entry_seq() == Seq::<(Seq<char>, Seq<char>)>::empty(),
    {
        let r = TextMap { entries: Vec::new() };
        assert(r.entry_seq() =~= Seq::<(Seq<char>, Seq<char>)>::empty());
        r
    }

    /// Number of entries.
    pub fn len(&self) -> (res: usize)
        ensures
            res == self.entry_seq().len(),
    {
        self.entries.len()
    }

    pub fn is_empty(&self) -> (res: bool)
        ensures
            res == (self.entry_seq().len() == 0),
    {
        self.entries.len() == 0
    }

    /// Position of the entry with this key.
    pub fn index_of(&self, key: &str) -> (res: Option<usize>)
        ensures
            key_index(self.entry_seq(), key@) == match res {
                Some(i) => Some(i as int),
                None => None,
            },
    {
        proof {
            use_type_invariant(self);
        }
        let ghost e = self.entry_seq();
        let mut i: usize = 0;
        while i < self.entries.len()
            invariant
                e == self.entry_seq(),
                distinct_keys(e),
                i <= self.entries.len(),
                forall|j: int| 0 <= j < i ==> (#[trigger] e[j]).0 != key@,
            decreases self.entries.len() - i,
        {
            let k = &self.entries[i].0;
            if bytes_eq(k.as_str().as_bytes(), key.as_bytes()) {
                proof {
                    lemma_encode_injective(e[i as int].0, key@);
                    assert(e[i as int].0 == key@);
                    let c = choose|j: int| 0 <= j < e.len() && (#[trigger] e[j]).0 == key@;
                    assert(c == i);
                }
                return Some(i);
            }
            i = i + 1;
        }
        None
    }

    /// Position of the entry whose key has the UTF-8 bytes `key`.
    pub fn index_of_bytes(&self, key: &[u8]) -> (res: Option<usize>)
        ensures
            match res {
                Some(i) => i < self.entry_seq().len() && vstd::utf8::encode_utf8(self.entry_seq()[i as int].0) == key@,
                None => forall|j: int| 0 <= j < self.entry_seq().len() ==> vstd::utf8::encode_utf8(#[trigger] self.entry_seq()[j].0) != key@,
            },
            distinct_keys(self.entry_seq()),
    {
        proof {
            use_type_invariant(self);
        }
        let ghost e = self.entry_seq();
        let mut i: usize = 0;
        while i < self.entries.len()
            invariant
                e == self.entry_seq(),
                distinct_keys(e),
                i <= self.entries.len(),
                forall|j: int| 0 <= j < i ==> vstd::utf8::encode_utf8(#[trigger] e[j].0) != key@,
            decreases self.entries.len() - i,
        {
            if bytes_eq(self.entries[i].0.as_str().as_bytes(), key) {
                return Some(i);
            }
            i = i + 1;
        }
        None
    }

    /// The value bound to `key`.
    pub fn get(&self, key: &str) -> (res: Option<&String>)
        ensures
            match res {
                Some(v) => self.view_map().contains_key(key@) && self.view_map()[key@] == v@,
                None => !self.view_map().contains_key(key@),
            },
    {
        match self.index_of(key) {
            Some(i) => Some(&self.entries[i].1),
            None => None,
        }
    }

    pub fn contains_key(&self, key: &str) -> (res: bool)
        ensures
            res == self.view_map().contains_key(key@),
    {
        self.index_of(key).is_some()
    }

    /// Bind `key` to `value`, replacing an earlier binding.
    pub fn insert(&mut self, key: String, value: String)
        ensures
            final(self).entry_seq() == entries_insert(old(self).entry_seq(), key@, value@),
    {
        proof {
            use_type_invariant(&*self);
        }
        let ghost e = self.entry_seq();
        match self.index_of(key.as_str()) {
            Some(i) => {
                let ghost kv = key@;
                let mut entries: Vec<(String, String)> = Vec::new();
                std::mem::swap(&mut entries, &mut self.entries);
                entries.set(i, (key, value));
                proof {
                    assert(entries@.map_values(|p: (String, String)| (p.0@, p.1@)) =~= e.update(
                        i as int,
                        (kv, value@),
                    ));
                    assert forall|a: int, b: int| 0 <= a < b < e.len() implies (#[trigger] e.update(i as int, (kv, value@))[a]).0
                        != (#[trigger] e.update(i as int, (kv, value@))[b]).0 by {
                        if a == i as int {
                            assert(e[b].0 != e[a].0);
                        } else if b == i as int {
                            assert(e[b].0 != e[a].0);
                        }
                    }
                }
                self.entries = entries;
            },
            None => {
                let ghost kv = key@;
                let mut entries: Vec<(String, String)> = Vec::new();
                std::mem::swap(&mut entries, &mut self.entries);
                entries.push((key, value));
                proof {
                    assert(entries@.map_values(|p: (String, String)| (p.0@, p.1@)) =~= e.push(
                        (kv, value@),
                    ));
                }
                self.entries = entries;
            },
        }
    }

    /// Key and value of entry `i`.
    pub fn entry(&self, i: usize) -> (res: (&String, &String))
        requires
            i < self.entry_seq().len(),
        ensures
            res.0@ == self.entry_seq()[i as int].0,
            res.1@ == self.entry_seq()[i as int].1,
    {
        let p = &self.entries[i];
        (&p.0, &p.1)
    }

    /// Insert every entry of `other`, in its order.
    pub fn extend(&mut self, other: &TextMap)
        ensures
            final(self).entry_seq() == extend_entries(
                old(self).entry_seq(),
                other.entry_seq(),
                other.entry_seq().len() as int,
            ),
    {
        let mut i: usize = 0;
        while i < other.len()
            invariant
                i <= other.entry_seq().len(),
                self.entry_seq() == extend_entries(old(self).entry_seq(), other.entry_seq(), i as int),
            decreases other.entry_seq().len() - i,
        {
            let (k, v) = other.entry(i);
            self.insert(k.clone(), v.clone());
            i = i + 1;
        }
    }
}

/// `e` after inserting the first `n` entries of `o` in order.
pub open spec fn extend_entries(e: Seq<(Seq<char>, Seq<char>)>, o: Seq<(Seq<char>, Seq<char>)>, n: int) -> Seq<(Seq<char>, Seq<char>)>
    decreases n,
{
    if n <= 0 {
        e
    } else {
        entries_insert(extend_entries(e, o, n - 1), o[n - 1].0, o[n - 1].1)
    }
}

} // verus!
