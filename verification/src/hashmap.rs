//! A value source over an in-memory map of byte strings.

use std::collections::HashMap;

use vstd::prelude::*;

use crate::write::NCDValueSource;

verus! {

/// Relies on std's `HashMap` iteration: every entry of the map appears
/// exactly once; the order is unspecified and nothing is assumed of it.
#[verifier::external_body]
fn hash_map_entries(map: &HashMap<Vec<u8>, Vec<u8>>) -> (r: Vec<(Vec<u8>, Vec<u8>)>)
    ensures
        forall|i: int|
            0 <= i < r@.len() ==> #[trigger] map@.contains_key(r@[i].0) && map@[r@[i].0]
                == r@[i].1,
        forall|i: int, j: int| 0 <= i < j < r@.len() ==> r@[i].0 != r@[j].0,
        forall|k: Vec<u8>|
            #[trigger] map@.contains_key(k) ==> exists|i: int|
                0 <= i < r@.len() && r@[i].0 == k,
{
    map.iter().map(|(k, v)| (k.clone(), v.clone())).collect()
}

/// A value source holding its pairs in a `HashMap`.
pub struct NCDHashMapValueSource {
    pub map: HashMap<Vec<u8>, Vec<u8>>,
}

impl NCDHashMapValueSource {
    /// Wrap a map of byte-string pairs.
    pub fn new(hashmap: HashMap<Vec<u8>, Vec<u8>>) -> (r: NCDHashMapValueSource)
        ensures
            r.map == hashmap,
    {
        NCDHashMapValueSource { map: hashmap }
    }

    /// The map's pairs: every entry exactly once, keys pairwise distinct.
    /// The order is the map's own iteration order and is unspecified;
    /// the builder accepts any order.
    pub fn entries(&self) -> (r: Vec<(Vec<u8>, Vec<u8>)>)
        ensures
            forall|i: int|
                0 <= i < r@.len() ==> #[trigger] self.map@.contains_key(r@[i].0)
                    && self.map@[r@[i].0] == r@[i].1,
            forall|i: int, j: int| 0 <= i < j < r@.len() ==> r@[i].0 != r@[j].0,
            forall|k: Vec<u8>|
                #[trigger] self.map@.contains_key(k) ==> exists|i: int|
                    0 <= i < r@.len() && r@[i].0 == k,
    {
        hash_map_entries(&self.map)
    }
}

impl NCDValueSource for NCDHashMapValueSource {
    fn pairs(&self) -> Result<Vec<(Vec<u8>, Vec<u8>)>, std::io::Error> {
        Ok(self.entries())
    }
}

/// A cursor over the pairs of a hash-map source, yielding each entry of
/// the map once.
pub struct NCDHashMapValueSourceIterator {
    pub index: usize,
    pub pairs: Vec<(Vec<u8>, Vec<u8>)>,
}

impl NCDHashMapValueSourceIterator {
    /// Start a cursor over the entries of `source`: every entry of the
    /// map exactly once.
    pub fn new(source: &NCDHashMapValueSource) -> (r: NCDHashMapValueSourceIterator)
        ensures
            r.index == 0,
            forall|i: int|
                0 <= i < r.pairs@.len() ==> #[trigger] source.map@.contains_key(r.pairs@[i].0)
                    && source.map@[r.pairs@[i].0] == r.pairs@[i].1,
            forall|i: int, j: int| 0 <= i < j < r.pairs@.len() ==> r.pairs@[i].0 != r.pairs@[j].0,
            forall|k: Vec<u8>|
                #[trigger] source.map@.contains_key(k) ==> exists|i: int|
                    0 <= i < r.pairs@.len() && r.pairs@[i].0 == k,
    {
        let pairs = source.entries();
        let out = NCDHashMapValueSourceIterator { index: 0, pairs };
        proof {
            assert forall|k: Vec<u8>| #[trigger] source.map@.contains_key(k) implies exists|i: int|
                0 <= i < out.pairs@.len() && out.pairs@[i].0 == k by {
                let i = choose|i: int| 0 <= i < out.pairs@.len() && out.pairs@[i].0 == k;
            }
        }
        out
    }

    /// The next pair, or `None` when the entries are exhausted.
    pub fn next(&mut self) -> (r: Option<(Vec<u8>, Vec<u8>)>)
        ensures
            r is Some <==> old(self).index < old(self).pairs@.len(),
            r is Some ==> ({
                let p = r->0;
                &&& p.0@ == old(self).pairs@[old(self).index as int].0@
                &&& p.1@ == old(self).pairs@[old(self).index as int].1@
                &&& final(self).index == old(self).index + 1
            }),
            final(self).pairs == old(self).pairs,
    {
        if self.index >= self.pairs.len() {
            return None;
        }
        let pair: &(Vec<u8>, Vec<u8>) = vstd::slice::slice_index_get(
            self.pairs.as_slice(),
            self.index,
        );
        self.index = self.index + 1;
        Some((clone_bytes(&pair.0), clone_bytes(&pair.1)))
    }
}

/// A copy of a byte string.
fn clone_bytes(v: &Vec<u8>) -> (r: Vec<u8>)
    ensures
        r@ == v@,
{
    vstd::slice::slice_to_vec(v.as_slice())
}

} // verus!
