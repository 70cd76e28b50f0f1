//! The map frame: keys with their values, kept sorted by key.

use vstd::prelude::*;
use vstd::utf8::{encode_utf8, encode_utf8_decode_utf8};

use crate::entries::{
    lemma_lower_bound_is, lemma_map_insert_sorted, lemma_sorted_keys_split, lower_bound, map_get,
    map_insert, sorted_keys,
};
use crate::frame::{entries_view, RespFrame};
use crate::model::Frame;
use crate::order::{bytes_equal, bytes_less, key_lt};

verus! {

/// Text keys with the frames bound to them. The entries are kept in the order
/// of their keys, and no key occurs twice.
#[derive(Debug, PartialEq)]
pub struct RespMap(pub(crate) Vec<(String, RespFrame)>);

impl View for RespMap {
    type V = Seq<(Seq<char>, Frame)>;

    open(crate) spec fn view(&self) -> Seq<(Seq<char>, Frame)>
        decreases self,
    {
        entries_view(self.0@)
    }
}

impl RespMap {
    #[verifier::type_invariant]
    spec fn is_sorted(&self) -> bool {
        sorted_keys(entries_view(self.0@))
    }

    /// The map without entries.
    pub fn new() -> (r: Self)
        ensures
            r@ == Seq::<(Seq<char>, Frame)>::empty(),
    {
        let r = RespMap(Vec::new());
        assert(entries_view(r.0@) =~= Seq::empty());
        r
    }

    /// The number of entries.
    pub fn len(&self) -> (r: usize)
        ensures
            r == self@.len(),
    {
        self.0.len()
    }

    /// Whether the map has no entries.
    pub fn is_empty(&self) -> (r: bool)
        ensures
            r == (self@.len() == 0),
    {
        self.0.len() == 0
    }

    /// Binds `key` to `value` and returns the frame that the key was bound
    /// to before, if it was bound.
    pub fn insert(&mut self, key: String, value: RespFrame) -> (previous: Option<RespFrame>)
        ensures
            final(self)@ == map_insert(old(self)@, key@, value@),
            match previous {
                Some(p) => map_get(old(self)@, key@) == Some(p@),
                None => map_get(old(self)@, key@) is None,
            },
    {
        proof {
            use_type_invariant(&*self);
        }
        let ghost before = self@;
        let mut items: Vec<(String, RespFrame)> = Vec::new();
        core::mem::swap(&mut self.0, &mut items);
        let i: usize = position(&items, key.as_str());
        let found: bool = i < items.len() && bytes_equal(
            items[i].0.as_str().as_bytes(),
            key.as_str().as_bytes(),
        );
        proof {
            lemma_same_key(before[i as int].0, key@);
            lemma_map_insert_sorted(before, key@, value@);
        }
        if found {
            let previous = items.remove(i);
            items.insert(i, (key, value));
            assert(entries_view(items@) =~= map_insert(before, key@, value@));
            self.0 = items;
            Some(previous.1)
        } else {
            items.insert(i, (key, value));
            assert(entries_view(items@) =~= map_insert(before, key@, value@));
            self.0 = items;
            None
        }
    }

    /// The frame that `key` is bound to, if it is bound.
    pub fn get(&self, key: &str) -> (r: Option<&RespFrame>)
        ensures
            match r {
                Some(f) => map_get(self@, key@) == Some(f@),
                None => map_get(self@, key@) is None,
            },
    {
        proof {
            use_type_invariant(self);
        }
        let i: usize = position(&self.0, key);
        proof {
            lemma_same_key(self@[i as int].0, key@);
        }
        if i < self.0.len() && bytes_equal(self.0[i].0.as_str().as_bytes(), key.as_bytes()) {
            Some(&self.0[i].1)
        } else {
            None
        }
    }

    /// The entries in the order of their keys.
    pub fn entries(&self) -> (r: &[(String, RespFrame)])
        ensures
            entries_view(r@) == self@,
            sorted_keys(self@),
    {
        proof {
            use_type_invariant(self);
        }
        self.0.as_slice()
    }
}

/// Two keys are the same text exactly when their bytes are the same.
proof fn lemma_same_key(a: Seq<char>, b: Seq<char>)
    ensures
        (encode_utf8(a) == encode_utf8(b)) <==> a == b,
{
    encode_utf8_decode_utf8(a);
    encode_utf8_decode_utf8(b);
}

/// The index of the first entry whose key does not come before `key`, found
/// by halving the range in which it lies.
fn position(items: &Vec<(String, RespFrame)>, key: &str) -> (i: usize)
    requires
        sorted_keys(entries_view(items@)),
    ensures
        i == lower_bound(entries_view(items@), key@, 0),
        i <= items.len(),
{
    let ghost m = entries_view(items@);
    let mut low: usize = 0;
    let mut high: usize = items.len();
    while low < high
        invariant
            low <= high <= items.len(),
            m == entries_view(items@),
            sorted_keys(m),
            forall|j: int| 0 <= j < low ==> key_lt(#[trigger] m[j].0, key@),
            forall|j: int| high <= j < m.len() ==> !key_lt(#[trigger] m[j].0, key@),
        decreases high - low,
    {
        let middle: usize = low + (high - low) / 2;
        proof {
            lemma_sorted_keys_split(m, key@, middle as int);
        }
        if bytes_less(items[middle].0.as_str().as_bytes(), key.as_bytes()) {
            low = middle + 1;
        } else {
            high = middle;
        }
    }
    proof {
        lemma_lower_bound_is(m, key@, 0, low as int);
    }
    low
}

/// Copies the entries of a map, entry by entry.
fn clone_entries(v: &Vec<(String, RespFrame)>) -> (r: Vec<(String, RespFrame)>)
    ensures
        entries_view(r@) == entries_view(v@),
    decreases v,
{
    let mut out: Vec<(String, RespFrame)> = Vec::new();
    let mut i: usize = 0;
    while i < v.len()
        invariant
            i <= v.len(),
            out.len() == i,
            forall|j: int| 0 <= j < i ==> out[j].0@ == v[j].0@ && out[j].1@ == v[j].1@,
        decreases v.len() - i,
    {
        let key = v[i].0.clone();
        let value = v[i].1.clone();
        out.push((key, value));
        i += 1;
    }
    assert(entries_view(out@) =~= entries_view(v@));
    out
}

impl Clone for RespMap {
    fn clone(&self) -> (r: Self)
        ensures
            r@ == self@,
        decreases self,
    {
        proof {
            use_type_invariant(self);
        }
        RespMap(clone_entries(&self.0))
    }
}

} // verus!
