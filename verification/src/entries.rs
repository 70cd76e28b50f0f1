//! The entries of a map as a sequence that is kept sorted by key, with every
//! key at most once.

use vstd::prelude::*;
use vstd::utf8::{encode_utf8, encode_utf8_decode_utf8};

use crate::model::Frame;
use crate::order::{
    key_lt, lemma_bytes_lt_asymmetric, lemma_bytes_lt_irreflexive, lemma_bytes_lt_total,
    lemma_bytes_lt_transitive,
};

verus! {

/// Every key comes before all the keys after it, so no key occurs twice.
pub open spec fn sorted_keys(m: Seq<(Seq<char>, Frame)>) -> bool {
    forall|i: int, j: int| 0 <= i < j < m.len() ==> key_lt(#[trigger] m[i].0, #[trigger] m[j].0)
}

/// The first index at or after `from` whose key does not come before `k`.
pub open spec fn lower_bound(m: Seq<(Seq<char>, Frame)>, k: Seq<char>, from: int) -> int
    decreases m.len() - from,
{
    if 0 <= from < m.len() && key_lt(m[from].0, k) {
        lower_bound(m, k, from + 1)
    } else {
        from
    }
}

/// The entries with `k` bound to `v`: the value of `k` is replaced where the
/// key is there already, and the entry is put in its place in the order
/// where it is not.
pub open spec fn map_insert(m: Seq<(Seq<char>, Frame)>, k: Seq<char>, v: Frame) -> Seq<
    (Seq<char>, Frame),
> {
    let i = lower_bound(m, k, 0);
    if i < m.len() && m[i].0 == k {
        m.update(i, (k, v))
    } else {
        m.insert(i, (k, v))
    }
}

/// The value that the entries give to `k`, if any.
pub open spec fn map_get(m: Seq<(Seq<char>, Frame)>, k: Seq<char>) -> Option<Frame> {
    let i = lower_bound(m, k, 0);
    if i < m.len() && m[i].0 == k {
        Some(m[i].1)
    } else {
        None
    }
}

/// The sorted entries that result from binding the pairs one after the other,
/// so that of two pairs with one key the later one stays.
pub open spec fn canonical_map(pairs: Seq<(Seq<char>, Frame)>) -> Seq<(Seq<char>, Frame)>
    decreases pairs.len(),
{
    if pairs.len() == 0 {
        Seq::empty()
    } else {
        map_insert(canonical_map(pairs.drop_last()), pairs.last().0, pairs.last().1)
    }
}

/// Different keys have different bytes, so one of them comes first.
pub proof fn lemma_key_lt_total(a: Seq<char>, b: Seq<char>)
    ensures
        key_lt(a, b) || key_lt(b, a) || a == b,
{
    lemma_bytes_lt_total(encode_utf8(a), encode_utf8(b));
    encode_utf8_decode_utf8(a);
    encode_utf8_decode_utf8(b);
}

/// All keys from `from` up to the lower bound come before `k`, and the key at
/// the lower bound does not.
pub proof fn lemma_lower_bound(m: Seq<(Seq<char>, Frame)>, k: Seq<char>, from: int)
    requires
        0 <= from <= m.len(),
    ensures
        from <= lower_bound(m, k, from) <= m.len(),
        forall|j: int| from <= j < lower_bound(m, k, from) ==> key_lt(#[trigger] m[j].0, k),
        lower_bound(m, k, from) < m.len() ==> !key_lt(m[lower_bound(m, k, from)].0, k),
    decreases m.len() - from,
{
    if from < m.len() && key_lt(m[from].0, k) {
        lemma_lower_bound(m, k, from + 1);
    }
}

/// Among sorted entries a key is found at its lower bound or nowhere.
pub proof fn lemma_lower_bound_finds(m: Seq<(Seq<char>, Frame)>, k: Seq<char>, j: int)
    requires
        sorted_keys(m),
        0 <= j < m.len(),
        m[j].0 == k,
    ensures
        lower_bound(m, k, 0) == j,
{
    lemma_lower_bound(m, k, 0);
    let i = lower_bound(m, k, 0);
    lemma_bytes_lt_irreflexive(encode_utf8(k));
    if i < j {
        lemma_bytes_lt_asymmetric(encode_utf8(m[i].0), encode_utf8(m[j].0));
    }
}

/// Binding a key keeps the entries sorted.
pub proof fn lemma_map_insert_sorted(m: Seq<(Seq<char>, Frame)>, k: Seq<char>, v: Frame)
    requires
        sorted_keys(m),
    ensures
        sorted_keys(map_insert(m, k, v)),
{
    lemma_lower_bound(m, k, 0);
    let i = lower_bound(m, k, 0);
    let r = map_insert(m, k, v);
    if i < m.len() && m[i].0 == k {
        assert forall|a: int, b: int| 0 <= a < b < r.len() implies key_lt(
            #[trigger] r[a].0,
            #[trigger] r[b].0,
        ) by {
            assert(r[a].0 == m[a].0);
            assert(r[b].0 == m[b].0);
        }
    } else {
        assert forall|a: int, b: int| 0 <= a < b < r.len() implies key_lt(
            #[trigger] r[a].0,
            #[trigger] r[b].0,
        ) by {
            if b < i {
                assert(r[a] == m[a] && r[b] == m[b]);
            } else if b == i {
                assert(r[a] == m[a]);
            } else {
                assert(r[b] == m[b - 1]);
                lemma_key_lt_total(m[i].0, k);
                if a < i {
                    assert(r[a] == m[a]);
                    if b - 1 > i {
                    }
                } else if a == i {
                    if b - 1 > i {
                        lemma_bytes_lt_transitive(
                            encode_utf8(k),
                            encode_utf8(m[i].0),
                            encode_utf8(m[b - 1].0),
                        );
                    }
                } else {
                    assert(r[a] == m[a - 1]);
                }
            }
        }
    }
}

/// What `canonical_map` returns is sorted.
pub proof fn lemma_canonical_map_sorted(pairs: Seq<(Seq<char>, Frame)>)
    ensures
        sorted_keys(canonical_map(pairs)),
    decreases pairs.len(),
{
    if pairs.len() > 0 {
        lemma_canonical_map_sorted(pairs.drop_last());
        lemma_map_insert_sorted(
            canonical_map(pairs.drop_last()),
            pairs.last().0,
            pairs.last().1,
        );
    }
}

/// Entries that are sorted already are their own canonical form.
pub proof fn lemma_canonical_map_of_sorted(m: Seq<(Seq<char>, Frame)>)
    requires
        sorted_keys(m),
    ensures
        canonical_map(m) == m,
    decreases m.len(),
{
    if m.len() > 0 {
        let head = m.drop_last();
        assert forall|i: int, j: int| 0 <= i < j < head.len() implies key_lt(
            #[trigger] head[i].0,
            #[trigger] head[j].0,
        ) by {
            assert(head[i] == m[i] && head[j] == m[j]);
        }
        lemma_canonical_map_of_sorted(head);
        let k = m.last().0;
        lemma_lower_bound(head, k, 0);
        let i = lower_bound(head, k, 0);
        if i < head.len() {
            assert(head[i] == m[i]);
            assert(key_lt(m[i].0, m[m.len() - 1].0));
        }
        assert(head.insert(head.len() as int, m.last()) =~= m);
    } else {
        assert(m =~= Seq::empty());
    }
}

/// Binding a key adds at most one entry, and every entry afterwards is the
/// new one or was there before.
pub proof fn lemma_map_insert_members(m: Seq<(Seq<char>, Frame)>, k: Seq<char>, v: Frame)
    ensures
        map_insert(m, k, v).len() <= m.len() + 1,
        forall|i: int|
            0 <= i < map_insert(m, k, v).len() ==> (#[trigger] map_insert(m, k, v)[i]) == (k, v)
                || exists|j: int| 0 <= j < m.len() && map_insert(m, k, v)[i] == m[j],
{
    lemma_lower_bound(m, k, 0);
    let at = lower_bound(m, k, 0);
    let r = map_insert(m, k, v);
    assert forall|i: int| 0 <= i < r.len() implies (#[trigger] r[i]) == (k, v) || exists|j: int|
        0 <= j < m.len() && r[i] == m[j] by {
        if at < m.len() && m[at].0 == k {
            if i != at {
                assert(r[i] == m[i]);
            }
        } else {
            if i < at {
                assert(r[i] == m[i]);
            } else if i > at {
                assert(r[i] == m[i - 1]);
            }
        }
    }
}

/// The canonical form has no more entries than there were pairs, and each of
/// its entries is one of the pairs.
pub proof fn lemma_canonical_map_members(pairs: Seq<(Seq<char>, Frame)>)
    ensures
        canonical_map(pairs).len() <= pairs.len(),
        forall|i: int|
            0 <= i < canonical_map(pairs).len() ==> exists|j: int|
                0 <= j < pairs.len() && (#[trigger] canonical_map(pairs)[i]) == pairs[j],
    decreases pairs.len(),
{
    if pairs.len() > 0 {
        let head = pairs.drop_last();
        let last = pairs.last();
        lemma_canonical_map_members(head);
        let m = canonical_map(head);
        lemma_map_insert_members(m, last.0, last.1);
        let r = canonical_map(pairs);
        assert forall|i: int| 0 <= i < r.len() implies exists|j: int|
            0 <= j < pairs.len() && (#[trigger] r[i]) == pairs[j] by {
            if r[i] == last {
                assert(pairs[pairs.len() - 1] == last);
            } else {
                let a = choose|a: int| 0 <= a < m.len() && r[i] == m[a];
                let b = choose|b: int| 0 <= b < head.len() && m[a] == head[b];
                assert(head[b] == pairs[b]);
            }
        }
    }
}

/// The lower bound is the one index with all keys before it coming before
/// `k` and the key at it not doing so.
pub proof fn lemma_lower_bound_is(m: Seq<(Seq<char>, Frame)>, k: Seq<char>, from: int, at: int)
    requires
        0 <= from <= at <= m.len(),
        forall|j: int| from <= j < at ==> key_lt(#[trigger] m[j].0, k),
        at < m.len() ==> !key_lt(m[at].0, k),
    ensures
        lower_bound(m, k, from) == at,
    decreases at - from,
{
    if from < at {
        lemma_lower_bound_is(m, k, from + 1, at);
    }
}

/// Among sorted keys, those before a key that comes before `k` come before
/// `k` too, and those after a key that does not come before `k` do not
/// either.
pub proof fn lemma_sorted_keys_split(m: Seq<(Seq<char>, Frame)>, k: Seq<char>, i: int)
    requires
        sorted_keys(m),
        0 <= i < m.len(),
    ensures
        key_lt(m[i].0, k) ==> forall|j: int| 0 <= j <= i ==> key_lt(#[trigger] m[j].0, k),
        !key_lt(m[i].0, k) ==> forall|j: int| i <= j < m.len() ==> !key_lt(#[trigger] m[j].0, k),
{
    if key_lt(m[i].0, k) {
        assert forall|j: int| 0 <= j <= i implies key_lt(#[trigger] m[j].0, k) by {
            if j < i {
                lemma_bytes_lt_transitive(encode_utf8(m[j].0), encode_utf8(m[i].0), encode_utf8(k));
            }
        }
    } else {
        assert forall|j: int| i <= j < m.len() implies !key_lt(#[trigger] m[j].0, k) by {
            if i < j && key_lt(m[j].0, k) {
                lemma_bytes_lt_transitive(encode_utf8(m[i].0), encode_utf8(m[j].0), encode_utf8(k));
            }
        }
    }
}

} // verus!
