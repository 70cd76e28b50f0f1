//! The order in which a map keeps its keys: that of their UTF-8 bytes, read
//! from left to right.

use vstd::prelude::*;
use vstd::utf8::encode_utf8;

verus! {

/// The first index at or after `from` where the two texts differ or one of
/// them ends.
pub open spec fn mismatch(a: Seq<u8>, b: Seq<u8>, from: int) -> int
    decreases a.len() - from,
{
    if 0 <= from < a.len() && from < b.len() && a[from] == b[from] {
        mismatch(a, b, from + 1)
    } else {
        from
    }
}

/// `a` comes before `b`: at the first place where they differ `a` has the
/// smaller byte, or `a` ends there and `b` goes on.
pub open spec fn bytes_lt(a: Seq<u8>, b: Seq<u8>) -> bool {
    let i = mismatch(a, b, 0);
    if i < a.len() && i < b.len() {
        a[i] < b[i]
    } else {
        a.len() < b.len()
    }
}

/// The order of map keys.
pub open spec fn key_lt(a: Seq<char>, b: Seq<char>) -> bool {
    bytes_lt(encode_utf8(a), encode_utf8(b))
}

/// Up to `mismatch` the two texts agree, and there they differ or one ends.
pub proof fn lemma_mismatch(a: Seq<u8>, b: Seq<u8>, from: int)
    requires
        0 <= from <= a.len(),
        from <= b.len(),
    ensures
        from <= mismatch(a, b, from) <= a.len(),
        mismatch(a, b, from) <= b.len(),
        forall|j: int| from <= j < mismatch(a, b, from) ==> a[j] == b[j],
        mismatch(a, b, from) < a.len() && mismatch(a, b, from) < b.len() ==> a[mismatch(
            a,
            b,
            from,
        )] != b[mismatch(a, b, from)],
    decreases a.len() - from,
{
    if from < a.len() && from < b.len() && a[from] == b[from] {
        lemma_mismatch(a, b, from + 1);
    }
}

/// The place where two texts first differ is `mismatch`.
pub proof fn lemma_mismatch_is(a: Seq<u8>, b: Seq<u8>, from: int, i: int)
    requires
        0 <= from <= i <= a.len(),
        i <= b.len(),
        forall|j: int| from <= j < i ==> a[j] == b[j],
        i < a.len() && i < b.len() ==> a[i] != b[i],
    ensures
        mismatch(a, b, from) == i,
    decreases i - from,
{
    if from < i {
        lemma_mismatch_is(a, b, from + 1, i);
    }
}

/// No text comes before itself.
pub proof fn lemma_bytes_lt_irreflexive(a: Seq<u8>)
    ensures
        !bytes_lt(a, a),
{
    lemma_mismatch(a, a, 0);
}

/// Of two different texts one comes before the other.
pub proof fn lemma_bytes_lt_total(a: Seq<u8>, b: Seq<u8>)
    ensures
        bytes_lt(a, b) || bytes_lt(b, a) || a == b,
{
    lemma_mismatch(a, b, 0);
    let i = mismatch(a, b, 0);
    lemma_mismatch_is(b, a, 0, i);
    if i == a.len() && i == b.len() {
        assert(a =~= b);
    }
}

/// Never both `a` before `b` and `b` before `a`.
pub proof fn lemma_bytes_lt_asymmetric(a: Seq<u8>, b: Seq<u8>)
    requires
        bytes_lt(a, b),
    ensures
        !bytes_lt(b, a),
{
    lemma_mismatch(a, b, 0);
    lemma_mismatch_is(b, a, 0, mismatch(a, b, 0));
}

/// The order is transitive.
pub proof fn lemma_bytes_lt_transitive(a: Seq<u8>, b: Seq<u8>, c: Seq<u8>)
    requires
        bytes_lt(a, b),
        bytes_lt(b, c),
    ensures
        bytes_lt(a, c),
{
    lemma_mismatch(a, b, 0);
    lemma_mismatch(b, c, 0);
    let i = mismatch(a, b, 0);
    let j = mismatch(b, c, 0);
    let k = if i < j {
        i
    } else {
        j
    };
    lemma_mismatch_is(a, c, 0, k);
}

/// Compares two texts byte by byte.
pub fn bytes_less(a: &[u8], b: &[u8]) -> (r: bool)
    ensures
        r == bytes_lt(a@, b@),
{
    let mut i: usize = 0;
    while i < a.len() && i < b.len() && a[i] == b[i]
        invariant
            i <= a.len(),
            i <= b.len(),
            mismatch(a@, b@, 0) == mismatch(a@, b@, i as int),
        decreases a.len() - i,
    {
        i += 1;
    }
    if i < a.len() && i < b.len() {
        a[i] < b[i]
    } else {
        a.len() < b.len()
    }
}

/// Whether two texts hold the same bytes.
pub fn bytes_equal(a: &[u8], b: &[u8]) -> (r: bool)
    ensures
        r == (a@ == b@),
{
    if a.len() != b.len() {
        return false;
    }
    let mut i: usize = 0;
    while i < a.len()
        invariant
            i <= a.len(),
            a.len() == b.len(),
            forall|j: int| 0 <= j < i ==> a@[j] == b@[j],
        decreases a.len() - i,
    {
        if a[i] != b[i] {
            return false;
        }
        i += 1;
    }
    assert(a@ =~= b@);
    true
}

} // verus!
