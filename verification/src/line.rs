//! Lines of the wire format: every frame starts with a line that ends in a
//! carriage return and a line feed.

use vstd::prelude::*;

use crate::ascii::{CR, LF};

verus! {

/// The two bytes that end a line.
pub open spec fn crlf() -> Seq<u8> {
    seq![CR, LF]
}

/// A line terminator stands at `i`.
pub open spec fn crlf_at(s: Seq<u8>, i: int) -> bool {
    0 <= i && i + 1 < s.len() && s[i] == CR && s[i + 1] == LF
}

/// The text holds a line terminator somewhere.
pub open spec fn has_crlf(s: Seq<u8>) -> bool {
    exists|i: int| crlf_at(s, i)
}

/// The place of the first line terminator at or after `from`, if there is one.
pub open spec fn find_crlf(s: Seq<u8>, from: int) -> Option<int>
    decreases s.len() - from,
{
    if from < 0 || from + 1 >= s.len() {
        None
    } else if crlf_at(s, from) {
        Some(from)
    } else {
        find_crlf(s, from + 1)
    }
}

/// What `find_crlf` returns is a line terminator, and the first one.
pub proof fn lemma_find_crlf(s: Seq<u8>, from: int)
    requires
        0 <= from,
    ensures
        match find_crlf(s, from) {
            Some(e) => from <= e && crlf_at(s, e) && forall|i: int|
                from <= i < e ==> !crlf_at(s, i),
            None => forall|i: int| from <= i ==> !crlf_at(s, i),
        },
    decreases s.len() - from,
{
    if from + 1 >= s.len() {
    } else if crlf_at(s, from) {
    } else {
        lemma_find_crlf(s, from + 1);
    }
}

/// The first line terminator at or after `from` is what `find_crlf` returns.
pub proof fn lemma_find_crlf_first(s: Seq<u8>, from: int, e: int)
    requires
        0 <= from <= e,
        crlf_at(s, e),
        forall|i: int| from <= i < e ==> !crlf_at(s, i),
    ensures
        find_crlf(s, from) == Some(e),
    decreases e - from,
{
    if from < e {
        lemma_find_crlf_first(s, from + 1, e);
    }
}

/// Without a line terminator at or after `from`, `find_crlf` returns nothing.
pub proof fn lemma_find_crlf_none(s: Seq<u8>, from: int)
    requires
        0 <= from,
        forall|i: int| from <= i ==> !crlf_at(s, i),
    ensures
        find_crlf(s, from) is None,
    decreases s.len() - from,
{
    if from + 1 < s.len() {
        lemma_find_crlf_none(s, from + 1);
    }
}

/// Looks for the first line terminator at or after `from`.
pub fn first_crlf(data: &[u8], from: usize) -> (r: Option<usize>)
    ensures
        match find_crlf(data@, from as int) {
            Some(e) => r == Some(e as usize) && from <= e && e + 2 <= data.len(),
            None => r is None,
        },
{
    let n: usize = data.len();
    if n < 2 {
        return None;
    }
    let mut i: usize = from;
    while i < n - 1
        invariant
            n == data.len(),
            n >= 2,
            from <= i,
            find_crlf(data@, from as int) == find_crlf(data@, i as int),
        decreases n - i,
    {
        if data[i] == CR && data[i + 1] == LF {
            return Some(i);
        }
        i += 1;
    }
    None
}

} // verus!
