//! Frames that arrive piece by piece: a frame is read from its bytes alone,
//! whatever follows them, and from no shorter run of bytes.

use vstd::prelude::*;

use crate::ascii::{DOLLAR, PERCENT};
use crate::error::Failure;
use crate::grammar::{
    is_container_marker, parse, parse_at, parse_entries, parse_items, parse_key, parse_length,
    parse_with, MAX_DEPTH,
};
use crate::line::{crlf_at, find_crlf, lemma_find_crlf, lemma_find_crlf_first, lemma_find_crlf_none};
use crate::model::Frame;

verus! {

/// The two runs of bytes are the same up to `end`.
pub open spec fn same_up_to(s: Seq<u8>, t: Seq<u8>, end: int) -> bool {
    &&& end <= s.len()
    &&& end <= t.len()
    &&& forall|i: int| 0 <= i < end ==> s[i] == t[i]
}

/// A frame ends after the place where it starts and within the bytes.
pub proof fn lemma_parse_bounds(s: Seq<u8>, pos: int, depth: nat)
    requires
        parse_at(s, pos, depth) is Ok,
    ensures
        pos < parse_at(s, pos, depth)->Ok_0.1 <= s.len(),
        find_crlf(s, pos + 1) is Some,
        find_crlf(s, pos + 1)->Some_0 + 2 <= parse_at(s, pos, depth)->Ok_0.1,
    decreases depth, 0nat,
{
    lemma_find_crlf(s, pos + 1);
    let end = find_crlf(s, pos + 1)->Some_0;
    let marker = s[pos];
    let body = s.subrange(pos + 1, end);
    let next = end + 2;
    if marker == DOLLAR {
    } else if is_container_marker(marker) {
        let n = parse_length(body)->Ok_0;
        if n != -1 {
            if marker == PERCENT {
                lemma_parse_entries_bounds(s, next, n as nat, (depth - 1) as nat);
            } else {
                lemma_parse_items_bounds(s, next, n as nat, (depth - 1) as nat);
            }
        }
    } else {
    }
}

/// A run of frames ends at or after the place where it starts and within the
/// bytes.
pub proof fn lemma_parse_items_bounds(s: Seq<u8>, pos: int, count: nat, depth: nat)
    requires
        0 <= pos <= s.len(),
        parse_items(s, pos, count, depth) is Ok,
    ensures
        pos <= parse_items(s, pos, count, depth)->Ok_0.1 <= s.len(),
        count > 0 ==> pos < parse_items(s, pos, count, depth)->Ok_0.1,
    decreases depth, count + 1,
{
    if count > 0 {
        lemma_parse_bounds(s, pos, depth);
        let next = parse_at(s, pos, depth)->Ok_0.1;
        lemma_parse_items_bounds(s, next, (count - 1) as nat, depth);
    }
}

/// A key ends after the place where it starts and within the bytes.
pub proof fn lemma_parse_key_bounds(s: Seq<u8>, pos: int)
    requires
        parse_key(s, pos) is Ok,
    ensures
        pos < parse_key(s, pos)->Ok_0.1 <= s.len(),
        find_crlf(s, pos + 1) == Some(parse_key(s, pos)->Ok_0.1 - 2),
{
    lemma_find_crlf(s, pos + 1);
}

/// A run of map entries ends at or after the place where it starts and within
/// the bytes.
pub proof fn lemma_parse_entries_bounds(s: Seq<u8>, pos: int, count: nat, depth: nat)
    requires
        0 <= pos <= s.len(),
        parse_entries(s, pos, count, depth) is Ok,
    ensures
        pos <= parse_entries(s, pos, count, depth)->Ok_0.1 <= s.len(),
        count > 0 ==> pos < parse_entries(s, pos, count, depth)->Ok_0.1,
    decreases depth, count + 1,
{
    if count > 0 {
        lemma_parse_key_bounds(s, pos);
        let at_value = parse_key(s, pos)->Ok_0.1;
        lemma_parse_bounds(s, at_value, depth);
        let next = parse_at(s, at_value, depth)->Ok_0.1;
        lemma_parse_entries_bounds(s, next, (count - 1) as nat, depth);
    }
}

/// Two runs of bytes that are the same up to the end of a line have that
/// line in common.
proof fn lemma_same_line(s: Seq<u8>, t: Seq<u8>, pos: int, end: int)
    requires
        0 <= pos,
        find_crlf(s, pos + 1) == Some(end),
        same_up_to(s, t, end + 2),
    ensures
        find_crlf(t, pos + 1) == Some(end),
        t.subrange(pos + 1, end) == s.subrange(pos + 1, end),
{
    lemma_find_crlf(s, pos + 1);
    assert forall|i: int| pos + 1 <= i < end implies !crlf_at(t, i) by {
        assert(!crlf_at(s, i));
    }
    lemma_find_crlf_first(t, pos + 1, end);
    assert(t.subrange(pos + 1, end) =~= s.subrange(pos + 1, end));
}

/// A frame is read from its own bytes: any bytes that are the same up to the
/// end of the frame give the same frame.
pub proof fn lemma_parse_stable(s: Seq<u8>, t: Seq<u8>, pos: int, depth: nat)
    requires
        parse_at(s, pos, depth) is Ok,
        same_up_to(s, t, parse_at(s, pos, depth)->Ok_0.1),
    ensures
        parse_at(t, pos, depth) == parse_at(s, pos, depth),
    decreases depth, 0nat,
{
    lemma_parse_bounds(s, pos, depth);
    lemma_find_crlf(s, pos + 1);
    let after = parse_at(s, pos, depth)->Ok_0.1;
    let end = find_crlf(s, pos + 1)->Some_0;
    lemma_same_line(s, t, pos, end);
    let marker = s[pos];
    let body = s.subrange(pos + 1, end);
    let next = end + 2;
    if marker == DOLLAR {
        let n = parse_length(body)->Ok_0;
        if n != -1 {
            assert(t.subrange(next, next + n) =~= s.subrange(next, next + n));
        }
    } else if is_container_marker(marker) {
        let n = parse_length(body)->Ok_0;
        if n != -1 {
            if marker == PERCENT {
                lemma_parse_entries_stable(s, t, next, n as nat, (depth - 1) as nat);
            } else {
                lemma_parse_items_stable(s, t, next, n as nat, (depth - 1) as nat);
            }
        }
    } else {
    }
}

/// A run of frames is read from its own bytes.
pub proof fn lemma_parse_items_stable(s: Seq<u8>, t: Seq<u8>, pos: int, count: nat, depth: nat)
    requires
        0 <= pos <= s.len(),
        parse_items(s, pos, count, depth) is Ok,
        same_up_to(s, t, parse_items(s, pos, count, depth)->Ok_0.1),
    ensures
        parse_items(t, pos, count, depth) == parse_items(s, pos, count, depth),
    decreases depth, count + 1,
{
    if count > 0 {
        lemma_parse_bounds(s, pos, depth);
        let next = parse_at(s, pos, depth)->Ok_0.1;
        lemma_parse_items_bounds(s, next, (count - 1) as nat, depth);
        lemma_parse_stable(s, t, pos, depth);
        lemma_parse_items_stable(s, t, next, (count - 1) as nat, depth);
    }
}

/// A key is read from its own bytes.
proof fn lemma_parse_key_stable(s: Seq<u8>, t: Seq<u8>, pos: int)
    requires
        parse_key(s, pos) is Ok,
        same_up_to(s, t, parse_key(s, pos)->Ok_0.1),
    ensures
        parse_key(t, pos) == parse_key(s, pos),
{
    lemma_parse_key_bounds(s, pos);
    let end = find_crlf(s, pos + 1)->Some_0;
    lemma_same_line(s, t, pos, end);
}

/// A run of map entries is read from its own bytes.
pub proof fn lemma_parse_entries_stable(s: Seq<u8>, t: Seq<u8>, pos: int, count: nat, depth: nat)
    requires
        0 <= pos <= s.len(),
        parse_entries(s, pos, count, depth) is Ok,
        same_up_to(s, t, parse_entries(s, pos, count, depth)->Ok_0.1),
    ensures
        parse_entries(t, pos, count, depth) == parse_entries(s, pos, count, depth),
    decreases depth, count + 1,
{
    if count > 0 {
        lemma_parse_key_bounds(s, pos);
        let at_value = parse_key(s, pos)->Ok_0.1;
        lemma_parse_bounds(s, at_value, depth);
        let next = parse_at(s, at_value, depth)->Ok_0.1;
        lemma_parse_entries_bounds(s, next, (count - 1) as nat, depth);
        lemma_parse_key_stable(s, t, pos);
        lemma_parse_stable(s, t, at_value, depth);
        lemma_parse_entries_stable(s, t, next, (count - 1) as nat, depth);
    }
}

/// A frame that is cut short is not there yet: if the bytes end before the
/// frame does, the answer is that more bytes are needed.
pub proof fn lemma_parse_truncated(s: Seq<u8>, pos: int, depth: nat, k: int)
    requires
        parse_at(s, pos, depth) is Ok,
        0 <= k < parse_at(s, pos, depth)->Ok_0.1,
    ensures
        parse_at(s.take(k), pos, depth) == Err::<(Frame, int), Failure>(Failure::NotComplete),
    decreases depth, 0nat,
{
    let t = s.take(k);
    lemma_parse_bounds(s, pos, depth);
    lemma_find_crlf(s, pos + 1);
    let after = parse_at(s, pos, depth)->Ok_0.1;
    if pos < k {
        assert(t[pos] == s[pos]);
        let end = find_crlf(s, pos + 1)->Some_0;
        let next = end + 2;
        if next > k {
            assert forall|i: int| pos + 1 <= i implies !crlf_at(t, i) by {
                if crlf_at(t, i) {
                    assert(crlf_at(s, i));
                    if i < end {
                        assert(!crlf_at(s, i));
                    }
                }
            }
            lemma_find_crlf_none(t, pos + 1);
        } else {
            assert(same_up_to(s, t, next));
            lemma_same_line(s, t, pos, end);
            let marker = s[pos];
            let body = s.subrange(pos + 1, end);
            if marker == DOLLAR {
            } else if is_container_marker(marker) {
                let n = parse_length(body)->Ok_0;
                if n != -1 {
                    if marker == PERCENT {
                        lemma_parse_entries_truncated(s, next, n as nat, (depth - 1) as nat, k);
                    } else {
                        lemma_parse_items_truncated(s, next, n as nat, (depth - 1) as nat, k);
                    }
                }
            } else {
            }
        }
    }
}

/// A run of frames that is cut short is not there yet.
pub proof fn lemma_parse_items_truncated(s: Seq<u8>, pos: int, count: nat, depth: nat, k: int)
    requires
        0 <= pos <= s.len(),
        parse_items(s, pos, count, depth) is Ok,
        pos <= k < parse_items(s, pos, count, depth)->Ok_0.1,
    ensures
        parse_items(s.take(k), pos, count, depth) == Err::<(Seq<Frame>, int), Failure>(
            Failure::NotComplete,
        ),
    decreases depth, count + 1,
{
    let t = s.take(k);
    lemma_parse_bounds(s, pos, depth);
    let next = parse_at(s, pos, depth)->Ok_0.1;
    lemma_parse_items_bounds(s, next, (count - 1) as nat, depth);
    if k < next {
        lemma_parse_truncated(s, pos, depth, k);
    } else {
        assert(same_up_to(s, t, next));
        lemma_parse_stable(s, t, pos, depth);
        lemma_parse_items_truncated(s, next, (count - 1) as nat, depth, k);
    }
}

/// A key that is cut short is not there yet.
proof fn lemma_parse_key_truncated(s: Seq<u8>, pos: int, k: int)
    requires
        parse_key(s, pos) is Ok,
        0 <= k < parse_key(s, pos)->Ok_0.1,
    ensures
        parse_key(s.take(k), pos) == Err::<(Seq<char>, int), Failure>(Failure::NotComplete),
{
    let t = s.take(k);
    lemma_find_crlf(s, pos + 1);
    if pos < k {
        assert(t[pos] == s[pos]);
        let end = find_crlf(s, pos + 1)->Some_0;
        assert forall|i: int| pos + 1 <= i implies !crlf_at(t, i) by {
            if crlf_at(t, i) {
                assert(crlf_at(s, i));
                if i < end {
                    assert(!crlf_at(s, i));
                }
            }
        }
        lemma_find_crlf_none(t, pos + 1);
    }
}

/// A run of map entries that is cut short is not there yet.
pub proof fn lemma_parse_entries_truncated(s: Seq<u8>, pos: int, count: nat, depth: nat, k: int)
    requires
        0 <= pos <= s.len(),
        parse_entries(s, pos, count, depth) is Ok,
        pos <= k < parse_entries(s, pos, count, depth)->Ok_0.1,
    ensures
        parse_entries(s.take(k), pos, count, depth) == Err::<
            (Seq<(Seq<char>, Frame)>, int),
            Failure,
        >(Failure::NotComplete),
    decreases depth, count + 1,
{
    let t = s.take(k);
    lemma_parse_key_bounds(s, pos);
    let at_value = parse_key(s, pos)->Ok_0.1;
    lemma_parse_bounds(s, at_value, depth);
    let next = parse_at(s, at_value, depth)->Ok_0.1;
    lemma_parse_entries_bounds(s, next, (count - 1) as nat, depth);
    if k < at_value {
        lemma_parse_key_truncated(s, pos, k);
    } else {
        assert(same_up_to(s, t, at_value));
        lemma_parse_key_stable(s, t, pos);
        if k < next {
            lemma_parse_truncated(s, at_value, depth, k);
        } else {
            assert(same_up_to(s, t, next));
            lemma_parse_stable(s, t, at_value, depth);
            lemma_parse_entries_truncated(s, next, (count - 1) as nat, depth, k);
        }
    }
}

/// Incremental delivery: while only a part of a frame has arrived, the
/// decoder asks for more bytes, whatever frame it was asked for. So a frame
/// that arrives in pieces is returned once, when its last byte is there, and
/// is the frame that its bytes give when they arrive together.
pub proof fn lemma_incremental_delivery(s: Seq<u8>, admits: spec_fn(u8) -> bool, k: int)
    requires
        parse_with(s, admits) is Ok,
        0 <= k < parse_with(s, admits)->Ok_0.1,
    ensures
        parse_with(s.take(k), admits) == Err::<(Frame, int), Failure>(Failure::NotComplete),
{
    lemma_parse_bounds(s, 0, MAX_DEPTH as nat);
    if k > 0 {
        assert(s.take(k)[0] == s[0]);
        lemma_parse_truncated(s, 0, MAX_DEPTH as nat, k);
    }
}

/// What follows a frame in the buffer does not change the frame: the same
/// frame of the same length is read when more bytes have arrived behind it.
pub proof fn lemma_later_bytes_ignored(s: Seq<u8>, admits: spec_fn(u8) -> bool, more: Seq<u8>)
    requires
        parse_with(s, admits) is Ok,
    ensures
        parse_with(s + more, admits) == parse_with(s, admits),
{
    let t = s + more;
    assert(t[0] == s[0]);
    lemma_parse_bounds(s, 0, MAX_DEPTH as nat);
    assert(same_up_to(s, t, parse(s)->Ok_0.1));
    lemma_parse_stable(s, t, 0, MAX_DEPTH as nat);
}

/// The pieces put together, first to last.
pub open spec fn joined(pieces: Seq<Seq<u8>>) -> Seq<u8>
    decreases pieces.len(),
{
    if pieces.len() == 0 {
        Seq::empty()
    } else {
        pieces[0] + joined(pieces.skip(1))
    }
}

/// What a reader gets that puts the pieces into the buffer one at a time and
/// tries to read a frame after each: the first answer that is not a request
/// for more bytes, or that request if the pieces run out.
pub open spec fn delivered(
    buffer: Seq<u8>,
    pieces: Seq<Seq<u8>>,
    admits: spec_fn(u8) -> bool,
) -> Result<(Frame, int), Failure>
    decreases pieces.len(),
{
    if pieces.len() == 0 {
        Err(Failure::NotComplete)
    } else {
        match parse_with(buffer + pieces[0], admits) {
            Err(Failure::NotComplete) => delivered(buffer + pieces[0], pieces.skip(1), admits),
            answer => answer,
        }
    }
}

/// Delivery in pieces: however the bytes of a frame are cut into pieces, a
/// reader that receives them one at a time, and tries again after each, gets
/// the frame that it would get from all the bytes at once.
pub proof fn lemma_delivery_in_pieces(
    buffer: Seq<u8>,
    pieces: Seq<Seq<u8>>,
    admits: spec_fn(u8) -> bool,
)
    requires
        pieces.len() > 0,
        parse_with(buffer + joined(pieces), admits) is Ok,
    ensures
        delivered(buffer, pieces, admits) == parse_with(buffer + joined(pieces), admits),
    decreases pieces.len(),
{
    let whole = buffer + joined(pieces);
    let grown = buffer + pieces[0];
    let rest = pieces.skip(1);
    let end = parse_with(whole, admits)->Ok_0.1;
    assert(whole =~= grown + joined(rest));
    lemma_parse_bounds(whole, 0, MAX_DEPTH as nat);
    if grown.len() >= end {
        assert(grown[0] == whole[0]);
        assert(same_up_to(whole, grown, end));
        lemma_parse_stable(whole, grown, 0, MAX_DEPTH as nat);
    } else {
        assert(whole.take(grown.len() as int) =~= grown);
        lemma_incremental_delivery(whole, admits, grown.len() as int);
        if rest.len() == 0 {
            assert(joined(rest) =~= Seq::<u8>::empty());
        }
        lemma_delivery_in_pieces(grown, rest, admits);
    }
}

/// A bulk string whose length line is complete but is no length is refused
/// at once, with the reason why the line is no length: the decoder does not
/// wait for more bytes.
pub proof fn lemma_bad_bulk_length_rejected(s: Seq<u8>)
    requires
        s.len() > 0,
        s[0] == DOLLAR,
        find_crlf(s, 1) is Some,
        parse_length(s.subrange(1, find_crlf(s, 1)->Some_0)) is Err,
    ensures
        parse(s) == Err::<(Frame, int), Failure>(
            parse_length(s.subrange(1, find_crlf(s, 1)->Some_0))->Err_0,
        ),
        parse(s) != Err::<(Frame, int), Failure>(Failure::NotComplete),
        parse(s)->Err_0 is ParseInt || parse(s)->Err_0 is InvalidFrameLength,
{
}

} // verus!
