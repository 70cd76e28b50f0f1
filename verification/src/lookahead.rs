//! The length that a frame announces, against the frame itself: a frame that
//! is read has the length that was expected, and a frame whose expected
//! length is covered by the bytes is never asked for again.

use vstd::prelude::*;

use crate::ascii::{DOLLAR, PERCENT};
use crate::error::Failure;
use crate::grammar::{
    expected_end, expected_items_end, expected_length, is_container_marker, parse_at, parse_entries,
    parse_items, parse_key, parse_length, parse_with, MAX_DEPTH,
};
use crate::line::{find_crlf, lemma_find_crlf};
use crate::model::Frame;
use crate::streaming::{lemma_parse_bounds, lemma_parse_key_bounds};

verus! {

/// A frame that is read ends where its header lines said it would.
pub proof fn lemma_parsed_end_expected(s: Seq<u8>, pos: int, depth: nat)
    requires
        s.len() <= usize::MAX,
        parse_at(s, pos, depth) is Ok,
    ensures
        expected_end(s, pos, depth) == Ok::<int, Failure>(parse_at(s, pos, depth)->Ok_0.1),
    decreases depth, 0nat,
{
    lemma_parse_bounds(s, pos, depth);
    lemma_find_crlf(s, pos + 1);
    let end = find_crlf(s, pos + 1)->Some_0;
    let marker = s[pos];
    let body = s.subrange(pos + 1, end);
    let next = end + 2;
    if marker == DOLLAR {
    } else if is_container_marker(marker) {
        let n = parse_length(body)->Ok_0;
        if n != -1 {
            if marker == PERCENT {
                lemma_parsed_entries_end_expected(s, next, n as nat, (depth - 1) as nat);
            } else {
                lemma_parsed_items_end_expected(s, next, n as nat, (depth - 1) as nat);
            }
        }
    } else {
    }
}

/// A run of frames that is read ends where the header lines said it would.
pub proof fn lemma_parsed_items_end_expected(s: Seq<u8>, pos: int, count: nat, depth: nat)
    requires
        s.len() <= usize::MAX,
        0 <= pos <= s.len(),
        parse_items(s, pos, count, depth) is Ok,
    ensures
        expected_items_end(s, pos, count, depth) == Ok::<int, Failure>(
            parse_items(s, pos, count, depth)->Ok_0.1,
        ),
    decreases depth, count + 1,
{
    if count > 0 {
        lemma_parse_bounds(s, pos, depth);
        lemma_parsed_end_expected(s, pos, depth);
        let next = parse_at(s, pos, depth)->Ok_0.1;
        lemma_parsed_items_end_expected(s, next, (count - 1) as nat, depth);
    }
}

/// A run of map entries that is read ends where the header lines said it
/// would, each entry counted as two frames.
pub proof fn lemma_parsed_entries_end_expected(s: Seq<u8>, pos: int, count: nat, depth: nat)
    requires
        s.len() <= usize::MAX,
        0 <= pos <= s.len(),
        parse_entries(s, pos, count, depth) is Ok,
    ensures
        expected_items_end(s, pos, 2 * count, depth) == Ok::<int, Failure>(
            parse_entries(s, pos, count, depth)->Ok_0.1,
        ),
    decreases depth, count + 1,
{
    if count > 0 {
        lemma_parse_key_bounds(s, pos);
        let at_value = parse_key(s, pos)->Ok_0.1;
        assert(expected_end(s, pos, depth) == Ok::<int, Failure>(at_value));
        lemma_parse_bounds(s, at_value, depth);
        lemma_parsed_end_expected(s, at_value, depth);
        let next = parse_at(s, at_value, depth)->Ok_0.1;
        lemma_parsed_entries_end_expected(s, next, (count - 1) as nat, depth);
        assert(expected_items_end(s, pos, 2 * count, depth) == expected_items_end(
            s,
            at_value,
            (2 * count - 1) as nat,
            depth,
        ));
        assert(expected_items_end(s, at_value, (2 * count - 1) as nat, depth)
            == expected_items_end(s, next, (2 * (count - 1)) as nat, depth));
    }
}

/// The length that is expected of a frame is the length of the frame that is
/// then read.
pub proof fn lemma_expected_length_of_frame(s: Seq<u8>, admits: spec_fn(u8) -> bool)
    requires
        s.len() <= usize::MAX,
        parse_with(s, admits) is Ok,
    ensures
        expected_length(s, admits) == Ok::<int, Failure>(parse_with(s, admits)->Ok_0.1),
{
    lemma_parsed_end_expected(s, 0, MAX_DEPTH as nat);
}

/// An expected end lies after the place where the frame starts.
proof fn lemma_expected_end_bounds(s: Seq<u8>, pos: int, depth: nat)
    requires
        expected_end(s, pos, depth) is Ok,
    ensures
        pos < expected_end(s, pos, depth)->Ok_0,
    decreases depth, 0nat,
{
    lemma_find_crlf(s, pos + 1);
    let end = find_crlf(s, pos + 1)->Some_0;
    let marker = s[pos];
    let next = end + 2;
    if marker == DOLLAR || is_container_marker(marker) {
        let n = parse_length(s.subrange(pos + 1, end))->Ok_0;
        if n != -1 && marker != DOLLAR {
            if marker == PERCENT {
                lemma_expected_items_end_bounds(s, next, (2 * n) as nat, (depth - 1) as nat);
            } else {
                lemma_expected_items_end_bounds(s, next, n as nat, (depth - 1) as nat);
            }
        }
    }
}

/// The expected end of a run of frames lies at or after its start.
proof fn lemma_expected_items_end_bounds(s: Seq<u8>, pos: int, count: nat, depth: nat)
    requires
        expected_items_end(s, pos, count, depth) is Ok,
    ensures
        pos <= expected_items_end(s, pos, count, depth)->Ok_0,
    decreases depth, count + 1,
{
    if count > 0 {
        lemma_expected_end_bounds(s, pos, depth);
        let next = expected_end(s, pos, depth)->Ok_0;
        lemma_expected_items_end_bounds(s, next, (count - 1) as nat, depth);
    }
}

/// Once the bytes reach the expected end of a frame, reading it gives the
/// frame or the reason why it is malformed, and never a request for more.
pub proof fn lemma_covered_frame_decided(s: Seq<u8>, pos: int, depth: nat)
    requires
        s.len() <= usize::MAX,
        expected_end(s, pos, depth) is Ok,
        expected_end(s, pos, depth)->Ok_0 <= s.len(),
    ensures
        parse_at(s, pos, depth) != Err::<(Frame, int), Failure>(Failure::NotComplete),
    decreases depth, 0nat,
{
    lemma_find_crlf(s, pos + 1);
    let end = find_crlf(s, pos + 1)->Some_0;
    let marker = s[pos];
    let next = end + 2;
    if marker == DOLLAR {
    } else if is_container_marker(marker) {
        let n = parse_length(s.subrange(pos + 1, end))->Ok_0;
        if n != -1 {
            if marker == PERCENT {
                lemma_covered_entries_decided(s, next, n as nat, (depth - 1) as nat);
            } else {
                lemma_covered_items_decided(s, next, n as nat, (depth - 1) as nat);
            }
        }
    } else {
    }
}

/// Once the bytes reach the expected end of a run of frames, reading the run
/// never asks for more bytes.
pub proof fn lemma_covered_items_decided(s: Seq<u8>, pos: int, count: nat, depth: nat)
    requires
        s.len() <= usize::MAX,
        0 <= pos,
        expected_items_end(s, pos, count, depth) is Ok,
        expected_items_end(s, pos, count, depth)->Ok_0 <= s.len(),
    ensures
        parse_items(s, pos, count, depth) != Err::<(Seq<Frame>, int), Failure>(
            Failure::NotComplete,
        ),
    decreases depth, count + 1,
{
    if count > 0 {
        let next = expected_end(s, pos, depth)->Ok_0;
        lemma_expected_end_bounds(s, pos, depth);
        lemma_expected_items_end_bounds(s, next, (count - 1) as nat, depth);
        lemma_covered_frame_decided(s, pos, depth);
        if parse_at(s, pos, depth) is Ok {
            lemma_parsed_end_expected(s, pos, depth);
            lemma_covered_items_decided(s, next, (count - 1) as nat, depth);
        }
    }
}

/// Once the bytes reach the expected end of a run of map entries, reading
/// the run never asks for more bytes.
pub proof fn lemma_covered_entries_decided(s: Seq<u8>, pos: int, count: nat, depth: nat)
    requires
        s.len() <= usize::MAX,
        0 <= pos,
        expected_items_end(s, pos, 2 * count, depth) is Ok,
        expected_items_end(s, pos, 2 * count, depth)->Ok_0 <= s.len(),
    ensures
        parse_entries(s, pos, count, depth) != Err::<(Seq<(Seq<char>, Frame)>, int), Failure>(
            Failure::NotComplete,
        ),
    decreases depth, count + 1,
{
    if count > 0 {
        let at_value = expected_end(s, pos, depth)->Ok_0;
        assert(expected_items_end(s, pos, 2 * count, depth) == expected_items_end(
            s,
            at_value,
            (2 * count - 1) as nat,
            depth,
        ));
        let next = expected_end(s, at_value, depth)->Ok_0;
        assert(expected_items_end(s, at_value, (2 * count - 1) as nat, depth)
            == expected_items_end(s, next, (2 * (count - 1)) as nat, depth));
        lemma_expected_end_bounds(s, pos, depth);
        lemma_expected_end_bounds(s, at_value, depth);
        lemma_expected_items_end_bounds(s, next, (2 * (count - 1)) as nat, depth);
        lemma_find_crlf(s, pos + 1);
        if parse_key(s, pos) is Ok {
            lemma_parse_key_bounds(s, pos);
            assert(parse_key(s, pos)->Ok_0.1 == at_value);
            lemma_covered_frame_decided(s, at_value, depth);
            if parse_at(s, at_value, depth) is Ok {
                lemma_parsed_end_expected(s, at_value, depth);
                lemma_covered_entries_decided(s, next, (count - 1) as nat, depth);
            }
        }
    }
}

/// A look at the expected length tells whether a frame is there to be read:
/// once the buffer holds that many bytes, the decoder gives the frame or says
/// why it is malformed, and does not ask for more bytes.
pub proof fn lemma_expected_length_covered(s: Seq<u8>, admits: spec_fn(u8) -> bool)
    requires
        s.len() <= usize::MAX,
        expected_length(s, admits) is Ok,
        expected_length(s, admits)->Ok_0 <= s.len(),
    ensures
        parse_with(s, admits) != Err::<(Frame, int), Failure>(Failure::NotComplete),
{
    lemma_covered_frame_decided(s, 0, MAX_DEPTH as nat);
}

} // verus!
