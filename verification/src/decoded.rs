//! What the decoder returns can be written and read back: every frame that
//! is read is well-formed and nested no deeper than the decoder went.

use vstd::prelude::*;
use vstd::utf8::decode_utf8_encode_utf8;

use crate::ascii::{DOLLAR, MINUS, PERCENT, PLUS};
use crate::entries::{canonical_map, lemma_canonical_map_members, lemma_canonical_map_sorted};
use crate::error::Failure;
use crate::grammar::{
    is_container_marker, parse_at, parse_entries, parse_items, parse_key, parse_length, parse_with,
    MAX_DEPTH,
};
use crate::line::{crlf_at, find_crlf, has_crlf, lemma_find_crlf};
use crate::model::{Frame, marker_of, nested_within, text_fits_line, well_formed, wire};
use crate::roundtrip::lemma_round_trip;
use crate::streaming::{lemma_parse_bounds, lemma_parse_key_bounds};

verus! {

/// The body of a line holds no line terminator.
proof fn lemma_body_fits_line(s: Seq<u8>, pos: int)
    requires
        0 <= pos,
        find_crlf(s, pos + 1) is Some,
    ensures
        !has_crlf(s.subrange(pos + 1, find_crlf(s, pos + 1)->Some_0)),
{
    lemma_find_crlf(s, pos + 1);
    let end = find_crlf(s, pos + 1)->Some_0;
    let body = s.subrange(pos + 1, end);
    assert forall|i: int| !crlf_at(body, i) by {
        if crlf_at(body, i) {
            assert(body[i] == s[pos + 1 + i]);
            assert(body[i + 1] == s[pos + 1 + i + 1]);
            assert(crlf_at(s, pos + 1 + i));
        }
    }
}

/// Whatever is read is well-formed and nested within the depth that was
/// allowed.
pub proof fn lemma_parsed_frame_well_formed(s: Seq<u8>, pos: int, depth: nat)
    requires
        parse_at(s, pos, depth) is Ok,
    ensures
        well_formed(parse_at(s, pos, depth)->Ok_0.0),
        nested_within(parse_at(s, pos, depth)->Ok_0.0, depth),
    decreases depth, 0nat,
{
    lemma_parse_bounds(s, pos, depth);
    lemma_find_crlf(s, pos + 1);
    lemma_body_fits_line(s, pos);
    let end = find_crlf(s, pos + 1)->Some_0;
    let marker = s[pos];
    let body = s.subrange(pos + 1, end);
    let next = end + 2;
    if marker == DOLLAR {
    } else if is_container_marker(marker) {
        let n = parse_length(body)->Ok_0;
        if n != -1 {
            if marker == PERCENT {
                lemma_parsed_entries_well_formed(s, next, n as nat, (depth - 1) as nat);
                let pairs = parse_entries(s, next, n as nat, (depth - 1) as nat)->Ok_0.0;
                lemma_canonical_map_sorted(pairs);
                lemma_canonical_map_members(pairs);
                let entries = canonical_map(pairs);
                assert forall|i: int| 0 <= i < entries.len() implies text_fits_line(
                    (#[trigger] entries[i]).0,
                ) && well_formed(entries[i].1) && nested_within(
                    entries[i].1,
                    (depth - 1) as nat,
                ) by {
                    let j = choose|j: int| 0 <= j < pairs.len() && entries[i] == pairs[j];
                    assert(text_fits_line(pairs[j].0));
                }
            } else {
                lemma_parsed_items_well_formed(s, next, n as nat, (depth - 1) as nat);
            }
        }
    } else if marker == PLUS || marker == MINUS {
        decode_utf8_encode_utf8(body);
    } else {
    }
}

/// Whatever frames are read in a run are as many as were asked for, and each
/// is well-formed and nested within the depth that was allowed.
pub proof fn lemma_parsed_items_well_formed(s: Seq<u8>, pos: int, count: nat, depth: nat)
    requires
        parse_items(s, pos, count, depth) is Ok,
    ensures
        parse_items(s, pos, count, depth)->Ok_0.0.len() == count,
        forall|i: int|
            0 <= i < count ==> well_formed(#[trigger] parse_items(s, pos, count, depth)->Ok_0.0[i])
                && nested_within(parse_items(s, pos, count, depth)->Ok_0.0[i], depth),
    decreases depth, count + 1,
{
    if count > 0 {
        lemma_parsed_frame_well_formed(s, pos, depth);
        let first = parse_at(s, pos, depth)->Ok_0.0;
        let next = parse_at(s, pos, depth)->Ok_0.1;
        lemma_parsed_items_well_formed(s, next, (count - 1) as nat, depth);
        let rest = parse_items(s, next, (count - 1) as nat, depth)->Ok_0.0;
        let items = parse_items(s, pos, count, depth)->Ok_0.0;
        assert(items == seq![first] + rest);
        assert forall|i: int| 0 <= i < count implies well_formed(#[trigger] items[i])
            && nested_within(items[i], depth) by {
            if i > 0 {
                assert(items[i] == rest[i - 1]);
            }
        }
    }
}

/// Whatever entries are read in a run are as many as were asked for, each
/// with a key that fits a line and a value that is well-formed and nested
/// within the depth that was allowed.
pub proof fn lemma_parsed_entries_well_formed(s: Seq<u8>, pos: int, count: nat, depth: nat)
    requires
        parse_entries(s, pos, count, depth) is Ok,
    ensures
        parse_entries(s, pos, count, depth)->Ok_0.0.len() == count,
        forall|i: int|
            0 <= i < count ==> text_fits_line(
                (#[trigger] parse_entries(s, pos, count, depth)->Ok_0.0[i]).0,
            ) && well_formed(parse_entries(s, pos, count, depth)->Ok_0.0[i].1) && nested_within(
                parse_entries(s, pos, count, depth)->Ok_0.0[i].1,
                depth,
            ),
    decreases depth, count + 1,
{
    if count > 0 {
        lemma_parse_key_bounds(s, pos);
        lemma_body_fits_line(s, pos);
        let end = find_crlf(s, pos + 1)->Some_0;
        decode_utf8_encode_utf8(s.subrange(pos + 1, end));
        let key = parse_key(s, pos)->Ok_0.0;
        let at_value = parse_key(s, pos)->Ok_0.1;
        lemma_parsed_frame_well_formed(s, at_value, depth);
        let value = parse_at(s, at_value, depth)->Ok_0.0;
        let next = parse_at(s, at_value, depth)->Ok_0.1;
        lemma_parsed_entries_well_formed(s, next, (count - 1) as nat, depth);
        let rest = parse_entries(s, next, (count - 1) as nat, depth)->Ok_0.0;
        let pairs = parse_entries(s, pos, count, depth)->Ok_0.0;
        assert(pairs == seq![(key, value)] + rest);
        assert forall|i: int| 0 <= i < count implies text_fits_line((#[trigger] pairs[i]).0)
            && well_formed(pairs[i].1) && nested_within(pairs[i].1, depth) by {
            if i > 0 {
                assert(pairs[i] == rest[i - 1]);
            }
        }
    }
}

/// A frame that is read opens with its marker. The one exception is the
/// absent array, which is written under the marker of an array and is read
/// under the marker of a map or a set as well.
pub proof fn lemma_parsed_marker(s: Seq<u8>, pos: int, depth: nat)
    requires
        parse_at(s, pos, depth) is Ok,
    ensures
        s[pos] == marker_of(parse_at(s, pos, depth)->Ok_0.0) || (parse_at(
            s,
            pos,
            depth,
        )->Ok_0.0 is NullArray && is_container_marker(s[pos])),
{
}

/// A frame that was read, written again and read again is the same frame:
/// the decoder returns only what the encoder can carry. This holds for every
/// reader that takes the marker under which the frame is written, and so for
/// the reader of frames of any kind.
pub proof fn lemma_decoded_frame_round_trips(s: Seq<u8>, admits: spec_fn(u8) -> bool)
    requires
        parse_with(s, admits) is Ok,
        admits(marker_of(parse_with(s, admits)->Ok_0.0)),
    ensures
        well_formed(parse_with(s, admits)->Ok_0.0),
        nested_within(parse_with(s, admits)->Ok_0.0, MAX_DEPTH as nat),
        parse_with(wire(parse_with(s, admits)->Ok_0.0), admits) == Ok::<(Frame, int), Failure>(
            (parse_with(s, admits)->Ok_0.0, wire(parse_with(s, admits)->Ok_0.0).len() as int),
        ),
{
    let f = parse_with(s, admits)->Ok_0.0;
    lemma_parsed_frame_well_formed(s, 0, MAX_DEPTH as nat);
    lemma_round_trip(f, admits);
}

} // verus!
