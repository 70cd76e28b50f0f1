//! Reading back what was written: the bytes of a well-formed frame parse to
//! that frame, and to nothing beyond it.

use vstd::prelude::*;
use vstd::utf8::{encode_utf8, encode_utf8_decode_utf8, encode_utf8_valid_utf8};

use crate::ascii::{
    COLON, COMMA, CR, DOLLAR, HASH, LF, LOWER_F, LOWER_T, MINUS, ONE, PERCENT, PLUS, STAR, TILDE,
    UNDERSCORE,
};
use crate::digits::{decimal_text, int_text, lemma_int_text_bytes, lemma_parse_int_text};
use crate::entries::lemma_canonical_map_of_sorted;
use crate::error::Failure;
use crate::float_text::lemma_float_literal_bytes;
use crate::grammar::{
    parse_at, parse_bulk, parse_entries, parse_items, parse_key, parse_length, parse_text,
    parse_with, MAX_DEPTH,
};
use crate::line::{crlf, crlf_at, find_crlf, has_crlf, lemma_find_crlf_first};
use crate::model::{
    Frame, lemma_wire_opens_with_marker, line, marker_of, nested_within, text_fits_line,
    well_formed, wire, wire_entries, wire_items,
};

verus! {

/// The bytes `w` stand in `s` from `pos` on.
pub open spec fn has_at(s: Seq<u8>, pos: int, w: Seq<u8>) -> bool {
    &&& 0 <= pos
    &&& pos + w.len() <= s.len()
    &&& forall|i: int| 0 <= i < w.len() ==> s[pos + i] == #[trigger] w[i]
}

/// Where two runs of bytes stand one after the other, each of them stands.
proof fn lemma_has_at_split(s: Seq<u8>, pos: int, a: Seq<u8>, b: Seq<u8>)
    requires
        has_at(s, pos, a + b),
    ensures
        has_at(s, pos, a),
        has_at(s, pos + a.len(), b),
{
    let w = a + b;
    assert forall|i: int| 0 <= i < a.len() implies s[pos + i] == #[trigger] a[i] by {
        assert(w[i] == a[i]);
    }
    assert forall|i: int| 0 <= i < b.len() implies s[pos + a.len() + i] == #[trigger] b[i] by {
        assert(w[a.len() + i] == b[i]);
    }
}

/// Bytes that are neither a carriage return nor a line feed hold no line
/// terminator.
proof fn lemma_plain_bytes_fit_line(body: Seq<u8>)
    requires
        forall|j: int| 0 <= j < body.len() ==> #[trigger] body[j] != CR && body[j] != LF,
    ensures
        !has_crlf(body),
{
    assert forall|i: int| !crlf_at(body, i) by {
        if 0 <= i && i + 1 < body.len() {
            assert(body[i] != CR);
        }
    }
}

/// A line whose body holds no line terminator is found again: its marker
/// stands first, its terminator is the first one after the marker, and its
/// body is what stands between the two.
proof fn lemma_line_at(s: Seq<u8>, pos: int, marker: u8, body: Seq<u8>)
    requires
        has_at(s, pos, line(marker, body)),
        !has_crlf(body),
    ensures
        line(marker, body).len() == body.len() + 3,
        pos < s.len(),
        s[pos] == marker,
        find_crlf(s, pos + 1) == Some(pos + 1 + body.len()),
        s.subrange(pos + 1, pos + 1 + body.len()) == body,
{
    let w = line(marker, body);
    let end = pos + 1 + body.len();
    assert(w.len() == body.len() + 3);
    assert(w[0] == marker);
    let n = body.len() as int;
    assert(w[1 + n] == CR);
    assert(w[2 + n] == LF);
    assert(s[pos + 0] == w[0]);
    assert(s[pos + (1 + n)] == w[1 + n]);
    assert(s[pos + (2 + n)] == w[2 + n]);
    assert forall|i: int| 0 <= i < body.len() implies s[pos + 1 + i] == body[i] by {
        assert(w[1 + i] == body[i]);
        assert(s[pos + (1 + i)] == w[1 + i]);
    }
    assert(s.subrange(pos + 1, end) =~= body);
    assert forall|i: int| pos + 1 <= i < end implies !crlf_at(s, i) by {
        if i + 1 < end {
            assert(!crlf_at(body, i - (pos + 1)));
        } else {
            assert(s[i + 1] == CR);
        }
    }
    lemma_find_crlf_first(s, pos + 1, end);
}

/// The header of a frame that announces `n` is read back as `n`.
proof fn lemma_header_at(s: Seq<u8>, pos: int, marker: u8, n: nat)
    requires
        has_at(s, pos, line(marker, decimal_text(n))),
        n <= isize::MAX,
    ensures
        line(marker, decimal_text(n)).len() == decimal_text(n).len() + 3,
        pos < s.len(),
        s[pos] == marker,
        find_crlf(s, pos + 1) == Some(pos + 1 + decimal_text(n).len()),
        parse_length(s.subrange(pos + 1, pos + 1 + decimal_text(n).len())) == Ok::<int, Failure>(
            n as int,
        ),
{
    let body = decimal_text(n);
    lemma_int_text_bytes(n as int);
    assert(int_text(n as int) == body);
    lemma_plain_bytes_fit_line(body);
    lemma_line_at(s, pos, marker, body);
    lemma_parse_int_text(n as int, isize::MIN as int, isize::MAX as int);
}

/// The line of an absent frame is read back as the length -1.
proof fn lemma_absent_at(s: Seq<u8>, pos: int, marker: u8)
    requires
        has_at(s, pos, line(marker, seq![MINUS, ONE])),
    ensures
        line(marker, seq![MINUS, ONE]).len() == 5,
        pos < s.len(),
        s[pos] == marker,
        find_crlf(s, pos + 1) == Some(pos + 3),
        parse_length(s.subrange(pos + 1, pos + 3)) == Ok::<int, Failure>(-1),
{
    let body = seq![MINUS, ONE];
    assert(int_text(-1) =~= body) by {
        reveal_with_fuel(decimal_text, 2);
    }
    lemma_int_text_bytes(-1);
    lemma_plain_bytes_fit_line(body);
    lemma_line_at(s, pos, marker, body);
    lemma_parse_int_text(-1, isize::MIN as int, isize::MAX as int);
}

/// Text that fits a line is read back from its bytes.
proof fn lemma_text_at(text: Seq<char>)
    ensures
        parse_text(encode_utf8(text)) == Ok::<Seq<char>, Failure>(text),
{
    encode_utf8_valid_utf8(text);
    encode_utf8_decode_utf8(text);
}

/// The bytes of a well-formed frame, wherever they stand, parse to that frame
/// and end where its bytes end.
pub proof fn lemma_parse_wire(s: Seq<u8>, pos: int, f: Frame, depth: nat)
    requires
        well_formed(f),
        nested_within(f, depth),
        has_at(s, pos, wire(f)),
    ensures
        parse_at(s, pos, depth) == Ok::<(Frame, int), Failure>((f, pos + wire(f).len())),
    decreases f, 0nat,
{
    match f {
        Frame::SimpleString(text) => {
            lemma_line_at(s, pos, PLUS, encode_utf8(text));
            lemma_text_at(text);
        },
        Frame::Error(text) => {
            lemma_line_at(s, pos, MINUS, encode_utf8(text));
            lemma_text_at(text);
        },
        Frame::Integer(i) => {
            lemma_int_text_bytes(i as int);
            lemma_plain_bytes_fit_line(int_text(i as int));
            lemma_line_at(s, pos, COLON, int_text(i as int));
            lemma_parse_int_text(i as int, i64::MIN as int, i64::MAX as int);
        },
        Frame::BulkString(data) => {
            let header = line(DOLLAR, decimal_text(data.len()));
            assert(wire(f) =~= header + (data + crlf()));
            lemma_has_at_split(s, pos, header, data + crlf());
            lemma_header_at(s, pos, DOLLAR, data.len());
            let start = pos + header.len();
            lemma_has_at_split(s, start, data, crlf());
            assert(s[start + data.len() + 0] == crlf()[0]);
            assert(s[start + data.len() + 1] == crlf()[1]);
            assert(s.subrange(start, start + data.len()) =~= data);
            assert(parse_bulk(s, start, data.len() as int) == Ok::<(Frame, int), Failure>(
                (f, start + data.len() + 2),
            ));
        },
        Frame::NullBulkString => {
            lemma_absent_at(s, pos, DOLLAR);
        },
        Frame::Array(items) => {
            let header = line(STAR, decimal_text(items.len()));
            lemma_has_at_split(s, pos, header, wire_items(items, 0));
            lemma_header_at(s, pos, STAR, items.len());
            lemma_parse_wire_items(s, pos + header.len(), items, 0, (depth - 1) as nat);
            assert(items.skip(0) =~= items);
        },
        Frame::NullArray => {
            lemma_absent_at(s, pos, STAR);
        },
        Frame::Null => {
            lemma_plain_bytes_fit_line(Seq::<u8>::empty());
            lemma_line_at(s, pos, UNDERSCORE, Seq::<u8>::empty());
        },
        Frame::Boolean(b) => {
            let body = if b {
                seq![LOWER_T]
            } else {
                seq![LOWER_F]
            };
            lemma_plain_bytes_fit_line(body);
            lemma_line_at(s, pos, HASH, body);
            assert(seq![LOWER_T] != seq![LOWER_F]) by {
                assert(seq![LOWER_T][0] != seq![LOWER_F][0]);
            }
        },
        Frame::Double(text) => {
            lemma_float_literal_bytes(text);
            lemma_plain_bytes_fit_line(text);
            lemma_line_at(s, pos, COMMA, text);
        },
        Frame::RespMap(entries) => {
            let header = line(PERCENT, decimal_text(entries.len()));
            lemma_has_at_split(s, pos, header, wire_entries(entries, 0));
            lemma_header_at(s, pos, PERCENT, entries.len());
            lemma_parse_wire_entries(s, pos + header.len(), entries, 0, (depth - 1) as nat);
            assert(entries.skip(0) =~= entries);
            lemma_canonical_map_of_sorted(entries);
        },
        Frame::RespSet(items) => {
            let header = line(TILDE, decimal_text(items.len()));
            lemma_has_at_split(s, pos, header, wire_items(items, 0));
            lemma_header_at(s, pos, TILDE, items.len());
            lemma_parse_wire_items(s, pos + header.len(), items, 0, (depth - 1) as nat);
            assert(items.skip(0) =~= items);
        },
    }
}

/// The bytes of well-formed frames, one after the other, parse to those frames.
proof fn lemma_parse_wire_items(s: Seq<u8>, pos: int, items: Seq<Frame>, from: int, depth: nat)
    requires
        0 <= from <= items.len(),
        forall|i: int| 0 <= i < items.len() ==> well_formed(#[trigger] items[i]),
        forall|i: int| 0 <= i < items.len() ==> nested_within(#[trigger] items[i], depth),
        has_at(s, pos, wire_items(items, from)),
    ensures
        parse_items(s, pos, (items.len() - from) as nat, depth) == Ok::<(Seq<Frame>, int), Failure>(
            (items.skip(from), pos + wire_items(items, from).len()),
        ),
    decreases items, items.len() - from,
{
    if from < items.len() {
        let first = wire(items[from]);
        lemma_has_at_split(s, pos, first, wire_items(items, from + 1));
        lemma_parse_wire(s, pos, items[from], depth);
        lemma_parse_wire_items(s, pos + first.len(), items, from + 1, depth);
        assert(seq![items[from]] + items.skip(from + 1) =~= items.skip(from));
    } else {
        assert(items.skip(from) =~= Seq::<Frame>::empty());
    }
}

/// The bytes of well-formed map entries, one after the other, parse to those
/// entries.
proof fn lemma_parse_wire_entries(
    s: Seq<u8>,
    pos: int,
    entries: Seq<(Seq<char>, Frame)>,
    from: int,
    depth: nat,
)
    requires
        0 <= from <= entries.len(),
        forall|i: int|
            0 <= i < entries.len() ==> text_fits_line((#[trigger] entries[i]).0) && well_formed(
                entries[i].1,
            ),
        forall|i: int| 0 <= i < entries.len() ==> nested_within((#[trigger] entries[i]).1, depth),
        has_at(s, pos, wire_entries(entries, from)),
    ensures
        parse_entries(s, pos, (entries.len() - from) as nat, depth) == Ok::<
            (Seq<(Seq<char>, Frame)>, int),
            Failure,
        >((entries.skip(from), pos + wire_entries(entries, from).len())),
    decreases entries, entries.len() - from,
{
    if from < entries.len() {
        let key = entries[from].0;
        let value = entries[from].1;
        let key_line = line(PLUS, encode_utf8(key));
        let rest = wire_entries(entries, from + 1);
        assert(wire_entries(entries, from) =~= key_line + (wire(value) + rest));
        lemma_has_at_split(s, pos, key_line, wire(value) + rest);
        lemma_line_at(s, pos, PLUS, encode_utf8(key));
        lemma_text_at(key);
        assert(parse_key(s, pos) == Ok::<(Seq<char>, int), Failure>((key, pos + key_line.len())));
        let at_value = pos + key_line.len();
        lemma_has_at_split(s, at_value, wire(value), rest);
        lemma_parse_wire(s, at_value, value, depth);
        lemma_parse_wire_entries(s, at_value + wire(value).len(), entries, from + 1, depth);
        assert(seq![(key, value)] + entries.skip(from + 1) =~= entries.skip(from));
    } else {
        assert(entries.skip(from) =~= Seq::<(Seq<char>, Frame)>::empty());
    }
}

/// Round trip: the bytes of a well-formed frame whose containers are nested
/// no deeper than the decoder follows them are read back as that very frame,
/// and the frame takes up all of the bytes. This holds for every reader that
/// the frame's marker is meant for, and so for the reader of frames of any
/// kind.
pub proof fn lemma_round_trip(f: Frame, admits: spec_fn(u8) -> bool)
    requires
        well_formed(f),
        nested_within(f, MAX_DEPTH as nat),
        admits(marker_of(f)),
    ensures
        parse_with(wire(f), admits) == Ok::<(Frame, int), Failure>((f, wire(f).len() as int)),
{
    lemma_wire_opens_with_marker(f);
    lemma_parse_wire(wire(f), 0, f, MAX_DEPTH as nat);
}

} // verus!
