//! The mathematical value of a frame and its form on the wire.

use vstd::prelude::*;
use vstd::utf8::encode_utf8;

use crate::ascii::{
    COLON, COMMA, DOLLAR, HASH, LOWER_F, LOWER_T, MINUS, ONE, PERCENT, PLUS, STAR, TILDE,
    UNDERSCORE,
};
use crate::digits::{decimal_text, int_text};
use crate::entries::sorted_keys;
use crate::float_text::is_float_literal;
use crate::line::{crlf, has_crlf};

verus! {

/// One protocol value, as contracts speak of it: text is a sequence of
/// characters, raw data a sequence of bytes, a container a sequence of values.
pub enum Frame {
    /// A line of text.
    SimpleString(Seq<char>),
    /// A line of text that reports a failure.
    Error(Seq<char>),
    /// A signed 64-bit integer.
    Integer(i64),
    /// A string of arbitrary bytes.
    BulkString(Seq<u8>),
    /// The bulk string that is absent.
    NullBulkString,
    /// A sequence of values.
    Array(Seq<Frame>),
    /// The array that is absent.
    NullArray,
    /// The null value.
    Null,
    /// A truth value.
    Boolean(bool),
    /// A floating-point number, as the text of its literal.
    Double(Seq<u8>),
    /// Keys with their values, in the order in which they are kept.
    RespMap(Seq<(Seq<char>, Frame)>),
    /// A sequence of values whose order carries no meaning.
    RespSet(Seq<Frame>),
}

/// A line: a marker byte, a body, and the line terminator.
pub open spec fn line(marker: u8, body: Seq<u8>) -> Seq<u8> {
    seq![marker] + body + crlf()
}

/// The bytes of one frame on the wire.
pub open spec fn wire(f: Frame) -> Seq<u8>
    decreases f, 0nat,
{
    match f {
        Frame::SimpleString(text) => line(PLUS, encode_utf8(text)),
        Frame::Error(text) => line(MINUS, encode_utf8(text)),
        Frame::Integer(i) => line(COLON, int_text(i as int)),
        Frame::BulkString(data) => line(DOLLAR, decimal_text(data.len())) + data + crlf(),
        Frame::NullBulkString => line(DOLLAR, seq![MINUS, ONE]),
        Frame::Array(items) => line(STAR, decimal_text(items.len())) + wire_items(items, 0),
        Frame::NullArray => line(STAR, seq![MINUS, ONE]),
        Frame::Null => line(UNDERSCORE, Seq::empty()),
        Frame::Boolean(b) => line(
            HASH,
            if b {
                seq![LOWER_T]
            } else {
                seq![LOWER_F]
            },
        ),
        Frame::Double(text) => line(COMMA, text),
        Frame::RespMap(entries) => line(PERCENT, decimal_text(entries.len())) + wire_entries(
            entries,
            0,
        ),
        Frame::RespSet(items) => line(TILDE, decimal_text(items.len())) + wire_items(items, 0),
    }
}

/// The bytes of the frames from index `from` on, one after the other.
pub open spec fn wire_items(items: Seq<Frame>, from: int) -> Seq<u8>
    decreases items, items.len() - from,
{
    if 0 <= from < items.len() {
        wire(items[from]) + wire_items(items, from + 1)
    } else {
        Seq::empty()
    }
}

/// The bytes of the map entries from index `from` on: each key as a simple
/// string, followed by its value.
pub open spec fn wire_entries(entries: Seq<(Seq<char>, Frame)>, from: int) -> Seq<u8>
    decreases entries, entries.len() - from,
{
    if 0 <= from < entries.len() {
        line(PLUS, encode_utf8(entries[from].0)) + wire(entries[from].1) + wire_entries(
            entries,
            from + 1,
        )
    } else {
        Seq::empty()
    }
}

/// Text that can stand in a line: its bytes hold no line terminator.
pub open spec fn text_fits_line(text: Seq<char>) -> bool {
    !has_crlf(encode_utf8(text))
}

/// A frame that the wire can carry and give back: text holds no line
/// terminator, a double is a floating-point literal, the keys of a map are in
/// order, and no length is above the largest that a header can announce.
pub open spec fn well_formed(f: Frame) -> bool
    decreases f,
{
    match f {
        Frame::SimpleString(text) => text_fits_line(text),
        Frame::Error(text) => text_fits_line(text),
        Frame::BulkString(data) => data.len() <= isize::MAX,
        Frame::Array(items) => items.len() <= isize::MAX && forall|i: int|
            0 <= i < items.len() ==> well_formed(#[trigger] items[i]),
        Frame::Double(text) => is_float_literal(text),
        Frame::RespMap(entries) => entries.len() <= isize::MAX && sorted_keys(entries) && forall|
            i: int,
        |
            0 <= i < entries.len() ==> text_fits_line((#[trigger] entries[i]).0) && well_formed(
                entries[i].1,
            ),
        Frame::RespSet(items) => items.len() <= isize::MAX && forall|i: int|
            0 <= i < items.len() ==> well_formed(#[trigger] items[i]),
        _ => true,
    }
}

/// No frame lies inside more than `depth` containers, the frame itself
/// counted where it is one.
pub open spec fn nested_within(f: Frame, depth: nat) -> bool
    decreases f,
{
    match f {
        Frame::Array(items) => depth > 0 && forall|i: int|
            0 <= i < items.len() ==> nested_within(#[trigger] items[i], (depth - 1) as nat),
        Frame::RespMap(entries) => depth > 0 && forall|i: int|
            0 <= i < entries.len() ==> nested_within(
                (#[trigger] entries[i]).1,
                (depth - 1) as nat,
            ),
        Frame::RespSet(items) => depth > 0 && forall|i: int|
            0 <= i < items.len() ==> nested_within(#[trigger] items[i], (depth - 1) as nat),
        _ => true,
    }
}

/// The byte that opens the frame on the wire.
pub open spec fn marker_of(f: Frame) -> u8 {
    match f {
        Frame::SimpleString(_) => PLUS,
        Frame::Error(_) => MINUS,
        Frame::Integer(_) => COLON,
        Frame::BulkString(_) => DOLLAR,
        Frame::NullBulkString => DOLLAR,
        Frame::Array(_) => STAR,
        Frame::NullArray => STAR,
        Frame::Null => UNDERSCORE,
        Frame::Boolean(_) => HASH,
        Frame::Double(_) => COMMA,
        Frame::RespMap(_) => PERCENT,
        Frame::RespSet(_) => TILDE,
    }
}

/// The bytes of a frame open with its marker.
pub proof fn lemma_wire_opens_with_marker(f: Frame)
    ensures
        wire(f).len() >= 3,
        wire(f)[0] == marker_of(f),
{
}

} // verus!
