//! The encoder: from frames to bytes.

use vstd::prelude::*;

use crate::ascii::{
    COLON, COMMA, CR, DOLLAR, HASH, LF, LOWER_F, LOWER_T, MINUS, ONE, PERCENT, PLUS, STAR, TILDE,
    UNDERSCORE,
};
use crate::digits::{format_i64, format_u64};
use crate::frame::{
    AsFrame, BulkString, entries_view, frames_view, RespArray, RespDouble, RespFrame, RespNull,
    RespNullArray, RespNullBulkString, RespSet, SimpleError, SimpleString,
};
use crate::line::crlf;
use crate::map::RespMap;
use crate::model::{line, wire, wire_entries, wire_items};

verus! {

/// A value that has a form on the wire.
pub trait RespEncode: AsFrame {
    /// The bytes of the frame that the value stands for.
    fn encode(self) -> (r: Vec<u8>)
        ensures
            r@ == wire(self.as_frame()),
    ;
}

/// Appends a line terminator.
fn write_crlf(out: &mut Vec<u8>)
    ensures
        final(out)@ == old(out)@ + crlf(),
{
    out.push(CR);
    out.push(LF);
    assert(out@ =~= old(out)@ + crlf());
}

/// Appends a line: the marker, the body and the line terminator.
fn write_line(out: &mut Vec<u8>, marker: u8, body: &[u8])
    ensures
        final(out)@ == old(out)@ + line(marker, body@),
{
    out.push(marker);
    out.extend_from_slice(body);
    write_crlf(out);
    assert(out@ =~= old(out)@ + line(marker, body@));
}

/// Appends the header line of a frame that announces a length or a count.
fn write_header(out: &mut Vec<u8>, marker: u8, n: usize)
    ensures
        final(out)@ == old(out)@ + line(marker, crate::digits::decimal_text(n as nat)),
{
    let digits = format_u64(n as u64);
    write_line(out, marker, digits.as_slice());
}

/// Appends the line of an absent frame, whose length is written as -1.
fn write_absent(out: &mut Vec<u8>, marker: u8)
    ensures
        final(out)@ == old(out)@ + line(marker, seq![MINUS, ONE]),
{
    let mut body: Vec<u8> = Vec::new();
    body.push(MINUS);
    body.push(ONE);
    assert(body@ =~= seq![MINUS, ONE]);
    write_line(out, marker, body.as_slice());
}

/// Appends a bulk string.
fn write_bulk(out: &mut Vec<u8>, data: &[u8])
    ensures
        final(out)@ == old(out)@ + wire(crate::model::Frame::BulkString(data@)),
{
    write_header(out, DOLLAR, data.len());
    out.extend_from_slice(data);
    write_crlf(out);
    assert(out@ =~= old(out)@ + wire(crate::model::Frame::BulkString(data@)));
}

/// Appends a boolean.
fn write_bool(out: &mut Vec<u8>, b: bool)
    ensures
        final(out)@ == old(out)@ + wire(crate::model::Frame::Boolean(b)),
{
    let mut body: Vec<u8> = Vec::new();
    body.push(
        if b {
            LOWER_T
        } else {
            LOWER_F
        },
    );
    assert(body@ =~= if b {
        seq![LOWER_T]
    } else {
        seq![LOWER_F]
    });
    write_line(out, HASH, body.as_slice());
}

/// Appends an integer.
fn write_integer(out: &mut Vec<u8>, i: i64)
    ensures
        final(out)@ == old(out)@ + wire(crate::model::Frame::Integer(i)),
{
    let digits = format_i64(i);
    write_line(out, COLON, digits.as_slice());
}

/// Appends the frames of a container, one after the other.
fn write_items(out: &mut Vec<u8>, items: &Vec<RespFrame>)
    ensures
        final(out)@ == old(out)@ + wire_items(frames_view(items@), 0),
    decreases items,
{
    let ghost all = frames_view(items@);
    let mut i: usize = 0;
    while i < items.len()
        invariant
            i <= items.len(),
            all == frames_view(items@),
            old(out)@ + wire_items(all, 0) == out@ + wire_items(all, i as int),
        decreases items.len() - i,
    {
        let ghost before = out@;
        write_frame(out, &items[i]);
        proof {
            assert(all[i as int] == items[i as int]@);
            assert(before + wire_items(all, i as int) =~= out@ + wire_items(all, i + 1));
        }
        i += 1;
    }
    assert(out@ + wire_items(all, i as int) =~= out@);
}

/// Appends the entries of a map: each key as a simple string, then its value.
fn write_entries(out: &mut Vec<u8>, entries: &Vec<(String, RespFrame)>)
    ensures
        final(out)@ == old(out)@ + wire_entries(entries_view(entries@), 0),
    decreases entries,
{
    let ghost all = entries_view(entries@);
    let mut i: usize = 0;
    while i < entries.len()
        invariant
            i <= entries.len(),
            all == entries_view(entries@),
            old(out)@ + wire_entries(all, 0) == out@ + wire_entries(all, i as int),
        decreases entries.len() - i,
    {
        let ghost before = out@;
        write_line(out, PLUS, entries[i].0.as_str().as_bytes());
        write_frame(out, &entries[i].1);
        proof {
            assert(all[i as int] == (entries[i as int].0@, entries[i as int].1@));
            assert(before + wire_entries(all, i as int) =~= out@ + wire_entries(all, i + 1));
        }
        i += 1;
    }
    assert(out@ + wire_entries(all, i as int) =~= out@);
}

/// Appends one frame.
pub(crate) fn write_frame(out: &mut Vec<u8>, frame: &RespFrame)
    ensures
        final(out)@ == old(out)@ + wire(frame@),
    decreases frame,
{
    match frame {
        RespFrame::SimpleString(s) => write_line(out, PLUS, s.0.as_str().as_bytes()),
        RespFrame::Error(e) => write_line(out, MINUS, e.0.as_str().as_bytes()),
        RespFrame::Integer(i) => write_integer(out, *i),
        RespFrame::BulkString(b) => write_bulk(out, b.0.as_slice()),
        RespFrame::NullBulkString(_) => write_absent(out, DOLLAR),
        RespFrame::Array(a) => {
            write_header(out, STAR, a.0.len());
            write_items(out, &a.0);
            assert(out@ =~= old(out)@ + wire(frame@));
        },
        RespFrame::NullArray(_) => write_absent(out, STAR),
        RespFrame::Null(_) => {
            let body: Vec<u8> = Vec::new();
            write_line(out, UNDERSCORE, body.as_slice());
        },
        RespFrame::Boolean(b) => write_bool(out, *b),
        RespFrame::Double(d) => write_line(out, COMMA, d.0.as_slice()),
        RespFrame::RespMap(m) => {
            write_header(out, PERCENT, m.0.len());
            write_entries(out, &m.0);
            assert(out@ =~= old(out)@ + wire(frame@));
        },
        RespFrame::RespSet(s) => {
            write_header(out, TILDE, s.0.len());
            write_items(out, &s.0);
            assert(out@ =~= old(out)@ + wire(frame@));
        },
    }
}

/// The bytes of one frame.
pub(crate) fn encode_frame(frame: &RespFrame) -> (r: Vec<u8>)
    ensures
        r@ == wire(frame@),
{
    let mut out: Vec<u8> = Vec::new();
    write_frame(&mut out, frame);
    assert(Seq::<u8>::empty() + wire(frame@) =~= wire(frame@));
    out
}

impl RespEncode for RespFrame {
    fn encode(self) -> (r: Vec<u8>) {
        encode_frame(&self)
    }
}

impl RespEncode for SimpleString {
    fn encode(self) -> (r: Vec<u8>) {
        encode_frame(&RespFrame::SimpleString(self))
    }
}

impl RespEncode for SimpleError {
    fn encode(self) -> (r: Vec<u8>) {
        encode_frame(&RespFrame::Error(self))
    }
}

impl RespEncode for i64 {
    fn encode(self) -> (r: Vec<u8>) {
        encode_frame(&RespFrame::Integer(self))
    }
}

impl RespEncode for BulkString {
    fn encode(self) -> (r: Vec<u8>) {
        encode_frame(&RespFrame::BulkString(self))
    }
}

impl RespEncode for RespNullBulkString {
    fn encode(self) -> (r: Vec<u8>) {
        encode_frame(&RespFrame::NullBulkString(self))
    }
}

impl RespEncode for RespArray {
    fn encode(self) -> (r: Vec<u8>) {
        encode_frame(&RespFrame::Array(self))
    }
}

impl RespEncode for RespNullArray {
    fn encode(self) -> (r: Vec<u8>) {
        encode_frame(&RespFrame::NullArray(self))
    }
}

impl RespEncode for RespNull {
    fn encode(self) -> (r: Vec<u8>) {
        encode_frame(&RespFrame::Null(self))
    }
}

impl RespEncode for bool {
    fn encode(self) -> (r: Vec<u8>) {
        encode_frame(&RespFrame::Boolean(self))
    }
}

impl RespEncode for RespDouble {
    fn encode(self) -> (r: Vec<u8>) {
        encode_frame(&RespFrame::Double(self))
    }
}

impl RespEncode for RespMap {
    fn encode(self) -> (r: Vec<u8>) {
        encode_frame(&RespFrame::RespMap(self))
    }
}

impl RespEncode for RespSet {
    fn encode(self) -> (r: Vec<u8>) {
        encode_frame(&RespFrame::RespSet(self))
    }
}

} // verus!
