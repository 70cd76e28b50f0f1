//! The decoder: from bytes to frames.

use bytes::BytesMut;
use vstd::prelude::*;
use vstd::slice::{slice_subrange, slice_to_vec};

use crate::ascii::{
    COLON, COMMA, DOLLAR, HASH, LOWER_F, LOWER_T, MINUS, PERCENT, PLUS, STAR, TILDE, UNDERSCORE,
};
use crate::buffer::{buffer_advance, buffer_bytes, buffered};
use crate::digits::{parse_i64, parse_isize};
use crate::entries::canonical_map;
use crate::error::{Failure, RespError};
use crate::frame::{
    AsFrame, BulkString, frames_view, RespArray, RespDouble, RespFrame, RespNull, RespNullArray,
    RespNullBulkString, RespSet, SimpleError, SimpleString,
};
use crate::grammar::{
    expected_end, expected_items_end, expected_length, is_marker, parse_at, parse_bulk,
    parse_entries, parse_items, parse_key, parse_length, parse_scalar, parse_text, parse_with,
    prefix_admits, MAX_DEPTH,
};
use crate::line::first_crlf;
use crate::map::RespMap;
use crate::model::Frame;
use crate::text::string_from_utf8;

verus! {

/// The text between `from` and `to`, if it is UTF-8.
fn read_text(data: &[u8], from: usize, to: usize) -> (r: Result<String, RespError>)
    requires
        from <= to <= data.len(),
    ensures
        match parse_text(data@.subrange(from as int, to as int)) {
            Ok(text) => r matches Ok(s) && s@ == text,
            Err(e) => r matches Err(x) && x@ == e,
        },
{
    let bytes = slice_to_vec(slice_subrange(data, from, to));
    match string_from_utf8(bytes) {
        Some(s) => Ok(s),
        None => Err(RespError::InvalidFrame("text is not valid UTF-8".to_string())),
    }
}

/// Whether a byte opens a frame.
fn is_marker_byte(b: u8) -> (r: bool)
    ensures
        r == is_marker(b),
{
    b == PLUS || b == MINUS || b == COLON || b == DOLLAR || b == STAR || b == UNDERSCORE || b
        == HASH || b == COMMA || b == PERCENT || b == TILDE
}

/// The frame that one line holds.
fn read_scalar(data: &[u8], marker: u8, from: usize, to: usize) -> (r: Result<
    RespFrame,
    RespError,
>)
    requires
        from <= to <= data.len(),
    ensures
        match parse_scalar(marker, data@.subrange(from as int, to as int)) {
            Ok(f) => r matches Ok(g) && g@ == f,
            Err(e) => r matches Err(x) && x@ == e,
        },
{
    let body = slice_subrange(data, from, to);
    if marker == PLUS {
        match read_text(data, from, to) {
            Ok(s) => Ok(RespFrame::SimpleString(SimpleString(s))),
            Err(e) => Err(e),
        }
    } else if marker == MINUS {
        match read_text(data, from, to) {
            Ok(s) => Ok(RespFrame::Error(SimpleError(s))),
            Err(e) => Err(e),
        }
    } else if marker == COLON {
        match parse_i64(body) {
            Ok(i) => Ok(RespFrame::Integer(i)),
            Err(k) => Err(RespError::ParseIntError(k)),
        }
    } else if marker == HASH {
        if body.len() == 1 && body[0] == LOWER_T {
            assert(body@ =~= seq![LOWER_T]);
            Ok(RespFrame::Boolean(true))
        } else if body.len() == 1 && body[0] == LOWER_F {
            assert(body@ =~= seq![LOWER_F]);
            Ok(RespFrame::Boolean(false))
        } else {
            assert(seq![LOWER_T].len() == 1 && seq![LOWER_T][0] == LOWER_T);
            assert(seq![LOWER_F].len() == 1 && seq![LOWER_F][0] == LOWER_F);
            Err(RespError::InvalidFrame("a boolean is either t or f".to_string()))
        }
    } else if marker == COMMA {
        match RespDouble::new(body) {
            Some(d) => Ok(RespFrame::Double(d)),
            None => Err(RespError::ParseFloatError),
        }
    } else if marker == UNDERSCORE {
        if body.len() == 0 {
            Ok(RespFrame::Null(RespNull))
        } else {
            Err(RespError::InvalidFrame("the null frame has no body".to_string()))
        }
    } else {
        Err(RespError::InvalidFrameType("the frame is not one line long".to_string()))
    }
}

/// The length or count that a header line announces.
fn read_length(data: &[u8], from: usize, to: usize) -> (r: Result<isize, RespError>)
    requires
        from <= to <= data.len(),
    ensures
        match parse_length(data@.subrange(from as int, to as int)) {
            Ok(n) => r == Ok::<isize, RespError>(n as isize),
            Err(e) => r matches Err(x) && x@ == e,
        },
{
    match parse_isize(slice_subrange(data, from, to)) {
        Ok(n) => {
            if n < -1 {
                Err(RespError::InvalidFrameLength(n))
            } else {
                Ok(n)
            }
        },
        Err(k) => Err(RespError::ParseIntError(k)),
    }
}

/// The bulk string of `n` bytes whose payload starts at `start`.
fn read_bulk(data: &[u8], start: usize, n: usize) -> (r: Result<(RespFrame, usize), RespError>)
    requires
        start <= data.len(),
    ensures
        match parse_bulk(data@, start as int, n as int) {
            Ok((f, end)) => r matches Ok((g, e)) && g@ == f && e == end && end <= data.len(),
            Err(e) => r matches Err(x) && x@ == e,
        },
{
    let available: usize = data.len() - start;
    if available < 2 || available - 2 < n {
        return Err(RespError::NotComplete);
    }
    if !(data[start + n] == crate::ascii::CR && data[start + n + 1] == crate::ascii::LF) {
        return Err(
            RespError::InvalidFrame("a bulk string ends with a line terminator".to_string()),
        );
    }
    let payload = slice_to_vec(slice_subrange(data, start, start + n));
    Ok((RespFrame::BulkString(BulkString(payload)), start + n + 2))
}

/// What was read so far, put in front of what the rest will give.
spec fn prepend<T>(acc: Seq<T>, rest: Result<(Seq<T>, int), Failure>) -> Result<
    (Seq<T>, int),
    Failure,
> {
    match rest {
        Ok((items, end)) => Ok((acc + items, end)),
        Err(e) => Err(e),
    }
}

/// Reading one more item moves it from the rest to what was read so far.
proof fn lemma_prepend_step<T>(acc: Seq<T>, item: T, rest: Result<(Seq<T>, int), Failure>)
    ensures
        prepend(acc, prepend(seq![item], rest)) == prepend(acc.push(item), rest),
{
    match rest {
        Ok((items, end)) => {
            assert(acc + (seq![item] + items) =~= acc.push(item) + items);
        },
        Err(e) => {},
    }
}

/// With nothing read so far, the rest is the whole.
proof fn lemma_prepend_empty<T>(rest: Result<(Seq<T>, int), Failure>)
    ensures
        prepend(Seq::<T>::empty(), rest) == rest,
{
    match rest {
        Ok((items, end)) => {
            assert(Seq::<T>::empty() + items =~= items);
        },
        Err(e) => {},
    }
}

/// With nothing left to read, what was read so far is the whole.
proof fn lemma_prepend_done<T>(acc: Seq<T>, end: int)
    ensures
        prepend(acc, Ok::<(Seq<T>, int), Failure>((Seq::<T>::empty(), end))) == Ok::<
            (Seq<T>, int),
            Failure,
        >((acc, end)),
{
    assert(acc + Seq::<T>::empty() =~= acc);
}

/// The frame that starts at `pos`, and the place where it ends.
pub(crate) fn read_frame(data: &[u8], pos: usize, depth: usize) -> (r: Result<
    (RespFrame, usize),
    RespError,
>)
    ensures
        match parse_at(data@, pos as int, depth as nat) {
            Ok((f, end)) => r matches Ok((g, e)) && g@ == f && e == end && end <= data.len(),
            Err(e) => r matches Err(x) && x@ == e,
        },
    decreases depth, 0nat,
{
    if pos >= data.len() {
        return Err(RespError::NotComplete);
    }
    let marker: u8 = data[pos];
    if !is_marker_byte(marker) {
        return Err(RespError::InvalidFrameType("unknown frame marker".to_string()));
    }
    let end: usize = match first_crlf(data, pos + 1) {
        Some(end) => end,
        None => {
            return Err(RespError::NotComplete);
        },
    };
    let next: usize = end + 2;
    if marker == DOLLAR {
        match read_length(data, pos + 1, end) {
            Err(e) => Err(e),
            Ok(n) => {
                if n == -1 {
                    Ok((RespFrame::NullBulkString(RespNullBulkString), next))
                } else {
                    read_bulk(data, next, n as usize)
                }
            },
        }
    } else if marker == STAR || marker == PERCENT || marker == TILDE {
        match read_length(data, pos + 1, end) {
            Err(e) => Err(e),
            Ok(n) => {
                if n == -1 {
                    Ok((RespFrame::NullArray(RespNullArray), next))
                } else if depth == 0 {
                    Err(RespError::InvalidFrame("frames are nested too deeply".to_string()))
                } else if marker == PERCENT {
                    match read_entries(data, next, n as usize, depth - 1) {
                        Err(e) => Err(e),
                        Ok((map, after)) => Ok((RespFrame::RespMap(map), after)),
                    }
                } else {
                    match read_items(data, next, n as usize, depth - 1) {
                        Err(e) => Err(e),
                        Ok((items, after)) => {
                            if marker == STAR {
                                Ok((RespFrame::Array(RespArray(items)), after))
                            } else {
                                Ok((RespFrame::RespSet(RespSet(items)), after))
                            }
                        },
                    }
                }
            },
        }
    } else {
        match read_scalar(data, marker, pos + 1, end) {
            Err(e) => Err(e),
            Ok(f) => Ok((f, next)),
        }
    }
}

/// The `count` frames that start at `pos`, and the place where the last ends.
fn read_items(data: &[u8], pos: usize, count: usize, depth: usize) -> (r: Result<
    (Vec<RespFrame>, usize),
    RespError,
>)
    requires
        pos <= data.len(),
    ensures
        match parse_items(data@, pos as int, count as nat, depth as nat) {
            Ok((items, end)) => r matches Ok((v, e)) && frames_view(v@) == items && e == end && end
                <= data.len(),
            Err(e) => r matches Err(x) && x@ == e,
        },
    decreases depth, 1nat,
{
    let ghost whole = parse_items(data@, pos as int, count as nat, depth as nat);
    let mut items: Vec<RespFrame> = Vec::new();
    let mut at: usize = pos;
    let mut i: usize = 0;
    proof {
        assert(frames_view(items@) =~= Seq::empty());
        lemma_prepend_empty(whole);
    }
    while i < count
        invariant
            i <= count,
            at <= data.len(),
            whole == parse_items(data@, pos as int, count as nat, depth as nat),
            whole == prepend(
                frames_view(items@),
                parse_items(data@, at as int, (count - i) as nat, depth as nat),
            ),
        decreases count - i,
    {
        let ghost before = frames_view(items@);
        let ghost rest = parse_items(data@, at as int, (count - i) as nat, depth as nat);
        match read_frame(data, at, depth) {
            Err(e) => {
                return Err(e);
            },
            Ok((frame, next)) => {
                proof {
                    let tail = parse_items(data@, next as int, (count - i - 1) as nat, depth as nat);
                    assert(rest == prepend(seq![frame@], tail));
                    lemma_prepend_step(before, frame@, tail);
                }
                items.push(frame);
                assert(frames_view(items@) =~= before.push(frame@));
                at = next;
                i += 1;
            },
        }
    }
    proof {
        lemma_prepend_done(frames_view(items@), at as int);
    }
    Ok((items, at))
}

/// The key of a map entry that starts at `pos`, and the place where it ends.
fn read_key(data: &[u8], pos: usize) -> (r: Result<(String, usize), RespError>)
    ensures
        match parse_key(data@, pos as int) {
            Ok((key, end)) => r matches Ok((k, e)) && k@ == key && e == end && end <= data.len(),
            Err(e) => r matches Err(x) && x@ == e,
        },
{
    if pos >= data.len() {
        return Err(RespError::NotComplete);
    }
    if !is_marker_byte(data[pos]) {
        return Err(RespError::InvalidFrameType("unknown frame marker".to_string()));
    }
    if data[pos] != PLUS && data[pos] != MINUS {
        return Err(RespError::InvalidFrame("a map key is a frame that holds text".to_string()));
    }
    match first_crlf(data, pos + 1) {
        None => Err(RespError::NotComplete),
        Some(end) => match read_text(data, pos + 1, end) {
            Err(e) => Err(e),
            Ok(key) => Ok((key, end + 2)),
        },
    }
}

/// The `count` entries that start at `pos`, bound one after the other, and
/// the place where the last one ends.
fn read_entries(data: &[u8], pos: usize, count: usize, depth: usize) -> (r: Result<
    (RespMap, usize),
    RespError,
>)
    requires
        pos <= data.len(),
    ensures
        match parse_entries(data@, pos as int, count as nat, depth as nat) {
            Ok((pairs, end)) => r matches Ok((m, e)) && m@ == canonical_map(pairs) && e == end
                && end <= data.len(),
            Err(e) => r matches Err(x) && x@ == e,
        },
    decreases depth, 1nat,
{
    let ghost whole = parse_entries(data@, pos as int, count as nat, depth as nat);
    let mut map = RespMap::new();
    let ghost mut pairs: Seq<(Seq<char>, Frame)> = Seq::empty();
    let mut at: usize = pos;
    let mut i: usize = 0;
    proof {
        lemma_prepend_empty(whole);
    }
    while i < count
        invariant
            i <= count,
            at <= data.len(),
            whole == parse_entries(data@, pos as int, count as nat, depth as nat),
            whole == prepend(
                pairs,
                parse_entries(data@, at as int, (count - i) as nat, depth as nat),
            ),
            map@ == canonical_map(pairs),
        decreases count - i,
    {
        let ghost rest = parse_entries(data@, at as int, (count - i) as nat, depth as nat);
        let (key, at_value) = match read_key(data, at) {
            Err(e) => {
                return Err(e);
            },
            Ok(found) => found,
        };
        match read_frame(data, at_value, depth) {
            Err(e) => {
                return Err(e);
            },
            Ok((value, next)) => {
                proof {
                    let tail = parse_entries(
                        data@,
                        next as int,
                        (count - i - 1) as nat,
                        depth as nat,
                    );
                    assert(rest == prepend(seq![(key@, value@)], tail));
                    lemma_prepend_step(pairs, (key@, value@), tail);
                    assert(pairs.push((key@, value@)).drop_last() =~= pairs);
                    pairs = pairs.push((key@, value@));
                }
                map.insert(key, value);
                at = next;
                i += 1;
            },
        }
    }
    proof {
        lemma_prepend_done(pairs, at as int);
    }
    Ok((map, at))
}

/// The place where the frame that starts at `pos` will end.
fn scan_frame(data: &[u8], pos: usize, depth: usize) -> (r: Result<usize, RespError>)
    ensures
        match expected_end(data@, pos as int, depth as nat) {
            Ok(end) => r == Ok::<usize, RespError>(end as usize) && 0 <= end <= usize::MAX,
            Err(e) => r matches Err(x) && x@ == e,
        },
    decreases depth, 0nat,
{
    if pos >= data.len() {
        return Err(RespError::NotComplete);
    }
    let marker: u8 = data[pos];
    if !is_marker_byte(marker) {
        return Err(RespError::InvalidFrameType("unknown frame marker".to_string()));
    }
    let end: usize = match first_crlf(data, pos + 1) {
        Some(end) => end,
        None => {
            return Err(RespError::NotComplete);
        },
    };
    let next: usize = end + 2;
    if marker == DOLLAR || marker == STAR || marker == PERCENT || marker == TILDE {
        match read_length(data, pos + 1, end) {
            Err(e) => Err(e),
            Ok(n) => {
                if n == -1 {
                    Ok(next)
                } else if marker == DOLLAR {
                    if n as usize > usize::MAX - next || n as usize + next > usize::MAX - 2 {
                        Err(RespError::InvalidFrameLength(n))
                    } else {
                        Ok(next + n as usize + 2)
                    }
                } else if depth == 0 {
                    Err(RespError::InvalidFrame("frames are nested too deeply".to_string()))
                } else if marker == PERCENT {
                    scan_items(data, next, 2 * (n as usize), depth - 1)
                } else {
                    scan_items(data, next, n as usize, depth - 1)
                }
            },
        }
    } else {
        Ok(next)
    }
}

/// The place where the last of `count` frames will end, the first of which
/// starts at `pos`.
fn scan_items(data: &[u8], pos: usize, count: usize, depth: usize) -> (r: Result<usize, RespError>)
    ensures
        match expected_items_end(data@, pos as int, count as nat, depth as nat) {
            Ok(end) => r == Ok::<usize, RespError>(end as usize) && 0 <= end <= usize::MAX,
            Err(e) => r matches Err(x) && x@ == e,
        },
    decreases depth, 1nat,
{
    let mut at: usize = pos;
    let mut i: usize = 0;
    while i < count
        invariant
            i <= count,
            expected_items_end(data@, pos as int, count as nat, depth as nat)
                == expected_items_end(data@, at as int, (count - i) as nat, depth as nat),
        decreases count - i,
    {
        match scan_frame(data, at, depth) {
            Err(e) => {
                return Err(e);
            },
            Ok(next) => {
                assert(expected_items_end(data@, at as int, (count - i) as nat, depth as nat)
                    == expected_items_end(
                    data@,
                    next as int,
                    (count - i - 1) as nat,
                    depth as nat,
                ));
                at = next;
                i += 1;
            },
        }
    }
    Ok(at)
}

/// The markers that a reader takes who wants frames that open with `marker`,
/// or frames of any kind if there is no such wish.
spec fn wanted(marker: Option<u8>) -> spec_fn(u8) -> bool {
    |b: u8|
        match marker {
            Some(m) => b == m,
            None => true,
        }
}

/// The frame at the start of `data`, for a reader that wants a frame that
/// opens with `marker`, or any frame if there is no such wish.
fn peek_frame(data: &[u8], marker: Option<u8>) -> (r: Result<(RespFrame, usize), RespError>)
    ensures
        match parse_with(data@, wanted(marker)) {
            Ok((f, end)) => r matches Ok((g, e)) && g@ == f && e == end && end <= data.len(),
            Err(e) => r matches Err(x) && x@ == e,
        },
{
    if data.len() == 0 {
        return Err(RespError::NotComplete);
    }
    match marker {
        Some(m) => {
            if data[0] != m {
                return Err(
                    RespError::InvalidFrameType("the frame is of another type".to_string()),
                );
            }
        },
        None => {},
    }
    read_frame(data, 0, MAX_DEPTH)
}

/// The length of the frame at the start of `data`, for a reader that wants a
/// frame that opens with `marker`, or any frame if there is no such wish.
fn peek_length(data: &[u8], marker: Option<u8>) -> (r: Result<usize, RespError>)
    ensures
        match expected_length(data@, wanted(marker)) {
            Ok(n) => r == Ok::<usize, RespError>(n as usize) && 0 <= n <= usize::MAX,
            Err(e) => r matches Err(x) && x@ == e,
        },
{
    if data.len() == 0 {
        return Err(RespError::NotComplete);
    }
    match marker {
        Some(m) => {
            if data[0] != m {
                return Err(
                    RespError::InvalidFrameType("the frame is of another type".to_string()),
                );
            }
        },
        None => {},
    }
    scan_frame(data, 0, MAX_DEPTH)
}

/// A value that can be read from the wire.
pub trait RespDecode: AsFrame + Sized {
    /// The marker that opens a frame of this type, or the empty text where
    /// the type stands for frames of every kind.
    const PREFIX: &'static str;

    /// The markers of the frames that a reader of this type looks at.
    spec fn opens(marker: u8) -> bool;

    /// The frames that a value of this type can stand for.
    spec fn holds(f: Frame) -> bool;

    /// The markers that a reader of this type looks at are those that
    /// `PREFIX` announces.
    proof fn lemma_prefix()
        ensures
            forall|marker: u8| #[trigger] Self::opens(marker) <==> prefix_admits(Self::PREFIX@, marker),
    ;

    /// Takes the frame at the start of the buffer out of it, if it is a frame
    /// that this type stands for. The buffer is left as it was unless a frame
    /// is returned.
    fn decode(buf: &mut BytesMut) -> (r: Result<Self, RespError>)
        ensures
            match parse_with(buffered(*old(buf)), |marker: u8| Self::opens(marker)) {
                Ok((f, n)) => if Self::holds(f) {
                    r matches Ok(v) && v.as_frame() == f && buffered(*final(buf)) == buffered(
                        *old(buf),
                    ).skip(n)
                } else {
                    r matches Err(x) && x@ == Failure::InvalidFrameType && buffered(*final(buf))
                        == buffered(*old(buf))
                },
                Err(e) => r matches Err(x) && x@ == e && buffered(*final(buf)) == buffered(
                    *old(buf),
                ),
            },
    ;

    /// The number of bytes that the frame at the start of `buf` will take once
    /// all of it is there.
    fn expect_length(buf: &[u8]) -> (r: Result<usize, RespError>)
        ensures
            match expected_length(buf@, |marker: u8| Self::opens(marker)) {
                Ok(n) => r == Ok::<usize, RespError>(n as usize) && 0 <= n <= usize::MAX,
                Err(e) => r matches Err(x) && x@ == e,
            },
    ;
}

impl RespDecode for RespFrame {
    const PREFIX: &'static str = "";

    open spec fn opens(marker: u8) -> bool {
        true
    }

    open spec fn holds(f: Frame) -> bool {
        true
    }

    proof fn lemma_prefix() {
        reveal_strlit("");
    }

    fn decode(buf: &mut BytesMut) -> (r: Result<Self, RespError>) {
        match peek_frame(buffer_bytes(buf), None) {
            Ok((frame, len)) => {
                buffer_advance(buf, len);
                Ok(frame)
            },
            Err(e) => Err(e),
        }
    }

    fn expect_length(buf: &[u8]) -> (r: Result<usize, RespError>) {
        peek_length(buf, None)
    }
}

impl RespDecode for SimpleString {
    const PREFIX: &'static str = "+";

    open spec fn opens(marker: u8) -> bool {
        marker == PLUS
    }

    open spec fn holds(f: Frame) -> bool {
        f is SimpleString
    }

    proof fn lemma_prefix() {
        reveal_strlit("+");
    }

    fn decode(buf: &mut BytesMut) -> (r: Result<Self, RespError>) {
        match peek_frame(buffer_bytes(buf), Some(PLUS)) {
            Ok((RespFrame::SimpleString(s), len)) => {
                buffer_advance(buf, len);
                Ok(s)
            },
            Ok(_) => Err(RespError::InvalidFrameType("the frame is of another type".to_string())),
            Err(e) => Err(e),
        }
    }

    fn expect_length(buf: &[u8]) -> (r: Result<usize, RespError>) {
        peek_length(buf, Some(PLUS))
    }
}

impl RespDecode for SimpleError {
    const PREFIX: &'static str = "-";

    open spec fn opens(marker: u8) -> bool {
        marker == MINUS
    }

    open spec fn holds(f: Frame) -> bool {
        f is Error
    }

    proof fn lemma_prefix() {
        reveal_strlit("-");
    }

    fn decode(buf: &mut BytesMut) -> (r: Result<Self, RespError>) {
        match peek_frame(buffer_bytes(buf), Some(MINUS)) {
            Ok((RespFrame::Error(e), len)) => {
                buffer_advance(buf, len);
                Ok(e)
            },
            Ok(_) => Err(RespError::InvalidFrameType("the frame is of another type".to_string())),
            Err(e) => Err(e),
        }
    }

    fn expect_length(buf: &[u8]) -> (r: Result<usize, RespError>) {
        peek_length(buf, Some(MINUS))
    }
}

impl RespDecode for i64 {
    const PREFIX: &'static str = ":";

    open spec fn opens(marker: u8) -> bool {
        marker == COLON
    }

    open spec fn holds(f: Frame) -> bool {
        f is Integer
    }

    proof fn lemma_prefix() {
        reveal_strlit(":");
    }

    fn decode(buf: &mut BytesMut) -> (r: Result<Self, RespError>) {
        match peek_frame(buffer_bytes(buf), Some(COLON)) {
            Ok((RespFrame::Integer(i), len)) => {
                buffer_advance(buf, len);
                Ok(i)
            },
            Ok(_) => Err(RespError::InvalidFrameType("the frame is of another type".to_string())),
            Err(e) => Err(e),
        }
    }

    fn expect_length(buf: &[u8]) -> (r: Result<usize, RespError>) {
        peek_length(buf, Some(COLON))
    }
}

impl RespDecode for BulkString {
    const PREFIX: &'static str = "$";

    open spec fn opens(marker: u8) -> bool {
        marker == DOLLAR
    }

    open spec fn holds(f: Frame) -> bool {
        f is BulkString
    }

    proof fn lemma_prefix() {
        reveal_strlit("$");
    }

    fn decode(buf: &mut BytesMut) -> (r: Result<Self, RespError>) {
        match peek_frame(buffer_bytes(buf), Some(DOLLAR)) {
            Ok((RespFrame::BulkString(b), len)) => {
                buffer_advance(buf, len);
                Ok(b)
            },
            Ok(_) => Err(RespError::InvalidFrameType("the frame is of another type".to_string())),
            Err(e) => Err(e),
        }
    }

    fn expect_length(buf: &[u8]) -> (r: Result<usize, RespError>) {
        peek_length(buf, Some(DOLLAR))
    }
}

impl RespDecode for RespNullBulkString {
    const PREFIX: &'static str = "$";

    open spec fn opens(marker: u8) -> bool {
        marker == DOLLAR
    }

    open spec fn holds(f: Frame) -> bool {
        f is NullBulkString
    }

    proof fn lemma_prefix() {
        reveal_strlit("$");
    }

    fn decode(buf: &mut BytesMut) -> (r: Result<Self, RespError>) {
        match peek_frame(buffer_bytes(buf), Some(DOLLAR)) {
            Ok((RespFrame::NullBulkString(b), len)) => {
                buffer_advance(buf, len);
                Ok(b)
            },
            Ok(_) => Err(RespError::InvalidFrameType("the frame is of another type".to_string())),
            Err(e) => Err(e),
        }
    }

    fn expect_length(buf: &[u8]) -> (r: Result<usize, RespError>) {
        peek_length(buf, Some(DOLLAR))
    }
}

impl RespDecode for RespArray {
    const PREFIX: &'static str = "*";

    open spec fn opens(marker: u8) -> bool {
        marker == STAR
    }

    open spec fn holds(f: Frame) -> bool {
        f is Array
    }

    proof fn lemma_prefix() {
        reveal_strlit("*");
    }

    fn decode(buf: &mut BytesMut) -> (r: Result<Self, RespError>) {
        match peek_frame(buffer_bytes(buf), Some(STAR)) {
            Ok((RespFrame::Array(a), len)) => {
                buffer_advance(buf, len);
                Ok(a)
            },
            Ok(_) => Err(RespError::InvalidFrameType("the frame is of another type".to_string())),
            Err(e) => Err(e),
        }
    }

    fn expect_length(buf: &[u8]) -> (r: Result<usize, RespError>) {
        peek_length(buf, Some(STAR))
    }
}

impl RespDecode for RespNullArray {
    const PREFIX: &'static str = "*";

    open spec fn opens(marker: u8) -> bool {
        marker == STAR
    }

    open spec fn holds(f: Frame) -> bool {
        f is NullArray
    }

    proof fn lemma_prefix() {
        reveal_strlit("*");
    }

    fn decode(buf: &mut BytesMut) -> (r: Result<Self, RespError>) {
        match peek_frame(buffer_bytes(buf), Some(STAR)) {
            Ok((RespFrame::NullArray(a), len)) => {
                buffer_advance(buf, len);
                Ok(a)
            },
            Ok(_) => Err(RespError::InvalidFrameType("the frame is of another type".to_string())),
            Err(e) => Err(e),
        }
    }

    fn expect_length(buf: &[u8]) -> (r: Result<usize, RespError>) {
        peek_length(buf, Some(STAR))
    }
}

impl RespDecode for RespNull {
    const PREFIX: &'static str = "_";

    open spec fn opens(marker: u8) -> bool {
        marker == UNDERSCORE
    }

    open spec fn holds(f: Frame) -> bool {
        f is Null
    }

    proof fn lemma_prefix() {
        reveal_strlit("_");
    }

    fn decode(buf: &mut BytesMut) -> (r: Result<Self, RespError>) {
        match peek_frame(buffer_bytes(buf), Some(UNDERSCORE)) {
            Ok((RespFrame::Null(n), len)) => {
                buffer_advance(buf, len);
                Ok(n)
            },
            Ok(_) => Err(RespError::InvalidFrameType("the frame is of another type".to_string())),
            Err(e) => Err(e),
        }
    }

    fn expect_length(buf: &[u8]) -> (r: Result<usize, RespError>) {
        peek_length(buf, Some(UNDERSCORE))
    }
}

impl RespDecode for bool {
    const PREFIX: &'static str = "#";

    open spec fn opens(marker: u8) -> bool {
        marker == HASH
    }

    open spec fn holds(f: Frame) -> bool {
        f is Boolean
    }

    proof fn lemma_prefix() {
        reveal_strlit("#");
    }

    fn decode(buf: &mut BytesMut) -> (r: Result<Self, RespError>) {
        match peek_frame(buffer_bytes(buf), Some(HASH)) {
            Ok((RespFrame::Boolean(b), len)) => {
                buffer_advance(buf, len);
                Ok(b)
            },
            Ok(_) => Err(RespError::InvalidFrameType("the frame is of another type".to_string())),
            Err(e) => Err(e),
        }
    }

    fn expect_length(buf: &[u8]) -> (r: Result<usize, RespError>) {
        peek_length(buf, Some(HASH))
    }
}

impl RespDecode for RespDouble {
    const PREFIX: &'static str = ",";

    open spec fn opens(marker: u8) -> bool {
        marker == COMMA
    }

    open spec fn holds(f: Frame) -> bool {
        f is Double
    }

    proof fn lemma_prefix() {
        reveal_strlit(",");
    }

    fn decode(buf: &mut BytesMut) -> (r: Result<Self, RespError>) {
        match peek_frame(buffer_bytes(buf), Some(COMMA)) {
            Ok((RespFrame::Double(d), len)) => {
                buffer_advance(buf, len);
                Ok(d)
            },
            Ok(_) => Err(RespError::InvalidFrameType("the frame is of another type".to_string())),
            Err(e) => Err(e),
        }
    }

    fn expect_length(buf: &[u8]) -> (r: Result<usize, RespError>) {
        peek_length(buf, Some(COMMA))
    }
}

impl RespDecode for RespMap {
    const PREFIX: &'static str = "%";

    open spec fn opens(marker: u8) -> bool {
        marker == PERCENT
    }

    open spec fn holds(f: Frame) -> bool {
        f is RespMap
    }

    proof fn lemma_prefix() {
        reveal_strlit("%");
    }

    fn decode(buf: &mut BytesMut) -> (r: Result<Self, RespError>) {
        match peek_frame(buffer_bytes(buf), Some(PERCENT)) {
            Ok((RespFrame::RespMap(m), len)) => {
                buffer_advance(buf, len);
                Ok(m)
            },
            Ok(_) => Err(RespError::InvalidFrameType("the frame is of another type".to_string())),
            Err(e) => Err(e),
        }
    }

    fn expect_length(buf: &[u8]) -> (r: Result<usize, RespError>) {
        peek_length(buf, Some(PERCENT))
    }
}

impl RespDecode for RespSet {
    const PREFIX: &'static str = "~";

    open spec fn opens(marker: u8) -> bool {
        marker == TILDE
    }

    open spec fn holds(f: Frame) -> bool {
        f is RespSet
    }

    proof fn lemma_prefix() {
        reveal_strlit("~");
    }

    fn decode(buf: &mut BytesMut) -> (r: Result<Self, RespError>) {
        match peek_frame(buffer_bytes(buf), Some(TILDE)) {
            Ok((RespFrame::RespSet(s), len)) => {
                buffer_advance(buf, len);
                Ok(s)
            },
            Ok(_) => Err(RespError::InvalidFrameType("the frame is of another type".to_string())),
            Err(e) => Err(e),
        }
    }

    fn expect_length(buf: &[u8]) -> (r: Result<usize, RespError>) {
        peek_length(buf, Some(TILDE))
    }
}

} // verus!
