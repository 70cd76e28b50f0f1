//! What a run of bytes means: the frame that starts at a given place, where
//! it ends, or why there is none.

use vstd::prelude::*;
use vstd::utf8::{decode_utf8, valid_utf8};

use crate::ascii::{
    COLON, COMMA, DOLLAR, HASH, LOWER_F, LOWER_T, MINUS, PERCENT, PLUS, STAR, TILDE, UNDERSCORE,
};
use crate::digits::parse_decimal;
use crate::entries::canonical_map;
use crate::error::Failure;
use crate::float_text::is_float_literal;
use crate::line::{crlf_at, find_crlf};
use crate::model::Frame;

verus! {

/// How deeply containers may stand inside one another: a container inside
/// this many others is refused.
pub const MAX_DEPTH: usize = 128;

/// The byte opens a frame of some kind.
pub open spec fn is_marker(b: u8) -> bool {
    b == PLUS || b == MINUS || b == COLON || b == DOLLAR || b == STAR || b == UNDERSCORE || b
        == HASH || b == COMMA || b == PERCENT || b == TILDE
}

/// The byte opens a frame that holds other frames.
pub open spec fn is_container_marker(b: u8) -> bool {
    b == STAR || b == PERCENT || b == TILDE
}

/// The text that the body of a line holds, if it is UTF-8.
pub open spec fn parse_text(body: Seq<u8>) -> Result<Seq<char>, Failure> {
    if valid_utf8(body) {
        Ok(decode_utf8(body))
    } else {
        Err(Failure::InvalidFrame)
    }
}

/// The frame that a single line holds: `marker` is the byte that opens the
/// line and `body` what stands between it and the line terminator. Only the
/// markers of frames that are one line long have such a frame.
pub open spec fn parse_scalar(marker: u8, body: Seq<u8>) -> Result<Frame, Failure> {
    if marker == PLUS {
        match parse_text(body) {
            Ok(text) => Ok(Frame::SimpleString(text)),
            Err(e) => Err(e),
        }
    } else if marker == MINUS {
        match parse_text(body) {
            Ok(text) => Ok(Frame::Error(text)),
            Err(e) => Err(e),
        }
    } else if marker == COLON {
        match parse_decimal(body, i64::MIN as int, i64::MAX as int) {
            Ok(i) => Ok(Frame::Integer(i as i64)),
            Err(k) => Err(Failure::ParseInt(k)),
        }
    } else if marker == HASH {
        if body == seq![LOWER_T] {
            Ok(Frame::Boolean(true))
        } else if body == seq![LOWER_F] {
            Ok(Frame::Boolean(false))
        } else {
            Err(Failure::InvalidFrame)
        }
    } else if marker == COMMA {
        if is_float_literal(body) {
            Ok(Frame::Double(body))
        } else {
            Err(Failure::ParseFloat)
        }
    } else if marker == UNDERSCORE {
        if body.len() == 0 {
            Ok(Frame::Null)
        } else {
            Err(Failure::InvalidFrame)
        }
    } else {
        Err(Failure::InvalidFrameType)
    }
}

/// The length or count that a header line announces: a decimal that is at
/// least -1, the value that stands for an absent frame.
pub open spec fn parse_length(body: Seq<u8>) -> Result<int, Failure> {
    match parse_decimal(body, isize::MIN as int, isize::MAX as int) {
        Ok(n) => if n < -1 {
            Err(Failure::InvalidFrameLength(n))
        } else {
            Ok(n)
        },
        Err(k) => Err(Failure::ParseInt(k)),
    }
}

/// The bulk string of `n` bytes whose payload starts at `start`.
pub open spec fn parse_bulk(s: Seq<u8>, start: int, n: int) -> Result<(Frame, int), Failure> {
    if s.len() < start + n + 2 {
        Err(Failure::NotComplete)
    } else if !crlf_at(s, start + n) {
        Err(Failure::InvalidFrame)
    } else {
        Ok((Frame::BulkString(s.subrange(start, start + n)), start + n + 2))
    }
}

/// The frame that starts at `pos` and the place where it ends, or the reason
/// why there is none. `depth` is the number of containers that may still be
/// entered. The count -1 stands for the absent array under each of the three
/// markers of containers, and the length -1 for the absent bulk string.
pub open spec fn parse_at(s: Seq<u8>, pos: int, depth: nat) -> Result<(Frame, int), Failure>
    decreases depth, 0nat,
{
    if pos < 0 || pos >= s.len() {
        Err(Failure::NotComplete)
    } else if !is_marker(s[pos]) {
        Err(Failure::InvalidFrameType)
    } else {
        match find_crlf(s, pos + 1) {
            None => Err(Failure::NotComplete),
            Some(end) => {
                let marker = s[pos];
                let body = s.subrange(pos + 1, end);
                let next = end + 2;
                if marker == DOLLAR {
                    match parse_length(body) {
                        Err(e) => Err(e),
                        Ok(n) => if n == -1 {
                            Ok((Frame::NullBulkString, next))
                        } else {
                            parse_bulk(s, next, n)
                        },
                    }
                } else if is_container_marker(marker) {
                    match parse_length(body) {
                        Err(e) => Err(e),
                        Ok(n) => if n == -1 {
                            Ok((Frame::NullArray, next))
                        } else if depth == 0 {
                            Err(Failure::InvalidFrame)
                        } else if marker == PERCENT {
                            match parse_entries(s, next, n as nat, (depth - 1) as nat) {
                                Err(e) => Err(e),
                                Ok((pairs, after)) => Ok(
                                    (Frame::RespMap(canonical_map(pairs)), after),
                                ),
                            }
                        } else {
                            match parse_items(s, next, n as nat, (depth - 1) as nat) {
                                Err(e) => Err(e),
                                Ok((items, after)) => if marker == STAR {
                                    Ok((Frame::Array(items), after))
                                } else {
                                    Ok((Frame::RespSet(items), after))
                                },
                            }
                        },
                    }
                } else {
                    match parse_scalar(marker, body) {
                        Err(e) => Err(e),
                        Ok(f) => Ok((f, next)),
                    }
                }
            },
        }
    }
}

/// The `count` frames that start at `pos`, one after the other, and the place
/// where the last one ends.
pub open spec fn parse_items(s: Seq<u8>, pos: int, count: nat, depth: nat) -> Result<
    (Seq<Frame>, int),
    Failure,
>
    decreases depth, count + 1,
{
    if count == 0 {
        Ok((Seq::empty(), pos))
    } else {
        match parse_at(s, pos, depth) {
            Err(e) => Err(e),
            Ok((first, next)) => match parse_items(s, next, (count - 1) as nat, depth) {
                Err(e) => Err(e),
                Ok((rest, after)) => Ok((seq![first] + rest, after)),
            },
        }
    }
}

/// The byte opens a frame that holds text: a simple string or a simple error.
pub open spec fn is_text_marker(b: u8) -> bool {
    b == PLUS || b == MINUS
}

/// The key of a map entry that starts at `pos`: the text of a frame that
/// holds text. A frame of another kind in the place of a key is malformed.
pub open spec fn parse_key(s: Seq<u8>, pos: int) -> Result<(Seq<char>, int), Failure> {
    if pos < 0 || pos >= s.len() {
        Err(Failure::NotComplete)
    } else if !is_marker(s[pos]) {
        Err(Failure::InvalidFrameType)
    } else if !is_text_marker(s[pos]) {
        Err(Failure::InvalidFrame)
    } else {
        match find_crlf(s, pos + 1) {
            None => Err(Failure::NotComplete),
            Some(end) => match parse_text(s.subrange(pos + 1, end)) {
                Err(e) => Err(e),
                Ok(text) => Ok((text, end + 2)),
            },
        }
    }
}

/// The `count` entries that start at `pos`, each a key followed by a frame,
/// in the order in which they arrive.
pub open spec fn parse_entries(s: Seq<u8>, pos: int, count: nat, depth: nat) -> Result<
    (Seq<(Seq<char>, Frame)>, int),
    Failure,
>
    decreases depth, count + 1,
{
    if count == 0 {
        Ok((Seq::empty(), pos))
    } else {
        match parse_key(s, pos) {
            Err(e) => Err(e),
            Ok((key, at_value)) => match parse_at(s, at_value, depth) {
                Err(e) => Err(e),
                Ok((value, next)) => match parse_entries(s, next, (count - 1) as nat, depth) {
                    Err(e) => Err(e),
                    Ok((rest, after)) => Ok((seq![(key, value)] + rest, after)),
                },
            },
        }
    }
}

/// The frame at the start of the bytes and its length.
pub open spec fn parse(s: Seq<u8>) -> Result<(Frame, int), Failure> {
    parse_at(s, 0, MAX_DEPTH as nat)
}

/// The place where the frame that starts at `pos` will end once all of it is
/// there, as far as its header lines tell. Only markers, line terminators and
/// announced lengths are looked at, so the place may lie beyond the bytes
/// that are there.
pub open spec fn expected_end(s: Seq<u8>, pos: int, depth: nat) -> Result<int, Failure>
    decreases depth, 0nat,
{
    if pos < 0 || pos >= s.len() {
        Err(Failure::NotComplete)
    } else if !is_marker(s[pos]) {
        Err(Failure::InvalidFrameType)
    } else {
        match find_crlf(s, pos + 1) {
            None => Err(Failure::NotComplete),
            Some(end) => {
                let marker = s[pos];
                let next = end + 2;
                if marker == DOLLAR || is_container_marker(marker) {
                    match parse_length(s.subrange(pos + 1, end)) {
                        Err(e) => Err(e),
                        Ok(n) => if n == -1 {
                            Ok(next)
                        } else if marker == DOLLAR {
                            if next + n + 2 > usize::MAX {
                                Err(Failure::InvalidFrameLength(n))
                            } else {
                                Ok(next + n + 2)
                            }
                        } else if depth == 0 {
                            Err(Failure::InvalidFrame)
                        } else if marker == PERCENT {
                            expected_items_end(s, next, (2 * n) as nat, (depth - 1) as nat)
                        } else {
                            expected_items_end(s, next, n as nat, (depth - 1) as nat)
                        },
                    }
                } else {
                    Ok(next)
                }
            },
        }
    }
}

/// The place where the last of `count` frames will end, the first of which
/// starts at `pos`.
pub open spec fn expected_items_end(s: Seq<u8>, pos: int, count: nat, depth: nat) -> Result<
    int,
    Failure,
>
    decreases depth, count + 1,
{
    if count == 0 {
        Ok(pos)
    } else {
        match expected_end(s, pos, depth) {
            Err(e) => Err(e),
            Ok(next) => expected_items_end(s, next, (count - 1) as nat, depth),
        }
    }
}

/// Whether a frame that opens with `marker` is one that `prefix` announces:
/// the empty prefix announces every frame, a prefix of one character the
/// frames that open with it.
pub open spec fn prefix_admits(prefix: Seq<char>, marker: u8) -> bool {
    prefix.len() == 0 || (prefix.len() == 1 && prefix[0] == marker as char)
}

/// The frame at the start of the bytes, for a reader that takes the frames
/// whose marker `admits` holds of: nothing is read from an empty buffer, and
/// a frame that opens with another marker is refused before it is looked at.
pub open spec fn parse_with(s: Seq<u8>, admits: spec_fn(u8) -> bool) -> Result<
    (Frame, int),
    Failure,
> {
    if s.len() == 0 {
        Err(Failure::NotComplete)
    } else if !admits(s[0]) {
        Err(Failure::InvalidFrameType)
    } else {
        parse(s)
    }
}

/// The length that the frame at the start of the bytes will have once all of
/// it is there, for a reader that takes the frames whose marker `admits`
/// holds of.
pub open spec fn expected_length(s: Seq<u8>, admits: spec_fn(u8) -> bool) -> Result<int, Failure> {
    if s.len() == 0 {
        Err(Failure::NotComplete)
    } else if !admits(s[0]) {
        Err(Failure::InvalidFrameType)
    } else {
        expected_end(s, 0, MAX_DEPTH as nat)
    }
}

} // verus!
