//! Commands: an array of frames that names a command and gives its arguments
//! becomes a typed request.
//!
//! What each conversion returns is stated in the `ensures` of its `try_from`,
//! over the `*_request` functions below: the request, or the words of the
//! error.

pub mod hmap;
pub mod map;

use vstd::prelude::*;
use vstd::utf8::{decode_utf8, encode_utf8, valid_utf8};

use crate::frame::{frames_view, RespArray, RespFrame};
use crate::model::Frame;
use crate::order::bytes_equal;
use crate::text::string_from_utf8;

verus! {

/// Why an array of frames is not the command that was asked for.
#[derive(Debug, PartialEq, Eq)]
pub enum CommandError {
    /// The name is another one, the number of arguments is wrong, or an
    /// argument is not of the kind that the command takes.
    InvalidArgument(String),
}

impl View for CommandError {
    type V = Seq<char>;

    /// The words of the error.
    open spec fn view(&self) -> Seq<char> {
        match self {
            CommandError::InvalidArgument(message) => message@,
        }
    }
}

/// Asks for the value of a key.
#[derive(Debug, PartialEq)]
pub struct Get {
    pub key: String,
}

/// Binds a key to a value.
#[derive(Debug, PartialEq)]
pub struct SetCommand {
    pub key: String,
    pub value: RespFrame,
}

/// Asks for the value of a field of the hash at a key.
#[derive(Debug, PartialEq)]
pub struct HGet {
    pub key: String,
    pub field: String,
}

/// Binds a field of the hash at a key to a value.
#[derive(Debug, PartialEq)]
pub struct HSet {
    pub key: String,
    pub field: String,
    pub value: RespFrame,
}

/// Asks for all fields of the hash at a key.
#[derive(Debug, PartialEq)]
pub struct HGetAll {
    pub key: String,
}

/// The frames open with the names of a command, each a bulk string that
/// holds one name letter for letter, and exactly `n_args` frames follow.
pub open spec fn is_command(items: Seq<Frame>, names: Seq<Seq<char>>, n_args: nat) -> bool {
    &&& items.len() == names.len() + n_args
    &&& forall|i: int|
        0 <= i < names.len() ==> #[trigger] items[i] == Frame::BulkString(encode_utf8(names[i]))
}

/// The text of an argument: that of a bulk string whose bytes are UTF-8.
pub open spec fn text_argument(f: Frame) -> Option<Seq<char>> {
    match f {
        Frame::BulkString(data) => if valid_utf8(data) {
            Some(decode_utf8(data))
        } else {
            None
        },
        _ => None,
    }
}

/// Why an array of frames is refused that is not the command with these
/// names and this number of arguments, in the words of the error; nothing if
/// it is that command. The number of frames is looked at before the names.
pub open spec fn command_fault(items: Seq<Frame>, names: Seq<Seq<char>>, n_args: nat) -> Option<
    Seq<char>,
> {
    if is_command(items, names, n_args) {
        None
    } else if items.len() != names.len() + n_args {
        Some("wrong number of arguments for the command"@)
    } else {
        Some("the command has another name"@)
    }
}

/// The key that a `get` command asks for, or the words with which the frames
/// are refused.
pub open spec fn get_request(items: Seq<Frame>) -> Result<Seq<char>, Seq<char>> {
    match command_fault(items, seq!["get"@], 1) {
        Some(message) => Err(message),
        None => match text_argument(items[1]) {
            Some(key) => Ok(key),
            None => Err("Invalid key"@),
        },
    }
}

/// The key and the value of a `set` command, or the words with which the
/// frames are refused.
pub open spec fn set_request(items: Seq<Frame>) -> Result<(Seq<char>, Frame), Seq<char>> {
    match command_fault(items, seq!["set"@], 2) {
        Some(message) => Err(message),
        None => match text_argument(items[1]) {
            Some(key) => Ok((key, items[2])),
            None => Err("Invalid key or value"@),
        },
    }
}

/// The key and the field of an `hget` command, or the words with which the
/// frames are refused.
pub open spec fn hget_request(items: Seq<Frame>) -> Result<(Seq<char>, Seq<char>), Seq<char>> {
    match command_fault(items, seq!["hget"@], 2) {
        Some(message) => Err(message),
        None => match (text_argument(items[1]), text_argument(items[2])) {
            (Some(key), Some(field)) => Ok((key, field)),
            _ => Err("Invalid key or field"@),
        },
    }
}

/// The key, the field and the value of an `hset` command, or the words with
/// which the frames are refused.
pub open spec fn hset_request(items: Seq<Frame>) -> Result<
    (Seq<char>, Seq<char>, Frame),
    Seq<char>,
> {
    match command_fault(items, seq!["hset"@], 3) {
        Some(message) => Err(message),
        None => match (text_argument(items[1]), text_argument(items[2])) {
            (Some(key), Some(field)) => Ok((key, field, items[3])),
            _ => Err("Invalid key or field"@),
        },
    }
}

/// The key that an `hgetall` command asks for, or the words with which the
/// frames are refused.
pub open spec fn hgetall_request(items: Seq<Frame>) -> Result<Seq<char>, Seq<char>> {
    match command_fault(items, seq!["hgetall"@], 1) {
        Some(message) => Err(message),
        None => match text_argument(items[1]) {
            Some(key) => Ok(key),
            None => Err("Invalid key"@),
        },
    }
}

/// The texts of a list of names.
pub open spec fn names_view(names: Seq<&str>) -> Seq<Seq<char>> {
    Seq::new(names.len(), |i: int| names[i]@)
}

/// Checks that the array opens with the names of the command and has
/// `n_args` arguments after them, and says what is wrong where it does not.
pub fn validate_command(value: &RespArray, names: &[&str], n_args: usize) -> (r: Result<
    (),
    CommandError,
>)
    ensures
        match command_fault(value@, names_view(names@), n_args as nat) {
            None => r is Ok,
            Some(message) => r matches Err(e) && e@ == message,
        },
{
    let ghost items = value@;
    let ghost wanted = names_view(names@);
    if value.0.len() < names.len() || value.0.len() - names.len() != n_args {
        return Err(
            CommandError::InvalidArgument("wrong number of arguments for the command".to_string()),
        );
    }
    let mut i: usize = 0;
    while i < names.len()
        invariant
            i <= names.len(),
            names.len() <= value.0.len(),
            value.0.len() - names.len() == n_args,
            items == value@,
            wanted == names_view(names@),
            forall|j: int|
                0 <= j < i ==> #[trigger] items[j] == Frame::BulkString(encode_utf8(wanted[j])),
        decreases names.len() - i,
    {
        let matches: bool = match &value.0[i] {
            RespFrame::BulkString(name) => bytes_equal(name.0.as_slice(), names[i].as_bytes()),
            _ => false,
        };
        assert(items[i as int] == value.0[i as int]@);
        assert(wanted[i as int] == names@[i as int]@);
        if !matches {
            assert(items[i as int] != Frame::BulkString(encode_utf8(wanted[i as int])));
            assert(!is_command(items, wanted, n_args as nat));
            return Err(CommandError::InvalidArgument("the command has another name".to_string()));
        }
        i += 1;
    }
    Ok(())
}

/// The frames of the array from index `start` on.
pub fn extract_args(value: RespArray, start: usize) -> (r: Result<Vec<RespFrame>, CommandError>)
    ensures
        r matches Ok(args) && frames_view(args@) == if start <= value@.len() {
            value@.skip(start as int)
        } else {
            Seq::empty()
        },
{
    let mut items = value.0;
    if start > items.len() {
        let none: Vec<RespFrame> = Vec::new();
        assert(frames_view(none@) =~= Seq::empty());
        return Ok(none);
    }
    let ghost before = items@;
    let args = items.split_off(start);
    assert(frames_view(args@) =~= frames_view(before).skip(start as int));
    Ok(args)
}

/// The text of an argument, if it is a bulk string that holds UTF-8.
pub(crate) fn take_text(frame: RespFrame) -> (r: Option<String>)
    ensures
        match text_argument(frame@) {
            Some(text) => r matches Some(s) && s@ == text,
            None => r is None,
        },
{
    match frame {
        RespFrame::BulkString(data) => string_from_utf8(data.0),
        _ => None,
    }
}

/// Takes the first of the frames out.
pub(crate) fn take_first(args: &mut Vec<RespFrame>) -> (r: RespFrame)
    requires
        old(args).len() > 0,
    ensures
        r@ == frames_view(old(args)@)[0],
        final(args).len() == old(args).len() - 1,
        frames_view(final(args)@) == frames_view(old(args)@).skip(1),
{
    let first = args.remove(0);
    assert(frames_view(args@) =~= frames_view(old(args)@).skip(1));
    first
}

} // verus!
