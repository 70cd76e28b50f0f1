//! A codec for a RESP-style wire protocol: typed frames, a decoder that works
//! on a growing byte buffer, an encoder, and a small command layer on top.
//!
//! Contracts speak of a frame through its mathematical value, `model::Frame`,
//! of bytes on the wire through `model::wire`, and of what bytes mean through
//! `grammar::parse`. On top of the contracts of the encoder and the decoder
//! these laws are proved:
//!
//! - `roundtrip`: the bytes of a well-formed frame are read back as that frame;
//! - `streaming`: a frame is read from its own bytes alone, and while a part
//!   of them is missing the decoder asks for more;
//! - `decoded`: what the decoder returns is well-formed, so that it can be
//!   written and read back;
//! - `lookahead`: the length that is expected of a frame is the length of the
//!   frame that is read.

pub mod ascii;
pub mod buffer;
pub mod cmd;
pub mod convert;
pub mod decode;
pub mod decoded;
pub mod digits;
pub mod encode;
pub mod entries;
pub mod error;
pub mod float_text;
pub mod frame;
pub mod grammar;
pub mod line;
pub mod lookahead;
pub mod map;
pub mod model;
pub mod order;
pub mod roundtrip;
pub mod streaming;
pub mod text;

pub use crate::cmd::{CommandError, Get, HGet, HGetAll, HSet, SetCommand};
pub use crate::convert::{IntoBytes, IntoFrames, IntoText};
pub use crate::decode::RespDecode;
pub use crate::digits::IntErrorKind;
pub use crate::encode::RespEncode;
pub use crate::error::RespError;
pub use crate::frame::{
    BulkString, RespArray, RespDouble, RespFrame, RespNull, RespNullArray, RespNullBulkString,
    RespSet, SimpleError, SimpleString,
};
pub use crate::map::RespMap;
