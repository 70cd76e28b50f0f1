//! The frames of the protocol as Rust values.

use vstd::prelude::*;

use crate::float_text::{is_float_literal, is_float_text};
use crate::map::RespMap;
use crate::model::Frame;

verus! {

/// A line of text. On the wire it must not hold a line terminator.
#[derive(Debug, PartialEq)]
pub struct SimpleString(pub(crate) String);

/// A line of text that reports a failure.
#[derive(Debug, PartialEq)]
pub struct SimpleError(pub(crate) String);

/// The null value.
#[derive(Debug, PartialEq)]
pub struct RespNull;

/// The array that is absent.
#[derive(Debug, PartialEq)]
pub struct RespNullArray;

/// The bulk string that is absent.
#[derive(Debug, PartialEq)]
pub struct RespNullBulkString;

/// A string of arbitrary bytes.
#[derive(Debug, PartialEq)]
pub struct BulkString(pub(crate) Vec<u8>);

/// A sequence of frames.
#[derive(Debug, PartialEq)]
pub struct RespArray(pub(crate) Vec<RespFrame>);

/// A sequence of frames whose order carries no meaning.
#[derive(Debug, PartialEq)]
pub struct RespSet(pub(crate) Vec<RespFrame>);

/// A floating-point number, kept as the text of its literal. Two doubles are
/// equal when their texts are.
#[derive(Debug, PartialEq)]
pub struct RespDouble(pub(crate) Vec<u8>);

/// One protocol value.
#[derive(Debug, PartialEq)]
pub enum RespFrame {
    /// `+<text>\r\n`
    SimpleString(SimpleString),
    /// `-<text>\r\n`
    Error(SimpleError),
    /// `:<integer>\r\n`
    Integer(i64),
    /// `$<length>\r\n<bytes>\r\n`
    BulkString(BulkString),
    /// `$-1\r\n`
    NullBulkString(RespNullBulkString),
    /// `*<count>\r\n`, then the frames
    Array(RespArray),
    /// `*-1\r\n`; the count -1 is read as this frame under `%` and `~` too
    NullArray(RespNullArray),
    /// `_\r\n`
    Null(RespNull),
    /// `#t\r\n` or `#f\r\n`
    Boolean(bool),
    /// `,<literal>\r\n`
    Double(RespDouble),
    /// `%<count>\r\n`, then each key, as a simple string, and its frame
    RespMap(RespMap),
    /// `~<count>\r\n`, then the frames
    RespSet(RespSet),
}

/// The values of a sequence of frames.
pub open(crate) spec fn frames_view(v: Seq<RespFrame>) -> Seq<Frame>
    decreases v,
{
    Seq::new(
        v.len(),
        |i: int|
            if 0 <= i < v.len() {
                v[i]@
            } else {
                Frame::Null
            },
    )
}

/// The values of a sequence of keys and frames.
pub open(crate) spec fn entries_view(v: Seq<(String, RespFrame)>) -> Seq<(Seq<char>, Frame)>
    decreases v,
{
    Seq::new(
        v.len(),
        |i: int|
            if 0 <= i < v.len() {
                (v[i].0@, v[i].1@)
            } else {
                (Seq::empty(), Frame::Null)
            },
    )
}

impl View for SimpleString {
    type V = Seq<char>;

    open(crate) spec fn view(&self) -> Seq<char> {
        self.0@
    }
}

impl View for SimpleError {
    type V = Seq<char>;

    open(crate) spec fn view(&self) -> Seq<char> {
        self.0@
    }
}

impl View for BulkString {
    type V = Seq<u8>;

    open(crate) spec fn view(&self) -> Seq<u8> {
        self.0@
    }
}

impl View for RespDouble {
    type V = Seq<u8>;

    open(crate) spec fn view(&self) -> Seq<u8> {
        self.0@
    }
}

impl View for RespArray {
    type V = Seq<Frame>;

    open(crate) spec fn view(&self) -> Seq<Frame>
        decreases self,
    {
        frames_view(self.0@)
    }
}

impl View for RespSet {
    type V = Seq<Frame>;

    open(crate) spec fn view(&self) -> Seq<Frame>
        decreases self,
    {
        frames_view(self.0@)
    }
}

impl View for RespFrame {
    type V = Frame;

    open(crate) spec fn view(&self) -> Frame
        decreases self,
    {
        match self {
            RespFrame::SimpleString(s) => Frame::SimpleString(s@),
            RespFrame::Error(e) => Frame::Error(e@),
            RespFrame::Integer(i) => Frame::Integer(*i),
            RespFrame::BulkString(b) => Frame::BulkString(b@),
            RespFrame::NullBulkString(_) => Frame::NullBulkString,
            RespFrame::Array(a) => Frame::Array(a@),
            RespFrame::NullArray(_) => Frame::NullArray,
            RespFrame::Null(_) => Frame::Null,
            RespFrame::Boolean(b) => Frame::Boolean(*b),
            RespFrame::Double(d) => Frame::Double(d@),
            RespFrame::RespMap(m) => Frame::RespMap(m@),
            RespFrame::RespSet(s) => Frame::RespSet(s@),
        }
    }
}

/// A Rust value that stands for one frame.
pub trait AsFrame {
    /// The frame that the value stands for.
    spec fn as_frame(&self) -> Frame;
}

impl AsFrame for RespFrame {
    open(crate) spec fn as_frame(&self) -> Frame {
        self@
    }
}

impl AsFrame for SimpleString {
    open(crate) spec fn as_frame(&self) -> Frame {
        Frame::SimpleString(self@)
    }
}

impl AsFrame for SimpleError {
    open(crate) spec fn as_frame(&self) -> Frame {
        Frame::Error(self@)
    }
}

impl AsFrame for i64 {
    open spec fn as_frame(&self) -> Frame {
        Frame::Integer(*self)
    }
}

impl AsFrame for BulkString {
    open(crate) spec fn as_frame(&self) -> Frame {
        Frame::BulkString(self@)
    }
}

impl AsFrame for RespNullBulkString {
    open spec fn as_frame(&self) -> Frame {
        Frame::NullBulkString
    }
}

impl AsFrame for RespArray {
    open(crate) spec fn as_frame(&self) -> Frame {
        Frame::Array(self@)
    }
}

impl AsFrame for RespNullArray {
    open spec fn as_frame(&self) -> Frame {
        Frame::NullArray
    }
}

impl AsFrame for RespNull {
    open spec fn as_frame(&self) -> Frame {
        Frame::Null
    }
}

impl AsFrame for bool {
    open spec fn as_frame(&self) -> Frame {
        Frame::Boolean(*self)
    }
}

impl AsFrame for RespDouble {
    open(crate) spec fn as_frame(&self) -> Frame {
        Frame::Double(self@)
    }
}

impl AsFrame for RespMap {
    open(crate) spec fn as_frame(&self) -> Frame {
        Frame::RespMap(self@)
    }
}

impl AsFrame for RespSet {
    open(crate) spec fn as_frame(&self) -> Frame {
        Frame::RespSet(self@)
    }
}

/// Copies a sequence of frames, frame by frame.
pub(crate) fn clone_frames(v: &Vec<RespFrame>) -> (r: Vec<RespFrame>)
    ensures
        frames_view(r@) == frames_view(v@),
    decreases v,
{
    let mut out: Vec<RespFrame> = Vec::new();
    let mut i: usize = 0;
    while i < v.len()
        invariant
            i <= v.len(),
            out.len() == i,
            forall|j: int| 0 <= j < i ==> out[j]@ == v[j]@,
        decreases v.len() - i,
    {
        let f = v[i].clone();
        out.push(f);
        i += 1;
    }
    assert(frames_view(out@) =~= frames_view(v@));
    out
}

impl Clone for SimpleString {
    fn clone(&self) -> (r: Self)
        ensures
            r@ == self@,
    {
        SimpleString(self.0.clone())
    }
}

impl Clone for SimpleError {
    fn clone(&self) -> (r: Self)
        ensures
            r@ == self@,
    {
        SimpleError(self.0.clone())
    }
}

impl Clone for RespNull {
    fn clone(&self) -> (r: Self)
        ensures
            r == *self,
    {
        RespNull
    }
}

impl Clone for RespNullArray {
    fn clone(&self) -> (r: Self)
        ensures
            r == *self,
    {
        RespNullArray
    }
}

impl Clone for RespNullBulkString {
    fn clone(&self) -> (r: Self)
        ensures
            r == *self,
    {
        RespNullBulkString
    }
}

impl Clone for BulkString {
    fn clone(&self) -> (r: Self)
        ensures
            r@ == self@,
    {
        let data = self.0.clone();
        assert(data@ =~= self.0@);
        BulkString(data)
    }
}

impl Clone for RespDouble {
    fn clone(&self) -> (r: Self)
        ensures
            r@ == self@,
    {
        proof {
            use_type_invariant(self);
        }
        let text = self.0.clone();
        assert(text@ =~= self.0@);
        RespDouble(text)
    }
}

impl Clone for RespArray {
    fn clone(&self) -> (r: Self)
        ensures
            r@ == self@,
        decreases self,
    {
        RespArray(clone_frames(&self.0))
    }
}

impl Clone for RespSet {
    fn clone(&self) -> (r: Self)
        ensures
            r@ == self@,
        decreases self,
    {
        RespSet(clone_frames(&self.0))
    }
}

impl Clone for RespFrame {
    fn clone(&self) -> (r: Self)
        ensures
            r@ == self@,
        decreases self,
    {
        match self {
            RespFrame::SimpleString(s) => RespFrame::SimpleString(s.clone()),
            RespFrame::Error(e) => RespFrame::Error(e.clone()),
            RespFrame::Integer(i) => RespFrame::Integer(*i),
            RespFrame::BulkString(b) => RespFrame::BulkString(b.clone()),
            RespFrame::NullBulkString(_) => RespFrame::NullBulkString(RespNullBulkString),
            RespFrame::Array(a) => RespFrame::Array(a.clone()),
            RespFrame::NullArray(_) => RespFrame::NullArray(RespNullArray),
            RespFrame::Null(_) => RespFrame::Null(RespNull),
            RespFrame::Boolean(b) => RespFrame::Boolean(*b),
            RespFrame::Double(d) => RespFrame::Double(d.clone()),
            RespFrame::RespMap(m) => RespFrame::RespMap(m.clone()),
            RespFrame::RespSet(s) => RespFrame::RespSet(s.clone()),
        }
    }
}

impl RespDouble {
    #[verifier::type_invariant]
    spec fn is_literal(&self) -> bool {
        is_float_literal(self.0@)
    }

    /// A double from the text of its literal, if the text is one.
    pub fn new(text: &[u8]) -> (r: Option<Self>)
        ensures
            r is Some <==> is_float_literal(text@),
            r matches Some(d) ==> d@ == text@,
    {
        if is_float_text(text) {
            Some(RespDouble(vstd::slice::slice_to_vec(text)))
        } else {
            None
        }
    }

    /// The text of the literal.
    pub fn as_bytes(&self) -> (r: &[u8])
        ensures
            r@ == self@,
            is_float_literal(r@),
    {
        proof {
            use_type_invariant(self);
        }
        self.0.as_slice()
    }
}

} // verus!
