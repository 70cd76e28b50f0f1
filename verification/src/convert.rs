//! Frames from plain values, and the plain values inside frames.
//!
//! A constructor takes every value that turns into its payload: `IntoText`,
//! `IntoBytes` and `IntoFrames` say for each kind of value what that payload
//! is. A conversion into a frame that wraps its argument is stated as a
//! function of that argument (`from_spec`). A conversion that copies text or
//! bytes is stated in the `ensures` of `from`, over views, and has no
//! `from_spec`.

use vstd::prelude::*;
use vstd::slice::slice_to_vec;
use vstd::std_specs::convert::FromSpecImpl;
use vstd::utf8::encode_utf8;

use crate::frame::{
    BulkString, entries_view, frames_view, RespArray, RespDouble, RespFrame, RespNull, RespNullArray,
    RespNullBulkString, RespSet, SimpleError, SimpleString,
};
use crate::map::RespMap;
use crate::model::Frame;

verus! {

/// A value that turns into the text of a frame.
pub trait IntoText: Sized {
    /// The text that the value turns into.
    spec fn text(self) -> Seq<char>;

    /// The value as an owned string.
    fn into_text(self) -> (r: String)
        ensures
            r@ == self.text(),
    ;
}

impl IntoText for String {
    open spec fn text(self) -> Seq<char> {
        self@
    }

    fn into_text(self) -> (r: String) {
        self
    }
}

impl IntoText for &String {
    open spec fn text(self) -> Seq<char> {
        self@
    }

    fn into_text(self) -> (r: String) {
        self.clone()
    }
}

impl IntoText for &str {
    open spec fn text(self) -> Seq<char> {
        self@
    }

    fn into_text(self) -> (r: String) {
        self.to_owned()
    }
}

/// A value that turns into the bytes of a bulk string. Text turns into its
/// UTF-8 bytes.
pub trait IntoBytes: Sized {
    /// The bytes that the value turns into.
    spec fn bytes(self) -> Seq<u8>;

    /// The value as an owned vector of bytes.
    fn into_byte_vec(self) -> (r: Vec<u8>)
        ensures
            r@ == self.bytes(),
    ;
}

impl IntoBytes for Vec<u8> {
    open spec fn bytes(self) -> Seq<u8> {
        self@
    }

    fn into_byte_vec(self) -> (r: Vec<u8>) {
        self
    }
}

impl IntoBytes for &Vec<u8> {
    open spec fn bytes(self) -> Seq<u8> {
        self@
    }

    fn into_byte_vec(self) -> (r: Vec<u8>) {
        slice_to_vec(self.as_slice())
    }
}

impl IntoBytes for &[u8] {
    open spec fn bytes(self) -> Seq<u8> {
        self@
    }

    fn into_byte_vec(self) -> (r: Vec<u8>) {
        slice_to_vec(self)
    }
}

impl<const N: usize> IntoBytes for &[u8; N] {
    open spec fn bytes(self) -> Seq<u8> {
        self@
    }

    fn into_byte_vec(self) -> (r: Vec<u8>) {
        slice_to_vec(self.as_slice())
    }
}

impl IntoBytes for &str {
    open spec fn bytes(self) -> Seq<u8> {
        encode_utf8(self@)
    }

    fn into_byte_vec(self) -> (r: Vec<u8>) {
        slice_to_vec(self.as_bytes())
    }
}

impl IntoBytes for String {
    open spec fn bytes(self) -> Seq<u8> {
        encode_utf8(self@)
    }

    fn into_byte_vec(self) -> (r: Vec<u8>) {
        slice_to_vec(self.as_str().as_bytes())
    }
}

/// A value that turns into the frames of a container, in their order.
pub trait IntoFrames: Sized {
    /// The frames that the value turns into.
    spec fn frames(self) -> Seq<Frame>;

    /// The value as an owned vector of frames.
    fn into_frames(self) -> (r: Vec<RespFrame>)
        ensures
            frames_view(r@) == self.frames(),
    ;
}

/// Copies the frames of a slice, frame by frame.
fn copy_frames(items: &[RespFrame]) -> (r: Vec<RespFrame>)
    ensures
        frames_view(r@) == frames_view(items@),
{
    let mut out: Vec<RespFrame> = Vec::new();
    let mut i: usize = 0;
    while i < items.len()
        invariant
            i <= items.len(),
            out.len() == i,
            forall|j: int| 0 <= j < i ==> out[j]@ == items[j]@,
        decreases items.len() - i,
    {
        let frame = items[i].clone();
        out.push(frame);
        i += 1;
    }
    assert(frames_view(out@) =~= frames_view(items@));
    out
}

impl IntoFrames for Vec<RespFrame> {
    open(crate) spec fn frames(self) -> Seq<Frame> {
        frames_view(self@)
    }

    fn into_frames(self) -> (r: Vec<RespFrame>) {
        self
    }
}

impl IntoFrames for &Vec<RespFrame> {
    open(crate) spec fn frames(self) -> Seq<Frame> {
        frames_view(self@)
    }

    fn into_frames(self) -> (r: Vec<RespFrame>) {
        copy_frames(self.as_slice())
    }
}

impl IntoFrames for &[RespFrame] {
    open(crate) spec fn frames(self) -> Seq<Frame> {
        frames_view(self@)
    }

    fn into_frames(self) -> (r: Vec<RespFrame>) {
        copy_frames(self)
    }
}

impl<const N: usize> IntoFrames for &[RespFrame; N] {
    open(crate) spec fn frames(self) -> Seq<Frame> {
        frames_view(self@)
    }

    fn into_frames(self) -> (r: Vec<RespFrame>) {
        copy_frames(self.as_slice())
    }
}

impl SimpleString {
    /// A simple string with the text of `s`.
    pub fn new<S: IntoText>(s: S) -> (r: Self)
        ensures
            r@ == s.text(),
    {
        SimpleString(s.into_text())
    }
}

impl SimpleError {
    /// A simple error with the text of `s`.
    pub fn new<S: IntoText>(s: S) -> (r: Self)
        ensures
            r@ == s.text(),
    {
        SimpleError(s.into_text())
    }
}

impl BulkString {
    /// A bulk string with the bytes of `s`, each of them as it is.
    pub fn new<S: IntoBytes>(s: S) -> (r: Self)
        ensures
            r@ == s.bytes(),
    {
        BulkString(s.into_byte_vec())
    }
}

impl RespArray {
    /// An array of the frames of `s`, in their order.
    pub fn new<S: IntoFrames>(s: S) -> (r: Self)
        ensures
            r@ == s.frames(),
    {
        RespArray(s.into_frames())
    }
}

impl RespSet {
    /// A set of the frames of `s`, in their order and each as often as it
    /// occurs there.
    pub fn new<S: IntoFrames>(s: S) -> (r: Self)
        ensures
            r@ == s.frames(),
    {
        RespSet(s.into_frames())
    }
}

impl Default for RespMap {
    fn default() -> (r: Self)
        ensures
            r@ == Seq::<(Seq<char>, Frame)>::empty(),
    {
        RespMap::new()
    }
}

impl core::ops::Deref for SimpleString {
    type Target = String;

    fn deref(&self) -> (r: &String)
        ensures
            r@ == self@,
    {
        &self.0
    }
}

impl core::ops::Deref for SimpleError {
    type Target = String;

    fn deref(&self) -> (r: &String)
        ensures
            r@ == self@,
    {
        &self.0
    }
}

impl core::ops::Deref for BulkString {
    type Target = Vec<u8>;

    fn deref(&self) -> (r: &Vec<u8>)
        ensures
            r@ == self@,
    {
        &self.0
    }
}

impl core::ops::Deref for RespArray {
    type Target = Vec<RespFrame>;

    fn deref(&self) -> (r: &Vec<RespFrame>)
        ensures
            frames_view(r@) == self@,
    {
        &self.0
    }
}

impl core::ops::Deref for RespSet {
    type Target = Vec<RespFrame>;

    fn deref(&self) -> (r: &Vec<RespFrame>)
        ensures
            frames_view(r@) == self@,
    {
        &self.0
    }
}

impl core::ops::Deref for RespMap {
    type Target = Vec<(String, RespFrame)>;

    /// The entries in the order of their keys, for reading.
    fn deref(&self) -> (r: &Vec<(String, RespFrame)>)
        ensures
            entries_view(r@) == self@,
    {
        &self.0
    }
}

impl AsRef<[u8]> for BulkString {
    fn as_ref(&self) -> (r: &[u8])
        ensures
            r@ == self@,
    {
        self.0.as_slice()
    }
}

impl FromSpecImpl<&str> for SimpleString {
    open spec fn obeys_from_spec() -> bool {
        false
    }

    open spec fn from_spec(s: &str) -> Self {
        arbitrary()
    }
}

impl From<&str> for SimpleString {
    fn from(s: &str) -> (r: Self)
        ensures
            r@ == s@,
    {
        SimpleString::new(s)
    }
}

impl FromSpecImpl<&str> for RespFrame {
    open spec fn obeys_from_spec() -> bool {
        false
    }

    open spec fn from_spec(s: &str) -> Self {
        arbitrary()
    }
}

impl From<&str> for RespFrame {
    fn from(s: &str) -> (r: Self)
        ensures
            r@ == Frame::SimpleString(s@),
    {
        RespFrame::SimpleString(SimpleString::from(s))
    }
}

impl FromSpecImpl<&str> for SimpleError {
    open spec fn obeys_from_spec() -> bool {
        false
    }

    open spec fn from_spec(s: &str) -> Self {
        arbitrary()
    }
}

impl From<&str> for SimpleError {
    fn from(s: &str) -> (r: Self)
        ensures
            r@ == s@,
    {
        SimpleError::new(s)
    }
}

impl FromSpecImpl<&str> for BulkString {
    open spec fn obeys_from_spec() -> bool {
        false
    }

    open spec fn from_spec(s: &str) -> Self {
        arbitrary()
    }
}

impl From<&str> for BulkString {
    fn from(s: &str) -> (r: Self)
        ensures
            r@ == encode_utf8(s@),
    {
        BulkString::new(s)
    }
}

impl FromSpecImpl<&[u8]> for BulkString {
    open spec fn obeys_from_spec() -> bool {
        false
    }

    open spec fn from_spec(s: &[u8]) -> Self {
        arbitrary()
    }
}

impl From<&[u8]> for BulkString {
    fn from(s: &[u8]) -> (r: Self)
        ensures
            r@ == s@,
    {
        BulkString::new(s)
    }
}

impl FromSpecImpl<&[u8]> for RespFrame {
    open spec fn obeys_from_spec() -> bool {
        false
    }

    open spec fn from_spec(s: &[u8]) -> Self {
        arbitrary()
    }
}

impl From<&[u8]> for RespFrame {
    fn from(s: &[u8]) -> (r: Self)
        ensures
            r@ == Frame::BulkString(s@),
    {
        RespFrame::BulkString(BulkString::from(s))
    }
}

impl<const N: usize> FromSpecImpl<&[u8; N]> for BulkString {
    open spec fn obeys_from_spec() -> bool {
        false
    }

    open spec fn from_spec(s: &[u8; N]) -> Self {
        arbitrary()
    }
}

impl<const N: usize> From<&[u8; N]> for BulkString {
    fn from(s: &[u8; N]) -> (r: Self)
        ensures
            r@ == s@,
    {
        BulkString::new(s)
    }
}

impl<const N: usize> FromSpecImpl<&[u8; N]> for RespFrame {
    open spec fn obeys_from_spec() -> bool {
        false
    }

    open spec fn from_spec(s: &[u8; N]) -> Self {
        arbitrary()
    }
}

impl<const N: usize> From<&[u8; N]> for RespFrame {
    fn from(s: &[u8; N]) -> (r: Self)
        ensures
            r@ == Frame::BulkString(s@),
    {
        RespFrame::BulkString(BulkString::from(s))
    }
}

impl FromSpecImpl<SimpleString> for RespFrame {
    open spec fn obeys_from_spec() -> bool {
        true
    }

    open spec fn from_spec(v: SimpleString) -> Self {
        RespFrame::SimpleString(v)
    }
}

impl From<SimpleString> for RespFrame {
    fn from(v: SimpleString) -> (r: Self)
        ensures
            r == RespFrame::SimpleString(v),
    {
        RespFrame::SimpleString(v)
    }
}

impl FromSpecImpl<SimpleError> for RespFrame {
    open spec fn obeys_from_spec() -> bool {
        true
    }

    open spec fn from_spec(v: SimpleError) -> Self {
        RespFrame::Error(v)
    }
}

impl From<SimpleError> for RespFrame {
    fn from(v: SimpleError) -> (r: Self)
        ensures
            r == RespFrame::Error(v),
    {
        RespFrame::Error(v)
    }
}

impl FromSpecImpl<i64> for RespFrame {
    open spec fn obeys_from_spec() -> bool {
        true
    }

    open spec fn from_spec(v: i64) -> Self {
        RespFrame::Integer(v)
    }
}

impl From<i64> for RespFrame {
    fn from(v: i64) -> (r: Self)
        ensures
            r == RespFrame::Integer(v),
    {
        RespFrame::Integer(v)
    }
}

impl FromSpecImpl<BulkString> for RespFrame {
    open spec fn obeys_from_spec() -> bool {
        true
    }

    open spec fn from_spec(v: BulkString) -> Self {
        RespFrame::BulkString(v)
    }
}

impl From<BulkString> for RespFrame {
    fn from(v: BulkString) -> (r: Self)
        ensures
            r == RespFrame::BulkString(v),
    {
        RespFrame::BulkString(v)
    }
}

impl FromSpecImpl<RespNullBulkString> for RespFrame {
    open spec fn obeys_from_spec() -> bool {
        true
    }

    open spec fn from_spec(v: RespNullBulkString) -> Self {
        RespFrame::NullBulkString(v)
    }
}

impl From<RespNullBulkString> for RespFrame {
    fn from(v: RespNullBulkString) -> (r: Self)
        ensures
            r == RespFrame::NullBulkString(v),
    {
        RespFrame::NullBulkString(v)
    }
}

impl FromSpecImpl<RespArray> for RespFrame {
    open spec fn obeys_from_spec() -> bool {
        true
    }

    open spec fn from_spec(v: RespArray) -> Self {
        RespFrame::Array(v)
    }
}

impl From<RespArray> for RespFrame {
    fn from(v: RespArray) -> (r: Self)
        ensures
            r == RespFrame::Array(v),
    {
        RespFrame::Array(v)
    }
}

impl FromSpecImpl<RespNullArray> for RespFrame {
    open spec fn obeys_from_spec() -> bool {
        true
    }

    open spec fn from_spec(v: RespNullArray) -> Self {
        RespFrame::NullArray(v)
    }
}

impl From<RespNullArray> for RespFrame {
    fn from(v: RespNullArray) -> (r: Self)
        ensures
            r == RespFrame::NullArray(v),
    {
        RespFrame::NullArray(v)
    }
}

impl FromSpecImpl<RespNull> for RespFrame {
    open spec fn obeys_from_spec() -> bool {
        true
    }

    open spec fn from_spec(v: RespNull) -> Self {
        RespFrame::Null(v)
    }
}

impl From<RespNull> for RespFrame {
    fn from(v: RespNull) -> (r: Self)
        ensures
            r == RespFrame::Null(v),
    {
        RespFrame::Null(v)
    }
}

impl FromSpecImpl<bool> for RespFrame {
    open spec fn obeys_from_spec() -> bool {
        true
    }

    open spec fn from_spec(v: bool) -> Self {
        RespFrame::Boolean(v)
    }
}

impl From<bool> for RespFrame {
    fn from(v: bool) -> (r: Self)
        ensures
            r == RespFrame::Boolean(v),
    {
        RespFrame::Boolean(v)
    }
}

impl FromSpecImpl<RespDouble> for RespFrame {
    open spec fn obeys_from_spec() -> bool {
        true
    }

    open spec fn from_spec(v: RespDouble) -> Self {
        RespFrame::Double(v)
    }
}

impl From<RespDouble> for RespFrame {
    fn from(v: RespDouble) -> (r: Self)
        ensures
            r == RespFrame::Double(v),
    {
        RespFrame::Double(v)
    }
}

impl FromSpecImpl<RespMap> for RespFrame {
    open spec fn obeys_from_spec() -> bool {
        true
    }

    open spec fn from_spec(v: RespMap) -> Self {
        RespFrame::RespMap(v)
    }
}

impl From<RespMap> for RespFrame {
    fn from(v: RespMap) -> (r: Self)
        ensures
            r == RespFrame::RespMap(v),
    {
        RespFrame::RespMap(v)
    }
}

impl FromSpecImpl<RespSet> for RespFrame {
    open spec fn obeys_from_spec() -> bool {
        true
    }

    open spec fn from_spec(v: RespSet) -> Self {
        RespFrame::RespSet(v)
    }
}

impl From<RespSet> for RespFrame {
    fn from(v: RespSet) -> (r: Self)
        ensures
            r == RespFrame::RespSet(v),
    {
        RespFrame::RespSet(v)
    }
}

} // verus!
