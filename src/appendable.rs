//! Values that can be appended to a text or to a byte buffer, each with the
//! exact number of bytes it adds.

use std::borrow::Cow;
use vstd::prelude::*;
use vstd::layout::{layout_of_primitives, size_of};
use vstd::string::*;
use vstd::utf8::encode_utf8;
use crate::decimal::{
    count_digits_i128, count_digits_u128, decimal, push_decimal_i128, push_decimal_u128,
};
use crate::endian::{
    be_bytes, from_be, from_le, le_bytes, lemma_be_round_trip, lemma_le_round_trip, pow256, push_be,
    push_le,
};
use crate::utf8_len::{char_utf8_len, lemma_utf8_len_char, utf8_len};

verus! {

/// A value that can be appended to a `String`.
pub trait StringAppendable {
    /// The characters that this value adds to a text.
    spec fn text(&self) -> Seq<char>;

    /// The number of bytes that `push_to` adds, found without writing.
    fn byte_len(&self) -> (r: usize)
        ensures
            r as nat == utf8_len(self.text()),
    ;

    /// Appends the value's characters at the end of `text`.
    fn push_to(&self, text: &mut String)
        ensures
            final(text)@ == old(text)@ + self.text(),
    ;
}

/// A value that can be appended to a byte buffer.
pub trait BytesAppendable {
    /// The bytes that this value adds to a buffer.
    spec fn bytes(&self) -> Seq<u8>;

    /// The number of bytes that `push_to` adds, found without writing.
    fn byte_len(&self) -> (r: usize)
        ensures
            r as nat == self.bytes().len(),
    ;

    /// Appends the value's bytes at the end of `bytes`.
    fn push_to(&self, bytes: &mut Vec<u8>)
        ensures
            final(bytes)@ == old(bytes)@ + self.bytes(),
    ;
}

/// An integer with a fixed width that can be appended in either byte order.
pub trait EndianBytesAppendable {
    /// The width of the type in bytes.
    spec fn width(&self) -> nat;

    /// The value's bits as an unsigned number (two's complement for signed types).
    spec fn bits(&self) -> nat;

    /// The bits fit in the width, and no width exceeds sixteen bytes.
    proof fn lemma_bits_fit(&self)
        ensures
            self.bits() < pow256(self.width()),
            self.width() <= 16,
    ;

    /// The number of bytes that either push adds: the type's width.
    fn byte_len(&self) -> (r: usize)
        ensures
            r as nat == self.width(),
    ;

    /// Appends the value least significant byte first.
    fn push_le_to(&self, bytes: &mut Vec<u8>)
        ensures
            final(bytes)@ == old(bytes)@ + le_bytes(self.bits(), self.width()),
    ;

    /// Appends the value most significant byte first.
    fn push_be_to(&self, bytes: &mut Vec<u8>)
        ensures
            final(bytes)@ == old(bytes)@ + be_bytes(self.bits(), self.width()),
    ;
}

/// Appends every byte of `src` at the end of `bytes`.
fn extend_bytes(bytes: &mut Vec<u8>, src: &[u8])
    ensures
        final(bytes)@ == old(bytes)@ + src@,
{
    let n = src.len();
    let mut i: usize = 0;
    while i < n
        invariant
            n == src@.len(),
            i <= n,
            bytes@ == old(bytes)@ + src@.subrange(0, i as int),
        decreases n - i,
    {
        bytes.push(src[i]);
        i = i + 1;
        assert(bytes@ =~= old(bytes)@ + src@.subrange(0, i as int));
    }
    assert(src@.subrange(0, n as int) =~= src@);
}

/// Relies on `String::push`: appends one character.
#[verifier::external_body]
fn push_char(text: &mut String, c: char)
    ensures
        final(text)@ == old(text)@.push(c),
{
    text.push(c)
}

/// The UTF-8 length of `c`, from its scalar value.
fn char_len(c: char) -> (r: usize)
    ensures
        r as nat == utf8_len(seq![c]),
{
    proof {
        lemma_utf8_len_char(c);
    }
    let v = c as u32;
    if v <= 0x7F {
        1
    } else if v <= 0x7FF {
        2
    } else if v <= 0xFFFF {
        3
    } else {
        4
    }
}

impl StringAppendable for &str {
    open spec fn text(&self) -> Seq<char> {
        (**self)@
    }

    fn byte_len(&self) -> (r: usize) {
        self.as_bytes().len()
    }

    fn push_to(&self, text: &mut String) {
        text.append(*self);
    }
}

impl BytesAppendable for &str {
    open spec fn bytes(&self) -> Seq<u8> {
        (**self).spec_bytes()
    }

    fn byte_len(&self) -> (r: usize) {
        self.as_bytes().len()
    }

    fn push_to(&self, bytes: &mut Vec<u8>) {
        extend_bytes(bytes, self.as_bytes());
    }
}

impl StringAppendable for &String {
    open spec fn text(&self) -> Seq<char> {
        (**self)@
    }

    fn byte_len(&self) -> (r: usize) {
        self.as_str().as_bytes().len()
    }

    fn push_to(&self, text: &mut String) {
        text.append(self.as_str());
    }
}

impl BytesAppendable for &String {
    open spec fn bytes(&self) -> Seq<u8> {
        encode_utf8((**self)@)
    }

    fn byte_len(&self) -> (r: usize) {
        self.as_str().as_bytes().len()
    }

    fn push_to(&self, bytes: &mut Vec<u8>) {
        extend_bytes(bytes, self.as_str().as_bytes());
    }
}

/// The text that a copy-on-write string holds, borrowed or owned.
fn cow_str<'a, 'b>(c: &'b Cow<'a, str>) -> (r: &'b str)
    ensures
        r@ == (*c)@,
{
    match c {
        Cow::Borrowed(b) => *b,
        Cow::Owned(o) => o.as_str(),
    }
}

impl<'a> StringAppendable for &'a Cow<'a, str> {
    open spec fn text(&self) -> Seq<char> {
        (**self)@
    }

    fn byte_len(&self) -> (r: usize) {
        cow_str(*self).as_bytes().len()
    }

    fn push_to(&self, text: &mut String) {
        text.append(cow_str(*self));
    }
}

impl<'a> BytesAppendable for &'a Cow<'a, str> {
    open spec fn bytes(&self) -> Seq<u8> {
        encode_utf8((**self)@)
    }

    fn byte_len(&self) -> (r: usize) {
        cow_str(*self).as_bytes().len()
    }

    fn push_to(&self, bytes: &mut Vec<u8>) {
        extend_bytes(bytes, cow_str(*self).as_bytes());
    }
}

impl StringAppendable for char {
    open spec fn text(&self) -> Seq<char> {
        seq![*self]
    }

    fn byte_len(&self) -> (r: usize) {
        char_len(*self)
    }

    fn push_to(&self, text: &mut String) {
        push_char(text, *self);
    }
}

impl BytesAppendable for char {
    open spec fn bytes(&self) -> Seq<u8> {
        encode_utf8(seq![*self])
    }

    fn byte_len(&self) -> (r: usize) {
        char_len(*self)
    }

    fn push_to(&self, bytes: &mut Vec<u8>) {
        let mut encoded = String::new();
        push_char(&mut encoded, *self);
        assert(encoded@ =~= seq![*self]);
        extend_bytes(bytes, encoded.as_str().as_bytes());
    }
}

impl<T: StringAppendable> StringAppendable for Option<T> {
    open spec fn text(&self) -> Seq<char> {
        match self {
            Some(value) => value.text(),
            None => Seq::empty(),
        }
    }

    fn byte_len(&self) -> (r: usize) {
        match self {
            Some(value) => value.byte_len(),
            None => {
                assert(utf8_len(Seq::<char>::empty()) == 0) by {
                    assert(encode_utf8(Seq::<char>::empty()) =~= Seq::<u8>::empty());
                }
                0
            },
        }
    }

    fn push_to(&self, text: &mut String) {
        match self {
            Some(value) => value.push_to(text),
            None => {
                assert(old(text)@ + Seq::<char>::empty() =~= old(text)@);
            },
        }
    }
}

impl<T: BytesAppendable> BytesAppendable for Option<T> {
    open spec fn bytes(&self) -> Seq<u8> {
        match self {
            Some(value) => value.bytes(),
            None => Seq::empty(),
        }
    }

    fn byte_len(&self) -> (r: usize) {
        match self {
            Some(value) => value.byte_len(),
            None => 0,
        }
    }

    fn push_to(&self, bytes: &mut Vec<u8>) {
        match self {
            Some(value) => value.push_to(bytes),
            None => {
                assert(old(bytes)@ + Seq::<u8>::empty() =~= old(bytes)@);
            },
        }
    }
}

impl<T: StringAppendable + ?Sized> StringAppendable for &T {
    open spec fn text(&self) -> Seq<char> {
        (**self).text()
    }

    fn byte_len(&self) -> (r: usize) {
        (**self).byte_len()
    }

    fn push_to(&self, text: &mut String) {
        (**self).push_to(text)
    }
}

impl<T: BytesAppendable + ?Sized> BytesAppendable for &T {
    open spec fn bytes(&self) -> Seq<u8> {
        (**self).bytes()
    }

    fn byte_len(&self) -> (r: usize) {
        (**self).byte_len()
    }

    fn push_to(&self, bytes: &mut Vec<u8>) {
        (**self).push_to(bytes)
    }
}

proof fn lemma_usize_fits(x: usize)
    ensures
        (x as nat) < pow256(size_of::<usize>()),
        size_of::<usize>() <= 16,
{
    broadcast use layout_of_primitives;
    reveal_with_fuel(pow256, 9);
    if usize::BITS == 32 {
        assert(size_of::<usize>() == 4);
        assert(pow256(4) == 0x1_0000_0000nat);
    } else {
        assert(size_of::<usize>() == 8);
        assert(pow256(8) == 0x1_0000_0000_0000_0000nat);
    }
}

impl StringAppendable for i8 {
    open spec fn text(&self) -> Seq<char> {
        decimal(*self as int)
    }

    fn byte_len(&self) -> (r: usize) {
        count_digits_i128(*self as i128)
    }

    fn push_to(&self, text: &mut String) {
        push_decimal_i128(text, *self as i128);
    }
}

impl EndianBytesAppendable for i8 {
    open spec fn width(&self) -> nat {
        1
    }

    open spec fn bits(&self) -> nat {
        (*self as u8) as nat
    }

    /// The bits fit in the width, and no width exceeds sixteen bytes.
    proof fn lemma_bits_fit(&self) {
        reveal_with_fuel(pow256, 2);
        assert(pow256(1) == 0x100nat);
    }

    fn byte_len(&self) -> (r: usize) {
        1
    }

    fn push_le_to(&self, bytes: &mut Vec<u8>) {
        proof {
            self.lemma_bits_fit();
        }
        push_le(bytes, *self as u8 as u128, 1);
    }

    fn push_be_to(&self, bytes: &mut Vec<u8>) {
        proof {
            self.lemma_bits_fit();
        }
        push_be(bytes, *self as u8 as u128, 1);
    }
}

impl StringAppendable for i16 {
    open spec fn text(&self) -> Seq<char> {
        decimal(*self as int)
    }

    fn byte_len(&self) -> (r: usize) {
        count_digits_i128(*self as i128)
    }

    fn push_to(&self, text: &mut String) {
        push_decimal_i128(text, *self as i128);
    }
}

impl EndianBytesAppendable for i16 {
    open spec fn width(&self) -> nat {
        2
    }

    open spec fn bits(&self) -> nat {
        (*self as u16) as nat
    }

    /// The bits fit in the width, and no width exceeds sixteen bytes.
    proof fn lemma_bits_fit(&self) {
        reveal_with_fuel(pow256, 3);
        assert(pow256(2) == 0x1_0000nat);
    }

    fn byte_len(&self) -> (r: usize) {
        2
    }

    fn push_le_to(&self, bytes: &mut Vec<u8>) {
        proof {
            self.lemma_bits_fit();
        }
        push_le(bytes, *self as u16 as u128, 2);
    }

    fn push_be_to(&self, bytes: &mut Vec<u8>) {
        proof {
            self.lemma_bits_fit();
        }
        push_be(bytes, *self as u16 as u128, 2);
    }
}

impl StringAppendable for i32 {
    open spec fn text(&self) -> Seq<char> {
        decimal(*self as int)
    }

    fn byte_len(&self) -> (r: usize) {
        count_digits_i128(*self as i128)
    }

    fn push_to(&self, text: &mut String) {
        push_decimal_i128(text, *self as i128);
    }
}

impl EndianBytesAppendable for i32 {
    open spec fn width(&self) -> nat {
        4
    }

    open spec fn bits(&self) -> nat {
        (*self as u32) as nat
    }

    /// The bits fit in the width, and no width exceeds sixteen bytes.
    proof fn lemma_bits_fit(&self) {
        reveal_with_fuel(pow256, 5);
        assert(pow256(4) == 0x1_0000_0000nat);
    }

    fn byte_len(&self) -> (r: usize) {
        4
    }

    fn push_le_to(&self, bytes: &mut Vec<u8>) {
        proof {
            self.lemma_bits_fit();
        }
        push_le(bytes, *self as u32 as u128, 4);
    }

    fn push_be_to(&self, bytes: &mut Vec<u8>) {
        proof {
            self.lemma_bits_fit();
        }
        push_be(bytes, *self as u32 as u128, 4);
    }
}

impl StringAppendable for i64 {
    open spec fn text(&self) -> Seq<char> {
        decimal(*self as int)
    }

    fn byte_len(&self) -> (r: usize) {
        count_digits_i128(*self as i128)
    }

    fn push_to(&self, text: &mut String) {
        push_decimal_i128(text, *self as i128);
    }
}

impl EndianBytesAppendable for i64 {
    open spec fn width(&self) -> nat {
        8
    }

    open spec fn bits(&self) -> nat {
        (*self as u64) as nat
    }

    /// The bits fit in the width, and no width exceeds sixteen bytes.
    proof fn lemma_bits_fit(&self) {
        reveal_with_fuel(pow256, 9);
        assert(pow256(8) == 0x1_0000_0000_0000_0000nat);
    }

    fn byte_len(&self) -> (r: usize) {
        8
    }

    fn push_le_to(&self, bytes: &mut Vec<u8>) {
        proof {
            self.lemma_bits_fit();
        }
        push_le(bytes, *self as u64 as u128, 8);
    }

    fn push_be_to(&self, bytes: &mut Vec<u8>) {
        proof {
            self.lemma_bits_fit();
        }
        push_be(bytes, *self as u64 as u128, 8);
    }
}

impl StringAppendable for i128 {
    open spec fn text(&self) -> Seq<char> {
        decimal(*self as int)
    }

    fn byte_len(&self) -> (r: usize) {
        count_digits_i128(*self as i128)
    }

    fn push_to(&self, text: &mut String) {
        push_decimal_i128(text, *self as i128);
    }
}

impl EndianBytesAppendable for i128 {
    open spec fn width(&self) -> nat {
        16
    }

    open spec fn bits(&self) -> nat {
        (*self as u128) as nat
    }

    /// The bits fit in the width, and no width exceeds sixteen bytes.
    proof fn lemma_bits_fit(&self) {
        reveal_with_fuel(pow256, 17);
        assert(pow256(16) == 0x1_0000_0000_0000_0000_0000_0000_0000_0000nat);
    }

    fn byte_len(&self) -> (r: usize) {
        16
    }

    fn push_le_to(&self, bytes: &mut Vec<u8>) {
        proof {
            self.lemma_bits_fit();
        }
        push_le(bytes, *self as u128 as u128, 16);
    }

    fn push_be_to(&self, bytes: &mut Vec<u8>) {
        proof {
            self.lemma_bits_fit();
        }
        push_be(bytes, *self as u128 as u128, 16);
    }
}

impl StringAppendable for isize {
    open spec fn text(&self) -> Seq<char> {
        decimal(*self as int)
    }

    fn byte_len(&self) -> (r: usize) {
        count_digits_i128(*self as i128)
    }

    fn push_to(&self, text: &mut String) {
        push_decimal_i128(text, *self as i128);
    }
}

impl EndianBytesAppendable for isize {
    open spec fn width(&self) -> nat {
        size_of::<usize>()
    }

    open spec fn bits(&self) -> nat {
        (*self as usize) as nat
    }

    /// The bits fit in the width, and no width exceeds sixteen bytes.
    proof fn lemma_bits_fit(&self) {
        lemma_usize_fits(*self as usize);
    }

    fn byte_len(&self) -> (r: usize) {
        core::mem::size_of::<usize>()
    }

    fn push_le_to(&self, bytes: &mut Vec<u8>) {
        proof {
            self.lemma_bits_fit();
        }
        push_le(bytes, *self as usize as u128, core::mem::size_of::<usize>());
    }

    fn push_be_to(&self, bytes: &mut Vec<u8>) {
        proof {
            self.lemma_bits_fit();
        }
        push_be(bytes, *self as usize as u128, core::mem::size_of::<usize>());
    }
}

impl StringAppendable for u8 {
    open spec fn text(&self) -> Seq<char> {
        decimal(*self as int)
    }

    fn byte_len(&self) -> (r: usize) {
        count_digits_u128(*self as u128)
    }

    fn push_to(&self, text: &mut String) {
        push_decimal_u128(text, *self as u128);
    }
}

impl EndianBytesAppendable for u8 {
    open spec fn width(&self) -> nat {
        1
    }

    open spec fn bits(&self) -> nat {
        *self as nat
    }

    /// The bits fit in the width, and no width exceeds sixteen bytes.
    proof fn lemma_bits_fit(&self) {
        reveal_with_fuel(pow256, 2);
        assert(pow256(1) == 0x100nat);
    }

    fn byte_len(&self) -> (r: usize) {
        1
    }

    fn push_le_to(&self, bytes: &mut Vec<u8>) {
        proof {
            self.lemma_bits_fit();
        }
        push_le(bytes, *self as u128, 1);
    }

    fn push_be_to(&self, bytes: &mut Vec<u8>) {
        proof {
            self.lemma_bits_fit();
        }
        push_be(bytes, *self as u128, 1);
    }
}

impl StringAppendable for u16 {
    open spec fn text(&self) -> Seq<char> {
        decimal(*self as int)
    }

    fn byte_len(&self) -> (r: usize) {
        count_digits_u128(*self as u128)
    }

    fn push_to(&self, text: &mut String) {
        push_decimal_u128(text, *self as u128);
    }
}

impl EndianBytesAppendable for u16 {
    open spec fn width(&self) -> nat {
        2
    }

    open spec fn bits(&self) -> nat {
        *self as nat
    }

    /// The bits fit in the width, and no width exceeds sixteen bytes.
    proof fn lemma_bits_fit(&self) {
        reveal_with_fuel(pow256, 3);
        assert(pow256(2) == 0x1_0000nat);
    }

    fn byte_len(&self) -> (r: usize) {
        2
    }

    fn push_le_to(&self, bytes: &mut Vec<u8>) {
        proof {
            self.lemma_bits_fit();
        }
        push_le(bytes, *self as u128, 2);
    }

    fn push_be_to(&self, bytes: &mut Vec<u8>) {
        proof {
            self.lemma_bits_fit();
        }
        push_be(bytes, *self as u128, 2);
    }
}

impl StringAppendable for u32 {
    open spec fn text(&self) -> Seq<char> {
        decimal(*self as int)
    }

    fn byte_len(&self) -> (r: usize) {
        count_digits_u128(*self as u128)
    }

    fn push_to(&self, text: &mut String) {
        push_decimal_u128(text, *self as u128);
    }
}

impl EndianBytesAppendable for u32 {
    open spec fn width(&self) -> nat {
        4
    }

    open spec fn bits(&self) -> nat {
        *self as nat
    }

    /// The bits fit in the width, and no width exceeds sixteen bytes.
    proof fn lemma_bits_fit(&self) {
        reveal_with_fuel(pow256, 5);
        assert(pow256(4) == 0x1_0000_0000nat);
    }

    fn byte_len(&self) -> (r: usize) {
        4
    }

    fn push_le_to(&self, bytes: &mut Vec<u8>) {
        proof {
            self.lemma_bits_fit();
        }
        push_le(bytes, *self as u128, 4);
    }

    fn push_be_to(&self, bytes: &mut Vec<u8>) {
        proof {
            self.lemma_bits_fit();
        }
        push_be(bytes, *self as u128, 4);
    }
}

impl StringAppendable for u64 {
    open spec fn text(&self) -> Seq<char> {
        decimal(*self as int)
    }

    fn byte_len(&self) -> (r: usize) {
        count_digits_u128(*self as u128)
    }

    fn push_to(&self, text: &mut String) {
        push_decimal_u128(text, *self as u128);
    }
}

impl EndianBytesAppendable for u64 {
    open spec fn width(&self) -> nat {
        8
    }

    open spec fn bits(&self) -> nat {
        *self as nat
    }

    /// The bits fit in the width, and no width exceeds sixteen bytes.
    proof fn lemma_bits_fit(&self) {
        reveal_with_fuel(pow256, 9);
        assert(pow256(8) == 0x1_0000_0000_0000_0000nat);
    }

    fn byte_len(&self) -> (r: usize) {
        8
    }

    fn push_le_to(&self, bytes: &mut Vec<u8>) {
        proof {
            self.lemma_bits_fit();
        }
        push_le(bytes, *self as u128, 8);
    }

    fn push_be_to(&self, bytes: &mut Vec<u8>) {
        proof {
            self.lemma_bits_fit();
        }
        push_be(bytes, *self as u128, 8);
    }
}

impl StringAppendable for u128 {
    open spec fn text(&self) -> Seq<char> {
        decimal(*self as int)
    }

    fn byte_len(&self) -> (r: usize) {
        count_digits_u128(*self as u128)
    }

    fn push_to(&self, text: &mut String) {
        push_decimal_u128(text, *self as u128);
    }
}

impl EndianBytesAppendable for u128 {
    open spec fn width(&self) -> nat {
        16
    }

    open spec fn bits(&self) -> nat {
        *self as nat
    }

    /// The bits fit in the width, and no width exceeds sixteen bytes.
    proof fn lemma_bits_fit(&self) {
        reveal_with_fuel(pow256, 17);
        assert(pow256(16) == 0x1_0000_0000_0000_0000_0000_0000_0000_0000nat);
    }

    fn byte_len(&self) -> (r: usize) {
        16
    }

    fn push_le_to(&self, bytes: &mut Vec<u8>) {
        proof {
            self.lemma_bits_fit();
        }
        push_le(bytes, *self, 16);
    }

    fn push_be_to(&self, bytes: &mut Vec<u8>) {
        proof {
            self.lemma_bits_fit();
        }
        push_be(bytes, *self, 16);
    }
}

impl StringAppendable for usize {
    open spec fn text(&self) -> Seq<char> {
        decimal(*self as int)
    }

    fn byte_len(&self) -> (r: usize) {
        count_digits_u128(*self as u128)
    }

    fn push_to(&self, text: &mut String) {
        push_decimal_u128(text, *self as u128);
    }
}

impl EndianBytesAppendable for usize {
    open spec fn width(&self) -> nat {
        size_of::<usize>()
    }

    open spec fn bits(&self) -> nat {
        *self as nat
    }

    /// The bits fit in the width, and no width exceeds sixteen bytes.
    proof fn lemma_bits_fit(&self) {
        lemma_usize_fits(*self as usize);
    }

    fn byte_len(&self) -> (r: usize) {
        core::mem::size_of::<usize>()
    }

    fn push_le_to(&self, bytes: &mut Vec<u8>) {
        proof {
            self.lemma_bits_fit();
        }
        push_le(bytes, *self as u128, core::mem::size_of::<usize>());
    }

    fn push_be_to(&self, bytes: &mut Vec<u8>) {
        proof {
            self.lemma_bits_fit();
        }
        push_be(bytes, *self as u128, core::mem::size_of::<usize>());
    }
}

/// An absent optional value adds no characters; a present one adds exactly
/// the characters of its inner value.
pub proof fn lemma_optional_text<T: StringAppendable>(inner: T)
    ensures
        Some(inner).text() == inner.text(),
        None::<T>.text() == Seq::<char>::empty(),
        utf8_len(None::<T>.text()) == 0,
{
    assert(encode_utf8(Seq::<char>::empty()) =~= Seq::<u8>::empty());
}

/// An absent optional value adds no bytes; a present one adds exactly the
/// bytes of its inner value.
pub proof fn lemma_optional_bytes<T: BytesAppendable>(inner: T)
    ensures
        Some(inner).bytes() == inner.bytes(),
        None::<T>.bytes() == Seq::<u8>::empty(),
{
}

/// An integer written in either byte order takes exactly its type's width,
/// and reading the bytes back in the same order gives its bits again.
pub proof fn lemma_endian_round_trip<T: EndianBytesAppendable>(value: T)
    ensures
        le_bytes(value.bits(), value.width()).len() == value.width(),
        be_bytes(value.bits(), value.width()).len() == value.width(),
        from_le(le_bytes(value.bits(), value.width())) == value.bits(),
        from_be(be_bytes(value.bits(), value.width())) == value.bits(),
{
    value.lemma_bits_fit();
    lemma_le_round_trip(value.bits(), value.width());
    lemma_be_round_trip(value.bits(), value.width());
}

} // verus!
