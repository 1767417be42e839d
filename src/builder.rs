//! The two-pass builders: a recipe runs once to measure, the exact room is
//! reserved, and the recipe runs again to write.

use std::collections::TryReserveError;
use std::marker::PhantomData;
use vstd::prelude::*;
use crate::appendable::{BytesAppendable, EndianBytesAppendable, StringAppendable};
use crate::endian::{be_bytes, le_bytes};
use crate::utf8_len::{lemma_utf8_len_concat, utf8_len};

verus! {

/// `n` capped at `usize::MAX`, as a saturating counter holds it.
pub open spec fn saturated(n: nat) -> nat {
    if n <= usize::MAX {
        n
    } else {
        usize::MAX as nat
    }
}

proof fn lemma_saturating_step(a: nat, b: nat)
    requires
        b <= usize::MAX,
    ensures
        (if saturated(a) + b <= usize::MAX {
            saturated(a) + b
        } else {
            usize::MAX as nat
        }) == saturated(a + b),
{
}

/// Relies on `String::try_reserve_exact`: asks for room for `additional` more
/// bytes; the text itself is left as it was, whether or not room was found.
#[verifier::external_body]
fn reserve_text(text: &mut String, additional: usize) -> (r: Result<(), TryReserveError>)
    ensures
        final(text)@ == old(text)@,
{
    text.try_reserve_exact(additional)
}

/// Relies on `Vec::try_reserve_exact`: asks for room for `additional` more
/// bytes; the contents are left as they were, whether or not room was found.
#[verifier::external_body]
fn reserve_bytes(bytes: &mut Vec<u8>, additional: usize) -> (r: Result<(), TryReserveError>)
    ensures
        final(bytes)@ == old(bytes)@,
{
    bytes.try_reserve_exact(additional)
}

/// Builds a `String` in two passes of one recipe: the first only counts the
/// bytes that each appended value needs, the second writes into a buffer that
/// was reserved with exactly that size.
pub struct StringBuilder<'a> {
    capacity: usize,
    text: Option<String>,
    written: Ghost<Seq<char>>,
    phantom: PhantomData<&'a ()>,
}

impl<'a> StringBuilder<'a> {
    /// The builder is in its measuring pass: no buffer exists yet.
    pub closed spec fn is_measuring(&self) -> bool {
        self.text is None
    }

    /// The characters appended during the current pass.
    pub closed spec fn appended(&self) -> Seq<char> {
        self.written@
    }

    /// The number of bytes counted so far in the measuring pass.
    pub closed spec fn capacity(&self) -> nat {
        self.capacity as nat
    }

    /// In the measuring pass the counter holds the UTF-8 length of what was
    /// appended (capped at `usize::MAX`); in the writing pass the buffer holds
    /// exactly what was appended.
    pub closed spec fn wf(&self) -> bool {
        match self.text {
            None => self.capacity as nat == saturated(utf8_len(self.written@)),
            Some(t) => t@ == self.written@,
        }
    }

    /// The state of `post` is that of `pre` after appending `out`, in the same pass.
    pub open spec fn extends(pre: Self, post: Self, out: Seq<char>) -> bool {
        &&& post.wf()
        &&& post.is_measuring() == pre.is_measuring()
        &&& post.appended() == pre.appended() + out
    }

    /// The count of a measuring builder is the UTF-8 length of what was
    /// appended, capped at `usize::MAX`.
    pub proof fn lemma_capacity(&self)
        requires
            self.wf(),
            self.is_measuring(),
        ensures
            self.capacity() == saturated(utf8_len(self.appended())),
    {
    }

    /// Runs `build` once to measure, reserves exactly the measured number of
    /// bytes, and runs `build` again to write. Fails only when the reservation
    /// fails, and then `build` is not run a second time.
    ///
    /// `build` must append the same content `out` on every run that starts
    /// from a well-formed builder; the result is then exactly `out`.
    pub fn build<F: Fn(&mut StringBuilder<'a>)>(build: F) -> (r: Result<String, TryReserveError>)
        requires
            forall|b: &mut StringBuilder<'a>| (*b).wf() ==> #[trigger] call_requires(build, (b,)),
            exists|out: Seq<char>|
                #![trigger out.len()]
                forall|b: &mut StringBuilder<'a>|
                    (*b).wf() && #[trigger] call_ensures(build, (b,), ()) ==> Self::extends(
                        *b,
                        *final(b),
                        out,
                    ),
        ensures
            forall|out: Seq<char>|
                #![trigger out.len()]
                (forall|b: &mut StringBuilder<'a>|
                    (*b).wf() && #[trigger] call_ensures(build, (b,), ()) ==> Self::extends(
                        *b,
                        *final(b),
                        out,
                    )) ==> (r matches Ok(s) ==> s@ == out),
    {
        let mut builder = StringBuilder {
            capacity: 0,
            text: None,
            written: Ghost(Seq::empty()),
            phantom: PhantomData,
        };
        assert(utf8_len(Seq::<char>::empty()) == 0) by {
            assert(vstd::utf8::encode_utf8(Seq::<char>::empty()) =~= Seq::<u8>::empty());
        }
        build(&mut builder);
        let mut text = String::new();
        match reserve_text(&mut text, builder.capacity) {
            Ok(()) => {},
            Err(e) => {
                return Err(e);
            },
        }
        builder.text = Some(text);
        builder.written = Ghost(Seq::empty());
        let ghost out = choose|out: Seq<char>|
            #![trigger out.len()]
            forall|b: &mut StringBuilder<'a>|
                (*b).wf() && #[trigger] call_ensures(build, (b,), ()) ==> Self::extends(
                    *b,
                    *final(b),
                    out,
                );
        build(&mut builder);
        assert(builder.appended() =~= out);
        Ok(builder.text.unwrap())
    }

    /// Measuring: adds the value's byte length to the count. Writing: appends
    /// the value's characters to the buffer.
    pub fn append(&mut self, value: impl StringAppendable + 'a)
        requires
            old(self).wf(),
        ensures
            Self::extends(*old(self), *final(self), value.text()),
            old(self).is_measuring() ==> final(self).capacity() == saturated(
                old(self).capacity() + utf8_len(value.text()),
            ),
            !old(self).is_measuring() ==> final(self).capacity() == old(self).capacity(),
    {
        match &mut self.text {
            Some(t) => value.push_to(t),
            None => {
                let n = value.byte_len();
                proof {
                    lemma_utf8_len_concat(self.written@, value.text());
                    lemma_saturating_step(utf8_len(self.written@), n as nat);
                }
                self.capacity = self.capacity.saturating_add(n);
            },
        }
        self.written = Ghost(self.written@ + value.text());
    }
}

/// Builds a `Vec<u8>` in two passes of one recipe: the first only counts the
/// bytes that each appended value needs, the second writes into a buffer that
/// was reserved with exactly that size.
pub struct BytesBuilder<'a> {
    capacity: usize,
    bytes: Option<Vec<u8>>,
    written: Ghost<Seq<u8>>,
    phantom: PhantomData<&'a ()>,
}

impl<'a> BytesBuilder<'a> {
    /// The builder is in its measuring pass: no buffer exists yet.
    pub closed spec fn is_measuring(&self) -> bool {
        self.bytes is None
    }

    /// The bytes appended during the current pass.
    pub closed spec fn appended(&self) -> Seq<u8> {
        self.written@
    }

    /// The number of bytes counted so far in the measuring pass.
    pub closed spec fn capacity(&self) -> nat {
        self.capacity as nat
    }

    /// In the measuring pass the counter holds the number of bytes appended
    /// (capped at `usize::MAX`); in the writing pass the buffer holds exactly
    /// what was appended.
    pub closed spec fn wf(&self) -> bool {
        match self.bytes {
            None => self.capacity as nat == saturated(self.written@.len()),
            Some(b) => b@ == self.written@,
        }
    }

    /// The state of `post` is that of `pre` after appending `out`, in the same pass.
    pub open spec fn extends(pre: Self, post: Self, out: Seq<u8>) -> bool {
        &&& post.wf()
        &&& post.is_measuring() == pre.is_measuring()
        &&& post.appended() == pre.appended() + out
    }

    /// The count of a measuring builder is the number of bytes appended,
    /// capped at `usize::MAX`.
    pub proof fn lemma_capacity(&self)
        requires
            self.wf(),
            self.is_measuring(),
        ensures
            self.capacity() == saturated(self.appended().len()),
    {
    }

    /// Runs `build` once to measure, reserves exactly the measured number of
    /// bytes, and runs `build` again to write. Fails only when the reservation
    /// fails, and then `build` is not run a second time.
    ///
    /// `build` must append the same content `out` on every run that starts
    /// from a well-formed builder; the result is then exactly `out`.
    pub fn build<F: Fn(&mut BytesBuilder<'a>)>(build: F) -> (r: Result<Vec<u8>, TryReserveError>)
        requires
            forall|b: &mut BytesBuilder<'a>| (*b).wf() ==> #[trigger] call_requires(build, (b,)),
            exists|out: Seq<u8>|
                #![trigger out.len()]
                forall|b: &mut BytesBuilder<'a>|
                    (*b).wf() && #[trigger] call_ensures(build, (b,), ()) ==> Self::extends(
                        *b,
                        *final(b),
                        out,
                    ),
        ensures
            forall|out: Seq<u8>|
                #![trigger out.len()]
                (forall|b: &mut BytesBuilder<'a>|
                    (*b).wf() && #[trigger] call_ensures(build, (b,), ()) ==> Self::extends(
                        *b,
                        *final(b),
                        out,
                    )) ==> (r matches Ok(v) ==> v@ == out),
    {
        let mut builder = BytesBuilder {
            capacity: 0,
            bytes: None,
            written: Ghost(Seq::empty()),
            phantom: PhantomData,
        };
        build(&mut builder);
        let mut bytes: Vec<u8> = Vec::new();
        match reserve_bytes(&mut bytes, builder.capacity) {
            Ok(()) => {},
            Err(e) => {
                return Err(e);
            },
        }
        builder.bytes = Some(bytes);
        builder.written = Ghost(Seq::empty());
        let ghost out = choose|out: Seq<u8>|
            #![trigger out.len()]
            forall|b: &mut BytesBuilder<'a>|
                (*b).wf() && #[trigger] call_ensures(build, (b,), ()) ==> Self::extends(
                    *b,
                    *final(b),
                    out,
                );
        build(&mut builder);
        assert(builder.appended() =~= out);
        Ok(builder.bytes.unwrap())
    }

    /// Measuring: adds the value's byte length to the count. Writing: appends
    /// the value's bytes to the buffer.
    pub fn append(&mut self, value: impl BytesAppendable + 'a)
        requires
            old(self).wf(),
        ensures
            Self::extends(*old(self), *final(self), value.bytes()),
            old(self).is_measuring() ==> final(self).capacity() == saturated(
                old(self).capacity() + value.bytes().len(),
            ),
            !old(self).is_measuring() ==> final(self).capacity() == old(self).capacity(),
    {
        match &mut self.bytes {
            Some(b) => value.push_to(b),
            None => {
                let n = value.byte_len();
                self.capacity = self.capacity.saturating_add(n);
            },
        }
        self.written = Ghost(self.written@ + value.bytes());
    }

    /// Appends an integer most significant byte first; measuring counts its width.
    pub fn append_be<T: EndianBytesAppendable + 'a>(&mut self, value: T)
        requires
            old(self).wf(),
        ensures
            Self::extends(*old(self), *final(self), be_bytes(value.bits(), value.width())),
            old(self).is_measuring() ==> final(self).capacity() == saturated(
                old(self).capacity() + value.width(),
            ),
            !old(self).is_measuring() ==> final(self).capacity() == old(self).capacity(),
    {
        proof {
            value.lemma_bits_fit();
            crate::endian::lemma_be_round_trip(value.bits(), value.width());
        }
        match &mut self.bytes {
            Some(b) => value.push_be_to(b),
            None => {
                let n = value.byte_len();
                self.capacity = self.capacity.saturating_add(n);
            },
        }
        self.written = Ghost(self.written@ + be_bytes(value.bits(), value.width()));
    }

    /// Appends an integer least significant byte first; measuring counts its width.
    pub fn append_le<T: EndianBytesAppendable + 'a>(&mut self, value: T)
        requires
            old(self).wf(),
        ensures
            Self::extends(*old(self), *final(self), le_bytes(value.bits(), value.width())),
            old(self).is_measuring() ==> final(self).capacity() == saturated(
                old(self).capacity() + value.width(),
            ),
            !old(self).is_measuring() ==> final(self).capacity() == old(self).capacity(),
    {
        proof {
            value.lemma_bits_fit();
            crate::endian::lemma_le_round_trip(value.bits(), value.width());
        }
        match &mut self.bytes {
            Some(b) => value.push_le_to(b),
            None => {
                let n = value.byte_len();
                self.capacity = self.capacity.saturating_add(n);
            },
        }
        self.written = Ghost(self.written@ + le_bytes(value.bits(), value.width()));
    }
}

/// Pieces of text joined in order.
pub open spec fn joined(pieces: Seq<Seq<char>>) -> Seq<char>
    decreases pieces.len(),
{
    if pieces.len() == 0 {
        Seq::empty()
    } else {
        joined(pieces.drop_last()) + pieces.last()
    }
}

/// The sum of the UTF-8 lengths of the pieces, each taken on its own.
pub open spec fn sum_utf8_lens(pieces: Seq<Seq<char>>) -> nat
    decreases pieces.len(),
{
    if pieces.len() == 0 {
        0
    } else {
        sum_utf8_lens(pieces.drop_last()) + utf8_len(pieces.last())
    }
}

/// Pieces of bytes joined in order.
pub open spec fn joined_bytes(pieces: Seq<Seq<u8>>) -> Seq<u8>
    decreases pieces.len(),
{
    if pieces.len() == 0 {
        Seq::empty()
    } else {
        joined_bytes(pieces.drop_last()) + pieces.last()
    }
}

/// The sum of the lengths of the pieces, each taken on its own.
pub open spec fn sum_lens(pieces: Seq<Seq<u8>>) -> nat
    decreases pieces.len(),
{
    if pieces.len() == 0 {
        0
    } else {
        sum_lens(pieces.drop_last()) + pieces.last().len()
    }
}

/// The text built from values appended in order is as long, in bytes, as the
/// sum of the byte lengths of the values taken one by one.
pub proof fn lemma_text_len_is_sum(pieces: Seq<Seq<char>>)
    ensures
        utf8_len(joined(pieces)) == sum_utf8_lens(pieces),
    decreases pieces.len(),
{
    if pieces.len() == 0 {
        assert(vstd::utf8::encode_utf8(Seq::<char>::empty()) =~= Seq::<u8>::empty());
    } else {
        lemma_text_len_is_sum(pieces.drop_last());
        lemma_utf8_len_concat(joined(pieces.drop_last()), pieces.last());
    }
}

/// The bytes built from values appended in order are as many as the sum of
/// the byte lengths of the values taken one by one.
pub proof fn lemma_bytes_len_is_sum(pieces: Seq<Seq<u8>>)
    ensures
        joined_bytes(pieces).len() == sum_lens(pieces),
    decreases pieces.len(),
{
    if pieces.len() > 0 {
        lemma_bytes_len_is_sum(pieces.drop_last());
    }
}

/// Measuring is repeatable: every measuring run of a recipe that appends
/// `out` each time, started from an empty measuring builder, ends with the
/// same count, the UTF-8 length of `out` (capped at `usize::MAX`).
pub proof fn lemma_text_measuring_repeatable<'a, F: Fn(&mut StringBuilder<'a>)>(
    recipe: F,
    out: Seq<char>,
)
    requires
        forall|b: &mut StringBuilder<'a>|
            (*b).wf() && #[trigger] call_ensures(recipe, (b,), ()) ==> StringBuilder::extends(
                *b,
                *final(b),
                out,
            ),
    ensures
        forall|b: &mut StringBuilder<'a>|
            (*b).wf() && (*b).is_measuring() && (*b).appended().len() == 0
                && #[trigger] call_ensures(recipe, (b,), ()) ==> (*final(b)).capacity()
                == saturated(utf8_len(out)),
{
    assert forall|b: &mut StringBuilder<'a>|
        (*b).wf() && (*b).is_measuring() && (*b).appended().len() == 0
            && #[trigger] call_ensures(recipe, (b,), ()) implies (*final(b)).capacity()
        == saturated(utf8_len(out)) by {
        (*final(b)).lemma_capacity();
        assert((*b).appended() + out =~= out);
    }
}

/// Measuring is repeatable: every measuring run of a recipe that appends
/// `out` each time, started from an empty measuring builder, ends with the
/// same count, the length of `out` (capped at `usize::MAX`).
pub proof fn lemma_bytes_measuring_repeatable<'a, F: Fn(&mut BytesBuilder<'a>)>(
    recipe: F,
    out: Seq<u8>,
)
    requires
        forall|b: &mut BytesBuilder<'a>|
            (*b).wf() && #[trigger] call_ensures(recipe, (b,), ()) ==> BytesBuilder::extends(
                *b,
                *final(b),
                out,
            ),
    ensures
        forall|b: &mut BytesBuilder<'a>|
            (*b).wf() && (*b).is_measuring() && (*b).appended().len() == 0
                && #[trigger] call_ensures(recipe, (b,), ()) ==> (*final(b)).capacity()
                == saturated(out.len()),
{
    assert forall|b: &mut BytesBuilder<'a>|
        (*b).wf() && (*b).is_measuring() && (*b).appended().len() == 0
            && #[trigger] call_ensures(recipe, (b,), ()) implies (*final(b)).capacity()
        == saturated(out.len()) by {
        (*final(b)).lemma_capacity();
        assert((*b).appended() + out =~= out);
    }
}

} // verus!
