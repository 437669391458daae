//! The read side of the wire primitives: what the next bytes of a body
//! mean, and a cursor that reads them out of a borrowed buffer.
//!
//! Every read is all or nothing: on an error the cursor stays where it was.
use vstd::prelude::*;
use vstd::utf8::valid_utf8;

use crate::buffer;
use crate::packet::encode::{be_bytes, many_bytes, prefixed};
use crate::Error;

verus! {

/// The number that two bytes stand for, most significant first.
pub open spec fn u16_of(hi: u8, lo: u8) -> u16 {
    (hi * 256 + lo) as u16
}

/// One byte off the front of `s`.
pub open spec fn take_u8(s: Seq<u8>) -> Result<(u8, Seq<u8>), Error> {
    if s.len() < 1 {
        Err(Error::UnexpectedEof)
    } else {
        Ok((s[0], s.skip(1)))
    }
}

/// A big-endian 16-bit number off the front of `s`.
pub open spec fn take_u16(s: Seq<u8>) -> Result<(u16, Seq<u8>), Error> {
    if s.len() < 2 {
        Err(Error::UnexpectedEof)
    } else {
        Ok((u16_of(s[0], s[1]), s.skip(2)))
    }
}

/// `n` bytes off the front of `s`.
pub open spec fn take_bytes(s: Seq<u8>, n: nat) -> Result<(Seq<u8>, Seq<u8>), Error> {
    if s.len() < n {
        Err(Error::UnexpectedEof)
    } else {
        Ok((s.take(n as int), s.skip(n as int)))
    }
}

/// A length-prefixed field off the front of `s`.
pub open spec fn take_binary(s: Seq<u8>) -> Result<(Seq<u8>, Seq<u8>), Error> {
    match take_u16(s) {
        Err(e) => Err(e),
        Ok((n, rest)) => take_bytes(rest, n as nat),
    }
}

/// A length-prefixed text off the front of `s`; its bytes must be UTF-8.
pub open spec fn take_utf8(s: Seq<u8>) -> Result<(Seq<u8>, Seq<u8>), Error> {
    match take_binary(s) {
        Err(e) => Err(e),
        Ok((bytes, rest)) => if valid_utf8(bytes) {
            Ok((bytes, rest))
        } else {
            Err(Error::InvalidUtf8)
        },
    }
}

/// Reading back what `be_bytes` wrote gives the number.
pub proof fn lemma_take_u16_of_be_bytes(value: u16, rest: Seq<u8>)
    ensures
        take_u16(be_bytes(value) + rest) == Ok::<(u16, Seq<u8>), Error>((value, rest)),
{
    let s = be_bytes(value) + rest;
    assert(s[0] == (value / 256) as u8);
    assert(s[1] == (value % 256) as u8);
    assert(s.skip(2) =~= rest);
}

/// Reading back a length-prefixed field gives the field.
pub proof fn lemma_take_binary_of_prefixed(bytes: Seq<u8>, rest: Seq<u8>)
    requires
        bytes.len() <= u16::MAX,
    ensures
        take_binary(prefixed(bytes) + rest) == Ok::<(Seq<u8>, Seq<u8>), Error>((bytes, rest)),
{
    let s = prefixed(bytes) + rest;
    assert(s =~= be_bytes(bytes.len() as u16) + (bytes + rest));
    lemma_take_u16_of_be_bytes(bytes.len() as u16, bytes + rest);
    assert((bytes + rest).take(bytes.len() as int) =~= bytes);
    assert((bytes + rest).skip(bytes.len() as int) =~= rest);
}

/// Reading back a length-prefixed text gives the text.
pub proof fn lemma_take_utf8_of_prefixed(bytes: Seq<u8>, rest: Seq<u8>)
    requires
        bytes.len() <= u16::MAX,
        valid_utf8(bytes),
    ensures
        take_utf8(prefixed(bytes) + rest) == Ok::<(Seq<u8>, Seq<u8>), Error>((bytes, rest)),
{
    lemma_take_binary_of_prefixed(bytes, rest);
}

/// `front` put before what `r` holds, if it holds anything.
pub open spec fn with_front<T>(front: Seq<T>, r: Result<Seq<T>, Error>) -> Result<Seq<T>, Error> {
    match r {
        Ok(items) => Ok(front + items),
        Err(e) => Err(e),
    }
}

/// Items read with `take`, one after the other, until `s` is used up. The
/// collection that receives them has room for `cap` and holds `taken`
/// already; one item more than fits is `VectorIsFull`.
pub open spec fn take_many<T>(
    take: spec_fn(Seq<u8>) -> Result<(T, Seq<u8>), Error>,
    s: Seq<u8>,
    taken: nat,
    cap: nat,
) -> Result<Seq<T>, Error>
    decreases s.len(),
{
    if s.len() == 0 {
        Ok(Seq::empty())
    } else {
        match take(s) {
            Err(e) => Err(e),
            Ok((x, rest)) => if taken >= cap {
                Err(Error::VectorIsFull)
            } else if rest.len() >= s.len() {
                Err(Error::MalformedPacket)
            } else {
                with_front(seq![x], take_many(take, rest, taken + 1, cap))
            },
        }
    }
}

/// Reading back a run of items gives the items, where each item reads back
/// from its own bytes, takes at least one byte, and the run fits.
pub proof fn lemma_take_many_of_many_bytes<T>(
    take: spec_fn(Seq<u8>) -> Result<(T, Seq<u8>), Error>,
    enc: spec_fn(T) -> Seq<u8>,
    items: Seq<T>,
    taken: nat,
    cap: nat,
)
    requires
        taken + items.len() <= cap,
        forall|i: int| 0 <= i < items.len() ==> (#[trigger] enc(items[i])).len() > 0,
        forall|i: int, rest: Seq<u8>|
            0 <= i < items.len() ==> #[trigger] take(enc(items[i]) + rest) == Ok::<
                (T, Seq<u8>),
                Error,
            >((items[i], rest)),
    ensures
        take_many(take, many_bytes(enc, items), taken, cap) == Ok::<Seq<T>, Error>(items),
    decreases items.len(),
{
    if items.len() == 0 {
        assert(items =~= Seq::<T>::empty());
    } else {
        let tail = items.skip(1);
        let rest = many_bytes(enc, tail);
        assert(enc(items[0]).len() > 0);
        assert(take(enc(items[0]) + rest) == Ok::<(T, Seq<u8>), Error>((items[0], rest)));
        assert forall|i: int| 0 <= i < tail.len() implies (#[trigger] enc(tail[i])).len() > 0 by {
            assert(tail[i] == items[i + 1]);
        }
        assert forall|i: int, more: Seq<u8>| 0 <= i < tail.len() implies #[trigger] take(
            enc(tail[i]) + more,
        ) == Ok::<(T, Seq<u8>), Error>((tail[i], more)) by {
            assert(tail[i] == items[i + 1]);
        }
        lemma_take_many_of_many_bytes(take, enc, tail, taken + 1, cap);
        assert(seq![items[0]] + tail =~= items);
    }
}

/// `core::str::from_utf8` accepts a byte string exactly when it is
/// well-formed UTF-8; only that verdict is used.
#[verifier::external_body]
fn is_utf8(bytes: &[u8]) -> (r: bool)
    ensures
        r == valid_utf8(bytes@),
{
    core::str::from_utf8(bytes).is_ok()
}

/// A read position in a borrowed byte buffer.
#[derive(Debug, Clone, Copy)]
pub struct Cursor<'buf> {
    buf: &'buf [u8],
    pos: usize,
}

impl<'buf> Cursor<'buf> {
    /// The whole buffer, read and unread parts alike.
    pub closed spec fn source(&self) -> Seq<u8> {
        self.buf@
    }

    /// How many bytes have been read.
    pub closed spec fn position(&self) -> nat {
        self.pos as nat
    }

    pub open spec fn wf(&self) -> bool {
        self.position() <= self.source().len()
    }

    /// The bytes not yet read.
    pub open spec fn rest(&self) -> Seq<u8> {
        self.source().skip(self.position() as int)
    }

    /// `self` is `pre` after reading up to where `rest` begins.
    pub open spec fn follows(&self, pre: Cursor, rest: Seq<u8>) -> bool {
        &&& self.wf()
        &&& self.source() == pre.source()
        &&& self.position() >= pre.position()
        &&& self.rest() == rest
    }

    pub fn new(buf: &'buf [u8]) -> (c: Self)
        ensures
            c.wf(),
            c.position() == 0,
            c.source() == buf@,
            c.rest() == buf@,
    {
        Cursor { buf, pos: 0 }
    }

    pub fn remaining(&self) -> (r: usize)
        requires
            self.wf(),
        ensures
            r == self.rest().len(),
    {
        self.buf.len() - self.pos
    }

    pub fn is_empty(&self) -> (r: bool)
        requires
            self.wf(),
        ensures
            r == (self.rest().len() == 0),
    {
        self.remaining() == 0
    }

    /// `MalformedPacket` unless everything has been read.
    pub fn expect_empty(&self) -> (r: Result<(), Error>)
        requires
            self.wf(),
        ensures
            r == if self.rest().len() == 0 {
                Ok::<(), Error>(())
            } else {
                Err(Error::MalformedPacket)
            },
    {
        if !self.is_empty() {
            Err(Error::MalformedPacket)
        } else {
            Ok(())
        }
    }

    pub fn read_u8(&mut self) -> (r: Result<u8, Error>)
        requires
            old(self).wf(),
        ensures
            match take_u8(old(self).rest()) {
                Ok((v, rest)) => r == Ok::<u8, Error>(v) && final(self).follows(*old(self), rest),
                Err(e) => r == Err::<u8, Error>(e) && *final(self) == *old(self),
            },
    {
        if self.remaining() < 1 {
            return Err(Error::UnexpectedEof);
        }
        let value = self.buf[self.pos];
        self.pos += 1;
        assert(self.rest() =~= old(self).rest().skip(1));
        Ok(value)
    }

    /// Reads a 16-bit number, most significant byte first.
    pub fn read_u16(&mut self) -> (r: Result<u16, Error>)
        requires
            old(self).wf(),
        ensures
            match take_u16(old(self).rest()) {
                Ok((v, rest)) => r == Ok::<u16, Error>(v) && final(self).follows(*old(self), rest),
                Err(e) => r == Err::<u16, Error>(e) && *final(self) == *old(self),
            },
    {
        if self.remaining() < 2 {
            return Err(Error::UnexpectedEof);
        }
        let hi = self.buf[self.pos];
        let lo = self.buf[self.pos + 1];
        self.pos += 2;
        assert(self.rest() =~= old(self).rest().skip(2));
        Ok((hi as u16) * 256 + (lo as u16))
    }

    /// Hands out the next `n` bytes without copying them.
    pub fn read_bytes(&mut self, n: usize) -> (r: Result<&'buf [u8], Error>)
        requires
            old(self).wf(),
        ensures
            match take_bytes(old(self).rest(), n as nat) {
                Ok((v, rest)) => r is Ok && r->Ok_0@ == v && final(self).follows(*old(self), rest),
                Err(e) => r == Err::<&'buf [u8], Error>(e) && *final(self) == *old(self),
            },
    {
        if self.buf.len() - self.pos < n {
            return Err(Error::UnexpectedEof);
        }
        let start = self.pos;
        self.pos += n;
        let out = vstd::slice::slice_subrange(self.buf, start, start + n);
        assert(self.rest() =~= old(self).rest().skip(n as int));
        assert(out@ =~= old(self).rest().take(n as int));
        Ok(out)
    }

    /// Reads a length-prefixed field.
    pub fn read_binary(&mut self) -> (r: Result<buffer::Slice<'buf>, Error>)
        requires
            old(self).wf(),
        ensures
            match take_binary(old(self).rest()) {
                Ok((v, rest)) => r is Ok && r->Ok_0@ == v && final(self).follows(*old(self), rest),
                Err(e) => r == Err::<buffer::Slice<'buf>, Error>(e) && *final(self) == *old(self),
            },
    {
        let saved = *self;
        let len = self.read_u16()?;
        match self.read_bytes(len as usize) {
            Ok(bytes) => Ok(buffer::Slice::from_bytes(bytes)),
            Err(e) => {
                *self = saved;
                Err(e)
            },
        }
    }

    /// Reads a length-prefixed text and checks that it is UTF-8.
    pub fn read_utf8(&mut self) -> (r: Result<buffer::String<'buf>, Error>)
        requires
            old(self).wf(),
        ensures
            match take_utf8(old(self).rest()) {
                Ok((v, rest)) => {
                    &&& r is Ok
                    &&& r->Ok_0@ == v
                    &&& r->Ok_0.is_utf8()
                    &&& final(self).follows(*old(self), rest)
                },
                Err(e) => r == Err::<buffer::String<'buf>, Error>(e) && *final(self) == *old(self),
            },
    {
        let saved = *self;
        let slice = self.read_binary()?;
        if !is_utf8(slice.as_bytes()) {
            *self = saved;
            return Err(Error::InvalidUtf8);
        }
        Ok(buffer::String::from_slice(slice))
    }
}

} // verus!
