//! The write side of the wire primitives: a cursor over a caller's buffer
//! and the variable-length remaining-length field.
//!
//! Every write is all or nothing: it checks first that what it is about to
//! write fits, and leaves the cursor as it was when it does not.
use vstd::prelude::*;
use vstd::string::StringSliceAdditionalSpecFns;

use crate::protocol::MAX_REMAINING_LEN;
use crate::Error;

verus! {

/// The two bytes of `value`, most significant first.
pub open spec fn be_bytes(value: u16) -> Seq<u8> {
    seq![(value / 256) as u8, (value % 256) as u8]
}

/// A field as it stands on the wire: its length in two bytes, then its bytes.
pub open spec fn prefixed(bytes: Seq<u8>) -> Seq<u8>
    recommends
        bytes.len() <= u16::MAX,
{
    be_bytes(bytes.len() as u16) + bytes
}

/// The remaining-length field for `n`: base-128 digits, least significant
/// first, each but the last with its high bit set.
pub open spec fn remaining_length_bytes(n: nat) -> Seq<u8>
    decreases n,
{
    if n < 128 {
        seq![n as u8]
    } else {
        seq![(n % 128 + 128) as u8] + remaining_length_bytes(n / 128)
    }
}

/// How many bytes the remaining-length field takes for `n`.
pub open spec fn remaining_length_size(n: nat) -> nat {
    if n < 128 {
        1
    } else if n < 16_384 {
        2
    } else if n < 2_097_152 {
        3
    } else {
        4
    }
}

/// Values up to 127, 16 383, 2 097 151 and 268 435 455 take one, two, three
/// and four bytes.
pub proof fn lemma_remaining_length_size(n: nat)
    requires
        n <= MAX_REMAINING_LEN,
    ensures
        remaining_length_bytes(n).len() == remaining_length_size(n),
{
    reveal_with_fuel(remaining_length_bytes, 5);
}

/// The wire form of a run of items, each written by `enc`.
pub open spec fn many_bytes<T>(enc: spec_fn(T) -> Seq<u8>, items: Seq<T>) -> Seq<u8>
    decreases items.len(),
{
    if items.len() == 0 {
        Seq::empty()
    } else {
        enc(items[0]) + many_bytes(enc, items.skip(1))
    }
}

/// One more item at the end adds its bytes at the end.
pub proof fn lemma_many_bytes_push<T>(enc: spec_fn(T) -> Seq<u8>, items: Seq<T>, x: T)
    ensures
        many_bytes(enc, items.push(x)) == many_bytes(enc, items) + enc(x),
    decreases items.len(),
{
    if items.len() == 0 {
        assert(items.push(x).skip(1) =~= Seq::<T>::empty());
        assert(many_bytes(enc, Seq::<T>::empty()) =~= Seq::<u8>::empty());
        assert(items.push(x)[0] == x);
        assert(many_bytes(enc, items.push(x)) =~= enc(x));
        assert(many_bytes(enc, items) + enc(x) =~= enc(x));
    } else {
        lemma_many_bytes_push(enc, items.skip(1), x);
        assert(items.push(x).skip(1) =~= items.skip(1).push(x));
        assert(many_bytes(enc, items.push(x)) =~= many_bytes(enc, items) + enc(x));
    }
}

/// The first `k` items of a run take no more bytes than the whole run.
pub proof fn lemma_many_bytes_take_len<T>(enc: spec_fn(T) -> Seq<u8>, items: Seq<T>, k: int)
    requires
        0 <= k <= items.len(),
    ensures
        many_bytes(enc, items.take(k)).len() <= many_bytes(enc, items).len(),
    decreases items.len() - k,
{
    if k == items.len() {
        assert(items.take(k) =~= items);
    } else {
        lemma_many_bytes_take_len(enc, items, k + 1);
        assert(items.take(k + 1) =~= items.take(k).push(items[k]));
        lemma_many_bytes_push(enc, items.take(k), items[k]);
    }
}

/// Joining three pieces is the same from either side.
pub proof fn lemma_concat_assoc(a: Seq<u8>, b: Seq<u8>, c: Seq<u8>)
    ensures
        (a + b) + c == a + (b + c),
{
    assert((a + b) + c =~= a + (b + c));
}

/// A write position in a mutable byte buffer.
pub struct Cursor<'buf> {
    buf: &'buf mut [u8],
    pos: usize,
}

impl<'buf> Cursor<'buf> {
    /// The buffer the cursor writes into.
    pub closed spec fn backing(&self) -> &'buf mut [u8] {
        self.buf
    }

    /// The whole buffer as it now stands, written and unwritten parts alike.
    pub closed spec fn storage(&self) -> Seq<u8> {
        self.buf@
    }

    /// How many bytes of the buffer lie before the write position.
    pub closed spec fn position(&self) -> nat {
        self.pos as nat
    }

    pub open spec fn wf(&self) -> bool {
        self.position() <= self.storage().len()
    }

    /// The bytes before the write position.
    pub open spec fn bytes(&self) -> Seq<u8> {
        self.storage().subrange(0, self.position() as int)
    }

    /// How many more bytes fit.
    pub open spec fn room(&self) -> int {
        self.storage().len() - self.position()
    }

    /// A cursor at the start of `buf`.
    pub fn new(buf: &'buf mut [u8]) -> (c: Self)
        ensures
            c.wf(),
            c.position() == 0,
            c.storage() == old(buf)@,
            final(c.backing())@ == final(buf)@,
    {
        Cursor { buf, pos: 0 }
    }

    /// A cursor into `buf` that goes on writing at `pos`.
    pub fn resume(buf: &'buf mut [u8], pos: usize) -> (c: Self)
        requires
            pos <= old(buf)@.len(),
        ensures
            c.wf(),
            c.position() == pos,
            c.storage() == old(buf)@,
            final(c.backing())@ == final(buf)@,
    {
        Cursor { buf, pos }
    }

    /// Ends the writing and says how many bytes lie before the write
    /// position. The buffer is left as the cursor last saw it.
    pub fn finish(self) -> (r: usize)
        ensures
            r == self.position(),
            final(self.backing())@ == self.storage(),
    {
        self.pos
    }

    /// What has been written so far.
    pub fn written(&self) -> (r: &[u8])
        requires
            self.wf(),
        ensures
            r@ == self.bytes(),
    {
        vstd::slice::slice_subrange(self.buf, 0, self.pos)
    }

    pub fn remaining(&self) -> (r: usize)
        requires
            self.wf(),
        ensures
            r == self.room(),
    {
        self.buf.len() - self.pos
    }

    pub fn is_empty(&self) -> (r: bool)
        requires
            self.wf(),
        ensures
            r == (self.room() == 0),
    {
        self.remaining() == 0
    }

    /// `UnexpectedEof` unless `n` more bytes fit.
    pub fn ensure_remaining(&self, n: usize) -> (r: Result<(), Error>)
        requires
            self.wf(),
        ensures
            r == if self.room() >= n {
                Ok::<(), Error>(())
            } else {
                Err(Error::UnexpectedEof)
            },
    {
        if self.remaining() < n {
            Err(Error::UnexpectedEof)
        } else {
            Ok(())
        }
    }

    pub fn write_u8(&mut self, byte: u8) -> (r: Result<(), Error>)
        requires
            old(self).wf(),
        ensures
            write_outcome(*old(self), *final(self), r, seq![byte]),
            final(final(self).backing())@ == final(old(self).backing())@,
    {
        self.ensure_remaining(1)?;
        self.buf[self.pos] = byte;
        self.pos += 1;
        Ok(())
    }

    /// Writes `value` in two bytes, most significant first.
    pub fn write_u16(&mut self, value: u16) -> (r: Result<(), Error>)
        requires
            old(self).wf(),
        ensures
            write_outcome(*old(self), *final(self), r, be_bytes(value)),
            final(final(self).backing())@ == final(old(self).backing())@,
    {
        self.ensure_remaining(2)?;
        self.buf[self.pos] = (value / 256) as u8;
        self.buf[self.pos + 1] = (value % 256) as u8;
        self.pos += 2;
        Ok(())
    }

    pub fn write_bytes(&mut self, bytes: &[u8]) -> (r: Result<(), Error>)
        requires
            old(self).wf(),
        ensures
            write_outcome(*old(self), *final(self), r, bytes@),
            final(final(self).backing())@ == final(old(self).backing())@,
    {
        let len = bytes.len();
        self.ensure_remaining(len)?;
        let ghost start = *self;
        let total = self.buf.len();
        let mut i: usize = 0;
        while i < len
            invariant
                len == bytes@.len(),
                i <= len,
                start.wf(),
                start.room() >= len,
                total == start.buf@.len(),
                start.pos + len <= total,
                self.pos == start.pos,
                self.buf@.len() == start.buf@.len(),
                final(self.buf)@ == final(start.buf)@,
                forall|j: int|
                    0 <= j < self.buf@.len() ==> self.buf@[j] == if start.pos <= j < start.pos + i {
                        bytes@[j - start.pos]
                    } else {
                        start.buf@[j]
                    },
            decreases len - i,
        {
            self.buf[self.pos + i] = bytes[i];
            i += 1;
        }
        self.pos += len;
        Ok(())
    }

    /// Writes a length-prefixed field. A field longer than 65 535 bytes has
    /// no such form and is refused with `MalformedPacket`.
    pub fn write_binary_chunk(&mut self, bytes: &[u8]) -> (r: Result<(), Error>)
        requires
            old(self).wf(),
        ensures
            bytes@.len() <= u16::MAX ==> write_outcome(
                *old(self),
                *final(self),
                r,
                prefixed(bytes@),
            ),
            bytes@.len() > u16::MAX ==> r == Err::<(), Error>(Error::MalformedPacket) && kept(
                *old(self),
                *final(self),
            ),
            final(final(self).backing())@ == final(old(self).backing())@,
    {
        let len = bytes.len();
        if len > 65_535 {
            return Err(Error::MalformedPacket);
        }
        self.ensure_remaining(len + 2)?;
        let ghost start = *self;
        let _ = self.write_u16(len as u16);
        let ghost mid = *self;
        let _ = self.write_bytes(bytes);
        proof {
            lemma_wrote_twice(start, mid, *self, be_bytes(len as u16), bytes@);
        }
        Ok(())
    }

    /// Writes a text as a length-prefixed field of its UTF-8 bytes.
    pub fn write_utf8(&mut self, value: &str) -> (r: Result<(), Error>)
        requires
            old(self).wf(),
        ensures
            value.spec_bytes().len() <= u16::MAX ==> write_outcome(
                *old(self),
                *final(self),
                r,
                prefixed(value.spec_bytes()),
            ),
            value.spec_bytes().len() > u16::MAX ==> r == Err::<(), Error>(Error::MalformedPacket)
                && kept(*old(self), *final(self)),
            final(final(self).backing())@ == final(old(self).backing())@,
    {
        self.write_binary_chunk(value.as_bytes())
    }
}

/// `post` is `pre` with `data` written at its position and the position
/// moved past it; the rest of the buffer is as it was.
pub open spec fn wrote(pre: Cursor, post: Cursor, data: Seq<u8>) -> bool {
    &&& post.wf()
    &&& post.storage().len() == pre.storage().len()
    &&& post.position() == pre.position() + data.len()
    &&& forall|i: int|
        0 <= i < pre.storage().len() ==> #[trigger] post.storage()[i] == if pre.position() <= i
            < pre.position() + data.len() {
            data[i - pre.position()]
        } else {
            pre.storage()[i]
        }
}

/// `post` has the buffer contents and the position of `pre`.
pub open spec fn kept(pre: Cursor, post: Cursor) -> bool {
    &&& post.wf()
    &&& post.storage() == pre.storage()
    &&& post.position() == pre.position()
}

/// A write of `data`: done if it fits, refused with `UnexpectedEof` and
/// without effect if not.
pub open spec fn write_outcome(pre: Cursor, post: Cursor, r: Result<(), Error>, data: Seq<u8>) -> bool {
    if pre.room() >= data.len() {
        r is Ok && wrote(pre, post, data)
    } else {
        r == Err::<(), Error>(Error::UnexpectedEof) && kept(pre, post)
    }
}

/// Two writes in a row are one write of both pieces.
pub proof fn lemma_wrote_twice(a: Cursor, b: Cursor, c: Cursor, first: Seq<u8>, second: Seq<u8>)
    requires
        a.wf(),
        wrote(a, b, first),
        wrote(b, c, second),
    ensures
        wrote(a, c, first + second),
{
    assert forall|i: int| 0 <= i < a.storage().len() implies #[trigger] c.storage()[i] == if a.position()
        <= i < a.position() + (first + second).len() {
        (first + second)[i - a.position()]
    } else {
        a.storage()[i]
    } by {
        assert(c.storage()[i] == if b.position() <= i < b.position() + second.len() {
            second[i - b.position()]
        } else {
            b.storage()[i]
        });
        assert(b.storage()[i] == if a.position() <= i < a.position() + first.len() {
            first[i - a.position()]
        } else {
            a.storage()[i]
        });
    }
}

/// The size of the remaining-length field for a body of `len` bytes, or
/// `MalformedPacket` when `len` is more than the field can carry.
pub fn calculate_remaining_length(len: usize) -> (r: Result<usize, Error>)
    ensures
        r == if len <= MAX_REMAINING_LEN {
            Ok::<usize, Error>(remaining_length_size(len as nat) as usize)
        } else {
            Err(Error::MalformedPacket)
        },
{
    let mut rest = len;
    let mut i: usize = 0;

    loop
        invariant_except_break
            i < 4,
            i == 0 ==> rest == len,
            i == 1 ==> rest == len / 128 && len >= 128,
            i == 2 ==> rest == len / 16_384 && len >= 16_384,
            i == 3 ==> rest == len / 2_097_152 && len >= 2_097_152,
        ensures
            len <= MAX_REMAINING_LEN,
            i == remaining_length_size(len as nat),
        decreases 4 - i,
    {
        rest = rest / 128;
        i += 1;

        if rest == 0 {
            break ;
        }
        if i == 4 {
            return Err(Error::MalformedPacket);
        }
    }

    Ok(i)
}

/// Writes the remaining-length field for a body of `len` bytes and returns
/// how many bytes it took. `MalformedPacket` when `len` is more than the
/// field can carry, `UnexpectedEof` when the field does not fit; either way
/// nothing is written.
pub fn remaining_length(len: usize, cursor: &mut Cursor) -> (r: Result<usize, Error>)
    requires
        old(cursor).wf(),
    ensures
        len > MAX_REMAINING_LEN ==> r == Err::<usize, Error>(Error::MalformedPacket) && kept(
            *old(cursor),
            *final(cursor),
        ),
        len <= MAX_REMAINING_LEN && old(cursor).room() < remaining_length_size(len as nat) ==> r
            == Err::<usize, Error>(Error::UnexpectedEof) && kept(*old(cursor), *final(cursor)),
        len <= MAX_REMAINING_LEN && old(cursor).room() >= remaining_length_size(len as nat) ==> r
            == Ok::<usize, Error>(remaining_length_size(len as nat) as usize) && wrote(
            *old(cursor),
            *final(cursor),
            remaining_length_bytes(len as nat),
        ),
        final(final(cursor).backing())@ == final(old(cursor).backing())@,
{
    let size = calculate_remaining_length(len)?;
    cursor.ensure_remaining(size)?;

    let ghost start = *cursor;
    let ghost mut done: Seq<u8> = Seq::empty();
    let mut rest = len;
    let mut i: usize = 0;

    proof {
        lemma_remaining_length_size(len as nat);
    }
    loop
        invariant_except_break
            i < size,
        invariant
            start.wf(),
            size == remaining_length_bytes(len as nat).len(),
            i <= size,
            done.len() == i,
            i < size ==> done + remaining_length_bytes(rest as nat) == remaining_length_bytes(
                len as nat,
            ),
            start.room() >= size,
            i == 0 ==> *cursor == start,
            i > 0 ==> wrote(start, *cursor, done),
            final(cursor.backing())@ == final(start.backing())@,
        ensures
            i == size,
            wrote(start, *cursor, remaining_length_bytes(len as nat)),
        decreases size - i,
    {
        let digit: u8 = (rest % 128) as u8;
        let ghost before = rest;
        rest = rest / 128;
        let byte: u8 = if rest > 0 {
            digit + 128
        } else {
            digit
        };
        let ghost mid = *cursor;
        let ghost earlier = done;
        let _ = cursor.write_u8(byte);
        proof {
            done = earlier.push(byte);
            if i > 0 {
                lemma_wrote_twice(start, mid, *cursor, earlier, seq![byte]);
                assert(earlier + seq![byte] =~= done);
            } else {
                assert(seq![byte] =~= done);
            }
            if before < 128 {
                assert(remaining_length_bytes(before as nat) =~= seq![byte]);
                assert(earlier + seq![byte] =~= done);
            } else {
                assert(remaining_length_bytes(before as nat) =~= seq![byte]
                    + remaining_length_bytes(rest as nat));
                assert(done + remaining_length_bytes(rest as nat) =~= earlier
                    + remaining_length_bytes(before as nat));
                assert(remaining_length_bytes(rest as nat).len() >= 1);
            }
        }
        i += 1;
        if rest == 0 {
            break ;
        }
    }

    Ok(size)
}

} // verus!
