//! The streaming parser: bytes come in as the transport delivers them,
//! whole packets come out.
use vstd::prelude::*;

use crate::packet::encode::{remaining_length_bytes, remaining_length_size};
use crate::packet::{lemma_packet_round_trip, parse_packet, Packet, PacketView};
use crate::protocol::{
    first_byte_meaning, parse_first_byte, parse_remaining_len_byte, pow128, FixedHeader, PacketType,
    State, MAX_REMAINING_LEN,
};
use crate::Error;

verus! {

/// The remaining-length field read from byte `i` of `bytes` on, `acc`
/// being the sum of the digits before: the value and the number of bytes
/// of the field, or nothing yet if the bytes end before the field does.
/// The fourth byte must be the last one.
pub open spec fn scan_remaining_length(bytes: Seq<u8>, i: nat, acc: nat) -> Result<
    Option<(u32, nat)>,
    Error,
>
    decreases 4 - i,
{
    if i >= 4 {
        Err(Error::MalformedRemainingLength)
    } else if i >= bytes.len() {
        Ok(None)
    } else {
        let sum = (acc + (bytes[i as int] % 128) * pow128(i)) as nat;
        if bytes[i as int] < 128 {
            Ok(Some((sum as u32, i + 1)))
        } else if i >= 3 {
            Err(Error::MalformedRemainingLength)
        } else {
            scan_remaining_length(bytes, i + 1, sum)
        }
    }
}

/// The remaining-length field at the front of `bytes`.
pub open spec fn take_remaining_length(bytes: Seq<u8>) -> Result<Option<(u32, nat)>, Error> {
    scan_remaining_length(bytes, 0, 0)
}

/// The fixed header at the front of `bytes` and the number of bytes it
/// takes, or nothing yet if the bytes end before the header does.
pub open spec fn parse_fixed_header(bytes: Seq<u8>) -> Result<Option<(FixedHeader, nat)>, Error> {
    if bytes.len() == 0 {
        Ok(None)
    } else {
        match first_byte_meaning(bytes[0]) {
            Err(e) => Err(e),
            Ok((packet_type, flags)) => match take_remaining_length(bytes.skip(1)) {
                Err(e) => Err(e),
                Ok(None) => Ok(None),
                Ok(Some((remaining_len, used))) => Ok(
                    Some((FixedHeader { packet_type, flags, remaining_len }, used + 1)),
                ),
            },
        }
    }
}

/// A remaining-length field takes at most four bytes, and no more than
/// there are.
pub proof fn lemma_scan_bounds(bytes: Seq<u8>, i: nat, acc: nat)
    ensures
        scan_remaining_length(bytes, i, acc) matches Ok(Some((_, used))) ==> i < used <= 4 && used
            <= bytes.len(),
    decreases 4 - i,
{
    if i < 4 && i < bytes.len() && bytes[i as int] >= 128 && i < 3 {
        lemma_scan_bounds(
            bytes,
            i + 1,
            (acc + (bytes[i as int] % 128) * pow128(i)) as nat,
        );
    }
}

/// Four length bytes that all ask for more are malformed, whatever follows.
pub proof fn lemma_fifth_length_byte_fails(bytes: Seq<u8>)
    requires
        bytes.len() >= 4,
        bytes[0] >= 128,
        bytes[1] >= 128,
        bytes[2] >= 128,
        bytes[3] >= 128,
    ensures
        take_remaining_length(bytes) == Err::<Option<(u32, nat)>, Error>(
            Error::MalformedRemainingLength,
        ),
{
    reveal_with_fuel(scan_remaining_length, 5);
}

/// The remaining-length field of `n` reads back as `n`, whatever follows.
pub proof fn lemma_remaining_length_round_trip(n: nat, rest: Seq<u8>)
    requires
        n <= MAX_REMAINING_LEN,
    ensures
        take_remaining_length(remaining_length_bytes(n) + rest) == Ok::<Option<(u32, nat)>, Error>(
            Some((n as u32, remaining_length_size(n))),
        ),
{
    crate::protocol::lemma_pow128_values();
    lemma_scan_round_trip(n, Seq::empty(), rest, 0, 0);
    assert(Seq::<u8>::empty() + remaining_length_bytes(n) + rest =~= remaining_length_bytes(n)
        + rest);
}

/// The digits of `n`, standing behind `i` bytes whose digits add up to
/// `acc`, read on to `acc + n * 128^i`.
proof fn lemma_scan_round_trip(n: nat, front: Seq<u8>, rest: Seq<u8>, i: nat, acc: nat)
    requires
        front.len() == i,
        i + remaining_length_size(n) <= 4,
        n * pow128(i) + acc <= MAX_REMAINING_LEN,
        n < 128 || n < 16_384 || n < 2_097_152 || n <= MAX_REMAINING_LEN,
    ensures
        scan_remaining_length(front + remaining_length_bytes(n) + rest, i, acc) == Ok::<
            Option<(u32, nat)>,
            Error,
        >(Some(((acc + n * pow128(i)) as u32, i + remaining_length_size(n)))),
    decreases n,
{
    crate::protocol::lemma_pow128_values();
    let s = front + remaining_length_bytes(n) + rest;
    if n < 128 {
        assert(s[i as int] == n as u8);
        assert((n as u8) % 128 == n);
    } else {
        let digit = (n % 128 + 128) as u8;
        assert(s[i as int] == digit);
        assert(digit % 128 == n % 128);
        let next = front.push(digit);
        assert(pow128(i + 1) == 128 * pow128(i)) by {
            reveal_with_fuel(pow128, 2);
        }
        assert((n / 128) * pow128(i + 1) + (n % 128) * pow128(i) == n * pow128(i))
            by (nonlinear_arith)
            requires
                pow128(i + 1) == 128 * pow128(i),
        ;
        assert(remaining_length_size(n / 128) + 1 == remaining_length_size(n));
        lemma_scan_round_trip(n / 128, next, rest, i + 1, (acc + (n % 128) * pow128(i)) as nat);
        assert(next + remaining_length_bytes(n / 128) + rest =~= s);
    }
}

/// A first byte and a remaining-length field, followed by a body of the
/// length that the field gives, read as a fixed header, and the body
/// stands right behind it.
proof fn lemma_frame(first: u8, packet_type: PacketType, flags: u8, body: Seq<u8>, rest: Seq<u8>)
    requires
        first_byte_meaning(first) == Ok::<(PacketType, u8), Error>((packet_type, flags)),
        body.len() <= MAX_REMAINING_LEN,
    ensures
        parse_fixed_header(seq![first] + remaining_length_bytes(body.len()) + body + rest) == Ok::<
            Option<(FixedHeader, nat)>,
            Error,
        >(
            Some(
                (
                    FixedHeader { packet_type, flags, remaining_len: body.len() as u32 },
                    1 + remaining_length_size(body.len()),
                ),
            ),
        ),
        (seq![first] + remaining_length_bytes(body.len()) + body + rest).subrange(
            1 + remaining_length_size(body.len()) as int,
            (1 + remaining_length_size(body.len()) + body.len()) as int,
        ) == body,
{
    let n = body.len();
    let s = seq![first] + remaining_length_bytes(n) + body + rest;
    crate::packet::encode::lemma_remaining_length_size(n);
    assert(s.skip(1) =~= remaining_length_bytes(n) + (body + rest));
    lemma_remaining_length_round_trip(n, body + rest);
    assert(s[0] == first);
    assert(s.subrange(1 + remaining_length_size(n) as int, (1 + remaining_length_size(n) + n) as int)
        =~= body);
}

/// A legal packet on the wire, whatever follows it, begins with its own
/// fixed header; the header is followed by its body, and the body
/// decodes to the packet.
pub proof fn lemma_stream_round_trip(v: PacketView, rest: Seq<u8>)
    requires
        v.legal(),
    ensures
        parse_fixed_header(v.bytes() + rest) == Ok::<Option<(FixedHeader, nat)>, Error>(
            Some((v.header(), 1 + remaining_length_size(v.body().len()))),
        ),
        (v.bytes() + rest).subrange(
            1 + remaining_length_size(v.body().len()) as int,
            v.size() as int,
        ) == v.body(),
        parse_packet(v.header(), v.body()) == Ok::<PacketView, Error>(v),
        v.bytes().len() == v.size(),
{
    lemma_packet_round_trip(v);
    v.lemma_size();
    lemma_first_byte(v);
    lemma_frame(
        (v.packet_type().code() * 16 + v.flags()) as u8,
        v.packet_type(),
        v.flags(),
        v.body(),
        rest,
    );
}

/// The first byte of a legal packet reads back as its type and flags.
proof fn lemma_first_byte(v: PacketView)
    requires
        v.legal(),
    ensures
        first_byte_meaning((v.packet_type().code() * 16 + v.flags()) as u8) == Ok::<
            (PacketType, u8),
            Error,
        >((v.packet_type(), v.flags())),
{
    crate::protocol::lemma_code_round_trip(v.packet_type());
    match v {
        PacketView::Publish(p) => {
            crate::packet::publish::lemma_flags_round_trip(p.flags);
        },
        _ => {},
    }
}

/// Reads the remaining-length field at the front of `bytes`: its value
/// and the number of bytes it takes, or nothing yet if the bytes end
/// before the field does.
pub fn read_remaining_len(
    bytes: &[u8],
    packet_type: PacketType,
    flags: u8,
) -> (r: Result<Option<(FixedHeader, usize)>, Error>)
    ensures
        r == match take_remaining_length(bytes@) {
            Err(e) => Err::<Option<(FixedHeader, usize)>, Error>(e),
            Ok(None) => Ok(None),
            Ok(Some((remaining_len, used))) => Ok(
                Some((FixedHeader { packet_type, flags, remaining_len }, used as usize)),
            ),
        },
        r matches Ok(Some((header, used))) ==> 1 <= used <= 4 && used <= bytes@.len()
            && header.remaining_len <= MAX_REMAINING_LEN && take_remaining_length(bytes@) == Ok::<
            Option<(u32, nat)>,
            Error,
        >(Some((header.remaining_len, used as nat))),
{
    let mut state = State::RemainingLen { multiplier: 1, value: 0, byte_read: 0, packet_type, flags };
    let mut i: usize = 0;
    proof {
        reveal_with_fuel(pow128, 5);
        lemma_scan_bounds(bytes@, 0, 0);
    }
    while i < bytes.len()
        invariant
            i <= bytes@.len(),
            i < 4,
            state is RemainingLen,
            state.wf(),
            state->byte_read == i,
            state->packet_type == packet_type,
            state->flags == flags,
            take_remaining_length(bytes@) == scan_remaining_length(
                bytes@,
                i as nat,
                state->value as nat,
            ),
        decreases bytes@.len() - i,
    {
        proof {
            crate::protocol::lemma_remaining_len_sum(state, bytes@[i as int]);
            crate::protocol::lemma_pow128_values();
        }
        match parse_remaining_len_byte(&mut state, bytes[i]) {
            Err(e) => {
                return Err(e);
            },
            Ok(Some(header)) => {
                return Ok(Some((header, i + 1)));
            },
            Ok(None) => {},
        }
        i += 1;
    }
    Ok(None)
}

/// Reads the fixed header at the front of `bytes`: the header and the
/// number of bytes it takes, or nothing yet if the bytes end before the
/// header does.
pub fn read_fixed_header(bytes: &[u8]) -> (r: Result<Option<(FixedHeader, usize)>, Error>)
    ensures
        r == match parse_fixed_header(bytes@) {
            Err(e) => Err::<Option<(FixedHeader, usize)>, Error>(e),
            Ok(None) => Ok(None),
            Ok(Some((header, used))) => Ok(Some((header, used as usize))),
        },
        r matches Ok(Some((header, used))) ==> 2 <= used <= 5 && used <= bytes@.len()
            && header.remaining_len <= MAX_REMAINING_LEN && parse_fixed_header(bytes@) == Ok::<
            Option<(FixedHeader, nat)>,
            Error,
        >(Some((header, used as nat))),
{
    if bytes.len() == 0 {
        return Ok(None);
    }
    let (packet_type, flags) = match parse_first_byte(bytes[0]) {
        Ok(first) => first,
        Err(e) => {
            return Err(e);
        },
    };
    let rest = vstd::slice::slice_subrange(bytes, 1, bytes.len());
    assert(rest@ =~= bytes@.skip(1));
    match read_remaining_len(rest, packet_type, flags) {
        Ok(Some((header, used))) => Ok(Some((header, used + 1))),
        Ok(None) => Ok(None),
        Err(e) => Err(e),
    }
}

/// The streaming parser. It owns the receive buffer; the bytes from
/// `start` up to `end` have arrived and are not consumed yet.
pub struct StreamParser<'a> {
    buf: &'a mut [u8],
    start: usize,
    end: usize,
    header: Option<FixedHeader>,
    frame: Option<(FixedHeader, usize, usize)>,
}

impl<'a> StreamParser<'a> {
    /// The receive buffer as it now stands.
    pub closed spec fn storage(&self) -> Seq<u8> {
        self.buf@
    }

    /// Where the bytes that are not consumed yet begin.
    pub closed spec fn start(&self) -> nat {
        self.start as nat
    }

    /// Where the bytes that have arrived end.
    pub closed spec fn end(&self) -> nat {
        self.end as nat
    }

    /// The fixed header that was read while its body was still on the way.
    pub closed spec fn header(&self) -> Option<FixedHeader> {
        self.header
    }

    /// Where in the buffer the packet lies that is ready to be decoded,
    /// and its fixed header.
    pub closed spec fn frame_range(&self) -> Option<(FixedHeader, usize, usize)> {
        self.frame
    }

    /// The size of the receive buffer.
    pub open spec fn capacity(&self) -> nat {
        self.storage().len()
    }

    /// The bytes that have arrived and are not consumed yet.
    pub open spec fn pending(&self) -> Seq<u8> {
        self.storage().subrange(self.start() as int, self.end() as int)
    }

    /// The packet that is ready to be decoded: its fixed header and its body.
    pub open spec fn frame(&self) -> Option<(FixedHeader, Seq<u8>)> {
        match self.frame_range() {
            Some((header, from, to)) => Some(
                (header, self.storage().subrange(from as int, to as int)),
            ),
            None => None,
        }
    }

    pub open spec fn wf(&self) -> bool {
        &&& self.start() <= self.end() <= self.capacity()
        &&& self.frame_range() matches Some((_, from, to)) ==> from <= to <= self.capacity()
    }

    /// The fixed header of the packet that comes next and how many of the
    /// pending bytes it takes: the one remembered, which takes none, or
    /// the one at the front of the pending bytes.
    pub open spec fn upcoming_header(&self) -> Result<Option<(FixedHeader, nat)>, Error> {
        match self.header() {
            Some(header) => Ok(Some((header, 0))),
            None => parse_fixed_header(self.pending()),
        }
    }

    /// The packet that comes next, if it has arrived as a whole: its fixed
    /// header, how many of the pending bytes it takes, and its body. A
    /// body that the buffer cannot hold is `BufferTooSmall`.
    pub open spec fn upcoming(&self) -> Result<Option<(FixedHeader, nat, Seq<u8>)>, Error> {
        match self.upcoming_header() {
            Err(e) => Err(e),
            Ok(None) => Ok(None),
            Ok(Some((header, used))) => if header.remaining_len > self.capacity() {
                Err(Error::BufferTooSmall)
            } else if self.pending().len() - used >= header.remaining_len {
                Ok(
                    Some(
                        (
                            header,
                            used + header.remaining_len as nat,
                            self.pending().subrange(
                                used as int,
                                used + header.remaining_len as int,
                            ),
                        ),
                    ),
                )
            } else {
                Ok(None)
            },
        }
    }

    /// A parser over `buf` to which nothing has arrived yet.
    pub fn new(buf: &'a mut [u8]) -> (r: Self)
        ensures
            r.wf(),
            r.capacity() == old(buf)@.len(),
            r.pending().len() == 0,
            r.start() == 0,
            r.header() is None,
            r.frame() is None,
    {
        StreamParser { buf, start: 0, end: 0, header: None, frame: None }
    }

    /// The fixed header of the packet that comes next and how many of the
    /// pending bytes it takes.
    fn next_header(&self) -> (r: Result<Option<(FixedHeader, usize)>, Error>)
        requires
            self.wf(),
        ensures
            match self.upcoming_header() {
                Err(e) => r == Err::<Option<(FixedHeader, usize)>, Error>(e),
                Ok(None) => r == Ok::<Option<(FixedHeader, usize)>, Error>(None),
                Ok(Some((header, used))) => r == Ok::<Option<(FixedHeader, usize)>, Error>(
                    Some((header, used as usize)),
                ) && used <= self.pending().len(),
            },
    {
        match self.header {
            Some(header) => Ok(Some((header, 0))),
            None => {
                let pending = vstd::slice::slice_subrange(self.buf, self.start, self.end);
                read_fixed_header(pending)
            },
        }
    }

    /// Moves the pending bytes to the front of the buffer.
    fn make_room(&mut self)
        requires
            old(self).wf(),
        ensures
            final(self).wf(),
            final(self).capacity() == old(self).capacity(),
            final(self).start() == 0,
            final(self).pending() == old(self).pending(),
            final(self).header() == old(self).header(),
            final(self).frame_range() == old(self).frame_range(),
    {
        let unread = self.end - self.start;
        let ghost held = self.buf@;
        if self.start > 0 {
            crate::buffer::slide_down(&mut *self.buf, self.start, 0, unread);
        }
        proof {
            assert(self.buf@.subrange(0, unread as int) =~= held.subrange(
                self.start as int,
                self.end as int,
            ));
        }
        self.start = 0;
        self.end = unread;
    }

    /// Looks whether the next packet has arrived as a whole. If so, the
    /// packet is consumed and ready to be decoded, and the answer is yes.
    /// If not, the pending bytes are moved to the front of the buffer to
    /// make room for more, and the answer is no; a fixed header that is
    /// complete is consumed and remembered. An error changes nothing.
    pub fn poll(&mut self) -> (r: Result<bool, Error>)
        requires
            old(self).wf(),
        ensures
            final(self).wf(),
            final(self).capacity() == old(self).capacity(),
            match old(self).upcoming() {
                Err(e) => {
                    &&& r == Err::<bool, Error>(e)
                    &&& final(self).pending() == old(self).pending()
                    &&& final(self).header() == old(self).header()
                    &&& final(self).frame() == old(self).frame()
                },
                Ok(Some((header, used, body))) => {
                    &&& r == Ok::<bool, Error>(true)
                    &&& final(self).frame() == Some((header, body))
                    &&& final(self).pending() == old(self).pending().skip(used as int)
                    &&& final(self).header() is None
                },
                Ok(None) => {
                    &&& r == Ok::<bool, Error>(false)
                    &&& final(self).frame() is None
                    &&& final(self).start() == 0
                    &&& match old(self).upcoming_header() {
                        Ok(Some((header, used))) => final(self).header() == Some(header) && final(self).pending() == old(self).pending().skip(used as int),
                        _ => final(self).header() is None && final(self).pending() == old(self).pending(),
                    }
                },
            },
    {
        let ghost before = old(self).pending();
        let found = self.next_header()?;
        if let Some((header, used)) = found {
            let len = header.remaining_len as usize;
            if len > self.buf.len() {
                return Err(Error::BufferTooSmall);
            }
            let from = self.start + used;
            if self.end - from >= len {
                self.frame = Some((header, from, from + len));
                self.header = None;
                self.start = from + len;
                if self.start == self.end {
                    self.start = 0;
                    self.end = 0;
                }
                proof {
                    assert(self.storage().subrange(from as int, from + len) =~= before.subrange(
                        used as int,
                        used + len,
                    ));
                    assert(self.pending() =~= before.skip(used + len));
                }
                return Ok(true);
            }
            self.header = Some(header);
            self.start = from;
            proof {
                assert(self.pending() =~= before.skip(used as int));
            }
        } else {
            proof {
                assert(before.skip(0) =~= before);
            }
        }
        self.frame = None;
        self.make_room();
        Ok(false)
    }

    /// The part of the buffer behind the bytes that have arrived, for the
    /// transport to read into. What was ready to be decoded is given up.
    pub fn space(&mut self) -> (r: &mut [u8])
        requires
            old(self).wf(),
        ensures
            r@.len() == old(self).capacity() - old(self).end(),
            final(self).start() == old(self).start(),
            final(self).end() == old(self).end(),
            final(self).header() == old(self).header(),
            final(self).frame() is None,
            final(self).storage() == old(self).storage().subrange(0, old(self).end() as int)
                + final(r)@,
    {
        self.frame = None;
        let (_, tail) = self.buf.split_at_mut(self.end);
        tail
    }

    /// Notes that the transport has put `n` more bytes behind those that
    /// had arrived. None at all means that the transport has ended, more
    /// than there was room for that it did not write where it was told;
    /// both are a `TransportError` and change nothing.
    pub fn commit(&mut self, n: usize) -> (r: Result<(), Error>)
        requires
            old(self).wf(),
        ensures
            final(self).wf(),
            final(self).storage() == old(self).storage(),
            final(self).start() == old(self).start(),
            final(self).header() == old(self).header(),
            final(self).frame() == old(self).frame(),
            if 0 < n <= old(self).capacity() - old(self).end() {
                r is Ok && final(self).end() == old(self).end() + n
            } else {
                r == Err::<(), Error>(Error::TransportError) && final(self).end() == old(self).end()
            },
    {
        if n == 0 || n > self.buf.len() - self.end {
            return Err(Error::TransportError);
        }
        self.end += n;
        Ok(())
    }

    /// Whether a packet is ready to be decoded.
    pub fn has_frame(&self) -> (r: bool)
        ensures
            r == self.frame() is Some,
    {
        self.frame.is_some()
    }

    /// Decodes the packet that is ready. Its texts and payloads stay in
    /// the receive buffer. `UnexpectedEof` when no packet is ready.
    pub fn packet(&self) -> (r: Result<Packet<'_>, Error>)
        requires
            self.wf(),
        ensures
            match self.frame() {
                None => r is Err && r->Err_0 == Error::UnexpectedEof,
                Some((header, body)) => match parse_packet(header, body) {
                    Ok(v) => r is Ok && r->Ok_0@ == v,
                    Err(e) => r is Err && r->Err_0 == e,
                },
            },
    {
        match self.frame {
            None => Err(Error::UnexpectedEof),
            Some((header, from, to)) => {
                let body = vstd::slice::slice_subrange(self.buf, from, to);
                Packet::decode(&header, body)
            },
        }
    }
}

} // verus!
