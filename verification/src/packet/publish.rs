//! PUBLISH.
use vstd::prelude::*;
use vstd::string::StringSliceAdditionalSpecFns;
use vstd::utf8::valid_utf8;

use crate::buffer;
use crate::packet::decode::{self, lemma_take_u16_of_be_bytes, lemma_take_utf8_of_prefixed, take_utf8};
use crate::packet::encode::{self, be_bytes, kept, lemma_wrote_twice, prefixed, write_outcome};
use crate::packet::{PacketId, QoS};
use crate::Error;

verus! {

/// A message as the application hands it over for publishing.
#[derive(Debug, Clone, Copy)]
pub struct Msg<'a> {
    pub qos: QoS,
    pub retain: bool,
    pub topic: &'a str,
    pub payload: &'a [u8],
}

impl<'a> Msg<'a> {
    /// The first transmission of this message, still without a packet
    /// identifier.
    pub open spec fn view(&self) -> PublishView {
        PublishView {
            flags: Flags { dup: false, qos: self.qos, retain: self.retain },
            topic: self.topic.spec_bytes(),
            packet_id: None,
            payload: self.payload@,
        }
    }
}

/// The DUP, QoS and RETAIN bits of a PUBLISH.
#[derive(Clone, Copy, Debug, PartialEq, Eq, Structural)]
pub struct Flags {
    pub dup: bool,
    pub qos: QoS,
    pub retain: bool,
}

impl Flags {
    /// The low nibble of the fixed header: DUP, two bits of QoS, RETAIN.
    pub open spec fn nibble(self) -> u8 {
        ((if self.dup { 8int } else { 0 }) + 2 * self.qos.level() + (if self.retain { 1int } else { 0 })) as u8
    }

    /// What a low nibble says. A QoS of three does not exist, and a
    /// duplicate of a QoS 0 message cannot be.
    pub open spec fn parse(value: u8) -> Result<Flags, Error> {
        match QoS::from_level((value / 2) % 4) {
            None => Err(Error::InvalidQoS),
            Some(qos) => if qos == QoS::AtMostOnce && (value / 8) % 2 == 1 {
                Err(Error::MalformedPacket)
            } else {
                Ok(Flags { dup: (value / 8) % 2 == 1, qos, retain: value % 2 == 1 })
            },
        }
    }

    pub open spec fn legal(self) -> bool {
        !(self.dup && self.qos == QoS::AtMostOnce)
    }

    pub fn try_from(value: u8) -> (r: Result<Flags, Error>)
        ensures
            r == Flags::parse(value),
    {
        let dup = (value / 8) % 2 == 1;
        let qos = QoS::try_from((value / 2) % 4)?;
        let retain = value % 2 == 1;

        if qos == QoS::AtMostOnce && dup {
            return Err(Error::MalformedPacket);
        }
        Ok(Flags { dup, qos, retain })
    }

    pub fn to_u8(&self) -> (r: u8)
        ensures
            r == self.nibble(),
            r < 16,
    {
        let mut value: u8 = 2 * self.qos.to_u8();
        if self.dup {
            value += 8;
        }
        if self.retain {
            value += 1;
        }
        value
    }
}

/// Legal flags read back from their nibble.
pub proof fn lemma_flags_round_trip(flags: Flags)
    requires
        flags.legal(),
    ensures
        Flags::parse(flags.nibble()) == Ok::<Flags, Error>(flags),
        flags.nibble() < 16,
{
}

/// The PUBLISH packet.
#[derive(Debug, Clone, Copy)]
pub struct Publish<'a> {
    pub flags: Flags,
    pub topic: buffer::String<'a>,
    pub packet_id: Option<PacketId>,
    pub payload: buffer::Slice<'a>,
}

/// What a `Publish` holds.
pub struct PublishView {
    pub flags: Flags,
    pub topic: Seq<u8>,
    pub packet_id: Option<PacketId>,
    pub payload: Seq<u8>,
}

impl PublishView {
    /// The packet identifier as it stands in the body, if there is one.
    pub open spec fn id_bytes(self) -> Seq<u8> {
        match self.packet_id {
            Some(id) => be_bytes(id.0),
            None => Seq::empty(),
        }
    }

    /// The body of the packet on the wire: topic, packet identifier if
    /// any, and the payload as it is.
    pub open spec fn body(self) -> Seq<u8> {
        prefixed(self.topic) + self.id_bytes() + self.payload
    }

    /// The length of `body()`, written out.
    pub open spec fn body_len(self) -> nat {
        2 + self.topic.len() + (if self.packet_id is Some { 2nat } else { 0 }) + self.payload.len()
    }

    /// The topic is short enough for its length prefix.
    pub open spec fn encodable(self) -> bool {
        self.topic.len() <= u16::MAX
    }

    /// What a decoder accepts: a UTF-8 topic, flags that can be, and a
    /// non-zero packet identifier exactly when the QoS is above zero.
    pub open spec fn legal(self) -> bool {
        &&& self.encodable()
        &&& valid_utf8(self.topic)
        &&& self.flags.legal()
        &&& (self.flags.qos == QoS::AtMostOnce) <==> (self.packet_id is None)
        &&& self.packet_id matches Some(id) ==> id.wf()
    }

    pub proof fn lemma_body_len(self)
        ensures
            self.body().len() == self.body_len(),
    {
    }
}

/// What a PUBLISH body means under the flags of its fixed header.
#[verifier::opaque]
pub open spec fn parse_publish(flags: u8, body: Seq<u8>) -> Result<PublishView, Error> {
    match Flags::parse(flags) {
        Err(e) => Err(e),
        Ok(flags) => match take_utf8(body) {
            Err(e) => Err(e),
            Ok((topic, s1)) => if flags.qos == QoS::AtMostOnce {
                Ok(PublishView { flags, topic, packet_id: None, payload: s1 })
            } else {
                match PacketId::take(s1) {
                    Err(e) => Err(e),
                    Ok((id, s2)) => Ok(
                        PublishView { flags, topic, packet_id: Some(id), payload: s2 },
                    ),
                }
            },
        },
    }
}

impl<'a> Publish<'a> {
    pub open spec fn view(&self) -> PublishView {
        PublishView {
            flags: self.flags,
            topic: self.topic@,
            packet_id: self.packet_id,
            payload: self.payload@,
        }
    }

    /// The first transmission of `value`, still without a packet identifier.
    pub fn from_msg(value: Msg<'a>) -> (r: Self)
        ensures
            r@ == value@,
            r.topic.is_utf8(),
    {
        Publish {
            flags: Flags { dup: false, qos: value.qos, retain: value.retain },
            topic: buffer::String::from_str(value.topic),
            packet_id: None,
            payload: buffer::Slice::from_bytes(value.payload),
        }
    }

    /// The low nibble of the fixed header.
    pub fn flags(&self) -> (r: u8)
        ensures
            r == self.flags.nibble(),
            r < 16,
    {
        self.flags.to_u8()
    }

    pub fn is_encodable(&self) -> (r: bool)
        ensures
            r == self@.encodable(),
    {
        self.topic.len() <= 65_535
    }

    /// The exact number of bytes that the body takes on the wire.
    pub fn required_space(&self) -> (r: usize)
        requires
            self@.body_len() <= usize::MAX,
        ensures
            r == self@.body().len(),
    {
        let id_len: usize = match self.packet_id {
            Some(_) => 2,
            None => 0,
        };
        2 + self.topic.len() + id_len + self.payload.len()
    }

    /// Writes the body. A topic too long for its prefix is refused with
    /// `MalformedPacket`, a body that does not fit with `UnexpectedEof`;
    /// either way nothing is written.
    pub fn encode_body(&self, cursor: &mut encode::Cursor) -> (r: Result<(), Error>)
        requires
            old(cursor).wf(),
        ensures
            self@.encodable() ==> write_outcome(*old(cursor), *final(cursor), r, self@.body()),
            !self@.encodable() ==> r == Err::<(), Error>(Error::MalformedPacket) && kept(
                *old(cursor),
                *final(cursor),
            ),
            final(final(cursor).backing())@ == final(old(cursor).backing())@,
    {
        if !self.is_encodable() {
            return Err(Error::MalformedPacket);
        }
        let id_len: usize = match self.packet_id {
            Some(_) => 2,
            None => 0,
        };
        let head = 2 + self.topic.len() + id_len;
        let room = cursor.remaining();
        if room < head || room - head < self.payload.len() {
            return Err(Error::UnexpectedEof);
        }
        let ghost start = *cursor;
        let ghost mut done: Seq<u8> = prefixed(self.topic@);
        let _ = cursor.write_binary_chunk(self.topic.as_bytes());

        if let Some(id) = self.packet_id {
            let ghost mid = *cursor;
            let _ = cursor.write_u16(id.0);
            proof {
                lemma_wrote_twice(start, mid, *cursor, done, be_bytes(id.0));
                done = done + be_bytes(id.0);
            }
        }
        assert(done =~= prefixed(self.topic@) + self@.id_bytes());
        let ghost mid = *cursor;
        let _ = cursor.write_bytes(self.payload.as_bytes());
        proof {
            lemma_wrote_twice(start, mid, *cursor, done, self.payload@);
        }
        Ok(())
    }

    /// Reads as `decode` does, but leaves the cursor where an error stopped it.
    fn decode_inner(cursor: &mut decode::Cursor<'a>, flags: u8) -> (r: Result<Publish<'a>, Error>)
        requires
            old(cursor).wf(),
        ensures
            match parse_publish(flags, old(cursor).rest()) {
                Ok(v) => {
                    &&& r is Ok
                    &&& r->Ok_0@ == v
                    &&& r->Ok_0.topic.is_utf8()
                    &&& final(cursor).rest().len() == 0
                },
                Err(e) => r == Err::<Publish<'a>, Error>(e),
            },
            final(cursor).wf(),
            final(cursor).source() == old(cursor).source(),
    {
        proof {
            reveal(parse_publish);
        }
        let flags = Flags::try_from(flags)?;
        let topic = cursor.read_utf8()?;

        let packet_id = if let QoS::AtMostOnce = flags.qos {
            None
        } else {
            Some(PacketId::decode(cursor)?)
        };
        let ghost before = cursor.rest();
        let payload = buffer::Slice::from_bytes(cursor.read_bytes(cursor.remaining())?);
        assert(before.take(before.len() as int) =~= before);

        Ok(Publish { flags, topic, packet_id, payload })
    }

    /// Reads a PUBLISH body to its end; what follows topic and packet
    /// identifier is the payload. On an error the cursor stays where it was.
    pub fn decode(cursor: &mut decode::Cursor<'a>, flags: u8) -> (r: Result<Publish<'a>, Error>)
        requires
            old(cursor).wf(),
        ensures
            match parse_publish(flags, old(cursor).rest()) {
                Ok(v) => {
                    &&& r is Ok
                    &&& r->Ok_0@ == v && r->Ok_0.topic.is_utf8()
                    &&& final(cursor).follows(*old(cursor), Seq::empty())
                },
                Err(e) => r is Err && r->Err_0 == e && *final(cursor) == *old(cursor),
            },
    {
        let saved = *cursor;
        match Publish::decode_inner(cursor, flags) {
            Ok(read) => {
                assert(cursor.rest() =~= Seq::<u8>::empty());
                Ok(read)
            },
            Err(e) => {
                *cursor = saved;
                Err(e)
            },
        }
    }
}

/// Decoding the body of a legal PUBLISH under its own flags gives the
/// packet back.
pub proof fn lemma_publish_round_trip(v: PublishView)
    requires
        v.legal(),
    ensures
        parse_publish(v.flags.nibble(), v.body()) == Ok::<PublishView, Error>(v),
{
    reveal(parse_publish);
    lemma_flags_round_trip(v.flags);
    let tail = v.id_bytes() + v.payload;
    assert(v.body() =~= prefixed(v.topic) + tail);
    lemma_take_utf8_of_prefixed(v.topic, tail);
    match v.packet_id {
        Some(id) => {
            lemma_take_u16_of_be_bytes(id.0, v.payload);
        },
        None => {
            assert(tail =~= v.payload);
        },
    }
}

} // verus!
