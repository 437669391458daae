//! The control packets and their wire form.
use vstd::prelude::*;

use crate::packet::connect::{
    lemma_connack_round_trip, lemma_connect_round_trip, parse_connack, parse_connect, ConnAck,
    Connect, ConnectView,
};
use crate::packet::decode::{lemma_take_u16_of_be_bytes, take_u16, take_u8};
use crate::packet::encode::{
    be_bytes, kept, lemma_remaining_length_size, lemma_wrote_twice, remaining_length_bytes,
    remaining_length_size, write_outcome, wrote,
};
use crate::packet::publish::{lemma_publish_round_trip, parse_publish, Publish, PublishView};
use crate::packet::subscribe::{
    lemma_suback_round_trip, lemma_subscribe_round_trip, parse_suback, parse_subscribe, SubAck,
    SubAckView, Subscribe, SubscribeView,
};
use crate::packet::unsubscribe::{
    lemma_unsubscribe_round_trip, parse_unsubscribe, Unsubscribe, UnsubscribeView,
};
use crate::protocol::{FixedHeader, PacketType, MAX_REMAINING_LEN};
use crate::Error;

pub mod connect;
pub mod decode;
pub mod encode;
pub mod publish;
pub mod subscribe;
pub mod unsubscribe;

verus! {

/// Quality of service of a delivery.
#[derive(Clone, Copy, Debug, PartialEq, Eq, Structural)]
pub enum QoS {
    AtMostOnce,
    AtLeastOnce,
    ExactlyOnce,
}

impl QoS {
    /// The level as it stands on the wire.
    pub open spec fn level(self) -> u8 {
        match self {
            QoS::AtMostOnce => 0,
            QoS::AtLeastOnce => 1,
            QoS::ExactlyOnce => 2,
        }
    }

    /// The quality of service that `value` stands for, if any.
    pub open spec fn from_level(value: u8) -> Option<QoS> {
        if value == 0 {
            Some(QoS::AtMostOnce)
        } else if value == 1 {
            Some(QoS::AtLeastOnce)
        } else if value == 2 {
            Some(QoS::ExactlyOnce)
        } else {
            None
        }
    }

    /// A quality-of-service byte off the front of `s`.
    pub open spec fn take(s: Seq<u8>) -> Result<(QoS, Seq<u8>), Error> {
        match take_u8(s) {
            Err(e) => Err(e),
            Ok((value, rest)) => match QoS::from_level(value) {
                Some(qos) => Ok((qos, rest)),
                None => Err(Error::InvalidQoS),
            },
        }
    }

    pub fn to_u8(self) -> (r: u8)
        ensures
            r == self.level(),
            r <= 2,
    {
        match self {
            QoS::AtMostOnce => 0,
            QoS::AtLeastOnce => 1,
            QoS::ExactlyOnce => 2,
        }
    }

    pub fn try_from(value: u8) -> (r: Result<QoS, Error>)
        ensures
            r == match QoS::from_level(value) {
                Some(qos) => Ok::<QoS, Error>(qos),
                None => Err(Error::InvalidQoS),
            },
    {
        match value {
            0 => Ok(QoS::AtMostOnce),
            1 => Ok(QoS::AtLeastOnce),
            2 => Ok(QoS::ExactlyOnce),
            _ => Err(Error::InvalidQoS),
        }
    }

    pub fn decode(cursor: &mut decode::Cursor) -> (r: Result<QoS, Error>)
        requires
            old(cursor).wf(),
        ensures
            match QoS::take(old(cursor).rest()) {
                Ok((qos, rest)) => r == Ok::<QoS, Error>(qos) && final(cursor).follows(
                    *old(cursor),
                    rest,
                ),
                Err(e) => r == Err::<QoS, Error>(e) && *final(cursor) == *old(cursor),
            },
    {
        let saved = *cursor;
        let byte = cursor.read_u8()?;
        match QoS::try_from(byte) {
            Ok(qos) => Ok(qos),
            Err(e) => {
                *cursor = saved;
                Err(e)
            },
        }
    }

    pub fn encode(&self, cursor: &mut encode::Cursor) -> (r: Result<(), Error>)
        requires
            old(cursor).wf(),
        ensures
            write_outcome(*old(cursor), *final(cursor), r, seq![self.level()]),
            final(final(cursor).backing())@ == final(old(cursor).backing())@,
    {
        cursor.write_u8(self.to_u8())
    }

    pub fn required_space(&self) -> (r: usize)
        ensures
            r == 1,
    {
        1
    }
}

impl Default for QoS {
    fn default() -> (r: Self)
        ensures
            r == QoS::AtMostOnce,
    {
        QoS::AtMostOnce
    }
}

/// A packet identifier. Zero is not one.
#[derive(Clone, Copy, Debug, PartialEq, Eq, Structural)]
pub struct PacketId(pub u16);

impl PacketId {
    pub open spec fn wf(self) -> bool {
        self.0 != 0
    }

    /// A packet identifier off the front of `s`.
    pub open spec fn take(s: Seq<u8>) -> Result<(PacketId, Seq<u8>), Error> {
        match take_u16(s) {
            Err(e) => Err(e),
            Ok((value, rest)) => if value == 0 {
                Err(Error::MalformedPacket)
            } else {
                Ok((PacketId(value), rest))
            },
        }
    }

    pub fn try_from(id: u16) -> (r: Result<PacketId, Error>)
        ensures
            r == if id == 0 {
                Err::<PacketId, Error>(Error::MalformedPacket)
            } else {
                Ok(PacketId(id))
            },
    {
        if id == 0 {
            return Err(Error::MalformedPacket);
        }
        Ok(PacketId(id))
    }

    /// The identifier that exactly two bytes spell.
    pub fn try_from_bytes(bytes: &[u8]) -> (r: Result<PacketId, Error>)
        ensures
            r == if bytes@.len() != 2 {
                Err::<PacketId, Error>(Error::MalformedPacket)
            } else {
                match PacketId::take(bytes@) {
                    Ok((id, _)) => Ok(id),
                    Err(e) => Err(e),
                }
            },
    {
        if bytes.len() != 2 {
            return Err(Error::MalformedPacket);
        }
        let value = (bytes[0] as u16) * 256 + (bytes[1] as u16);
        PacketId::try_from(value)
    }

    pub fn decode(cursor: &mut decode::Cursor) -> (r: Result<PacketId, Error>)
        requires
            old(cursor).wf(),
        ensures
            match PacketId::take(old(cursor).rest()) {
                Ok((id, rest)) => r == Ok::<PacketId, Error>(id) && final(cursor).follows(
                    *old(cursor),
                    rest,
                ),
                Err(e) => r == Err::<PacketId, Error>(e) && *final(cursor) == *old(cursor),
            },
    {
        let saved = *cursor;
        let value = cursor.read_u16()?;
        match PacketId::try_from(value) {
            Ok(id) => Ok(id),
            Err(e) => {
                *cursor = saved;
                Err(e)
            },
        }
    }

    pub fn encode(&self, cursor: &mut encode::Cursor) -> (r: Result<(), Error>)
        requires
            old(cursor).wf(),
        ensures
            write_outcome(*old(cursor), *final(cursor), r, be_bytes(self.0)),
            final(final(cursor).backing())@ == final(old(cursor).backing())@,
    {
        cursor.write_u16(self.0)
    }

    pub fn required_space(&self) -> (r: usize)
        ensures
            r == 2,
    {
        2
    }
}

/// A control packet.
pub enum Packet<'a> {
    Connect(Connect<'a>),
    ConnAck(ConnAck),
    Publish(Publish<'a>),
    PubAck(PacketId),
    PubRec(PacketId),
    PubRel(PacketId),
    PubComp(PacketId),
    Subscribe(Subscribe<'a>),
    SubAck(SubAck),
    Unsubscribe(Unsubscribe<'a>),
    UnsubAck(PacketId),
    PingReq,
    PingResp,
    Disconnect,
}

/// What a `Packet` holds.
pub enum PacketView {
    Connect(ConnectView),
    ConnAck(ConnAck),
    Publish(PublishView),
    PubAck(PacketId),
    PubRec(PacketId),
    PubRel(PacketId),
    PubComp(PacketId),
    Subscribe(SubscribeView),
    SubAck(SubAckView),
    Unsubscribe(UnsubscribeView),
    UnsubAck(PacketId),
    PingReq,
    PingResp,
    Disconnect,
}

impl PacketView {
    pub open spec fn packet_type(self) -> PacketType {
        match self {
            PacketView::Connect(_) => PacketType::Connect,
            PacketView::ConnAck(_) => PacketType::ConnAck,
            PacketView::Publish(_) => PacketType::Publish,
            PacketView::PubAck(_) => PacketType::PubAck,
            PacketView::PubRec(_) => PacketType::PubRec,
            PacketView::PubRel(_) => PacketType::PubRel,
            PacketView::PubComp(_) => PacketType::PubComp,
            PacketView::Subscribe(_) => PacketType::Subscribe,
            PacketView::SubAck(_) => PacketType::SubAck,
            PacketView::Unsubscribe(_) => PacketType::Unsubscribe,
            PacketView::UnsubAck(_) => PacketType::UnsubAck,
            PacketView::PingReq => PacketType::PingReq,
            PacketView::PingResp => PacketType::PingResp,
            PacketView::Disconnect => PacketType::Disconnect,
        }
    }

    /// The low nibble of the first byte.
    pub open spec fn flags(self) -> u8 {
        match self {
            PacketView::Publish(p) => p.flags.nibble(),
            _ => self.packet_type().fixed_flags(),
        }
    }

    /// What follows the fixed header.
    pub open spec fn body(self) -> Seq<u8> {
        match self {
            PacketView::Connect(p) => p.body(),
            PacketView::ConnAck(p) => p.body(),
            PacketView::Publish(p) => p.body(),
            PacketView::PubAck(id) => be_bytes(id.0),
            PacketView::PubRec(id) => be_bytes(id.0),
            PacketView::PubRel(id) => be_bytes(id.0),
            PacketView::PubComp(id) => be_bytes(id.0),
            PacketView::Subscribe(p) => p.body(),
            PacketView::SubAck(p) => p.body(),
            PacketView::Unsubscribe(p) => p.body(),
            PacketView::UnsubAck(id) => be_bytes(id.0),
            PacketView::PingReq => Seq::empty(),
            PacketView::PingResp => Seq::empty(),
            PacketView::Disconnect => Seq::empty(),
        }
    }

    /// The fixed header that goes before the body.
    pub open spec fn header(self) -> FixedHeader {
        FixedHeader {
            packet_type: self.packet_type(),
            flags: self.flags(),
            remaining_len: self.body().len() as u32,
        }
    }

    /// The whole packet on the wire: type and flags in one byte, the
    /// length of the body, the body.
    pub open spec fn bytes(self) -> Seq<u8> {
        seq![(self.packet_type().code() * 16 + self.flags()) as u8] + remaining_length_bytes(
            self.body().len(),
        ) + self.body()
    }

    /// How many bytes the whole packet takes.
    pub open spec fn size(self) -> nat {
        1 + remaining_length_size(self.body().len()) + self.body().len()
    }

    /// The packet has a wire form: every length-prefixed field fits its
    /// prefix and the body fits the remaining-length field.
    pub open spec fn encodable(self) -> bool {
        &&& match self {
            PacketView::Connect(p) => p.encodable(),
            PacketView::Publish(p) => p.encodable(),
            PacketView::Subscribe(p) => p.encodable(),
            PacketView::Unsubscribe(p) => p.encodable(),
            _ => true,
        }
        &&& self.body().len() <= MAX_REMAINING_LEN
    }

    /// What a decoder accepts.
    pub open spec fn legal(self) -> bool {
        &&& match self {
            PacketView::Connect(p) => p.legal(),
            PacketView::ConnAck(p) => p.legal(),
            PacketView::Publish(p) => p.legal(),
            PacketView::PubAck(id) => id.wf(),
            PacketView::PubRec(id) => id.wf(),
            PacketView::PubRel(id) => id.wf(),
            PacketView::PubComp(id) => id.wf(),
            PacketView::Subscribe(p) => p.legal(),
            PacketView::SubAck(p) => p.legal(),
            PacketView::Unsubscribe(p) => p.legal(),
            PacketView::UnsubAck(id) => id.wf(),
            _ => true,
        }
        &&& self.body().len() <= MAX_REMAINING_LEN
    }

    /// The packet on the wire is as long as `size` says.
    pub proof fn lemma_size(self)
        requires
            self.body().len() <= MAX_REMAINING_LEN,
        ensures
            self.bytes().len() == self.size(),
    {
        lemma_remaining_length_size(self.body().len());
    }
}

/// The acknowledgement of the given type for the packet `id`.
pub open spec fn acknowledgement(packet_type: PacketType, id: PacketId) -> PacketView {
    match packet_type {
        PacketType::PubAck => PacketView::PubAck(id),
        PacketType::PubRec => PacketView::PubRec(id),
        PacketType::PubRel => PacketView::PubRel(id),
        PacketType::PubComp => PacketView::PubComp(id),
        _ => PacketView::UnsubAck(id),
    }
}

/// The packet of the given type that has no body.
pub open spec fn bodiless(packet_type: PacketType) -> PacketView {
    match packet_type {
        PacketType::PingReq => PacketView::PingReq,
        PacketType::PingResp => PacketView::PingResp,
        _ => PacketView::Disconnect,
    }
}

/// A body that is a packet identifier and nothing else.
pub open spec fn parse_only_packet_id(body: Seq<u8>) -> Result<PacketId, Error> {
    match PacketId::take(body) {
        Err(e) => Err(e),
        Ok((id, rest)) => if rest.len() != 0 {
            Err(Error::MalformedPacket)
        } else {
            Ok(id)
        },
    }
}

/// A body that must be empty.
pub open spec fn parse_empty(body: Seq<u8>, packet: PacketView) -> Result<PacketView, Error> {
    if body.len() != 0 {
        Err(Error::MalformedPacket)
    } else {
        Ok(packet)
    }
}

/// What a body means under its fixed header. The body has to be as long
/// as the header says and is read to its end.
pub open spec fn parse_packet(header: FixedHeader, body: Seq<u8>) -> Result<PacketView, Error> {
    if header.remaining_len != body.len() {
        Err(Error::MalformedPacket)
    } else {
        match header.packet_type {
            PacketType::Connect => match parse_connect(body) {
                Ok(p) => Ok(PacketView::Connect(p)),
                Err(e) => Err(e),
            },
            PacketType::ConnAck => match parse_connack(body) {
                Ok(p) => Ok(PacketView::ConnAck(p)),
                Err(e) => Err(e),
            },
            PacketType::Publish => match parse_publish(header.flags, body) {
                Ok(p) => Ok(PacketView::Publish(p)),
                Err(e) => Err(e),
            },
            PacketType::PubAck | PacketType::PubRec | PacketType::PubRel | PacketType::PubComp
            | PacketType::UnsubAck => match parse_only_packet_id(body) {
                Ok(id) => Ok(acknowledgement(header.packet_type, id)),
                Err(e) => Err(e),
            },
            PacketType::Subscribe => match parse_subscribe(body) {
                Ok(p) => Ok(PacketView::Subscribe(p)),
                Err(e) => Err(e),
            },
            PacketType::SubAck => match parse_suback(body) {
                Ok(p) => Ok(PacketView::SubAck(p)),
                Err(e) => Err(e),
            },
            PacketType::Unsubscribe => match parse_unsubscribe(body) {
                Ok(p) => Ok(PacketView::Unsubscribe(p)),
                Err(e) => Err(e),
            },
            PacketType::PingReq | PacketType::PingResp | PacketType::Disconnect => parse_empty(
                body,
                bodiless(header.packet_type),
            ),
        }
    }
}

/// Decoding the body of a legal packet under the packet's own fixed
/// header gives the packet back.
pub proof fn lemma_packet_round_trip(v: PacketView)
    requires
        v.legal(),
    ensures
        parse_packet(v.header(), v.body()) == Ok::<PacketView, Error>(v),
{
    match v {
        PacketView::Connect(p) => lemma_connect_round_trip(p),
        PacketView::ConnAck(p) => lemma_connack_round_trip(p),
        PacketView::Publish(p) => lemma_publish_round_trip(p),
        PacketView::PubAck(id) => lemma_only_packet_id_round_trip(id),
        PacketView::PubRec(id) => lemma_only_packet_id_round_trip(id),
        PacketView::PubRel(id) => lemma_only_packet_id_round_trip(id),
        PacketView::PubComp(id) => lemma_only_packet_id_round_trip(id),
        PacketView::Subscribe(p) => lemma_subscribe_round_trip(p),
        PacketView::SubAck(p) => lemma_suback_round_trip(p),
        PacketView::Unsubscribe(p) => lemma_unsubscribe_round_trip(p),
        PacketView::UnsubAck(id) => lemma_only_packet_id_round_trip(id),
        PacketView::PingReq => {},
        PacketView::PingResp => {},
        PacketView::Disconnect => {},
    }
}

/// A non-zero packet identifier reads back from its two bytes.
pub proof fn lemma_only_packet_id_round_trip(id: PacketId)
    requires
        id.wf(),
    ensures
        parse_only_packet_id(be_bytes(id.0)) == Ok::<PacketId, Error>(id),
{
    assert(be_bytes(id.0) =~= be_bytes(id.0) + Seq::<u8>::empty());
    lemma_take_u16_of_be_bytes(id.0, Seq::<u8>::empty());
}

/// Reads as `decode` does, but leaves the cursor where an error stopped it.
fn only_packet_id_inner(cursor: &mut decode::Cursor) -> (r: Result<PacketId, Error>)
    requires
        old(cursor).wf(),
    ensures
        r == parse_only_packet_id(old(cursor).rest()),
        r is Ok ==> final(cursor).rest().len() == 0,
        final(cursor).wf(),
        final(cursor).source() == old(cursor).source(),
{
    let packet_id = PacketId::decode(cursor)?;
    cursor.expect_empty()?;
    Ok(packet_id)
}

/// Reads a body that is a packet identifier and nothing else. On an error
/// the cursor stays where it was.
pub fn only_packet_id(cursor: &mut decode::Cursor) -> (r: Result<PacketId, Error>)
    requires
        old(cursor).wf(),
    ensures
        match parse_only_packet_id(old(cursor).rest()) {
            Ok(v) => {
                &&& r is Ok
                &&& r->Ok_0 == v
                &&& final(cursor).follows(*old(cursor), Seq::empty())
            },
            Err(e) => r is Err && r->Err_0 == e && *final(cursor) == *old(cursor),
        },
{
    let saved = *cursor;
    match only_packet_id_inner(cursor) {
        Ok(read) => {
            assert(cursor.rest() =~= Seq::<u8>::empty());
            Ok(read)
        },
        Err(e) => {
            *cursor = saved;
            Err(e)
        },
    }
}

/// Reads the body of an acknowledgement of the given type.
fn decode_acknowledgement(packet_type: PacketType, cursor: &mut decode::Cursor) -> (r: Result<
    Packet<'static>,
    Error,
>)
    requires
        old(cursor).wf(),
        packet_type is PubAck || packet_type is PubRec || packet_type is PubRel
            || packet_type is PubComp || packet_type is UnsubAck,
    ensures
        match parse_only_packet_id(old(cursor).rest()) {
            Ok(id) => r is Ok && r->Ok_0@ == acknowledgement(packet_type, id),
            Err(e) => r is Err && r->Err_0 == e,
        },
{
    let id = only_packet_id(cursor)?;
    Ok(
        match packet_type {
            PacketType::PubAck => Packet::PubAck(id),
            PacketType::PubRec => Packet::PubRec(id),
            PacketType::PubRel => Packet::PubRel(id),
            PacketType::PubComp => Packet::PubComp(id),
            _ => Packet::UnsubAck(id),
        },
    )
}

/// Reads the body, which must be empty, of a packet of the given type.
fn decode_bodiless(packet_type: PacketType, cursor: &decode::Cursor) -> (r: Result<
    Packet<'static>,
    Error,
>)
    requires
        cursor.wf(),
        packet_type is PingReq || packet_type is PingResp || packet_type is Disconnect,
    ensures
        match parse_empty(cursor.rest(), bodiless(packet_type)) {
            Ok(v) => r is Ok && r->Ok_0@ == v,
            Err(e) => r is Err && r->Err_0 == e,
        },
{
    cursor.expect_empty()?;
    Ok(
        match packet_type {
            PacketType::PingReq => Packet::PingReq,
            PacketType::PingResp => Packet::PingResp,
            _ => Packet::Disconnect,
        },
    )
}

/// Writes the first byte of a packet and the length of its body. Returns
/// how many bytes that took. Nothing is written when the length is more
/// than the field can carry (`MalformedPacket`) or the header does not
/// fit (`UnexpectedEof`).
pub fn fixed_header(
    packet_type: PacketType,
    flags: u8,
    body_len: usize,
    cursor: &mut encode::Cursor,
) -> (r: Result<usize, Error>)
    requires
        old(cursor).wf(),
        flags < 16,
    ensures
        body_len > MAX_REMAINING_LEN ==> r == Err::<usize, Error>(Error::MalformedPacket) && kept(
            *old(cursor),
            *final(cursor),
        ),
        body_len <= MAX_REMAINING_LEN && old(cursor).room() < 1 + remaining_length_size(
            body_len as nat,
        ) ==> r == Err::<usize, Error>(Error::UnexpectedEof) && kept(
            *old(cursor),
            *final(cursor),
        ),
        body_len <= MAX_REMAINING_LEN && old(cursor).room() >= 1 + remaining_length_size(
            body_len as nat,
        ) ==> r == Ok::<usize, Error>((1 + remaining_length_size(body_len as nat)) as usize)
            && wrote(
            *old(cursor),
            *final(cursor),
            seq![(packet_type.code() * 16 + flags) as u8] + remaining_length_bytes(body_len as nat),
        ),
        final(final(cursor).backing())@ == final(old(cursor).backing())@,
{
    let size = encode::calculate_remaining_length(body_len)?;
    cursor.ensure_remaining(1 + size)?;

    let ghost start = *cursor;
    let first = packet_type.to_u8() * 16 + flags;
    let _ = cursor.write_u8(first);
    let ghost mid = *cursor;
    let _ = encode::remaining_length(body_len, cursor);
    proof {
        lemma_wrote_twice(start, mid, *cursor, seq![first], remaining_length_bytes(body_len as nat));
    }
    Ok(1 + size)
}

/// Writes a packet without a body: its first byte and a zero length.
pub fn empty_body(cursor: &mut encode::Cursor, packet_type: PacketType) -> (r: Result<(), Error>)
    requires
        old(cursor).wf(),
    ensures
        write_outcome(
            *old(cursor),
            *final(cursor),
            r,
            seq![(packet_type.code() * 16 + packet_type.fixed_flags()) as u8, 0u8],
        ),
        final(final(cursor).backing())@ == final(old(cursor).backing())@,
{
    cursor.ensure_remaining(2)?;
    let ghost start = *cursor;
    let flags: u8 = match packet_type {
        PacketType::PubRel | PacketType::Subscribe | PacketType::Unsubscribe => 0b0010,
        _ => 0,
    };
    let header = packet_type.to_u8() * 16 + flags;
    let _ = cursor.write_u8(header);
    let ghost mid = *cursor;
    let _ = cursor.write_u8(0);
    proof {
        lemma_wrote_twice(start, mid, *cursor, seq![header], seq![0u8]);
        assert(seq![header] + seq![0u8] =~= seq![header, 0u8]);
    }
    Ok(())
}

impl<'a> Packet<'a> {
    pub open spec fn view(&self) -> PacketView {
        match *self {
            Packet::Connect(p) => PacketView::Connect(p@),
            Packet::ConnAck(p) => PacketView::ConnAck(p),
            Packet::Publish(p) => PacketView::Publish(p@),
            Packet::PubAck(id) => PacketView::PubAck(id),
            Packet::PubRec(id) => PacketView::PubRec(id),
            Packet::PubRel(id) => PacketView::PubRel(id),
            Packet::PubComp(id) => PacketView::PubComp(id),
            Packet::Subscribe(p) => PacketView::Subscribe(p@),
            Packet::SubAck(p) => PacketView::SubAck(p@),
            Packet::Unsubscribe(p) => PacketView::Unsubscribe(p@),
            Packet::UnsubAck(id) => PacketView::UnsubAck(id),
            Packet::PingReq => PacketView::PingReq,
            Packet::PingResp => PacketView::PingResp,
            Packet::Disconnect => PacketView::Disconnect,
        }
    }

    pub fn packet_type(&self) -> (r: PacketType)
        ensures
            r == self@.packet_type(),
    {
        match self {
            Packet::Connect(_) => PacketType::Connect,
            Packet::ConnAck(_) => PacketType::ConnAck,
            Packet::Publish(_) => PacketType::Publish,
            Packet::PubAck(_) => PacketType::PubAck,
            Packet::PubRec(_) => PacketType::PubRec,
            Packet::PubRel(_) => PacketType::PubRel,
            Packet::PubComp(_) => PacketType::PubComp,
            Packet::Subscribe(_) => PacketType::Subscribe,
            Packet::SubAck(_) => PacketType::SubAck,
            Packet::Unsubscribe(_) => PacketType::Unsubscribe,
            Packet::UnsubAck(_) => PacketType::UnsubAck,
            Packet::PingReq => PacketType::PingReq,
            Packet::PingResp => PacketType::PingResp,
            Packet::Disconnect => PacketType::Disconnect,
        }
    }

    /// The low nibble of the first byte.
    pub fn flags(&self) -> (r: u8)
        ensures
            r == self@.flags(),
            r < 16,
    {
        match self {
            Packet::Publish(p) => p.flags(),
            Packet::PubRel(_) | Packet::Subscribe(_) | Packet::Unsubscribe(_) => 0b0010,
            _ => 0,
        }
    }

    /// The length of the body, if the packet has a wire form.
    pub fn body_len(&self) -> (r: Option<usize>)
        ensures
            r == if self@.encodable() {
                Some(self@.body().len() as usize)
            } else {
                None
            },
    {
        let len: usize = match self {
            Packet::Connect(p) => {
                if !p.is_encodable() {
                    return None;
                }
                proof {
                    p@.lemma_body_len();
                }
                p.required_space()
            },
            Packet::ConnAck(p) => p.required_space(),
            Packet::Publish(p) => {
                if !p.is_encodable() || p.payload.len() > MAX_REMAINING_LEN as usize {
                    proof {
                        p@.lemma_body_len();
                    }
                    return None;
                }
                proof {
                    p@.lemma_body_len();
                }
                p.required_space()
            },
            Packet::Subscribe(p) => {
                if !p.is_encodable() {
                    return None;
                }
                p.required_space()
            },
            Packet::SubAck(p) => p.required_space(),
            Packet::Unsubscribe(p) => {
                if !p.is_encodable() {
                    return None;
                }
                p.required_space()
            },
            Packet::PubAck(_) | Packet::PubRec(_) | Packet::PubRel(_) | Packet::PubComp(_)
            | Packet::UnsubAck(_) => 2,
            Packet::PingReq | Packet::PingResp | Packet::Disconnect => 0,
        };
        if len > MAX_REMAINING_LEN as usize {
            None
        } else {
            Some(len)
        }
    }

    /// The exact number of bytes that the whole packet takes on the wire,
    /// fixed header included.
    pub fn required_space(&self) -> (r: usize)
        requires
            self@.encodable(),
        ensures
            r == self@.size(),
            r == self@.bytes().len(),
    {
        proof {
            self@.lemma_size();
        }
        match self.body_len() {
            Some(len) => match encode::calculate_remaining_length(len) {
                Ok(size) => 1 + size + len,
                Err(_) => 0,
            },
            None => 0,
        }
    }

    /// Writes the whole packet. One without a wire form is refused with
    /// `MalformedPacket`, one that does not fit with `UnexpectedEof`;
    /// either way nothing is written.
    pub fn encode(&self, cursor: &mut encode::Cursor) -> (r: Result<(), Error>)
        requires
            old(cursor).wf(),
        ensures
            self@.encodable() ==> write_outcome(*old(cursor), *final(cursor), r, self@.bytes()),
            !self@.encodable() ==> r == Err::<(), Error>(Error::MalformedPacket) && kept(
                *old(cursor),
                *final(cursor),
            ),
            final(final(cursor).backing())@ == final(old(cursor).backing())@,
    {
        encode_packet(self, cursor)
    }

    /// Reads the packet that `body` holds under `header`.
    pub fn decode(header: &FixedHeader, body: &'a [u8]) -> (r: Result<Packet<'a>, Error>)
        ensures
            match parse_packet(*header, body@) {
                Ok(v) => r is Ok && r->Ok_0@ == v,
                Err(e) => r is Err && r->Err_0 == e,
            },
    {
        let mut cursor = decode::Cursor::new(body);

        if header.remaining_len as usize != cursor.remaining() {
            return Err(Error::MalformedPacket);
        }
        let flags = header.flags;

        match header.packet_type {
            PacketType::Connect => match Connect::decode(&mut cursor) {
                Ok(p) => Ok(Packet::Connect(p)),
                Err(e) => Err(e),
            },
            PacketType::ConnAck => match ConnAck::decode(&mut cursor) {
                Ok(p) => Ok(Packet::ConnAck(p)),
                Err(e) => Err(e),
            },
            PacketType::Publish => match Publish::decode(&mut cursor, flags) {
                Ok(p) => Ok(Packet::Publish(p)),
                Err(e) => Err(e),
            },
            PacketType::PubAck | PacketType::PubRec | PacketType::PubRel | PacketType::PubComp
            | PacketType::UnsubAck => decode_acknowledgement(header.packet_type, &mut cursor),
            PacketType::Subscribe => match Subscribe::decode(&mut cursor) {
                Ok(p) => Ok(Packet::Subscribe(p)),
                Err(e) => Err(e),
            },
            PacketType::SubAck => match SubAck::decode(&mut cursor) {
                Ok(p) => Ok(Packet::SubAck(p)),
                Err(e) => Err(e),
            },
            PacketType::Unsubscribe => match Unsubscribe::decode(&mut cursor) {
                Ok(p) => Ok(Packet::Unsubscribe(p)),
                Err(e) => Err(e),
            },
            PacketType::PingReq | PacketType::PingResp | PacketType::Disconnect => decode_bodiless(
                header.packet_type,
                &cursor,
            ),
        }
    }
}

/// Writes a whole packet: fixed header, then body. One without a wire form
/// is refused with `MalformedPacket`, one that does not fit with
/// `UnexpectedEof`; either way nothing is written.
pub fn encode_packet(packet: &Packet, cursor: &mut encode::Cursor) -> (r: Result<(), Error>)
    requires
        old(cursor).wf(),
    ensures
        packet@.encodable() ==> write_outcome(*old(cursor), *final(cursor), r, packet@.bytes()),
        !packet@.encodable() ==> r == Err::<(), Error>(Error::MalformedPacket) && kept(
            *old(cursor),
            *final(cursor),
        ),
        final(final(cursor).backing())@ == final(old(cursor).backing())@,
{
    let len = match packet.body_len() {
        Some(len) => len,
        None => {
            return Err(Error::MalformedPacket);
        },
    };
    proof {
        packet@.lemma_size();
    }
    cursor.ensure_remaining(packet.required_space())?;

    let ghost start = *cursor;
    let ghost head = seq![(packet@.packet_type().code() * 16 + packet@.flags()) as u8]
        + remaining_length_bytes(len as nat);
    let _ = fixed_header(packet.packet_type(), packet.flags(), len, cursor);
    let ghost mid = *cursor;
    let _ = match packet {
        Packet::Connect(p) => p.encode_body(cursor),
        Packet::ConnAck(p) => p.encode_body(cursor),
        Packet::Publish(p) => p.encode_body(cursor),
        Packet::PubAck(id) => id.encode(cursor),
        Packet::PubRec(id) => id.encode(cursor),
        Packet::PubRel(id) => id.encode(cursor),
        Packet::PubComp(id) => id.encode(cursor),
        Packet::Subscribe(p) => p.encode_body(cursor),
        Packet::SubAck(p) => p.encode_body(cursor),
        Packet::Unsubscribe(p) => p.encode_body(cursor),
        Packet::UnsubAck(id) => id.encode(cursor),
        Packet::PingReq | Packet::PingResp | Packet::Disconnect => Ok(()),
    };
    proof {
        if packet@.body().len() == 0 {
            assert(head + packet@.body() =~= head);
            assert(wrote(start, *cursor, head + packet@.body()));
        } else {
            lemma_wrote_twice(start, mid, *cursor, head, packet@.body());
        }
    }
    Ok(())
}

} // verus!
