//! SUBSCRIBE and SUBACK.
use vstd::prelude::*;
use vstd::utf8::valid_utf8;

use crate::buffer;
use crate::packet::decode::{
    self, lemma_take_many_of_many_bytes, lemma_take_u16_of_be_bytes, lemma_take_utf8_of_prefixed,
    take_many, take_u8, take_utf8, with_front,
};
use crate::packet::encode::{
    self, be_bytes, kept, lemma_concat_assoc, lemma_many_bytes_push, lemma_many_bytes_take_len,
    lemma_wrote_twice, many_bytes, prefixed, write_outcome, wrote,
};
use crate::packet::{PacketId, QoS};
use crate::Error;

verus! {

/// How many topic filters, or return codes, one packet can hold.
pub const TOPIC_CAPACITY: usize = 1;

/// One request of a SUBSCRIBE: a topic filter and the QoS asked for.
#[derive(Debug, Clone, Copy)]
pub struct Subscription<'a> {
    pub topic_filter: buffer::String<'a>,
    pub qos: QoS,
}

/// What a `Subscription` holds.
pub struct SubscriptionView {
    pub topic_filter: Seq<u8>,
    pub qos: QoS,
}

impl SubscriptionView {
    /// The request on the wire: the filter, length-prefixed, and the QoS byte.
    pub open spec fn bytes(self) -> Seq<u8> {
        prefixed(self.topic_filter) + seq![self.qos.level()]
    }

    /// A request off the front of `s`.
    pub open spec fn take(s: Seq<u8>) -> Result<(SubscriptionView, Seq<u8>), Error> {
        match take_utf8(s) {
            Err(e) => Err(e),
            Ok((topic_filter, s1)) => match QoS::take(s1) {
                Err(e) => Err(e),
                Ok((qos, s2)) => Ok((SubscriptionView { topic_filter, qos }, s2)),
            },
        }
    }

    pub open spec fn encodable(self) -> bool {
        self.topic_filter.len() <= u16::MAX
    }

    pub open spec fn legal(self) -> bool {
        self.encodable() && valid_utf8(self.topic_filter)
    }

    /// `bytes`, as a function value.
    pub open spec fn encoder() -> spec_fn(SubscriptionView) -> Seq<u8> {
        |v: SubscriptionView| v.bytes()
    }

    /// `take`, as a function value.
    pub open spec fn taker() -> spec_fn(Seq<u8>) -> Result<(SubscriptionView, Seq<u8>), Error> {
        |s: Seq<u8>| SubscriptionView::take(s)
    }

    /// A legal request reads back from its bytes.
    pub proof fn lemma_round_trip(self, rest: Seq<u8>)
        requires
            self.legal(),
        ensures
            SubscriptionView::take(self.bytes() + rest) == Ok::<(SubscriptionView, Seq<u8>), Error>(
                (self, rest),
            ),
    {
        let tail = seq![self.qos.level()] + rest;
        lemma_concat_assoc(prefixed(self.topic_filter), seq![self.qos.level()], rest);
        lemma_take_utf8_of_prefixed(self.topic_filter, tail);
        assert(QoS::take(tail) == Ok::<(QoS, Seq<u8>), Error>((self.qos, rest))) by {
            assert(tail[0] == self.qos.level());
            assert(tail.skip(1) =~= rest);
        }
    }
}

impl<'a> Subscription<'a> {
    pub open spec fn view(&self) -> SubscriptionView {
        SubscriptionView { topic_filter: self.topic_filter@, qos: self.qos }
    }

    pub fn required_space(&self) -> (r: usize)
        requires
            self@.bytes().len() <= usize::MAX,
        ensures
            r == self@.bytes().len(),
    {
        2 + self.topic_filter.len() + 1
    }

    /// Writes the request. A filter too long for its prefix is refused
    /// with `MalformedPacket`, a request that does not fit with
    /// `UnexpectedEof`; either way nothing is written.
    pub fn encode(&self, cursor: &mut encode::Cursor) -> (r: Result<(), Error>)
        requires
            old(cursor).wf(),
        ensures
            self@.encodable() ==> write_outcome(*old(cursor), *final(cursor), r, self@.bytes()),
            !self@.encodable() ==> r == Err::<(), Error>(Error::MalformedPacket) && kept(
                *old(cursor),
                *final(cursor),
            ),
            final(final(cursor).backing())@ == final(old(cursor).backing())@,
    {
        if self.topic_filter.len() > 65_535 {
            return Err(Error::MalformedPacket);
        }
        cursor.ensure_remaining(self.required_space())?;
        let ghost start = *cursor;
        let _ = cursor.write_binary_chunk(self.topic_filter.as_bytes());
        let ghost mid = *cursor;
        let _ = cursor.write_u8(self.qos.to_u8());
        proof {
            lemma_wrote_twice(
                start,
                mid,
                *cursor,
                prefixed(self.topic_filter@),
                seq![self.qos.level()],
            );
        }
        Ok(())
    }

    pub fn decode(cursor: &mut decode::Cursor<'a>) -> (r: Result<Subscription<'a>, Error>)
        requires
            old(cursor).wf(),
        ensures
            match SubscriptionView::take(old(cursor).rest()) {
                Ok((v, rest)) => {
                    &&& r is Ok
                    &&& r->Ok_0@ == v
                    &&& final(cursor).follows(*old(cursor), rest)
                    &&& rest.len() < old(cursor).rest().len()
                },
                Err(e) => r == Err::<Subscription<'a>, Error>(e) && *final(cursor) == *old(cursor),
            },
    {
        let saved = *cursor;
        let topic_filter = cursor.read_utf8()?;
        match QoS::decode(cursor) {
            Ok(qos) => Ok(Subscription { topic_filter, qos }),
            Err(e) => {
                *cursor = saved;
                Err(e)
            },
        }
    }
}

/// What each request holds.
pub open spec fn subscription_views(items: Seq<Subscription>) -> Seq<SubscriptionView> {
    Seq::new(items.len(), |i: int| items[i]@)
}

/// The requests that a list of a SUBSCRIBE holds, first to last.
pub uninterp spec fn subscriptions_of(v: heapless::Vec<Subscription<'_>, TOPIC_CAPACITY>) -> Seq<
    Subscription<'_>,
>;

/// `heapless::Vec::new`: a list that holds nothing.
#[verifier::external_body]
fn subscriptions_new<'a>() -> (v: heapless::Vec<Subscription<'a>, TOPIC_CAPACITY>)
    ensures
        subscriptions_of(v) == Seq::<Subscription<'a>>::empty(),
{
    heapless::Vec::new()
}

/// `heapless::Vec::push`: puts the item at the end while fewer than the
/// capacity are held, and otherwise hands it back and changes nothing.
#[verifier::external_body]
fn subscriptions_push<'a>(
    v: &mut heapless::Vec<Subscription<'a>, TOPIC_CAPACITY>,
    item: Subscription<'a>,
) -> (r: Result<(), Subscription<'a>>)
    ensures
        subscriptions_of(*old(v)).len() < TOPIC_CAPACITY ==> r is Ok && subscriptions_of(*final(v))
            == subscriptions_of(*old(v)).push(item),
        subscriptions_of(*old(v)).len() >= TOPIC_CAPACITY ==> r is Err && subscriptions_of(
            *final(v),
        ) == subscriptions_of(*old(v)),
{
    v.push(item)
}

/// `heapless::Vec::as_slice`: the items held, first to last; they are never
/// more than the capacity.
#[verifier::external_body]
fn subscriptions_slice<'v, 'a>(v: &'v heapless::Vec<Subscription<'a>, TOPIC_CAPACITY>) -> (s: &'v [Subscription<'a>])
    ensures
        s@ == subscriptions_of(*v),
        s@.len() <= TOPIC_CAPACITY,
{
    v.as_slice()
}

/// The SUBSCRIBE packet.
pub struct Subscribe<'a> {
    pub packet_id: PacketId,
    pub topics: heapless::Vec<Subscription<'a>, TOPIC_CAPACITY>,
}

/// What a `Subscribe` holds.
pub struct SubscribeView {
    pub packet_id: PacketId,
    pub topics: Seq<SubscriptionView>,
}

impl SubscribeView {
    /// The body of the packet on the wire: the packet identifier, then
    /// the requests.
    pub open spec fn body(self) -> Seq<u8> {
        be_bytes(self.packet_id.0) + many_bytes(SubscriptionView::encoder(), self.topics)
    }

    pub open spec fn encodable(self) -> bool {
        forall|i: int| 0 <= i < self.topics.len() ==> (#[trigger] self.topics[i]).encodable()
    }

    /// What a decoder accepts: a non-zero packet identifier and at least
    /// one, at most `TOPIC_CAPACITY` legal requests.
    pub open spec fn legal(self) -> bool {
        &&& self.packet_id.wf()
        &&& 0 < self.topics.len() <= TOPIC_CAPACITY
        &&& forall|i: int| 0 <= i < self.topics.len() ==> (#[trigger] self.topics[i]).legal()
    }
}

/// What a SUBSCRIBE body means.
#[verifier::opaque]
pub open spec fn parse_subscribe(body: Seq<u8>) -> Result<SubscribeView, Error> {
    match PacketId::take(body) {
        Err(e) => Err(e),
        Ok((packet_id, s1)) => match take_many(
            SubscriptionView::taker(),
            s1,
            0,
            TOPIC_CAPACITY as nat,
        ) {
            Err(e) => Err(e),
            Ok(topics) => if topics.len() == 0 {
                Err(Error::MalformedPacket)
            } else {
                Ok(SubscribeView { packet_id, topics })
            },
        },
    }
}

impl<'a> Subscribe<'a> {
    pub open spec fn view(&self) -> SubscribeView {
        SubscribeView {
            packet_id: self.packet_id,
            topics: subscription_views(subscriptions_of(self.topics)),
        }
    }

    /// The request for one subscription.
    pub fn single(packet_id: PacketId, topic: Subscription<'a>) -> (r: Self)
        ensures
            r@ == (SubscribeView { packet_id, topics: seq![topic@] }),
    {
        let mut topics = subscriptions_new();
        let _ = subscriptions_push(&mut topics, topic);
        let r = Subscribe { packet_id, topics };
        assert(r@.topics =~= seq![topic@]);
        r
    }

    /// The low nibble of the fixed header of a SUBSCRIBE.
    pub fn flags(&self) -> (r: u8)
        ensures
            r == 2,
    {
        0b0010
    }

    /// Whether every topic filter is short enough for its prefix.
    pub fn is_encodable(&self) -> (r: bool)
        ensures
            r == self@.encodable(),
    {
        let items = subscriptions_slice(&self.topics);
        let mut i: usize = 0;
        while i < items.len()
            invariant
                i <= items@.len(),
                items@ == subscriptions_of(self.topics),
                forall|j: int| 0 <= j < i ==> (#[trigger] self@.topics[j]).encodable(),
            decreases items@.len() - i,
        {
            if items[i].topic_filter.len() > 65_535 {
                assert(!self@.topics[i as int].encodable());
                return false;
            }
            i += 1;
        }
        true
    }

    /// The exact number of bytes that the body takes on the wire, for a
    /// packet whose topic filters all fit their length prefix.
    pub fn required_space(&self) -> (r: usize)
        requires
            self@.encodable(),
        ensures
            r == self@.body().len(),
    {
        let items = subscriptions_slice(&self.topics);
        let mut required: usize = 2;
        let mut i: usize = 0;
        assert(self@.topics.take(0) =~= Seq::<SubscriptionView>::empty());
        while i < items.len()
            invariant
                i <= items@.len(),
                items@.len() <= TOPIC_CAPACITY,
                items@ == subscriptions_of(self.topics),
                self@.encodable(),
                required == 2 + many_bytes(
                    SubscriptionView::encoder(),
                    self@.topics.take(i as int),
                ).len(),
                required <= 2 + i * 65_538,
            decreases items@.len() - i,
        {
            proof {
                let views = self@.topics;
                assert(views[i as int].encodable());
                assert(views.take(i + 1) =~= views.take(i as int).push(views[i as int]));
                lemma_many_bytes_push(
                    SubscriptionView::encoder(),
                    views.take(i as int),
                    views[i as int],
                );
            }
            required += items[i].required_space();
            i += 1;
        }
        assert(self@.topics.take(i as int) =~= self@.topics);
        required
    }

    /// Writes the body. A filter too long for its prefix is refused with
    /// `MalformedPacket`, a body that does not fit with `UnexpectedEof`;
    /// either way nothing is written.
    pub fn encode_body(&self, cursor: &mut encode::Cursor) -> (r: Result<(), Error>)
        requires
            old(cursor).wf(),
        ensures
            self@.encodable() ==> write_outcome(*old(cursor), *final(cursor), r, self@.body()),
            !self@.encodable() ==> r == Err::<(), Error>(Error::MalformedPacket) && kept(
                *old(cursor),
                *final(cursor),
            ),
            final(final(cursor).backing())@ == final(old(cursor).backing())@,
    {
        if !self.is_encodable() {
            return Err(Error::MalformedPacket);
        }
        cursor.ensure_remaining(self.required_space())?;

        let ghost start = *cursor;
        let ghost views = self@.topics;
        let ghost mut done: Seq<u8> = be_bytes(self.packet_id.0);
        let _ = self.packet_id.encode(cursor);

        let items = subscriptions_slice(&self.topics);
        let mut i: usize = 0;
        assert(views.take(0) =~= Seq::<SubscriptionView>::empty());
        assert(done =~= be_bytes(self.packet_id.0) + many_bytes(
            SubscriptionView::encoder(),
            views.take(0),
        ));
        while i < items.len()
            invariant
                i <= items@.len(),
                items@ == subscriptions_of(self.topics),
                views == self@.topics,
                self@.encodable(),
                start.wf(),
                start.room() >= self@.body().len(),
                wrote(start, *cursor, done),
                done == be_bytes(self.packet_id.0) + many_bytes(
                    SubscriptionView::encoder(),
                    views.take(i as int),
                ),
                final(cursor.backing())@ == final(start.backing())@,
            decreases items@.len() - i,
        {
            let ghost mid = *cursor;
            proof {
                assert(views[i as int].encodable());
                assert(views.take(i + 1) =~= views.take(i as int).push(views[i as int]));
                lemma_many_bytes_push(
                    SubscriptionView::encoder(),
                    views.take(i as int),
                    views[i as int],
                );
                lemma_many_bytes_take_len(SubscriptionView::encoder(), views, i + 1);
            }
            let _ = items[i].encode(cursor);
            proof {
                lemma_wrote_twice(start, mid, *cursor, done, views[i as int].bytes());
                done = done + views[i as int].bytes();
                assert(done =~= be_bytes(self.packet_id.0) + many_bytes(
                    SubscriptionView::encoder(),
                    views.take(i + 1),
                ));
            }
            i += 1;
        }
        assert(views.take(i as int) =~= views);
        Ok(())
    }

    /// Reads as `decode` does, but leaves the cursor where an error stopped it.
    fn decode_inner(cursor: &mut decode::Cursor<'a>) -> (r: Result<Subscribe<'a>, Error>)
        requires
            old(cursor).wf(),
        ensures
            match parse_subscribe(old(cursor).rest()) {
                Ok(v) => r is Ok && r->Ok_0@ == v && final(cursor).rest().len() == 0,
                Err(e) => r is Err && r->Err_0 == e,
            },
            final(cursor).wf(),
            final(cursor).source() == old(cursor).source(),
    {
        proof {
            reveal(parse_subscribe);
        }
        let packet_id = PacketId::decode(cursor)?;
        let mut topics = subscriptions_new();
        let ghost origin = cursor.rest();
        let ghost taker = SubscriptionView::taker();
        let ghost cap = TOPIC_CAPACITY as nat;

        assert(Seq::<SubscriptionView>::empty() + Seq::<SubscriptionView>::empty() =~= Seq::<
            SubscriptionView,
        >::empty());
        while !cursor.is_empty()
            invariant
                cursor.wf(),
                cursor.source() == old(cursor).source(),
                taker == SubscriptionView::taker(),
                cap == TOPIC_CAPACITY as nat,
                PacketId::take(old(cursor).rest()) == Ok::<(PacketId, Seq<u8>), Error>(
                    (packet_id, origin),
                ),
                take_many(taker, origin, 0, cap) == with_front(
                    subscription_views(subscriptions_of(topics)),
                    take_many(taker, cursor.rest(), subscriptions_of(topics).len(), cap),
                ),
            decreases cursor.rest().len(),
        {
            proof {
                reveal(parse_subscribe);
            }
            let ghost held = subscriptions_of(topics);
            let ghost before = cursor.rest();
            let item = match Subscription::decode(cursor) {
                Ok(item) => item,
                Err(e) => {
                    return Err(e);
                },
            };
            match subscriptions_push(&mut topics, item) {
                Ok(()) => {},
                Err(_) => {
                    return Err(Error::VectorIsFull);
                },
            }
            proof {
                let now = subscriptions_of(topics);
                assert(now == held.push(item));
                let tail = take_many(taker, cursor.rest(), now.len(), cap);
                assert(take_many(taker, before, held.len(), cap) == with_front(
                    seq![item@],
                    tail,
                ));
                assert(subscription_views(now) =~= subscription_views(held) + seq![item@]);
                match tail {
                    Ok(more) => {
                        assert(subscription_views(held) + (seq![item@] + more)
                            =~= subscription_views(now) + more);
                    },
                    Err(_) => {},
                }
            }
        }
        let held = subscriptions_slice(&topics);
        proof {
            reveal(parse_subscribe);
            assert(subscription_views(held@) + Seq::<SubscriptionView>::empty()
                =~= subscription_views(held@));
        }
        if held.len() == 0 {
            return Err(Error::MalformedPacket);
        }
        Ok(Subscribe { packet_id, topics })
    }

    /// Reads a SUBSCRIBE body to its end. On an error the cursor stays
    /// where it was.
    pub fn decode(cursor: &mut decode::Cursor<'a>) -> (r: Result<Subscribe<'a>, Error>)
        requires
            old(cursor).wf(),
        ensures
            match parse_subscribe(old(cursor).rest()) {
                Ok(v) => {
                    &&& r is Ok
                    &&& r->Ok_0@ == v
                    &&& final(cursor).follows(*old(cursor), Seq::empty())
                },
                Err(e) => r is Err && r->Err_0 == e && *final(cursor) == *old(cursor),
            },
    {
        let saved = *cursor;
        match Subscribe::decode_inner(cursor) {
            Ok(read) => {
                assert(cursor.rest() =~= Seq::<u8>::empty());
                Ok(read)
            },
            Err(e) => {
                *cursor = saved;
                Err(e)
            },
        }
    }
}

/// Decoding the body of a legal SUBSCRIBE gives the packet back.
pub proof fn lemma_subscribe_round_trip(v: SubscribeView)
    requires
        v.legal(),
    ensures
        parse_subscribe(v.body()) == Ok::<SubscribeView, Error>(v),
{
    reveal(parse_subscribe);
    let enc = SubscriptionView::encoder();
    let take = SubscriptionView::taker();
    let tail = many_bytes(enc, v.topics);
    lemma_take_u16_of_be_bytes(v.packet_id.0, tail);
    assert forall|i: int, rest: Seq<u8>| 0 <= i < v.topics.len() implies #[trigger] take(
        enc(v.topics[i]) + rest,
    ) == Ok::<(SubscriptionView, Seq<u8>), Error>((v.topics[i], rest)) by {
        assert(v.topics[i].legal());
        v.topics[i].lemma_round_trip(rest);
    }
    assert forall|i: int| 0 <= i < v.topics.len() implies (#[trigger] enc(v.topics[i])).len()
        > 0 by {}
    lemma_take_many_of_many_bytes(take, enc, v.topics, 0, TOPIC_CAPACITY as nat);
}

/// The verdict of the broker on one subscription request.
#[derive(Clone, Copy, Debug, PartialEq, Eq, Structural)]
pub enum SubAckReturnCode {
    SuccessMaxQoS0,
    SuccessMaxQoS1,
    SuccessMaxQoS2,
    Failure,
}

impl SubAckReturnCode {
    /// The code as it stands on the wire.
    pub open spec fn code(self) -> u8 {
        match self {
            SubAckReturnCode::SuccessMaxQoS0 => 0x00,
            SubAckReturnCode::SuccessMaxQoS1 => 0x01,
            SubAckReturnCode::SuccessMaxQoS2 => 0x02,
            SubAckReturnCode::Failure => 0x80,
        }
    }

    /// The verdict that `value` stands for, if any.
    pub open spec fn from_code(value: u8) -> Option<SubAckReturnCode> {
        if value == 0x00 {
            Some(SubAckReturnCode::SuccessMaxQoS0)
        } else if value == 0x01 {
            Some(SubAckReturnCode::SuccessMaxQoS1)
        } else if value == 0x02 {
            Some(SubAckReturnCode::SuccessMaxQoS2)
        } else if value == 0x80 {
            Some(SubAckReturnCode::Failure)
        } else {
            None
        }
    }

    /// The code as one byte.
    pub open spec fn bytes(self) -> Seq<u8> {
        seq![self.code()]
    }

    /// A return code off the front of `s`.
    pub open spec fn take(s: Seq<u8>) -> Result<(SubAckReturnCode, Seq<u8>), Error> {
        match take_u8(s) {
            Err(e) => Err(e),
            Ok((value, rest)) => match SubAckReturnCode::from_code(value) {
                Some(code) => Ok((code, rest)),
                None => Err(Error::MalformedPacket),
            },
        }
    }

    /// `bytes`, as a function value.
    pub open spec fn encoder() -> spec_fn(SubAckReturnCode) -> Seq<u8> {
        |code: SubAckReturnCode| code.bytes()
    }

    /// `take`, as a function value.
    pub open spec fn taker() -> spec_fn(Seq<u8>) -> Result<(SubAckReturnCode, Seq<u8>), Error> {
        |s: Seq<u8>| SubAckReturnCode::take(s)
    }

    pub fn to_u8(self) -> (r: u8)
        ensures
            r == self.code(),
    {
        match self {
            SubAckReturnCode::SuccessMaxQoS0 => 0x00,
            SubAckReturnCode::SuccessMaxQoS1 => 0x01,
            SubAckReturnCode::SuccessMaxQoS2 => 0x02,
            SubAckReturnCode::Failure => 0x80,
        }
    }

    pub fn try_from(value: u8) -> (r: Result<SubAckReturnCode, Error>)
        ensures
            r == match SubAckReturnCode::from_code(value) {
                Some(code) => Ok::<SubAckReturnCode, Error>(code),
                None => Err(Error::MalformedPacket),
            },
    {
        match value {
            0x00 => Ok(SubAckReturnCode::SuccessMaxQoS0),
            0x01 => Ok(SubAckReturnCode::SuccessMaxQoS1),
            0x02 => Ok(SubAckReturnCode::SuccessMaxQoS2),
            0x80 => Ok(SubAckReturnCode::Failure),
            _ => Err(Error::MalformedPacket),
        }
    }
}

/// The return codes that a list of a SUBACK holds, first to last.
pub uninterp spec fn return_codes_of(v: heapless::Vec<SubAckReturnCode, TOPIC_CAPACITY>) -> Seq<
    SubAckReturnCode,
>;

/// `heapless::Vec::new`: a list that holds nothing.
#[verifier::external_body]
fn return_codes_new() -> (v: heapless::Vec<SubAckReturnCode, TOPIC_CAPACITY>)
    ensures
        return_codes_of(v) == Seq::<SubAckReturnCode>::empty(),
{
    heapless::Vec::new()
}

/// `heapless::Vec::push`: puts the item at the end while fewer than the
/// capacity are held, and otherwise hands it back and changes nothing.
#[verifier::external_body]
fn return_codes_push(
    v: &mut heapless::Vec<SubAckReturnCode, TOPIC_CAPACITY>,
    item: SubAckReturnCode,
) -> (r: Result<(), SubAckReturnCode>)
    ensures
        return_codes_of(*old(v)).len() < TOPIC_CAPACITY ==> r is Ok && return_codes_of(*final(v))
            == return_codes_of(*old(v)).push(item),
        return_codes_of(*old(v)).len() >= TOPIC_CAPACITY ==> r is Err && return_codes_of(*final(v))
            == return_codes_of(*old(v)),
{
    v.push(item)
}

/// `heapless::Vec::as_slice`: the items held, first to last; they are never
/// more than the capacity.
#[verifier::external_body]
fn return_codes_slice<'v>(v: &'v heapless::Vec<SubAckReturnCode, TOPIC_CAPACITY>) -> (s: &'v [SubAckReturnCode])
    ensures
        s@ == return_codes_of(*v),
        s@.len() <= TOPIC_CAPACITY,
{
    v.as_slice()
}

/// The SUBACK packet.
pub struct SubAck {
    pub packet_id: PacketId,
    pub return_codes: heapless::Vec<SubAckReturnCode, TOPIC_CAPACITY>,
}

/// What a `SubAck` holds.
pub struct SubAckView {
    pub packet_id: PacketId,
    pub return_codes: Seq<SubAckReturnCode>,
}

impl SubAckView {
    /// The body of the packet on the wire: the packet identifier, then one
    /// byte per return code.
    pub open spec fn body(self) -> Seq<u8> {
        be_bytes(self.packet_id.0) + many_bytes(SubAckReturnCode::encoder(), self.return_codes)
    }

    /// What a decoder accepts: a non-zero packet identifier and at least
    /// one, at most `TOPIC_CAPACITY` return codes.
    pub open spec fn legal(self) -> bool {
        &&& self.packet_id.wf()
        &&& 0 < self.return_codes.len() <= TOPIC_CAPACITY
    }

    /// The body is two bytes and one more for each return code.
    pub proof fn lemma_body_len(self)
        ensures
            self.body().len() == 2 + self.return_codes.len(),
    {
        lemma_codes_len(self.return_codes);
    }
}

proof fn lemma_codes_len(codes: Seq<SubAckReturnCode>)
    ensures
        many_bytes(SubAckReturnCode::encoder(), codes).len() == codes.len(),
    decreases codes.len(),
{
    if codes.len() > 0 {
        lemma_codes_len(codes.skip(1));
    }
}

/// What a SUBACK body means.
#[verifier::opaque]
pub open spec fn parse_suback(body: Seq<u8>) -> Result<SubAckView, Error> {
    match PacketId::take(body) {
        Err(e) => Err(e),
        Ok((packet_id, s1)) => match take_many(
            SubAckReturnCode::taker(),
            s1,
            0,
            TOPIC_CAPACITY as nat,
        ) {
            Err(e) => Err(e),
            Ok(return_codes) => if return_codes.len() == 0 {
                Err(Error::MalformedPacket)
            } else {
                Ok(SubAckView { packet_id, return_codes })
            },
        },
    }
}

impl SubAck {
    pub open spec fn view(&self) -> SubAckView {
        SubAckView { packet_id: self.packet_id, return_codes: return_codes_of(self.return_codes) }
    }

    /// The acknowledgement of one subscription.
    pub fn single(packet_id: PacketId, code: SubAckReturnCode) -> (r: Self)
        ensures
            r@ == (SubAckView { packet_id, return_codes: seq![code] }),
    {
        let mut return_codes = return_codes_new();
        let _ = return_codes_push(&mut return_codes, code);
        let r = SubAck { packet_id, return_codes };
        assert(r@.return_codes =~= seq![code]);
        r
    }

    /// The return codes, first to last.
    pub fn codes(&self) -> (r: &[SubAckReturnCode])
        ensures
            r@ == self@.return_codes,
    {
        return_codes_slice(&self.return_codes)
    }

    /// The exact number of bytes that the body takes on the wire.
    pub fn required_space(&self) -> (r: usize)
        ensures
            r == self@.body().len(),
    {
        proof {
            self@.lemma_body_len();
        }
        2 + return_codes_slice(&self.return_codes).len()
    }

    /// Writes the body, or nothing if it does not fit.
    pub fn encode_body(&self, cursor: &mut encode::Cursor) -> (r: Result<(), Error>)
        requires
            old(cursor).wf(),
        ensures
            write_outcome(*old(cursor), *final(cursor), r, self@.body()),
            final(final(cursor).backing())@ == final(old(cursor).backing())@,
    {
        cursor.ensure_remaining(self.required_space())?;

        let ghost start = *cursor;
        let ghost codes = self@.return_codes;
        let ghost mut done: Seq<u8> = be_bytes(self.packet_id.0);
        let _ = self.packet_id.encode(cursor);

        let items = return_codes_slice(&self.return_codes);
        let mut i: usize = 0;
        proof {
            assert(codes.take(0) =~= Seq::<SubAckReturnCode>::empty());
            assert(done =~= be_bytes(self.packet_id.0) + many_bytes(
                SubAckReturnCode::encoder(),
                codes.take(0),
            ));
            self@.lemma_body_len();
        }
        while i < items.len()
            invariant
                i <= items@.len(),
                items@ == codes,
                start.wf(),
                start.room() >= 2 + codes.len(),
                wrote(start, *cursor, done),
                done.len() == 2 + i,
                done == be_bytes(self.packet_id.0) + many_bytes(
                    SubAckReturnCode::encoder(),
                    codes.take(i as int),
                ),
                final(cursor.backing())@ == final(start.backing())@,
            decreases items@.len() - i,
        {
            let ghost mid = *cursor;
            proof {
                assert(codes.take(i + 1) =~= codes.take(i as int).push(codes[i as int]));
                lemma_many_bytes_push(
                    SubAckReturnCode::encoder(),
                    codes.take(i as int),
                    codes[i as int],
                );
            }
            let _ = cursor.write_u8(items[i].to_u8());
            proof {
                lemma_wrote_twice(start, mid, *cursor, done, codes[i as int].bytes());
                done = done + codes[i as int].bytes();
                assert(done =~= be_bytes(self.packet_id.0) + many_bytes(
                    SubAckReturnCode::encoder(),
                    codes.take(i + 1),
                ));
            }
            i += 1;
        }
        assert(codes.take(i as int) =~= codes);
        Ok(())
    }

    /// Reads as `decode` does, but leaves the cursor where an error stopped it.
    fn decode_inner(cursor: &mut decode::Cursor) -> (r: Result<SubAck, Error>)
        requires
            old(cursor).wf(),
        ensures
            match parse_suback(old(cursor).rest()) {
                Ok(v) => r is Ok && r->Ok_0@ == v && final(cursor).rest().len() == 0,
                Err(e) => r is Err && r->Err_0 == e,
            },
            final(cursor).wf(),
            final(cursor).source() == old(cursor).source(),
    {
        proof {
            reveal(parse_suback);
        }
        let packet_id = PacketId::decode(cursor)?;
        let mut return_codes = return_codes_new();
        let ghost origin = cursor.rest();
        let ghost taker = SubAckReturnCode::taker();
        let ghost cap = TOPIC_CAPACITY as nat;

        assert(Seq::<SubAckReturnCode>::empty() + Seq::<SubAckReturnCode>::empty() =~= Seq::<
            SubAckReturnCode,
        >::empty());
        while !cursor.is_empty()
            invariant
                cursor.wf(),
                cursor.source() == old(cursor).source(),
                taker == SubAckReturnCode::taker(),
                cap == TOPIC_CAPACITY as nat,
                PacketId::take(old(cursor).rest()) == Ok::<(PacketId, Seq<u8>), Error>(
                    (packet_id, origin),
                ),
                take_many(taker, origin, 0, cap) == with_front(
                    return_codes_of(return_codes),
                    take_many(taker, cursor.rest(), return_codes_of(return_codes).len(), cap),
                ),
            decreases cursor.rest().len(),
        {
            proof {
                reveal(parse_suback);
            }
            let ghost held = return_codes_of(return_codes);
            let ghost before = cursor.rest();
            let byte = match cursor.read_u8() {
                Ok(byte) => byte,
                Err(e) => {
                    return Err(e);
                },
            };
            let code = match SubAckReturnCode::try_from(byte) {
                Ok(code) => code,
                Err(e) => {
                    return Err(e);
                },
            };
            match return_codes_push(&mut return_codes, code) {
                Ok(()) => {},
                Err(_) => {
                    return Err(Error::VectorIsFull);
                },
            }
            proof {
                let now = return_codes_of(return_codes);
                let tail = take_many(taker, cursor.rest(), now.len(), cap);
                assert(take_many(taker, before, held.len(), cap) == with_front(seq![code], tail));
                match tail {
                    Ok(more) => {
                        assert(held + (seq![code] + more) =~= now + more);
                    },
                    Err(_) => {},
                }
            }
        }
        let held = return_codes_slice(&return_codes);
        proof {
            reveal(parse_suback);
            assert(held@ + Seq::<SubAckReturnCode>::empty() =~= held@);
        }
        if held.len() == 0 {
            return Err(Error::MalformedPacket);
        }
        Ok(SubAck { packet_id, return_codes })
    }

    /// Reads a SUBACK body to its end. On an error the cursor stays where
    /// it was.
    pub fn decode(cursor: &mut decode::Cursor) -> (r: Result<SubAck, Error>)
        requires
            old(cursor).wf(),
        ensures
            match parse_suback(old(cursor).rest()) {
                Ok(v) => {
                    &&& r is Ok
                    &&& r->Ok_0@ == v
                    &&& final(cursor).follows(*old(cursor), Seq::empty())
                },
                Err(e) => r is Err && r->Err_0 == e && *final(cursor) == *old(cursor),
            },
    {
        let saved = *cursor;
        match SubAck::decode_inner(cursor) {
            Ok(read) => {
                assert(cursor.rest() =~= Seq::<u8>::empty());
                Ok(read)
            },
            Err(e) => {
                *cursor = saved;
                Err(e)
            },
        }
    }
}

/// Decoding the body of a legal SUBACK gives the packet back.
pub proof fn lemma_suback_round_trip(v: SubAckView)
    requires
        v.legal(),
    ensures
        parse_suback(v.body()) == Ok::<SubAckView, Error>(v),
{
    reveal(parse_suback);
    let enc = SubAckReturnCode::encoder();
    let take = SubAckReturnCode::taker();
    let tail = many_bytes(enc, v.return_codes);
    lemma_take_u16_of_be_bytes(v.packet_id.0, tail);
    assert forall|i: int, rest: Seq<u8>| 0 <= i < v.return_codes.len() implies #[trigger] take(
        enc(v.return_codes[i]) + rest,
    ) == Ok::<(SubAckReturnCode, Seq<u8>), Error>((v.return_codes[i], rest)) by {
        let s = enc(v.return_codes[i]) + rest;
        assert(s[0] == v.return_codes[i].code());
        assert(s.skip(1) =~= rest);
    }
    assert forall|i: int| 0 <= i < v.return_codes.len() implies (#[trigger] enc(
        v.return_codes[i],
    )).len() > 0 by {}
    lemma_take_many_of_many_bytes(take, enc, v.return_codes, 0, TOPIC_CAPACITY as nat);
}

} // verus!
