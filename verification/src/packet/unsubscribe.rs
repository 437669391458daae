//! UNSUBSCRIBE.
use vstd::prelude::*;
use vstd::utf8::valid_utf8;

use crate::buffer;
use crate::packet::decode::{
    self, lemma_take_many_of_many_bytes, lemma_take_u16_of_be_bytes, lemma_take_utf8_of_prefixed,
    take_many, take_utf8, with_front,
};
use crate::packet::encode::{
    self, be_bytes, kept, lemma_many_bytes_push, lemma_many_bytes_take_len, lemma_wrote_twice,
    many_bytes, prefixed, write_outcome, wrote,
};
use crate::packet::subscribe::TOPIC_CAPACITY;
use crate::packet::PacketId;
use crate::Error;

verus! {

/// A topic filter on the wire, as a function value.
pub open spec fn filter_encoder() -> spec_fn(Seq<u8>) -> Seq<u8> {
    |filter: Seq<u8>| prefixed(filter)
}

/// Reading a topic filter, as a function value.
pub open spec fn filter_taker() -> spec_fn(Seq<u8>) -> Result<(Seq<u8>, Seq<u8>), Error> {
    |s: Seq<u8>| take_utf8(s)
}

/// The bytes of each filter.
pub open spec fn filter_views(items: Seq<buffer::String>) -> Seq<Seq<u8>> {
    Seq::new(items.len(), |i: int| items[i]@)
}

/// The topic filters that a list of an UNSUBSCRIBE holds, first to last.
pub uninterp spec fn filters_of(v: heapless::Vec<buffer::String<'_>, TOPIC_CAPACITY>) -> Seq<
    buffer::String<'_>,
>;

/// `heapless::Vec::new`: a list that holds nothing.
#[verifier::external_body]
fn filters_new<'a>() -> (v: heapless::Vec<buffer::String<'a>, TOPIC_CAPACITY>)
    ensures
        filters_of(v) == Seq::<buffer::String<'a>>::empty(),
{
    heapless::Vec::new()
}

/// `heapless::Vec::push`: puts the item at the end while fewer than the
/// capacity are held, and otherwise hands it back and changes nothing.
#[verifier::external_body]
fn filters_push<'a>(
    v: &mut heapless::Vec<buffer::String<'a>, TOPIC_CAPACITY>,
    item: buffer::String<'a>,
) -> (r: Result<(), buffer::String<'a>>)
    ensures
        filters_of(*old(v)).len() < TOPIC_CAPACITY ==> r is Ok && filters_of(*final(v))
            == filters_of(*old(v)).push(item),
        filters_of(*old(v)).len() >= TOPIC_CAPACITY ==> r is Err && filters_of(*final(v))
            == filters_of(*old(v)),
{
    v.push(item)
}

/// `heapless::Vec::as_slice`: the items held, first to last; they are never
/// more than the capacity.
#[verifier::external_body]
fn filters_slice<'v, 'a>(v: &'v heapless::Vec<buffer::String<'a>, TOPIC_CAPACITY>) -> (s: &'v [buffer::String<'a>])
    ensures
        s@ == filters_of(*v),
        s@.len() <= TOPIC_CAPACITY,
{
    v.as_slice()
}

/// The UNSUBSCRIBE packet.
pub struct Unsubscribe<'a> {
    pub packet_id: PacketId,
    pub topics: heapless::Vec<buffer::String<'a>, TOPIC_CAPACITY>,
}

/// What an `Unsubscribe` holds.
pub struct UnsubscribeView {
    pub packet_id: PacketId,
    pub topics: Seq<Seq<u8>>,
}

impl UnsubscribeView {
    /// The body of the packet on the wire: the packet identifier, then
    /// the topic filters, each length-prefixed.
    pub open spec fn body(self) -> Seq<u8> {
        be_bytes(self.packet_id.0) + many_bytes(filter_encoder(), self.topics)
    }

    pub open spec fn encodable(self) -> bool {
        forall|i: int| 0 <= i < self.topics.len() ==> (#[trigger] self.topics[i]).len() <= u16::MAX
    }

    /// What a decoder accepts: a non-zero packet identifier and at least
    /// one, at most `TOPIC_CAPACITY` filters, each UTF-8 and short enough
    /// for its prefix.
    pub open spec fn legal(self) -> bool {
        &&& self.packet_id.wf()
        &&& 0 < self.topics.len() <= TOPIC_CAPACITY
        &&& forall|i: int|
            0 <= i < self.topics.len() ==> (#[trigger] self.topics[i]).len() <= u16::MAX
                && valid_utf8(self.topics[i])
    }
}

/// What an UNSUBSCRIBE body means.
#[verifier::opaque]
pub open spec fn parse_unsubscribe(body: Seq<u8>) -> Result<UnsubscribeView, Error> {
    match PacketId::take(body) {
        Err(e) => Err(e),
        Ok((packet_id, s1)) => match take_many(filter_taker(), s1, 0, TOPIC_CAPACITY as nat) {
            Err(e) => Err(e),
            Ok(topics) => if topics.len() == 0 {
                Err(Error::MalformedPacket)
            } else {
                Ok(UnsubscribeView { packet_id, topics })
            },
        },
    }
}

impl<'a> Unsubscribe<'a> {
    pub open spec fn view(&self) -> UnsubscribeView {
        UnsubscribeView {
            packet_id: self.packet_id,
            topics: filter_views(filters_of(self.topics)),
        }
    }

    /// The request to end one subscription.
    pub fn single(packet_id: PacketId, topic: buffer::String<'a>) -> (r: Self)
        ensures
            r@ == (UnsubscribeView { packet_id, topics: seq![topic@] }),
    {
        let mut topics = filters_new();
        let _ = filters_push(&mut topics, topic);
        let r = Unsubscribe { packet_id, topics };
        assert(r@.topics =~= seq![topic@]);
        r
    }

    /// The low nibble of the fixed header of an UNSUBSCRIBE.
    pub fn flags(&self) -> (r: u8)
        ensures
            r == 2,
    {
        0b0010
    }

    /// Whether every topic filter is short enough for its prefix.
    pub fn is_encodable(&self) -> (r: bool)
        ensures
            r == self@.encodable(),
    {
        let items = filters_slice(&self.topics);
        let mut i: usize = 0;
        while i < items.len()
            invariant
                i <= items@.len(),
                items@ == filters_of(self.topics),
                forall|j: int| 0 <= j < i ==> (#[trigger] self@.topics[j]).len() <= u16::MAX,
            decreases items@.len() - i,
        {
            if items[i].len() > 65_535 {
                assert(self@.topics[i as int].len() > u16::MAX);
                return false;
            }
            i += 1;
        }
        true
    }

    /// The exact number of bytes that the body takes on the wire, for a
    /// packet whose topic filters all fit their length prefix.
    pub fn required_space(&self) -> (r: usize)
        requires
            self@.encodable(),
        ensures
            r == self@.body().len(),
    {
        let items = filters_slice(&self.topics);
        let mut required: usize = 2;
        let mut i: usize = 0;
        assert(self@.topics.take(0) =~= Seq::<Seq<u8>>::empty());
        while i < items.len()
            invariant
                i <= items@.len(),
                items@.len() <= TOPIC_CAPACITY,
                items@ == filters_of(self.topics),
                self@.encodable(),
                required == 2 + many_bytes(filter_encoder(), self@.topics.take(i as int)).len(),
                required <= 2 + i * 65_537,
            decreases items@.len() - i,
        {
            proof {
                let views = self@.topics;
                assert(views[i as int].len() <= u16::MAX);
                assert(views.take(i + 1) =~= views.take(i as int).push(views[i as int]));
                lemma_many_bytes_push(filter_encoder(), views.take(i as int), views[i as int]);
            }
            required += 2 + items[i].len();
            i += 1;
        }
        assert(self@.topics.take(i as int) =~= self@.topics);
        required
    }

    /// Writes the body. A filter too long for its prefix is refused with
    /// `MalformedPacket`, a body that does not fit with `UnexpectedEof`;
    /// either way nothing is written.
    pub fn encode_body(&self, cursor: &mut encode::Cursor) -> (r: Result<(), Error>)
        requires
            old(cursor).wf(),
        ensures
            self@.encodable() ==> write_outcome(*old(cursor), *final(cursor), r, self@.body()),
            !self@.encodable() ==> r == Err::<(), Error>(Error::MalformedPacket) && kept(
                *old(cursor),
                *final(cursor),
            ),
            final(final(cursor).backing())@ == final(old(cursor).backing())@,
    {
        if !self.is_encodable() {
            return Err(Error::MalformedPacket);
        }
        cursor.ensure_remaining(self.required_space())?;

        let ghost start = *cursor;
        let ghost views = self@.topics;
        let ghost mut done: Seq<u8> = be_bytes(self.packet_id.0);
        let _ = self.packet_id.encode(cursor);

        let items = filters_slice(&self.topics);
        let mut i: usize = 0;
        assert(views.take(0) =~= Seq::<Seq<u8>>::empty());
        assert(done =~= be_bytes(self.packet_id.0) + many_bytes(filter_encoder(), views.take(0)));
        while i < items.len()
            invariant
                i <= items@.len(),
                items@ == filters_of(self.topics),
                views == self@.topics,
                self@.encodable(),
                start.wf(),
                start.room() >= self@.body().len(),
                wrote(start, *cursor, done),
                done == be_bytes(self.packet_id.0) + many_bytes(
                    filter_encoder(),
                    views.take(i as int),
                ),
                final(cursor.backing())@ == final(start.backing())@,
            decreases items@.len() - i,
        {
            let ghost mid = *cursor;
            proof {
                assert(views[i as int].len() <= u16::MAX);
                assert(views.take(i + 1) =~= views.take(i as int).push(views[i as int]));
                lemma_many_bytes_push(filter_encoder(), views.take(i as int), views[i as int]);
                lemma_many_bytes_take_len(filter_encoder(), views, i + 1);
            }
            let _ = cursor.write_binary_chunk(items[i].as_bytes());
            proof {
                lemma_wrote_twice(start, mid, *cursor, done, prefixed(views[i as int]));
                done = done + prefixed(views[i as int]);
                assert(done =~= be_bytes(self.packet_id.0) + many_bytes(
                    filter_encoder(),
                    views.take(i + 1),
                ));
            }
            i += 1;
        }
        assert(views.take(i as int) =~= views);
        Ok(())
    }

    /// Reads as `decode` does, but leaves the cursor where an error stopped it.
    fn decode_inner(cursor: &mut decode::Cursor<'a>) -> (r: Result<Unsubscribe<'a>, Error>)
        requires
            old(cursor).wf(),
        ensures
            match parse_unsubscribe(old(cursor).rest()) {
                Ok(v) => r is Ok && r->Ok_0@ == v && final(cursor).rest().len() == 0,
                Err(e) => r is Err && r->Err_0 == e,
            },
            final(cursor).wf(),
            final(cursor).source() == old(cursor).source(),
    {
        proof {
            reveal(parse_unsubscribe);
        }
        let packet_id = PacketId::decode(cursor)?;
        let mut topics = filters_new();
        let ghost origin = cursor.rest();
        let ghost taker = filter_taker();
        let ghost cap = TOPIC_CAPACITY as nat;

        assert(Seq::<Seq<u8>>::empty() + Seq::<Seq<u8>>::empty() =~= Seq::<Seq<u8>>::empty());
        while !cursor.is_empty()
            invariant
                cursor.wf(),
                cursor.source() == old(cursor).source(),
                taker == filter_taker(),
                cap == TOPIC_CAPACITY as nat,
                PacketId::take(old(cursor).rest()) == Ok::<(PacketId, Seq<u8>), Error>(
                    (packet_id, origin),
                ),
                take_many(taker, origin, 0, cap) == with_front(
                    filter_views(filters_of(topics)),
                    take_many(taker, cursor.rest(), filters_of(topics).len(), cap),
                ),
            decreases cursor.rest().len(),
        {
            proof {
                reveal(parse_unsubscribe);
            }
            let ghost held = filters_of(topics);
            let ghost before = cursor.rest();
            let item = match cursor.read_utf8() {
                Ok(item) => item,
                Err(e) => {
                    return Err(e);
                },
            };
            match filters_push(&mut topics, item) {
                Ok(()) => {},
                Err(_) => {
                    return Err(Error::VectorIsFull);
                },
            }
            proof {
                let now = filters_of(topics);
                assert(now == held.push(item));
                assert(cursor.rest().len() < before.len());
                let tail = take_many(taker, cursor.rest(), now.len(), cap);
                assert(take_many(taker, before, held.len(), cap) == with_front(seq![item@], tail));
                assert(filter_views(now) =~= filter_views(held) + seq![item@]);
                match tail {
                    Ok(more) => {
                        assert(filter_views(held) + (seq![item@] + more) =~= filter_views(now)
                            + more);
                    },
                    Err(_) => {},
                }
            }
        }
        let held = filters_slice(&topics);
        proof {
            reveal(parse_unsubscribe);
            assert(filter_views(held@) + Seq::<Seq<u8>>::empty() =~= filter_views(held@));
        }
        if held.len() == 0 {
            return Err(Error::MalformedPacket);
        }
        Ok(Unsubscribe { packet_id, topics })
    }

    /// Reads an UNSUBSCRIBE body to its end. On an error the cursor stays
    /// where it was.
    pub fn decode(cursor: &mut decode::Cursor<'a>) -> (r: Result<Unsubscribe<'a>, Error>)
        requires
            old(cursor).wf(),
        ensures
            match parse_unsubscribe(old(cursor).rest()) {
                Ok(v) => {
                    &&& r is Ok
                    &&& r->Ok_0@ == v
                    &&& final(cursor).follows(*old(cursor), Seq::empty())
                },
                Err(e) => r is Err && r->Err_0 == e && *final(cursor) == *old(cursor),
            },
    {
        let saved = *cursor;
        match Unsubscribe::decode_inner(cursor) {
            Ok(read) => {
                assert(cursor.rest() =~= Seq::<u8>::empty());
                Ok(read)
            },
            Err(e) => {
                *cursor = saved;
                Err(e)
            },
        }
    }
}

/// A topic filter that is UTF-8 and short enough for its prefix reads
/// back from its bytes, which are two at least.
proof fn lemma_filter_reads_back(filter: Seq<u8>, rest: Seq<u8>)
    requires
        filter.len() <= u16::MAX,
        valid_utf8(filter),
    ensures
        filter_taker()(filter_encoder()(filter) + rest) == Ok::<(Seq<u8>, Seq<u8>), Error>(
            (filter, rest),
        ),
        filter_encoder()(filter).len() > 0,
{
    lemma_take_utf8_of_prefixed(filter, rest);
}

/// Decoding the body of a legal UNSUBSCRIBE gives the packet back.
pub proof fn lemma_unsubscribe_round_trip(v: UnsubscribeView)
    requires
        v.legal(),
    ensures
        parse_unsubscribe(v.body()) == Ok::<UnsubscribeView, Error>(v),
{
    let enc = filter_encoder();
    let take = filter_taker();
    let tail = many_bytes(enc, v.topics);
    assert forall|i: int, rest: Seq<u8>| 0 <= i < v.topics.len() implies #[trigger] take(
        enc(v.topics[i]) + rest,
    ) == Ok::<(Seq<u8>, Seq<u8>), Error>((v.topics[i], rest)) by {
        assert(v.topics[i].len() <= u16::MAX && valid_utf8(v.topics[i]));
        lemma_filter_reads_back(v.topics[i], rest);
    }
    assert forall|i: int| 0 <= i < v.topics.len() implies (#[trigger] enc(v.topics[i])).len()
        > 0 by {
        assert(v.topics[i].len() <= u16::MAX && valid_utf8(v.topics[i]));
        lemma_filter_reads_back(v.topics[i], Seq::empty());
    }
    assert(take_many(take, tail, 0, TOPIC_CAPACITY as nat) == Ok::<Seq<Seq<u8>>, Error>(v.topics))
        by {
        lemma_take_many_of_many_bytes(take, enc, v.topics, 0, TOPIC_CAPACITY as nat);
    }
    assert(PacketId::take(v.body()) == Ok::<(PacketId, Seq<u8>), Error>((v.packet_id, tail))) by {
        lemma_take_u16_of_be_bytes(v.packet_id.0, tail);
    }
    reveal(parse_unsubscribe);
}

} // verus!
