//! The session: connection phase, subscriptions and QoS flows.
//!
//! Every operation is one step of a state machine. It takes what the
//! application asks for, or what the broker sent, and gives back what is
//! to be done: a packet to send, an event for the application, both, or
//! nothing. An operation that fails leaves the session as it was.
use vstd::prelude::*;
use vstd::string::StringSliceAdditionalSpecFns;

use crate::buffer;
use crate::incoming::{self, PubInFlightIn, PubInState, N_PUB_IN};
use crate::packet::connect::{ConnAck, Connect, ConnectReturnCode, ConnectView, Options};
use crate::packet::publish::{Msg, Publish, PublishView};
use crate::packet::subscribe::{self, SubAck, SubAckReturnCode, Subscribe, SubscribeView, SubscriptionView};
use crate::packet::unsubscribe::{Unsubscribe, UnsubscribeView};
use crate::packet::{Packet, PacketId, PacketView, QoS};
use crate::packet_id_pool::{PacketIdPool, PubInFlightState};
use crate::Error;

verus! {

/// How many outgoing publishes can wait for their acknowledgement.
pub const N_PUB_OUT: usize = 16;

/// How many subscriptions the session can keep.
pub const N_SUB: usize = 16;

/// The longest topic of a QoS 2 publish that can be held until its PUBREL.
pub const HELD_TOPIC_CAPACITY: usize = 128;

/// The longest payload of a QoS 2 publish that can be held until its PUBREL.
pub const HELD_PAYLOAD_CAPACITY: usize = 512;

/// The phase of the connection.
#[derive(Clone, Copy, Debug, PartialEq, Eq, Structural)]
pub enum State {
    Disconnected,
    Connecting,
    Connected,
}

/// Where a subscription stands.
#[derive(Clone, Copy, Debug, PartialEq, Eq, Structural)]
pub enum SubState {
    New,
    Pending(PacketId),
    Active,
    UnsubPending(PacketId),
    Failed,
}

/// A subscription as the session keeps it.
#[derive(Clone, Copy, Debug)]
pub struct Subscription<'s> {
    pub topic: &'s str,
    pub qos: QoS,
    pub state: SubState,
}

impl<'s> Subscription<'s> {
    /// The bytes of the topic filter.
    pub open spec fn topic_bytes(&self) -> Seq<u8> {
        self.topic.spec_bytes()
    }

    /// A subscription that has not been asked for yet. Without a QoS it
    /// asks for at most once.
    pub fn new(topic: &'s str, qos: Option<QoS>) -> (r: Self)
        ensures
            r.topic == topic,
            r.qos == match qos {
                Some(qos) => qos,
                None => QoS::AtMostOnce,
            },
            r.state == SubState::New,
    {
        Subscription {
            topic,
            qos: match qos {
                Some(qos) => qos,
                None => QoS::AtMostOnce,
            },
            state: SubState::New,
        }
    }
}

/// A QoS 2 publish, copied out of the receive buffer so that it can be
/// handed to the application when its PUBREL comes.
#[derive(Clone, Copy, Debug)]
pub struct HeldMessage {
    topic: [u8; HELD_TOPIC_CAPACITY],
    topic_len: usize,
    payload: [u8; HELD_PAYLOAD_CAPACITY],
    payload_len: usize,
    retain: bool,
}

/// Copies `from` to the front of `into`.
fn copy_into<const N: usize>(into: &mut [u8; N], from: &[u8])
    requires
        from@.len() <= N,
    ensures
        final(into)@.take(from@.len() as int) == from@,
{
    let mut i: usize = 0;
    while i < from.len()
        invariant
            i <= from@.len(),
            from@.len() <= N,
            forall|j: int| 0 <= j < i ==> into@[j] == from@[j],
        decreases from@.len() - i,
    {
        into[i] = from[i];
        i += 1;
    }
    assert(into@.take(from@.len() as int) =~= from@);
}

impl HeldMessage {
    pub closed spec fn wf(&self) -> bool {
        self.topic_len <= HELD_TOPIC_CAPACITY && self.payload_len <= HELD_PAYLOAD_CAPACITY
    }

    /// The bytes of the topic.
    pub closed spec fn topic(&self) -> Seq<u8> {
        self.topic@.take(self.topic_len as int)
    }

    /// The payload.
    pub closed spec fn payload(&self) -> Seq<u8> {
        self.payload@.take(self.payload_len as int)
    }

    /// The RETAIN flag of the publish.
    pub closed spec fn retain(&self) -> bool {
        self.retain
    }

    pub open spec fn view(&self) -> MessageView {
        MessageView {
            topic: self.topic(),
            payload: self.payload(),
            qos: QoS::ExactlyOnce,
            retain: self.retain(),
        }
    }

    /// Whether a publish with this topic and payload can be held.
    pub open spec fn fits(topic: Seq<u8>, payload: Seq<u8>) -> bool {
        topic.len() <= HELD_TOPIC_CAPACITY && payload.len() <= HELD_PAYLOAD_CAPACITY
    }

    /// A copy of topic, payload and RETAIN flag of `publish`, if they fit.
    pub fn copy_of(publish: &Publish) -> (r: Option<HeldMessage>)
        ensures
            r is Some <==> HeldMessage::fits(publish@.topic, publish@.payload),
            r matches Some(held) ==> {
                &&& held.wf()
                &&& held.topic() == publish@.topic
                &&& held.payload() == publish@.payload
                &&& held.retain() == publish@.flags.retain
            },
    {
        let topic = publish.topic.as_bytes();
        let payload = publish.payload.as_bytes();
        if topic.len() > HELD_TOPIC_CAPACITY || payload.len() > HELD_PAYLOAD_CAPACITY {
            return None;
        }
        let mut held = HeldMessage {
            topic: [0u8;HELD_TOPIC_CAPACITY],
            topic_len: topic.len(),
            payload: [0u8;HELD_PAYLOAD_CAPACITY],
            payload_len: payload.len(),
            retain: publish.flags.retain,
        };
        copy_into(&mut held.topic, topic);
        copy_into(&mut held.payload, payload);
        Some(held)
    }

    pub fn topic_bytes(&self) -> (r: &[u8])
        requires
            self.wf(),
        ensures
            r@ == self.topic(),
    {
        vstd::slice::slice_subrange(self.topic.as_slice(), 0, self.topic_len)
    }

    pub fn payload_bytes(&self) -> (r: &[u8])
        requires
            self.wf(),
        ensures
            r@ == self.payload(),
    {
        vstd::slice::slice_subrange(self.payload.as_slice(), 0, self.payload_len)
    }

    pub fn is_retained(&self) -> (r: bool)
        ensures
            r == self.retain(),
    {
        self.retain
    }
}

/// What a received message says.
pub struct MessageView {
    pub topic: Seq<u8>,
    pub payload: Seq<u8>,
    pub qos: QoS,
    pub retain: bool,
}

/// A message that was received: still in the receive buffer, or held by
/// the session since its arrival.
#[derive(Clone, Copy, Debug)]
pub enum Message<'a> {
    Borrowed(Publish<'a>),
    Held(HeldMessage),
}

impl<'a> Message<'a> {
    pub open spec fn view(&self) -> MessageView {
        match *self {
            Message::Borrowed(publish) => MessageView {
                topic: publish@.topic,
                payload: publish@.payload,
                qos: publish@.flags.qos,
                retain: publish@.flags.retain,
            },
            Message::Held(held) => held@,
        }
    }

    pub open spec fn wf(&self) -> bool {
        match *self {
            Message::Borrowed(_) => true,
            Message::Held(held) => held.wf(),
        }
    }

    pub fn topic(&self) -> (r: &[u8])
        requires
            self.wf(),
        ensures
            r@ == self@.topic,
    {
        match self {
            Message::Borrowed(publish) => publish.topic.as_bytes(),
            Message::Held(held) => held.topic_bytes(),
        }
    }

    pub fn payload(&self) -> (r: &[u8])
        requires
            self.wf(),
        ensures
            r@ == self@.payload,
    {
        match self {
            Message::Borrowed(publish) => publish.payload.as_bytes(),
            Message::Held(held) => held.payload_bytes(),
        }
    }

    pub fn qos(&self) -> (r: QoS)
        ensures
            r == self@.qos,
    {
        match self {
            Message::Borrowed(publish) => publish.flags.qos,
            Message::Held(_) => QoS::ExactlyOnce,
        }
    }

    pub fn retain(&self) -> (r: bool)
        ensures
            r == self@.retain,
    {
        match self {
            Message::Borrowed(publish) => publish.flags.retain,
            Message::Held(held) => held.is_retained(),
        }
    }
}

/// What the session tells the application.
#[derive(Clone, Copy, Debug)]
pub enum Event<'a> {
    Connected,
    Received(Message<'a>),
    Subscribed,
    SubscribeFailed,
    Unsubscribed,
    Published,
    Disconnected,
}

/// What an `Event` says.
pub enum EventView {
    Connected,
    Received(MessageView),
    Subscribed,
    SubscribeFailed,
    Unsubscribed,
    Published,
    Disconnected,
}

impl<'a> Event<'a> {
    pub open spec fn view(&self) -> EventView {
        match *self {
            Event::Connected => EventView::Connected,
            Event::Received(message) => EventView::Received(message@),
            Event::Subscribed => EventView::Subscribed,
            Event::SubscribeFailed => EventView::SubscribeFailed,
            Event::Unsubscribed => EventView::Unsubscribed,
            Event::Published => EventView::Published,
            Event::Disconnected => EventView::Disconnected,
        }
    }

    pub open spec fn wf(&self) -> bool {
        match *self {
            Event::Received(message) => message.wf(),
            _ => true,
        }
    }
}

/// What is to be done after a step of the session.
pub enum Action<'a> {
    /// Send the packet.
    Send(Packet<'a>),
    /// Hand the event to the application.
    Event(Event<'a>),
    /// Send the packet and hand the event to the application.
    Reply(Packet<'a>, Event<'a>),
    Nothing,
}

/// What an `Action` says.
pub enum ActionView {
    Send(PacketView),
    Event(EventView),
    Reply(PacketView, EventView),
    Nothing,
}

impl<'a> Action<'a> {
    pub open spec fn view(&self) -> ActionView {
        match *self {
            Action::Send(packet) => ActionView::Send(packet@),
            Action::Event(event) => ActionView::Event(event@),
            Action::Reply(packet, event) => ActionView::Reply(packet@, event@),
            Action::Nothing => ActionView::Nothing,
        }
    }

    pub open spec fn wf(&self) -> bool {
        match *self {
            Action::Event(event) => event.wf(),
            Action::Reply(_, event) => event.wf(),
            _ => true,
        }
    }
}

/// What came of a step: the action, by what it says, or the error.
pub open spec fn outcome(r: Result<Action, Error>) -> Result<ActionView, Error> {
    match r {
        Ok(action) => Ok(action@),
        Err(e) => Err(e),
    }
}

/// The message that a PUBLISH brings.
pub open spec fn received_from(packet: PublishView) -> MessageView {
    MessageView {
        topic: packet.topic,
        payload: packet.payload,
        qos: packet.flags.qos,
        retain: packet.flags.retain,
    }
}

/// The subscriptions that the table of the session holds, first to last.
pub uninterp spec fn records_of(v: heapless::Vec<Subscription<'_>, N_SUB>) -> Seq<Subscription<'_>>;

/// `heapless::Vec::new`: a table that holds nothing.
#[verifier::external_body]
fn records_new<'s>() -> (v: heapless::Vec<Subscription<'s>, N_SUB>)
    ensures
        records_of(v) == Seq::<Subscription<'s>>::empty(),
{
    heapless::Vec::new()
}

/// `heapless::Vec::push`: puts the item at the end while fewer than the
/// capacity are held, and otherwise hands it back and changes nothing.
#[verifier::external_body]
fn records_push<'s>(v: &mut heapless::Vec<Subscription<'s>, N_SUB>, item: Subscription<'s>) -> (r: Result<
    (),
    Subscription<'s>,
>)
    ensures
        records_of(*old(v)).len() < N_SUB ==> r is Ok && records_of(*final(v)) == records_of(
            *old(v),
        ).push(item),
        records_of(*old(v)).len() >= N_SUB ==> r is Err && records_of(*final(v)) == records_of(
            *old(v),
        ),
{
    v.push(item)
}

/// `heapless::Vec::as_slice`: the items held, first to last; they are never
/// more than the capacity.
#[verifier::external_body]
fn records_slice<'v, 's>(v: &'v heapless::Vec<Subscription<'s>, N_SUB>) -> (s: &'v [Subscription<'s>])
    ensures
        s@ == records_of(*v),
        s@.len() <= N_SUB,
{
    v.as_slice()
}

/// Assignment through the `IndexMut` of `heapless::Vec`: the item at
/// `index` is replaced, the others stay.
#[verifier::external_body]
fn records_set<'s>(v: &mut heapless::Vec<Subscription<'s>, N_SUB>, index: usize, item: Subscription<'s>)
    requires
        index < records_of(*old(v)).len(),
    ensures
        records_of(*final(v)) == records_of(*old(v)).update(index as int, item),
{
    v[index] = item;
}

/// `heapless::Vec::remove`: takes the item at `index` out and moves the
/// ones behind it one place forward.
#[verifier::external_body]
fn records_remove<'s>(v: &mut heapless::Vec<Subscription<'s>, N_SUB>, index: usize)
    requires
        index < records_of(*old(v)).len(),
    ensures
        records_of(*final(v)) == records_of(*old(v)).remove(index as int),
{
    v.remove(index);
}

/// `heapless::Vec::clear`: nothing is held afterwards.
#[verifier::external_body]
fn records_clear<'s>(v: &mut heapless::Vec<Subscription<'s>, N_SUB>)
    ensures
        records_of(*final(v)) == Seq::<Subscription<'s>>::empty(),
{
    v.clear();
}

/// Some record of `records` is for the topic filter `topic`.
pub open spec fn has_topic(records: Seq<Subscription>, topic: Seq<u8>) -> bool {
    exists|i: int| 0 <= i < records.len() && (#[trigger] records[i]).topic_bytes() == topic
}

/// Some record of `records` for the topic filter `topic` is active.
pub open spec fn has_active(records: Seq<Subscription>, topic: Seq<u8>) -> bool {
    exists|i: int|
        0 <= i < records.len() && (#[trigger] records[i]).topic_bytes() == topic
            && records[i].state == SubState::Active
}

/// How many records of `records` are in the state `state`.
pub open spec fn count_state(records: Seq<Subscription>, state: SubState) -> nat
    decreases records.len(),
{
    if records.len() == 0 {
        0
    } else {
        count_state(records.drop_last(), state) + if records.last().state == state {
            1nat
        } else {
            0nat
        }
    }
}

/// A publish of this QoS is done with its first acknowledgement.
pub open spec fn just_ack(qos: QoS) -> bool {
    qos == QoS::AtLeastOnce
}

/// The record at `i` is the only one of `records` in the state `state`.
pub open spec fn only_in_state(records: Seq<Subscription>, i: int, state: SubState) -> bool {
    &&& 0 <= i < records.len()
    &&& records[i].state == state
    &&& forall|j: int| 0 <= j < records.len() && j != i ==> (#[trigger] records[j]).state != state
}

/// No two records are for the same topic filter.
pub open spec fn topics_unique(records: Seq<Subscription>) -> bool {
    forall|i: int, j: int|
        0 <= i < records.len() && 0 <= j < records.len() && i != j ==> (
        #[trigger] records[i]).topic_bytes() != (#[trigger] records[j]).topic_bytes()
}

/// The session of one client with one broker.
pub struct Session<'s> {
    state: State,
    session_present: bool,
    ping_outstanding: bool,
    pool: PacketIdPool<N_PUB_OUT, N_SUB>,
    incoming: incoming::Publish,
    held: [Option<HeldMessage>; N_PUB_IN],
    subscriptions: heapless::Vec<Subscription<'s>, N_SUB>,
}

impl<'s> Session<'s> {
    /// The phase of the connection.
    pub closed spec fn phase(&self) -> State {
        self.state
    }

    /// The broker kept a session from before the connection.
    pub closed spec fn session_present(&self) -> bool {
        self.session_present
    }

    /// A PINGREQ was sent and no PINGRESP has come yet.
    pub closed spec fn ping_outstanding(&self) -> bool {
        self.ping_outstanding
    }

    /// The pool of packet identifiers.
    pub closed spec fn pool(&self) -> PacketIdPool<N_PUB_OUT, N_SUB> {
        self.pool
    }

    /// The tracker of incoming publishes.
    pub closed spec fn incoming(&self) -> incoming::Publish {
        self.incoming
    }

    /// The messages held for the slots of the tracker.
    pub closed spec fn held(&self) -> Seq<Option<HeldMessage>> {
        self.held@
    }

    /// The subscriptions, in the order in which they were made.
    pub closed spec fn records(&self) -> Seq<Subscription<'s>> {
        records_of(self.subscriptions)
    }

    /// Pool and tracker are well-formed, no two subscriptions are for the
    /// same topic filter, and for every incoming publish that waits for
    /// its PUBREL the message is held.
    pub open spec fn wf(&self) -> bool {
        &&& self.pool().wf()
        &&& self.incoming().wf()
        &&& self.records().len() <= N_SUB
        &&& topics_unique(self.records())
        &&& self.held().len() == N_PUB_IN
        &&& forall|i: int|
            0 <= i < self.incoming().slots().len() && (#[trigger] self.incoming().slots()[i]).state
                == PubInState::AwaitPubRel ==> (self.held()[i] matches Some(held) && held.wf())
    }

    /// `other` is in the same state in every respect.
    pub open spec fn same(&self, other: &Self) -> bool {
        &&& self.phase() == other.phase()
        &&& self.session_present() == other.session_present()
        &&& self.ping_outstanding() == other.ping_outstanding()
        &&& self.pool().same(&other.pool())
        &&& self.incoming().same(&other.incoming())
        &&& self.held() == other.held()
        &&& self.records() == other.records()
    }

    /// `other` differs at most in the pool of packet identifiers.
    pub open spec fn same_but_pool(&self, other: &Self) -> bool {
        &&& self.phase() == other.phase()
        &&& self.session_present() == other.session_present()
        &&& self.ping_outstanding() == other.ping_outstanding()
        &&& self.incoming().same(&other.incoming())
        &&& self.held() == other.held()
        &&& self.records() == other.records()
    }

    /// `other` differs at most in the pool and the subscriptions.
    pub open spec fn same_but_pool_and_records(&self, other: &Self) -> bool {
        &&& self.phase() == other.phase()
        &&& self.session_present() == other.session_present()
        &&& self.ping_outstanding() == other.ping_outstanding()
        &&& self.incoming().same(&other.incoming())
        &&& self.held() == other.held()
    }

    /// `after` is this session torn down: disconnected, no identifier in
    /// flight, no incoming publish remembered, no ping outstanding, and the
    /// subscriptions kept only if the broker keeps the session.
    pub open spec fn torn_down(&self, after: &Self) -> bool {
        &&& after.phase() == State::Disconnected
        &&& after.session_present() == self.session_present()
        &&& !after.ping_outstanding()
        &&& after.pool().is_empty()
        &&& after.incoming().slots().len() == 0
        &&& after.incoming().cursor() == 0
        &&& after.records() == if self.session_present() {
            self.records()
        } else {
            Seq::empty()
        }
    }

    /// The record for the topic filter `topic`, if there is one.
    pub open spec fn record_of(&self, topic: Seq<u8>) -> Option<Subscription<'s>> {
        if has_topic(self.records(), topic) {
            Some(self.records()[self.index_of(topic)])
        } else {
            None
        }
    }

    /// Where the record for the topic filter `topic` stands.
    pub open spec fn index_of(&self, topic: Seq<u8>) -> int {
        choose|i: int|
            0 <= i < self.records().len() && (#[trigger] self.records()[i]).topic_bytes() == topic
    }

    /// A step of `connect`: from this session to `after`, with outcome `r`.
    /// Legal only while disconnected; otherwise a `ProtocolViolation`
    /// that changes nothing. The session starts connecting, the pool of
    /// packet identifiers is empty, the subscriptions are dropped if a
    /// clean session is asked for, and the CONNECT is to be sent.
    pub open spec fn connect_step(
        &self,
        after: &Self,
        opts: ConnectView,
        r: Result<ActionView, Error>,
    ) -> bool {
        match r {
            Ok(action) => {
                &&& self.phase() == State::Disconnected
                &&& action == ActionView::Send(PacketView::Connect(opts))
                &&& after.phase() == State::Connecting
                &&& after.pool().is_empty()
                &&& after.records() == if opts.clean_session {
                    Seq::empty()
                } else {
                    self.records()
                }
                &&& after.session_present() == self.session_present()
                &&& after.ping_outstanding() == self.ping_outstanding()
                &&& after.incoming().same(&self.incoming())
                &&& after.held() == self.held()
            },
            Err(e) => {
                &&& self.phase() != State::Disconnected
                &&& e == Error::ProtocolViolation
                &&& after.same(self)
            },
        }
    }

    /// A step of `publish`. Legal only while connected. At QoS 0 the
    /// session stays as it is; above, the pool allocates a packet
    /// identifier, which the PUBLISH carries. Without a free identifier
    /// nothing changes.
    pub open spec fn publish_step(
        &self,
        after: &Self,
        msg: PublishView,
        r: Result<ActionView, Error>,
    ) -> bool {
        &&& after.same_but_pool(self)
        &&& r is Ok <==> self.phase() == State::Connected && (msg.flags.qos != QoS::AtMostOnce
            ==> self.pool().has_free_publish() && !self.pool().exhausted())
        &&& match r {
            Ok(action) => if msg.flags.qos == QoS::AtMostOnce {
                &&& action == ActionView::Send(PacketView::Publish(msg))
                &&& after.pool().same(&self.pool())
            } else {
                exists|id: PacketId|
                    {
                        &&& #[trigger] self.pool().publish_allocated(
                            &after.pool(),
                            id,
                            just_ack(msg.flags.qos),
                        )
                        &&& action == ActionView::Send(
                            PacketView::Publish(PublishView { packet_id: Some(id), ..msg }),
                        )
                    }
            },
            Err(e) => {
                &&& e == if self.phase() != State::Connected {
                    Error::ProtocolViolation
                } else {
                    Error::NoPacketIdAvailable
                }
                &&& after.pool().same(&self.pool())
            },
        }
    }

    /// A step of `ping`. Legal only while connected and while no ping is
    /// outstanding; a refusal changes nothing.
    pub open spec fn ping_step(&self, after: &Self, r: Result<ActionView, Error>) -> bool {
        match r {
            Ok(action) => {
                &&& self.phase() == State::Connected
                &&& !self.ping_outstanding()
                &&& action == ActionView::Send(PacketView::PingReq)
                &&& after.ping_outstanding()
                &&& after.phase() == self.phase()
                &&& after.session_present() == self.session_present()
                &&& after.pool().same(&self.pool())
                &&& after.incoming().same(&self.incoming())
                &&& after.held() == self.held()
                &&& after.records() == self.records()
            },
            Err(e) => {
                &&& e == if self.phase() != State::Connected {
                    Error::ProtocolViolation
                } else {
                    Error::PingOutstanding
                }
                &&& self.phase() != State::Connected || self.ping_outstanding()
                &&& after.same(self)
            },
        }
    }

    /// A step of `disconnect`: nothing while disconnected, else the
    /// session is torn down and a DISCONNECT is to be sent.
    pub open spec fn disconnect_step(&self, after: &Self, r: ActionView) -> bool {
        if self.phase() == State::Disconnected {
            r == ActionView::Nothing && after.same(self)
        } else {
            r == ActionView::Send(PacketView::Disconnect) && self.torn_down(after)
        }
    }

    /// A step of `subscribe`. A refusal changes nothing. Where the
    /// subscription is active or pending, nothing is to be done. Otherwise
    /// the pool allocates a packet identifier, the record for the topic
    /// filter is pending under it (in its old place, or a new one at the
    /// end), and the SUBSCRIBE is to be sent.
    pub open spec fn subscribe_step(
        &self,
        after: &Self,
        sub: Subscription,
        r: Result<ActionView, Error>,
    ) -> bool {
        &&& after.same_but_pool_and_records(self)
        &&& match self.subscribe_error(sub.topic_bytes()) {
            Some(e) => r == Err::<ActionView, Error>(e) && after.same(self),
            None => r is Ok && match self.record_of(sub.topic_bytes()) {
                Some(record) if record.state == SubState::Active || record.state is Pending => {
                    r->Ok_0 == ActionView::Nothing && after.same(self)
                },
                found => exists|id: PacketId|
                    {
                        let pending = Subscription {
                            topic: sub.topic,
                            qos: sub.qos,
                            state: SubState::Pending(id),
                        };
                        &&& #[trigger] self.pool().request_allocated(
                            &after.pool(),
                            crate::packet_id_pool::Kind::Sub,
                            id,
                        )
                        &&& after.records() == if found is Some {
                            self.records().update(self.index_of(sub.topic_bytes()), pending)
                        } else {
                            self.records().push(pending)
                        }
                        &&& r->Ok_0 == ActionView::Send(
                            PacketView::Subscribe(
                                SubscribeView {
                                    packet_id: id,
                                    topics: seq![
                                        SubscriptionView {
                                            topic_filter: sub.topic_bytes(),
                                            qos: sub.qos,
                                        },
                                    ],
                                },
                            ),
                        )
                    },
            },
        }
    }

    /// A step of `unsubscribe`. A refusal changes nothing. Where the end
    /// of the subscription is pending already, nothing is to be done.
    /// Otherwise the pool allocates a packet identifier, the end of the
    /// subscription is pending under it, and the UNSUBSCRIBE is to be sent.
    pub open spec fn unsubscribe_step(
        &self,
        after: &Self,
        topic: Seq<u8>,
        r: Result<ActionView, Error>,
    ) -> bool {
        &&& after.same_but_pool_and_records(self)
        &&& match self.unsubscribe_error(topic) {
            Some(e) => r == Err::<ActionView, Error>(e) && after.same(self),
            None => r is Ok && match self.record_of(topic) {
                Some(record) if record.state == SubState::Active => exists|id: PacketId|
                    {
                        &&& #[trigger] self.pool().request_allocated(
                            &after.pool(),
                            crate::packet_id_pool::Kind::Unsub,
                            id,
                        )
                        &&& after.records() == self.records().update(
                            self.index_of(topic),
                            Subscription { state: SubState::UnsubPending(id), ..record },
                        )
                        &&& r->Ok_0 == ActionView::Send(
                            PacketView::Unsubscribe(
                                UnsubscribeView { packet_id: id, topics: seq![topic] },
                            ),
                        )
                    },
                _ => r->Ok_0 == ActionView::Nothing && after.same(self),
            },
        }
    }

    /// A step of `on_connack`. Legal only while connecting. An acceptance
    /// makes the session connected, with an empty pool and, unless the
    /// broker kept the session, without subscriptions. A refusal tears
    /// the session down and comes back as `RemoteClosed`.
    pub open spec fn connack_step(
        &self,
        after: &Self,
        packet: ConnAck,
        r: Result<ActionView, Error>,
    ) -> bool {
        if self.phase() != State::Connecting {
            r == Err::<ActionView, Error>(Error::ProtocolViolation) && after.same(self)
        } else if packet.return_code != ConnectReturnCode::Accepted {
            r == Err::<ActionView, Error>(Error::RemoteClosed) && self.torn_down(after)
        } else {
            &&& r == Ok::<ActionView, Error>(ActionView::Event(EventView::Connected))
            &&& after.phase() == State::Connected
            &&& after.session_present() == packet.session_present
            &&& after.ping_outstanding() == self.ping_outstanding()
            &&& after.pool().is_empty()
            &&& after.incoming().same(&self.incoming())
            &&& after.held() == self.held()
            &&& after.records() == if packet.session_present {
                self.records()
            } else {
                Seq::empty()
            }
        }
    }

    /// A step of `on_publish`. A refusal changes nothing. At QoS 0 the
    /// message goes to the application. At QoS 1 a PUBACK is to be sent; a
    /// publish that is not remembered yet is remembered as done and goes
    /// to the application. At QoS 2 a PUBREC is to be sent; a publish that
    /// is not remembered yet is remembered as waiting for its PUBREL and
    /// its message is held for the slot in which it is remembered.
    pub open spec fn incoming_publish_step(
        &self,
        after: &Self,
        packet: PublishView,
        r: Result<ActionView, Error>,
    ) -> bool {
        &&& after.phase() == self.phase()
        &&& after.session_present() == self.session_present()
        &&& after.ping_outstanding() == self.ping_outstanding()
        &&& after.pool().same(&self.pool())
        &&& after.records() == self.records()
        &&& match self.publish_error(packet) {
            Some(e) => r == Err::<ActionView, Error>(e) && after.same(self),
            None => r is Ok && match packet.flags.qos {
                QoS::AtMostOnce => {
                    &&& r->Ok_0 == ActionView::Event(EventView::Received(received_from(packet)))
                    &&& after.same(self)
                },
                QoS::AtLeastOnce => {
                    let id = packet.packet_id->Some_0;
                    if self.incoming().has(id) {
                        r->Ok_0 == ActionView::Send(PacketView::PubAck(id)) && after.same(self)
                    } else {
                        &&& r->Ok_0 == ActionView::Reply(
                            PacketView::PubAck(id),
                            EventView::Received(received_from(packet)),
                        )
                        &&& self.incoming().inserted(&after.incoming(), id, PubInState::Done)
                        &&& after.held() == self.held()
                    }
                },
                QoS::ExactlyOnce => {
                    let id = packet.packet_id->Some_0;
                    &&& r->Ok_0 == ActionView::Send(PacketView::PubRec(id))
                    &&& if self.incoming().has(id) {
                        after.same(self)
                    } else {
                        &&& self.incoming().inserted(
                            &after.incoming(),
                            id,
                            PubInState::AwaitPubRel,
                        )
                        &&& exists|held: HeldMessage|
                            {
                                &&& held.wf()
                                &&& held@ == (MessageView {
                                    qos: QoS::ExactlyOnce,
                                    ..received_from(packet)
                                })
                                &&& after.held() == #[trigger] self.held().update(
                                    after.incoming().index_of(id),
                                    Some(held),
                                )
                            }
                    }
                },
            },
        }
    }

    /// A step of `on_puback`. Legal only while connected and for a
    /// publish that waits for PUBACK: its flow is over and its identifier
    /// released. Otherwise a `ProtocolViolation` that changes nothing.
    pub open spec fn puback_step(
        &self,
        after: &Self,
        id: PacketId,
        r: Result<ActionView, Error>,
    ) -> bool {
        &&& after.same_but_pool(self)
        &&& if self.phase() == State::Connected && self.pool().state_of(id.0) == Some(
            PubInFlightState::AwaitPubAck,
        ) {
            &&& r == Ok::<ActionView, Error>(ActionView::Event(EventView::Published))
            &&& self.pool().publish_released(&after.pool(), id)
        } else {
            r == Err::<ActionView, Error>(Error::ProtocolViolation) && after.same(self)
        }
    }

    /// A step of `on_pubrec`. Legal only while connected and for a
    /// publish that waits for PUBREC or PUBCOMP: from now on it waits for
    /// PUBCOMP, and a PUBREL is to be sent. Otherwise a
    /// `ProtocolViolation` that changes nothing.
    pub open spec fn pubrec_step(
        &self,
        after: &Self,
        id: PacketId,
        r: Result<ActionView, Error>,
    ) -> bool {
        &&& after.same_but_pool(self)
        &&& if self.phase() == State::Connected && (self.pool().state_of(id.0) == Some(
            PubInFlightState::AwaitPubRec,
        ) || self.pool().state_of(id.0) == Some(PubInFlightState::AwaitPubComp)) {
            &&& r == Ok::<ActionView, Error>(ActionView::Send(PacketView::PubRel(id)))
            &&& self.pool().pubrel_noted(&after.pool(), id)
        } else {
            r == Err::<ActionView, Error>(Error::ProtocolViolation) && after.same(self)
        }
    }

    /// A step of `on_pubcomp`. Legal only while connected and for a
    /// publish that waits for PUBCOMP: its flow is over and its
    /// identifier released. Otherwise a `ProtocolViolation` that changes
    /// nothing.
    pub open spec fn pubcomp_step(
        &self,
        after: &Self,
        id: PacketId,
        r: Result<ActionView, Error>,
    ) -> bool {
        &&& after.same_but_pool(self)
        &&& if self.phase() == State::Connected && self.pool().state_of(id.0) == Some(
            PubInFlightState::AwaitPubComp,
        ) {
            &&& r == Ok::<ActionView, Error>(ActionView::Event(EventView::Published))
            &&& self.pool().publish_released(&after.pool(), id)
        } else {
            r == Err::<ActionView, Error>(Error::ProtocolViolation) && after.same(self)
        }
    }

    /// A step of `on_pubrel`. Legal only while connected and for a
    /// publish that is remembered; otherwise a `ProtocolViolation` that
    /// changes nothing. A PUBCOMP is to be sent. The first PUBREL ends the
    /// flow and hands the held message to the application.
    pub open spec fn pubrel_step(
        &self,
        after: &Self,
        id: PacketId,
        r: Result<ActionView, Error>,
    ) -> bool {
        &&& after.phase() == self.phase()
        &&& after.session_present() == self.session_present()
        &&& after.ping_outstanding() == self.ping_outstanding()
        &&& after.pool().same(&self.pool())
        &&& after.records() == self.records()
        &&& after.held() == self.held()
        &&& if self.phase() != State::Connected {
            r == Err::<ActionView, Error>(Error::ProtocolViolation) && after.same(self)
        } else {
            match self.incoming().state_of(id) {
                None => r == Err::<ActionView, Error>(Error::ProtocolViolation) && after.same(
                    self,
                ),
                Some(PubInState::Done) => {
                    &&& r == Ok::<ActionView, Error>(ActionView::Send(PacketView::PubComp(id)))
                    &&& after.same(self)
                },
                Some(PubInState::AwaitPubRel) => {
                    &&& r == Ok::<ActionView, Error>(
                        ActionView::Reply(
                            PacketView::PubComp(id),
                            EventView::Received(
                                self.held()[self.incoming().index_of(id)]->Some_0@,
                            ),
                        ),
                    )
                    &&& self.incoming().completed(&after.incoming(), id)
                },
            }
        }
    }

    /// A step of `on_suback`. A refusal changes nothing. The packet
    /// identifier is released and the one subscription that was pending
    /// under it is active at the granted QoS, or failed.
    pub open spec fn suback_step(
        &self,
        after: &Self,
        packet: crate::packet::subscribe::SubAckView,
        r: Result<ActionView, Error>,
    ) -> bool {
        &&& after.same_but_pool_and_records(self)
        &&& match self.suback_error(packet) {
            Some(e) => r == Err::<ActionView, Error>(e) && after.same(self),
            None => {
                let code = packet.return_codes[0];
                let i = choose|i: int|
                    only_in_state(self.records(), i, SubState::Pending(packet.packet_id));
                let record = self.records()[i];
                &&& r == Ok::<ActionView, Error>(
                    ActionView::Event(
                        if code == SubAckReturnCode::Failure {
                            EventView::SubscribeFailed
                        } else {
                            EventView::Subscribed
                        },
                    ),
                )
                &&& self.pool().request_released(
                    &after.pool(),
                    crate::packet_id_pool::Kind::Sub,
                    packet.packet_id,
                )
                &&& after.records() == self.records().update(
                    i,
                    Subscription {
                        topic: record.topic,
                        qos: match code {
                            SubAckReturnCode::SuccessMaxQoS0 => QoS::AtMostOnce,
                            SubAckReturnCode::SuccessMaxQoS1 => QoS::AtLeastOnce,
                            SubAckReturnCode::SuccessMaxQoS2 => QoS::ExactlyOnce,
                            SubAckReturnCode::Failure => record.qos,
                        },
                        state: if code == SubAckReturnCode::Failure {
                            SubState::Failed
                        } else {
                            SubState::Active
                        },
                    },
                )
            },
        }
    }

    /// A step of `on_unsuback`. A refusal changes nothing. The packet
    /// identifier is released and the one subscription whose end was
    /// pending under it is removed.
    pub open spec fn unsuback_step(
        &self,
        after: &Self,
        id: PacketId,
        r: Result<ActionView, Error>,
    ) -> bool {
        &&& after.same_but_pool_and_records(self)
        &&& match self.unsuback_error(id) {
            Some(e) => r == Err::<ActionView, Error>(e) && after.same(self),
            None => {
                let i = choose|i: int|
                    only_in_state(self.records(), i, SubState::UnsubPending(id));
                &&& r == Ok::<ActionView, Error>(ActionView::Event(EventView::Unsubscribed))
                &&& self.pool().request_released(
                    &after.pool(),
                    crate::packet_id_pool::Kind::Unsub,
                    id,
                )
                &&& after.records() == self.records().remove(i)
            },
        }
    }

    /// A step of `on_pingresp`: no ping is outstanding any more.
    pub open spec fn pingresp_step(&self, after: &Self, r: ActionView) -> bool {
        &&& r == ActionView::Nothing
        &&& !after.ping_outstanding()
        &&& after.phase() == self.phase()
        &&& after.session_present() == self.session_present()
        &&& after.pool().same(&self.pool())
        &&& after.incoming().same(&self.incoming())
        &&& after.held() == self.held()
        &&& after.records() == self.records()
    }

    /// A step of `on_disconnect`: nothing while disconnected, else the
    /// session is torn down and the application is told.
    pub open spec fn remote_disconnect_step(&self, after: &Self, r: ActionView) -> bool {
        if self.phase() == State::Disconnected {
            r == ActionView::Nothing && after.same(self)
        } else {
            r == ActionView::Event(EventView::Disconnected) && self.torn_down(after)
        }
    }

    /// A step of `handle`: what the session does with a packet of the
    /// broker. A packet that only a broker takes is passed over.
    pub open spec fn handle_step(
        &self,
        after: &Self,
        packet: PacketView,
        r: Result<ActionView, Error>,
    ) -> bool {
        match packet {
            PacketView::ConnAck(ack) => self.connack_step(after, ack, r),
            PacketView::Publish(publish) => self.incoming_publish_step(after, publish, r),
            PacketView::PubAck(id) => self.puback_step(after, id, r),
            PacketView::PubRec(id) => self.pubrec_step(after, id, r),
            PacketView::PubRel(id) => self.pubrel_step(after, id, r),
            PacketView::PubComp(id) => self.pubcomp_step(after, id, r),
            PacketView::SubAck(ack) => self.suback_step(after, ack, r),
            PacketView::UnsubAck(id) => self.unsuback_step(after, id, r),
            PacketView::PingReq => r == Ok::<ActionView, Error>(
                ActionView::Send(PacketView::PingResp),
            ) && after.same(self),
            PacketView::PingResp => r matches Ok(action) && self.pingresp_step(after, action),
            PacketView::Disconnect => r matches Ok(action) && self.remote_disconnect_step(
                after,
                action,
            ),
            _ => r == Ok::<ActionView, Error>(ActionView::Nothing) && after.same(self),
        }
    }

    pub fn new() -> (r: Self)
        ensures
            r.wf(),
            r.phase() == State::Disconnected,
            !r.session_present(),
            !r.ping_outstanding(),
            r.pool().is_empty(),
            r.incoming().slots().len() == 0,
            r.records().len() == 0,
    {
        Session {
            state: State::Disconnected,
            session_present: false,
            ping_outstanding: false,
            pool: PacketIdPool::new(),
            incoming: incoming::Publish::new(),
            held: [None;N_PUB_IN],
            subscriptions: records_new(),
        }
    }

    /// A subscription to `topic` needs a SUBSCRIBE: there is no record
    /// for it, or one that has not been asked for or has failed.
    pub open spec fn subscribe_needs_packet(&self, topic: Seq<u8>) -> bool {
        match self.record_of(topic) {
            Some(record) => record.state == SubState::New || record.state == SubState::Failed,
            None => true,
        }
    }

    /// The end of the subscription to `topic` needs an UNSUBSCRIBE: the
    /// subscription is active.
    pub open spec fn unsubscribe_needs_packet(&self, topic: Seq<u8>) -> bool {
        match self.record_of(topic) {
            Some(record) => record.state == SubState::Active,
            None => false,
        }
    }

    /// The phase of the connection.
    pub fn state(&self) -> (r: State)
        ensures
            r == self.phase(),
    {
        self.state
    }

    /// The subscription to the topic filter `topic`, if there is one.
    pub fn subscription(&self, topic: &str) -> (r: Option<Subscription<'s>>)
        requires
            self.wf(),
        ensures
            r == self.record_of(topic.spec_bytes()),
    {
        match self.find_topic(topic.as_bytes()) {
            Some((_, record)) => Some(record),
            None => None,
        }
    }

    /// The state of the outgoing publish `id`, if it is in flight.
    pub fn publish_state(&self, id: &PacketId) -> (r: Option<PubInFlightState>)
        ensures
            r == self.pool().state_of(id.0),
    {
        self.pool.publish_state(id)
    }

    /// The state in which the incoming publish `id` is remembered, if it is.
    pub fn incoming_state(&self, id: &PacketId) -> (r: Option<PubInState>)
        requires
            self.wf(),
        ensures
            r == self.incoming().state_of(*id),
    {
        match self.incoming.find(id) {
            Some((_, state)) => Some(state),
            None => None,
        }
    }

    /// Whether a PINGREQ was sent and no PINGRESP has come yet.
    pub fn is_ping_outstanding(&self) -> (r: bool)
        ensures
            r == self.ping_outstanding(),
    {
        self.ping_outstanding
    }

    /// Whether a subscription to `topic` needs a SUBSCRIBE: there is no
    /// record for it, or one that has not been asked for or has failed.
    pub fn needs_subscribe(&self, topic: &[u8]) -> (r: bool)
        requires
            self.wf(),
        ensures
            r == self.subscribe_needs_packet(topic@),
    {
        match self.find_topic(topic) {
            Some((_, record)) => match record.state {
                SubState::New | SubState::Failed => true,
                _ => false,
            },
            None => true,
        }
    }

    /// Whether the end of the subscription to `topic` needs an
    /// UNSUBSCRIBE: the subscription is active.
    pub fn needs_unsubscribe(&self, topic: &[u8]) -> (r: bool)
        requires
            self.wf(),
        ensures
            r == self.unsubscribe_needs_packet(topic@),
    {
        match self.find_topic(topic) {
            Some((_, record)) => match record.state {
                SubState::Active => true,
                _ => false,
            },
            None => false,
        }
    }

    /// `ProtocolViolation` unless the connection is in the phase `state`.
    pub fn ensure_state(&self, state: State) -> (r: Result<(), Error>)
        ensures
            r == if self.phase() == state {
                Ok::<(), Error>(())
            } else {
                Err(Error::ProtocolViolation)
            },
    {
        if self.state != state {
            return Err(Error::ProtocolViolation);
        }
        Ok(())
    }

    /// Where the record for the topic filter `topic` stands, and the record.
    fn find_topic(&self, topic: &[u8]) -> (r: Option<(usize, Subscription<'s>)>)
        ensures
            match r {
                Some((i, record)) => i < self.records().len() && self.records()[i as int]
                    == record && record.topic_bytes() == topic@,
                None => !has_topic(self.records(), topic@),
            },
            topics_unique(self.records()) ==> match r {
                Some((i, record)) => i == self.index_of(topic@) && self.record_of(topic@)
                    == Some(record),
                None => self.record_of(topic@) is None,
            },
    {
        let records = records_slice(&self.subscriptions);
        let mut i: usize = 0;
        while i < records.len()
            invariant
                i <= records@.len(),
                records@ == self.records(),
                forall|j: int| 0 <= j < i ==> (#[trigger] records@[j]).topic_bytes() != topic@,
            decreases records@.len() - i,
        {
            if buffer::bytes_equal(records[i].topic.as_bytes(), topic) {
                proof {
                    assert(self.records()[i as int].topic_bytes() == topic@);
                    if topics_unique(self.records()) {
                        assert(self.index_of(topic@) == i);
                    }
                }
                return Some((i, records[i]));
            }
            i += 1;
        }
        None
    }

    /// Where the one record in the state `state` stands, if there is
    /// exactly one.
    fn find_only(&self, state: SubState) -> (r: Option<usize>)
        ensures
            match r {
                Some(i) => {
                    &&& i < self.records().len()
                    &&& self.records()[i as int].state == state
                    &&& forall|j: int|
                        0 <= j < self.records().len() && j != i ==> (
                        #[trigger] self.records()[j]).state != state
                },
                None => !(exists|i: int| only_in_state(self.records(), i, state)),
            },
    {
        let records = records_slice(&self.subscriptions);
        let mut found: Option<usize> = None;
        let mut i: usize = 0;
        while i < records.len()
            invariant
                i <= records@.len(),
                records@ == self.records(),
                match found {
                    Some(f) => {
                        &&& f < i
                        &&& records@[f as int].state == state
                        &&& forall|j: int| 0 <= j < i && j != f ==> (#[trigger] records@[j]).state != state
                    },
                    None => forall|j: int| 0 <= j < i ==> (#[trigger] records@[j]).state != state,
                },
            decreases records@.len() - i,
        {
            if records[i].state == state {
                if let Some(f) = found {
                    proof {
                        assert forall|k: int| !only_in_state(self.records(), k, state) by {
                            if only_in_state(self.records(), k, state) {
                                if k == f {
                                    assert(records@[i as int].state != state);
                                } else {
                                    assert(records@[f as int].state != state);
                                }
                            }
                        }
                    }
                    return None;
                }
                found = Some(i);
            }
            i += 1;
        }
        proof {
            if found is None {
                assert forall|k: int| !only_in_state(self.records(), k, state) by {}
            }
        }
        found
    }

    /// Leaves the connection: see `torn_down`.
    fn teardown(&mut self)
        requires
            old(self).wf(),
        ensures
            final(self).wf(),
            old(self).torn_down(final(self)),
    {
        self.state = State::Disconnected;
        self.ping_outstanding = false;
        self.pool.clear();
        self.incoming.clear();
        self.held = [None;N_PUB_IN];
        if !self.session_present {
            records_clear(&mut self.subscriptions);
        }
    }

    /// Asks for a connection. Legal only while disconnected. The pool of
    /// packet identifiers starts afresh, and so do the subscriptions if a
    /// clean session is asked for.
    pub fn connect<'a>(&mut self, opts: Options<'a>) -> (r: Result<Action<'a>, Error>)
        requires
            old(self).wf(),
        ensures
            final(self).wf(),
            old(self).connect_step(final(self), opts@, outcome(r)),
    {
        self.ensure_state(State::Disconnected)?;
        self.state = State::Connecting;
        self.pool.clear();
        if opts.clean_session {
            records_clear(&mut self.subscriptions);
        }
        Ok(Action::Send(Packet::Connect(Connect::from_options(opts))))
    }

    /// Publishes a message. Legal only while connected. At QoS 0 the
    /// session does not change; above, a packet identifier is allocated
    /// and the publish is in flight until its last acknowledgement.
    pub fn publish<'a>(&mut self, msg: Msg<'a>) -> (r: Result<Action<'a>, Error>)
        requires
            old(self).wf(),
        ensures
            final(self).wf(),
            old(self).publish_step(final(self), msg@, outcome(r)),
    {
        self.ensure_state(State::Connected)?;
        let qos = msg.qos;
        let mut packet = Publish::from_msg(msg);

        match qos {
            QoS::AtMostOnce => {},
            QoS::AtLeastOnce => {
                let id = self.pool.next_pub_id(true)?;
                packet.packet_id = Some(id);
                assert(old(self).pool().publish_allocated(&self.pool(), id, just_ack(qos)));
            },
            QoS::ExactlyOnce => {
                let id = self.pool.next_pub_id(false)?;
                packet.packet_id = Some(id);
                assert(old(self).pool().publish_allocated(&self.pool(), id, just_ack(qos)));
            },
        }
        Ok(Action::Send(Packet::Publish(packet)))
    }

    /// Asks for a PINGREQ. Legal only while connected and while no ping
    /// is outstanding.
    pub fn ping(&mut self) -> (r: Result<Action<'static>, Error>)
        requires
            old(self).wf(),
        ensures
            final(self).wf(),
            old(self).ping_step(final(self), outcome(r)),
    {
        self.ensure_state(State::Connected)?;
        if self.ping_outstanding {
            return Err(Error::PingOutstanding);
        }
        self.ping_outstanding = true;
        Ok(Action::Send(Packet::PingReq))
    }

    /// Leaves the connection. While disconnected there is nothing to do;
    /// otherwise the session is torn down and a DISCONNECT goes out.
    pub fn disconnect(&mut self) -> (r: Action<'static>)
        requires
            old(self).wf(),
        ensures
            final(self).wf(),
            old(self).disconnect_step(final(self), r@),
    {
        if self.state == State::Disconnected {
            return Action::Nothing;
        }
        self.teardown();
        Action::Send(Packet::Disconnect)
    }

    /// Whether the pool can allocate an identifier for a request of the
    /// given kind.
    pub open spec fn can_allocate(&self, kind: crate::packet_id_pool::Kind) -> bool {
        self.pool().store(kind).contains(0) && !self.pool().exhausted()
    }

    /// Why a subscription to `topic` is refused, if it is.
    pub open spec fn subscribe_error(&self, topic: Seq<u8>) -> Option<Error> {
        if self.phase() != State::Connected {
            Some(Error::ProtocolViolation)
        } else {
            match self.record_of(topic) {
                Some(record) => match record.state {
                    SubState::Active | SubState::Pending(_) => None,
                    SubState::UnsubPending(_) => Some(Error::ProtocolViolation),
                    SubState::New | SubState::Failed => if self.can_allocate(
                        crate::packet_id_pool::Kind::Sub,
                    ) {
                        None
                    } else {
                        Some(Error::NoPacketIdAvailable)
                    },
                },
                None => if self.records().len() >= N_SUB {
                    Some(Error::SubVectorIsFull)
                } else if self.can_allocate(crate::packet_id_pool::Kind::Sub) {
                    None
                } else {
                    Some(Error::NoPacketIdAvailable)
                },
            }
        }
    }

    /// Subscribes to a topic filter. Legal only while connected. A filter
    /// that is subscribed to, or about to be, needs nothing; one that is
    /// about to be unsubscribed from is a `ProtocolViolation`. Otherwise a
    /// packet identifier is allocated, the subscription is pending under
    /// it, and a SUBSCRIBE goes out.
    pub fn subscribe(&mut self, sub: Subscription<'s>) -> (r: Result<Action<'s>, Error>)
        requires
            old(self).wf(),
        ensures
            final(self).wf(),
            old(self).subscribe_step(final(self), sub, outcome(r)),
    {
        self.ensure_state(State::Connected)?;
        let found = self.find_topic(sub.topic.as_bytes());
        match found {
            Some((_, record)) => match record.state {
                SubState::Active | SubState::Pending(_) => {
                    return Ok(Action::Nothing);
                },
                SubState::UnsubPending(_) => {
                    return Err(Error::ProtocolViolation);
                },
                SubState::New | SubState::Failed => {},
            },
            None => {
                if records_slice(&self.subscriptions).len() >= N_SUB {
                    return Err(Error::SubVectorIsFull);
                }
            },
        }
        let id = self.pool.next_sub_id()?;
        let pending = Subscription { topic: sub.topic, qos: sub.qos, state: SubState::Pending(id) };
        match found {
            Some((index, _)) => {
                records_set(&mut self.subscriptions, index, pending);
                proof {
                    let before = old(self).records();
                    let now = self.records();
                    assert forall|i: int, j: int|
                        0 <= i < now.len() && 0 <= j < now.len() && i != j implies (
                    #[trigger] now[i]).topic_bytes() != (#[trigger] now[j]).topic_bytes() by {
                        assert(before[i].topic_bytes() != before[j].topic_bytes());
                    }
                }
            },
            None => {
                let _ = records_push(&mut self.subscriptions, pending);
                proof {
                    let before = old(self).records();
                    let now = self.records();
                    assert forall|i: int, j: int|
                        0 <= i < now.len() && 0 <= j < now.len() && i != j implies (
                    #[trigger] now[i]).topic_bytes() != (#[trigger] now[j]).topic_bytes() by {
                        if i < before.len() && j < before.len() {
                            assert(before[i].topic_bytes() != before[j].topic_bytes());
                        } else if i < before.len() {
                            assert(before[i].topic_bytes() != sub.topic_bytes());
                        } else {
                            assert(before[j].topic_bytes() != sub.topic_bytes());
                        }
                    }
                }
            },
        }
        let request = subscribe::Subscription {
            topic_filter: buffer::String::from_str(sub.topic),
            qos: sub.qos,
        };
        let packet = Subscribe::single(id, request);
        proof {
            assert(old(self).pool().request_allocated(
                &self.pool(),
                crate::packet_id_pool::Kind::Sub,
                id,
            ));
        }
        Ok(Action::Send(Packet::Subscribe(packet)))
    }

    /// Why an end of the subscription to `topic` is refused, if it is.
    pub open spec fn unsubscribe_error(&self, topic: Seq<u8>) -> Option<Error> {
        if self.phase() != State::Connected {
            Some(Error::ProtocolViolation)
        } else {
            match self.record_of(topic) {
                None => Some(Error::WrongTopicToUnsubscribe),
                Some(record) => match record.state {
                    SubState::UnsubPending(_) => None,
                    SubState::Active => if self.can_allocate(crate::packet_id_pool::Kind::Unsub) {
                        None
                    } else {
                        Some(Error::NoPacketIdAvailable)
                    },
                    _ => Some(Error::ProtocolViolation),
                },
            }
        }
    }

    /// Ends the subscription to a topic filter. Legal only while
    /// connected and for an active subscription; one that is about to end
    /// needs nothing. A packet identifier is allocated, the end of the
    /// subscription is pending under it, and an UNSUBSCRIBE goes out.
    pub fn unsubscribe<'a>(&mut self, unsub_topic: &'a str) -> (r: Result<Action<'a>, Error>)
        requires
            old(self).wf(),
        ensures
            final(self).wf(),
            old(self).unsubscribe_step(final(self), unsub_topic.spec_bytes(), outcome(r)),
    {
        self.ensure_state(State::Connected)?;
        let (index, record) = match self.find_topic(unsub_topic.as_bytes()) {
            Some(found) => found,
            None => {
                return Err(Error::WrongTopicToUnsubscribe);
            },
        };
        match record.state {
            SubState::UnsubPending(_) => {
                return Ok(Action::Nothing);
            },
            SubState::Active => {},
            _ => {
                return Err(Error::ProtocolViolation);
            },
        }
        let id = self.pool.next_unsub_id()?;
        let leaving = Subscription {
            topic: record.topic,
            qos: record.qos,
            state: SubState::UnsubPending(id),
        };
        records_set(&mut self.subscriptions, index, leaving);
        proof {
            let before = old(self).records();
            let now = self.records();
            assert forall|i: int, j: int|
                0 <= i < now.len() && 0 <= j < now.len() && i != j implies (
            #[trigger] now[i]).topic_bytes() != (#[trigger] now[j]).topic_bytes() by {
                assert(before[i].topic_bytes() != before[j].topic_bytes());
            }
            assert(old(self).pool().request_allocated(
                &self.pool(),
                crate::packet_id_pool::Kind::Unsub,
                id,
            ));
        }
        let packet = Unsubscribe::single(id, buffer::String::from_str(unsub_topic));
        Ok(Action::Send(Packet::Unsubscribe(packet)))
    }

    /// Takes the answer of the broker to the CONNECT. Legal only while
    /// connecting. An acceptance makes the session connected, with a fresh
    /// pool of packet identifiers and, unless the broker kept the session,
    /// without subscriptions. A refusal ends the connection: the session
    /// is torn down and the refusal comes back as `RemoteClosed`.
    pub fn on_connack(&mut self, packet: &ConnAck) -> (r: Result<Action<'static>, Error>)
        requires
            old(self).wf(),
        ensures
            final(self).wf(),
            old(self).connack_step(final(self), *packet, outcome(r)),
    {
        self.ensure_state(State::Connecting)?;
        if packet.return_code != ConnectReturnCode::Accepted {
            self.teardown();
            return Err(Error::RemoteClosed);
        }
        self.state = State::Connected;
        self.session_present = packet.session_present;
        self.pool.clear();
        if !packet.session_present {
            records_clear(&mut self.subscriptions);
        }
        Ok(Action::Event(Event::Connected))
    }

    /// Whether some subscription to exactly the topic `topic` is active.
    fn is_subscribed(&self, topic: &[u8]) -> (r: bool)
        ensures
            r == has_active(self.records(), topic@),
    {
        let records = records_slice(&self.subscriptions);
        let mut i: usize = 0;
        while i < records.len()
            invariant
                i <= records@.len(),
                records@ == self.records(),
                forall|j: int|
                    0 <= j < i ==> !((#[trigger] records@[j]).topic_bytes() == topic@
                        && records@[j].state == SubState::Active),
            decreases records@.len() - i,
        {
            if records[i].state == SubState::Active && buffer::bytes_equal(
                records[i].topic.as_bytes(),
                topic,
            ) {
                assert(self.records()[i as int].topic_bytes() == topic@);
                return true;
            }
            i += 1;
        }
        false
    }

    /// Why an incoming publish is refused, if it is.
    pub open spec fn publish_error(&self, packet: PublishView) -> Option<Error> {
        if self.phase() != State::Connected {
            Some(Error::ProtocolViolation)
        } else if packet.flags.dup && packet.flags.qos == QoS::AtMostOnce {
            Some(Error::ProtocolViolation)
        } else if !has_active(self.records(), packet.topic) {
            Some(Error::Unsubscribed)
        } else if packet.flags.qos == QoS::AtMostOnce {
            None
        } else {
            match packet.packet_id {
                None => Some(Error::ProtocolViolation),
                Some(id) => if self.incoming().has(id) {
                    None
                } else if packet.flags.qos == QoS::ExactlyOnce && !HeldMessage::fits(
                    packet.topic,
                    packet.payload,
                ) {
                    Some(Error::BufferTooSmall)
                } else if !self.incoming().can_insert(id) {
                    Some(Error::VectorIsFull)
                } else {
                    None
                },
            }
        }
    }

    /// Takes a PUBLISH of the broker. Legal only while connected and for
    /// a topic to which a subscription is active. At QoS 0 the message
    /// goes to the application. At QoS 1 it is acknowledged with a PUBACK
    /// and, unless it is a repetition, goes to the application. At QoS 2
    /// it is acknowledged with a PUBREC and, unless it is a repetition,
    /// held until its PUBREL.
    pub fn on_publish<'a>(&mut self, packet: &Publish<'a>) -> (r: Result<Action<'a>, Error>)
        requires
            old(self).wf(),
        ensures
            final(self).wf(),
            old(self).incoming_publish_step(final(self), packet@, outcome(r)),
            r matches Ok(action) ==> action.wf(),
    {
        self.ensure_state(State::Connected)?;
        if packet.flags.dup && packet.flags.qos == QoS::AtMostOnce {
            return Err(Error::ProtocolViolation);
        }
        if !self.is_subscribed(packet.topic.as_bytes()) {
            return Err(Error::Unsubscribed);
        }
        match packet.flags.qos {
            QoS::AtMostOnce => Ok(Action::Event(Event::Received(Message::Borrowed(*packet)))),
            QoS::AtLeastOnce => {
                let id = match packet.packet_id {
                    Some(id) => id,
                    None => {
                        return Err(Error::ProtocolViolation);
                    },
                };
                if self.incoming.find(&id).is_some() {
                    return Ok(Action::Send(Packet::PubAck(id)));
                }
                self.incoming.track_acked(&id)?;
                proof {
                    self.lemma_held_kept(old(self), id, PubInState::Done);
                }
                Ok(
                    Action::Reply(Packet::PubAck(id), Event::Received(Message::Borrowed(*packet))),
                )
            },
            QoS::ExactlyOnce => {
                let id = match packet.packet_id {
                    Some(id) => id,
                    None => {
                        return Err(Error::ProtocolViolation);
                    },
                };
                if self.incoming.find(&id).is_some() {
                    return Ok(Action::Send(Packet::PubRec(id)));
                }
                let held = match HeldMessage::copy_of(packet) {
                    Some(held) => held,
                    None => {
                        return Err(Error::BufferTooSmall);
                    },
                };
                self.incoming.track(&id)?;
                let index = match self.incoming.find(&id) {
                    Some((index, _)) => index,
                    None => {
                        return Err(Error::VectorIsFull);
                    },
                };
                proof {
                    self.lemma_held_kept(old(self), id, PubInState::AwaitPubRel);
                }
                self.held[index] = Some(held);
                proof {
                    assert(self.held() == old(self).held().update(index as int, Some(held)));
                }
                Ok(Action::Send(Packet::PubRec(id)))
            },
        }
    }

    /// After a new entry went into the tracker, every other entry that
    /// waits for its PUBREL is one that waited before, in the same slot.
    proof fn lemma_held_kept(&self, before: &Self, id: PacketId, state: PubInState)
        requires
            before.wf(),
            !before.incoming().has(id),
            before.incoming().inserted(&self.incoming(), id, state),
            self.incoming().wf(),
            self.held() == before.held(),
        ensures
            forall|i: int|
                0 <= i < self.incoming().slots().len() && (
                #[trigger] self.incoming().slots()[i]).state == PubInState::AwaitPubRel
                    && self.incoming().slots()[i].id != id ==> (self.held()[i] matches Some(held)
                    && held.wf()),
            0 <= self.incoming().index_of(id) < self.incoming().slots().len(),
            self.incoming().slots()[self.incoming().index_of(id)] == (PubInFlightIn { id, state }),
    {
        let old_slots = before.incoming().slots();
        let new_slots = self.incoming().slots();
        assert(self.incoming().has(id));
        assert forall|i: int|
            0 <= i < new_slots.len() && (#[trigger] new_slots[i]).state == PubInState::AwaitPubRel
                && new_slots[i].id != id implies (self.held()[i] matches Some(held)
            && held.wf()) by {
            assert(i < old_slots.len() && old_slots[i] == new_slots[i]);
        }
        if old_slots.len() < N_PUB_IN {
            crate::incoming::lemma_entry_unique(new_slots, old_slots.len() as int, id);
        } else {
            let k = choose|k: nat|
                {
                    &&& #[trigger] crate::incoming::first_done(
                        old_slots,
                        before.incoming().cursor(),
                        k,
                    )
                    &&& new_slots == old_slots.update(
                        crate::incoming::slot_after(before.incoming().cursor(), k),
                        PubInFlightIn { id, state },
                    )
                };
            let pos = crate::incoming::slot_after(before.incoming().cursor(), k);
            crate::incoming::lemma_entry_unique(new_slots, pos, id);
        }
    }

    /// Takes the PUBACK for an outgoing QoS 1 publish: its flow is over
    /// and its packet identifier free again. Legal only while connected
    /// and for a publish that waits for PUBACK.
    pub fn on_puback(&mut self, packet_id: &PacketId) -> (r: Result<Action<'static>, Error>)
        requires
            old(self).wf(),
        ensures
            final(self).wf(),
            old(self).puback_step(final(self), *packet_id, outcome(r)),
    {
        self.ensure_state(State::Connected)?;
        self.pool.release_pub_id(packet_id, true)?;

        Ok(Action::Event(Event::Published))
    }

    /// Takes the PUBREC for an outgoing QoS 2 publish: from now on it
    /// waits for PUBCOMP, and a PUBREL goes out. Legal only while
    /// connected and for a publish that waits for PUBREC or, the PUBREC
    /// being a repetition, for PUBCOMP.
    pub fn on_pubrec(&mut self, packet_id: &PacketId) -> (r: Result<Action<'static>, Error>)
        requires
            old(self).wf(),
        ensures
            final(self).wf(),
            old(self).pubrec_step(final(self), *packet_id, outcome(r)),
    {
        self.ensure_state(State::Connected)?;
        self.pool.set_pubrel(packet_id)?;

        Ok(Action::Send(Packet::PubRel(*packet_id)))
    }

    /// Takes the PUBCOMP for an outgoing QoS 2 publish: its flow is over
    /// and its packet identifier free again. Legal only while connected
    /// and for a publish that waits for PUBCOMP.
    pub fn on_pubcomp(&mut self, packet_id: &PacketId) -> (r: Result<Action<'static>, Error>)
        requires
            old(self).wf(),
        ensures
            final(self).wf(),
            old(self).pubcomp_step(final(self), *packet_id, outcome(r)),
    {
        self.ensure_state(State::Connected)?;
        self.pool.release_pub_id(packet_id, false)?;

        Ok(Action::Event(Event::Published))
    }

    /// Takes the PUBREL for an incoming QoS 2 publish and answers with a
    /// PUBCOMP. The first PUBREL ends the flow and hands the held message
    /// to the application; a repetition is only answered. Legal only while
    /// connected and for a publish that is remembered.
    pub fn on_pubrel(&mut self, packet_id: &PacketId) -> (r: Result<Action<'static>, Error>)
        requires
            old(self).wf(),
        ensures
            final(self).wf(),
            old(self).pubrel_step(final(self), *packet_id, outcome(r)),
            r matches Ok(action) ==> action.wf(),
    {
        self.ensure_state(State::Connected)?;
        let (index, state) = match self.incoming.find(packet_id) {
            Some(found) => found,
            None => {
                return Err(Error::ProtocolViolation);
            },
        };
        match state {
            PubInState::Done => Ok(Action::Send(Packet::PubComp(*packet_id))),
            PubInState::AwaitPubRel => {
                let held = match self.held[index] {
                    Some(held) => held,
                    None => {
                        return Err(Error::ProtocolViolation);
                    },
                };
                self.incoming.mark_complete(packet_id)?;
                proof {
                    let before = old(self).incoming().slots();
                    let now = self.incoming().slots();
                    assert forall|i: int|
                        0 <= i < now.len() && (#[trigger] now[i]).state
                            == PubInState::AwaitPubRel implies (self.held()[i] matches Some(h)
                        && h.wf()) by {
                        assert(before[i].state == PubInState::AwaitPubRel);
                    }
                }
                Ok(
                    Action::Reply(
                        Packet::PubComp(*packet_id),
                        Event::Received(Message::Held(held)),
                    ),
                )
            },
        }
    }

    /// Why a SUBACK is refused, if it is.
    pub open spec fn suback_error(&self, packet: crate::packet::subscribe::SubAckView) -> Option<
        Error,
    > {
        if self.phase() != State::Connected {
            Some(Error::ProtocolViolation)
        } else if packet.return_codes.len() == 0 {
            Some(Error::ProtocolViolation)
        } else if packet.return_codes.len() > 1 {
            Some(Error::UnsupportedIncomingPacket)
        } else if !self.pool().subscribes().contains(packet.packet_id.0) {
            Some(Error::ProtocolViolation)
        } else if !(exists|i: int|
            only_in_state(self.records(), i, SubState::Pending(packet.packet_id))) {
            Some(Error::ProtocolViolation)
        } else {
            None
        }
    }

    /// Takes the SUBACK for a pending subscription. It must carry exactly
    /// one return code and belong to exactly one subscription. A success
    /// makes the subscription active at the granted QoS, a failure marks
    /// it as failed; either way the packet identifier is free again.
    pub fn on_suback(&mut self, packet: &SubAck) -> (r: Result<Action<'static>, Error>)
        requires
            old(self).wf(),
        ensures
            final(self).wf(),
            old(self).suback_step(final(self), packet@, outcome(r)),
    {
        self.ensure_state(State::Connected)?;
        let codes = packet.codes();
        if codes.len() == 0 {
            return Err(Error::ProtocolViolation);
        }
        if codes.len() > 1 {
            return Err(Error::UnsupportedIncomingPacket);
        }
        let code = codes[0];
        if !self.pool.holds_request(crate::packet_id_pool::Kind::Sub, packet.packet_id.0) {
            return Err(Error::ProtocolViolation);
        }
        let index = match self.find_only(SubState::Pending(packet.packet_id)) {
            Some(index) => index,
            None => {
                return Err(Error::ProtocolViolation);
            },
        };
        proof {
            let chosen = choose|i: int|
                only_in_state(old(self).records(), i, SubState::Pending(packet.packet_id));
            assert(only_in_state(
                old(self).records(),
                index as int,
                SubState::Pending(packet.packet_id),
            ));
            assert(chosen == index);
        }
        self.pool.release_sub_id(&packet.packet_id)?;

        let record = records_slice(&self.subscriptions)[index];
        let (answered, event) = match code {
            SubAckReturnCode::SuccessMaxQoS0 => (
                Subscription { topic: record.topic, qos: QoS::AtMostOnce, state: SubState::Active },
                Event::Subscribed,
            ),
            SubAckReturnCode::SuccessMaxQoS1 => (
                Subscription { topic: record.topic, qos: QoS::AtLeastOnce, state: SubState::Active },
                Event::Subscribed,
            ),
            SubAckReturnCode::SuccessMaxQoS2 => (
                Subscription { topic: record.topic, qos: QoS::ExactlyOnce, state: SubState::Active },
                Event::Subscribed,
            ),
            SubAckReturnCode::Failure => (
                Subscription { topic: record.topic, qos: record.qos, state: SubState::Failed },
                Event::SubscribeFailed,
            ),
        };
        records_set(&mut self.subscriptions, index, answered);
        proof {
            let before = old(self).records();
            let now = self.records();
            assert forall|i: int, j: int|
                0 <= i < now.len() && 0 <= j < now.len() && i != j implies (
            #[trigger] now[i]).topic_bytes() != (#[trigger] now[j]).topic_bytes() by {
                assert(before[i].topic_bytes() != before[j].topic_bytes());
            }
        }
        Ok(Action::Event(event))
    }

    /// Why an UNSUBACK is refused, if it is.
    pub open spec fn unsuback_error(&self, id: PacketId) -> Option<Error> {
        if self.phase() != State::Connected {
            Some(Error::ProtocolViolation)
        } else if !self.pool().unsubscribes().contains(id.0) {
            Some(Error::ProtocolViolation)
        } else if !(exists|i: int| only_in_state(self.records(), i, SubState::UnsubPending(id))) {
            Some(Error::ProtocolViolation)
        } else {
            None
        }
    }

    /// Takes the UNSUBACK for a subscription that is about to end. It
    /// must belong to exactly one subscription; that one is removed and
    /// the packet identifier is free again.
    pub fn on_unsuback(&mut self, packet_id: &PacketId) -> (r: Result<Action<'static>, Error>)
        requires
            old(self).wf(),
        ensures
            final(self).wf(),
            old(self).unsuback_step(final(self), *packet_id, outcome(r)),
    {
        self.ensure_state(State::Connected)?;
        if !self.pool.holds_request(crate::packet_id_pool::Kind::Unsub, packet_id.0) {
            return Err(Error::ProtocolViolation);
        }
        let index = match self.find_only(SubState::UnsubPending(*packet_id)) {
            Some(index) => index,
            None => {
                return Err(Error::ProtocolViolation);
            },
        };
        proof {
            let chosen = choose|i: int|
                only_in_state(old(self).records(), i, SubState::UnsubPending(*packet_id));
            assert(only_in_state(
                old(self).records(),
                index as int,
                SubState::UnsubPending(*packet_id),
            ));
            assert(chosen == index);
        }
        self.pool.release_unsub_id(packet_id)?;
        records_remove(&mut self.subscriptions, index);
        proof {
            let before = old(self).records();
            let now = self.records();
            assert forall|i: int, j: int|
                0 <= i < now.len() && 0 <= j < now.len() && i != j implies (
            #[trigger] now[i]).topic_bytes() != (#[trigger] now[j]).topic_bytes() by {
                let oi = if i < index { i } else { i + 1 };
                let oj = if j < index { j } else { j + 1 };
                assert(now[i] == before[oi]);
                assert(now[j] == before[oj]);
                assert(before[oi].topic_bytes() != before[oj].topic_bytes());
            }
        }
        Ok(Action::Event(Event::Unsubscribed))
    }

    /// Takes a PINGREQ: a PINGRESP goes out.
    pub fn on_pingreq(&self) -> (r: Action<'static>)
        ensures
            r@ == ActionView::Send(PacketView::PingResp),
    {
        Action::Send(Packet::PingResp)
    }

    /// Takes a PINGRESP: no ping is outstanding any more.
    pub fn on_pingresp(&mut self) -> (r: Action<'static>)
        requires
            old(self).wf(),
        ensures
            final(self).wf(),
            old(self).pingresp_step(final(self), r@),
    {
        self.ping_outstanding = false;
        Action::Nothing
    }

    /// Takes a DISCONNECT. While disconnected there is nothing to do;
    /// otherwise the session is torn down and the application is told.
    pub fn on_disconnect(&mut self) -> (r: Action<'static>)
        requires
            old(self).wf(),
        ensures
            final(self).wf(),
            old(self).remote_disconnect_step(final(self), r@),
    {
        if self.state == State::Disconnected {
            return Action::Nothing;
        }
        self.teardown();
        Action::Event(Event::Disconnected)
    }

    /// Takes a packet of the broker, whichever it is. A packet that only
    /// a broker takes is passed over.
    pub fn handle<'a>(&mut self, packet: &Packet<'a>) -> (r: Result<Action<'a>, Error>)
        requires
            old(self).wf(),
        ensures
            final(self).wf(),
            old(self).handle_step(final(self), packet@, outcome(r)),
            r matches Ok(action) ==> action.wf(),
    {
        match packet {
            Packet::ConnAck(conn_ack) => match self.on_connack(conn_ack) {
                Ok(action) => Ok(action),
                Err(e) => Err(e),
            },
            Packet::Publish(publish) => self.on_publish(publish),
            Packet::PubAck(packet_id) => match self.on_puback(packet_id) {
                Ok(action) => Ok(action),
                Err(e) => Err(e),
            },
            Packet::PubRec(packet_id) => match self.on_pubrec(packet_id) {
                Ok(action) => Ok(action),
                Err(e) => Err(e),
            },
            Packet::PubRel(packet_id) => match self.on_pubrel(packet_id) {
                Ok(action) => Ok(action),
                Err(e) => Err(e),
            },
            Packet::PubComp(packet_id) => match self.on_pubcomp(packet_id) {
                Ok(action) => Ok(action),
                Err(e) => Err(e),
            },
            Packet::SubAck(sub_ack) => match self.on_suback(sub_ack) {
                Ok(action) => Ok(action),
                Err(e) => Err(e),
            },
            Packet::UnsubAck(packet_id) => match self.on_unsuback(packet_id) {
                Ok(action) => Ok(action),
                Err(e) => Err(e),
            },
            Packet::PingReq => Ok(self.on_pingreq()),
            Packet::PingResp => Ok(self.on_pingresp()),
            Packet::Disconnect => Ok(self.on_disconnect()),
            _ => Ok(Action::Nothing),
        }
    }
}

/// The flow of an outgoing QoS 2 publish. After the publish it waits for
/// PUBREC; the PUBREC makes it wait for PUBCOMP and a PUBREL go out; the
/// PUBCOMP ends the flow, frees the packet identifier and tells the
/// application. Out of turn, a PUBACK or a PUBCOMP is a
/// `ProtocolViolation`.
pub proof fn lemma_qos2_outgoing_flow(
    s0: Session,
    s1: Session,
    s2: Session,
    s3: Session,
    msg: PublishView,
    id: PacketId,
    r2: Result<ActionView, Error>,
    r3: Result<ActionView, Error>,
)
    requires
        msg.flags.qos == QoS::ExactlyOnce,
        s0.publish_step(
            &s1,
            msg,
            Ok(ActionView::Send(PacketView::Publish(PublishView { packet_id: Some(id), ..msg }))),
        ),
        s1.pubrec_step(&s2, id, r2),
        s2.pubcomp_step(&s3, id, r3),
    ensures
        s1.pool().state_of(id.0) == Some(PubInFlightState::AwaitPubRec),
        r2 == Ok::<ActionView, Error>(ActionView::Send(PacketView::PubRel(id))),
        s2.pool().state_of(id.0) == Some(PubInFlightState::AwaitPubComp),
        r3 == Ok::<ActionView, Error>(ActionView::Event(EventView::Published)),
        s3.pool().state_of(id.0) is None,
        !s3.pool().holds(id.0),
        forall|after: Session, r: Result<ActionView, Error>| #[trigger]
            s1.puback_step(&after, id, r) ==> r == Err::<ActionView, Error>(
                Error::ProtocolViolation,
            ),
        forall|after: Session, r: Result<ActionView, Error>| #[trigger]
            s1.pubcomp_step(&after, id, r) ==> r == Err::<ActionView, Error>(
                Error::ProtocolViolation,
            ),
        forall|after: Session, r: Result<ActionView, Error>| #[trigger]
            s2.puback_step(&after, id, r) ==> r == Err::<ActionView, Error>(
                Error::ProtocolViolation,
            ),
        forall|after: Session, r: Result<ActionView, Error>| #[trigger]
            s3.pubcomp_step(&after, id, r) ==> r == Err::<ActionView, Error>(
                Error::ProtocolViolation,
            ),
{
    let given = choose|given: PacketId|
        {
            &&& #[trigger] s0.pool().publish_allocated(&s1.pool(), given, just_ack(msg.flags.qos))
            &&& ActionView::Send(PacketView::Publish(PublishView { packet_id: Some(id), ..msg }))
                == ActionView::Send(
                PacketView::Publish(PublishView { packet_id: Some(given), ..msg }),
            )
        };
    assert(given == id);
}

/// The flow of an incoming QoS 2 publish. The publish is answered with a
/// PUBREC and held; a repetition is answered with a PUBREC and changes
/// nothing; the PUBREL is answered with a PUBCOMP and hands the message
/// of the first publish to the application; a repeated PUBREL is answered
/// with a PUBCOMP only. So the application gets the message exactly once.
pub proof fn lemma_qos2_incoming_flow(
    s0: Session,
    s1: Session,
    s2: Session,
    s3: Session,
    s4: Session,
    first: PublishView,
    again: PublishView,
    id: PacketId,
    r1: Result<ActionView, Error>,
    r2: Result<ActionView, Error>,
    r3: Result<ActionView, Error>,
    r4: Result<ActionView, Error>,
)
    requires
        s1.wf(),
        s3.wf(),
        first.flags.qos == QoS::ExactlyOnce,
        first.packet_id == Some(id),
        again.flags.qos == QoS::ExactlyOnce,
        again.packet_id == Some(id),
        again.topic == first.topic,
        s0.publish_error(first) is None,
        !s0.incoming().has(id),
        s0.incoming_publish_step(&s1, first, r1),
        s1.incoming_publish_step(&s2, again, r2),
        s2.pubrel_step(&s3, id, r3),
        s3.pubrel_step(&s4, id, r4),
    ensures
        r1 == Ok::<ActionView, Error>(ActionView::Send(PacketView::PubRec(id))),
        r2 == Ok::<ActionView, Error>(ActionView::Send(PacketView::PubRec(id))),
        s2.same(&s1),
        r3 == Ok::<ActionView, Error>(
            ActionView::Reply(
                PacketView::PubComp(id),
                EventView::Received(
                    MessageView { qos: QoS::ExactlyOnce, ..received_from(first) },
                ),
            ),
        ),
        r4 == Ok::<ActionView, Error>(ActionView::Send(PacketView::PubComp(id))),
        s4.same(&s3),
{
    let slots = s1.incoming().slots();
    let at = s1.incoming().index_of(id);
    assert(s1.incoming().has(id));
    assert(0 <= at < slots.len() && slots[at].id == id);
    assert(slots[at].state == PubInState::AwaitPubRel) by {
        let before = s0.incoming();
        if before.slots().len() < N_PUB_IN {
            crate::incoming::lemma_entry_unique(slots, before.slots().len() as int, id);
        } else {
            let k = choose|k: nat|
                {
                    &&& #[trigger] crate::incoming::first_done(before.slots(), before.cursor(), k)
                    &&& slots == before.slots().update(
                        crate::incoming::slot_after(before.cursor(), k),
                        PubInFlightIn { id, state: PubInState::AwaitPubRel },
                    )
                };
            crate::incoming::lemma_entry_unique(
                slots,
                crate::incoming::slot_after(before.cursor(), k),
                id,
            );
        }
    }
    assert(s1.publish_error(again) is None);
    assert(s2.incoming().state_of(id) == Some(PubInState::AwaitPubRel));
    assert(s3.incoming().state_of(id) == Some(PubInState::Done));
}

/// A session keeps one record per topic filter at most, and a
/// subscription that is asked for again while it is pending changes
/// nothing and sends nothing.
pub proof fn lemma_one_record_per_topic(
    session: Session,
    after: Session,
    sub: Subscription,
    i: int,
    j: int,
    r: Result<ActionView, Error>,
)
    requires
        session.wf(),
    ensures
        0 <= i < session.records().len() && 0 <= j < session.records().len()
            && session.records()[i].topic_bytes() == session.records()[j].topic_bytes() ==> i
            == j,
        session.phase() == State::Connected && session.subscribe_step(&after, sub, r) && (
        session.record_of(sub.topic_bytes()) matches Some(record) && record.state is Pending) ==> r
            == Ok::<ActionView, Error>(ActionView::Nothing) && after.same(&session),
{
}

} // verus!
