//! The client: session, keep-alive timer, outbound queue and streaming
//! parser put together.
//!
//! The client does no input or output itself. Whoever drives it reads the
//! clock, sends what `output` hands out, and writes what arrives into
//! `input_space`.
use vstd::prelude::*;
use vstd::string::StringSliceAdditionalSpecFns;

use crate::keep_alive::KeepAlive;
use crate::outbox::Outbox;
use crate::packet::connect::{Connect, Options};
use crate::packet::publish::{Msg, Publish, PublishView};
use crate::packet::subscribe::{self, Subscribe, SubscribeView, SubscriptionView};
use crate::packet::unsubscribe::{Unsubscribe, UnsubscribeView};
use crate::packet::{parse_packet, Packet, PacketId, PacketView, QoS};
use crate::parser::StreamParser;
use crate::session::{Action, ActionView, Event, EventView, Session, State, Subscription};
use crate::Error;

verus! {

/// What whoever drives the client is to do next.
#[derive(Clone, Copy, Debug, PartialEq, Eq, Structural)]
pub enum Step {
    /// Send what `output` hands out, then call `output_sent`.
    Send,
    /// Read from the transport into `input_space`, then call `input_received`.
    Fill,
    /// A packet has arrived as a whole: call `handle_input`.
    Handle,
}

pub struct Client<'c> {
    keep_alive: KeepAlive,
    session: Session<'c>,
    parser: StreamParser<'c>,
    outbox: Outbox<'c>,
}

/// What came of taking a packet: the event, by what it says, or the error.
pub open spec fn event_outcome(r: Result<Option<Event>, Error>) -> Result<
    Option<EventView>,
    Error,
> {
    match r {
        Ok(Some(event)) => Ok(Some(event@)),
        Ok(None) => Ok(None),
        Err(e) => Err(e),
    }
}

/// `after` is the queue `before` after an action was applied to it, with
/// outcome `r`: the packet of the action, if it has one, is taken into the
/// queue, and the event of the action, if it has one, is handed out. Where
/// the queue refuses the packet, nothing waits that did not wait before,
/// and the refusal is the outcome.
pub open spec fn applied(
    before: Outbox,
    after: Outbox,
    action: ActionView,
    r: Result<Option<EventView>, Error>,
) -> bool {
    match action {
        ActionView::Send(packet) => match before.enqueue_error(packet) {
            Some(e) => r == Err::<Option<EventView>, Error>(e) && before.unchanged(&after),
            None => r == Ok::<Option<EventView>, Error>(None) && before.enqueued(&after, packet),
        },
        ActionView::Reply(packet, event) => match before.enqueue_error(packet) {
            Some(e) => r == Err::<Option<EventView>, Error>(e) && before.unchanged(&after),
            None => r == Ok::<Option<EventView>, Error>(Some(event)) && before.enqueued(
                &after,
                packet,
            ),
        },
        ActionView::Event(event) => r == Ok::<Option<EventView>, Error>(Some(event))
            && before.unchanged(&after),
        ActionView::Nothing => r == Ok::<Option<EventView>, Error>(None) && before.unchanged(
            &after,
        ),
    }
}

/// Two PUBLISH packets that differ at most in the value of their packet
/// identifier are as long as each other, and the queue takes both or none.
proof fn lemma_publish_size(outbox: Outbox, a: PublishView, b: PublishView)
    requires
        a.topic == b.topic,
        a.payload == b.payload,
        a.packet_id is Some == b.packet_id is Some,
    ensures
        outbox.enqueue_error(PacketView::Publish(a)) == outbox.enqueue_error(
            PacketView::Publish(b),
        ),
{
    a.lemma_body_len();
    b.lemma_body_len();
}

/// Two SUBSCRIBE packets that differ at most in their packet identifier
/// are as long as each other, and the queue takes both or none.
proof fn lemma_subscribe_size(outbox: Outbox, a: SubscribeView, b: SubscribeView)
    requires
        a.topics == b.topics,
    ensures
        outbox.enqueue_error(PacketView::Subscribe(a)) == outbox.enqueue_error(
            PacketView::Subscribe(b),
        ),
{
    assert(a.body().len() == b.body().len());
}

/// Two UNSUBSCRIBE packets that differ at most in their packet
/// identifier are as long as each other, and the queue takes both or none.
proof fn lemma_unsubscribe_size(outbox: Outbox, a: UnsubscribeView, b: UnsubscribeView)
    requires
        a.topics == b.topics,
    ensures
        outbox.enqueue_error(PacketView::Unsubscribe(a)) == outbox.enqueue_error(
            PacketView::Unsubscribe(b),
        ),
{
    assert(a.body().len() == b.body().len());
}

/// Puts the packet of an action into the queue and hands out its event.
pub fn apply_action<'a, 'b>(tx: &mut Outbox<'b>, action: Action<'a>) -> (r: Result<
    Option<Event<'a>>,
    Error,
>)
    requires
        old(tx).wf(),
        action.wf(),
    ensures
        final(tx).wf(),
        final(tx).capacity() == old(tx).capacity(),
        old(tx).compacted() ==> final(tx).compacted(),
        applied(*old(tx), *final(tx), action@, event_outcome(r)),
        r matches Ok(Some(event)) ==> event.wf(),
{
    match action {
        Action::Send(packet) => {
            tx.enqueue(&packet)?;
            Ok(None)
        },
        Action::Event(event) => Ok(Some(event)),
        Action::Reply(packet, event) => {
            tx.enqueue(&packet)?;
            Ok(Some(event))
        },
        Action::Nothing => Ok(None),
    }
}

impl<'c> Client<'c> {
    pub closed spec fn keep_alive(&self) -> KeepAlive {
        self.keep_alive
    }

    pub closed spec fn session(&self) -> Session<'c> {
        self.session
    }

    pub closed spec fn parser(&self) -> StreamParser<'c> {
        self.parser
    }

    pub closed spec fn outbox(&self) -> Outbox<'c> {
        self.outbox
    }

    pub open spec fn wf(&self) -> bool {
        &&& self.keep_alive().wf()
        &&& self.session().wf()
        &&& self.parser().wf()
        &&& self.outbox().wf()
    }

    /// Timer and parser are as in `other`, and the queue has the capacity
    /// it has in `other`.
    pub open spec fn same_io(&self, other: &Self) -> bool {
        &&& self.keep_alive() == other.keep_alive()
        &&& self.parser() == other.parser()
        &&& self.outbox().capacity() == other.outbox().capacity()
    }

    /// Session and queue are as in `other`.
    pub open spec fn untouched(&self, other: &Self) -> bool {
        &&& self.session().same(&other.session())
        &&& other.outbox().unchanged(&self.outbox())
    }

    /// `packet` waits at the back of the queue of `after`, behind what
    /// waits in this client, and lies in the buffer where the write
    /// position was.
    pub open spec fn queued(&self, after: &Self, packet: PacketView) -> bool {
        self.outbox().enqueued(&after.outbox(), packet)
    }

    /// Why a connection is not asked for, if it is not.
    pub open spec fn connect_refusal(&self, opts: Options) -> Option<Error> {
        if self.session().phase() != State::Disconnected {
            Some(Error::ProtocolViolation)
        } else {
            self.outbox().enqueue_error(PacketView::Connect(opts@))
        }
    }

    /// Why a ping is not asked for, if it is not.
    pub open spec fn ping_refusal(&self) -> Option<Error> {
        if self.session().phase() != State::Connected {
            Some(Error::ProtocolViolation)
        } else if self.session().ping_outstanding() {
            Some(Error::PingOutstanding)
        } else {
            self.outbox().enqueue_error(PacketView::PingReq)
        }
    }

    /// Why the connection is not left, if it is not.
    pub open spec fn disconnect_refusal(&self) -> Option<Error> {
        if self.session().phase() == State::Disconnected {
            None
        } else {
            self.outbox().enqueue_error(PacketView::Disconnect)
        }
    }

    /// The PUBLISH that `msg` becomes, as far as the queue cares: with
    /// some packet identifier where the QoS asks for one.
    pub open spec fn publish_preview(msg: Msg) -> PacketView {
        PacketView::Publish(
            PublishView {
                packet_id: if msg.qos == QoS::AtMostOnce {
                    None
                } else {
                    Some(PacketId(1))
                },
                ..msg@
            },
        )
    }

    /// Why a message is not published, if it is not.
    pub open spec fn publish_refusal(&self, msg: Msg) -> Option<Error> {
        if self.session().phase() != State::Connected {
            Some(Error::ProtocolViolation)
        } else if self.outbox().enqueue_error(Self::publish_preview(msg)) is Some {
            self.outbox().enqueue_error(Self::publish_preview(msg))
        } else if msg.qos != QoS::AtMostOnce && !(self.session().pool().has_free_publish()
            && !self.session().pool().exhausted()) {
            Some(Error::NoPacketIdAvailable)
        } else {
            None
        }
    }

    /// Why a subscription is refused, if it is: the session is not
    /// connected; the SUBSCRIBE is needed and the queue does not take it;
    /// or the session refuses.
    pub open spec fn subscribe_refusal(&self, sub: Subscription) -> Option<Error> {
        let request = PacketView::Subscribe(
            SubscribeView {
                packet_id: PacketId(1),
                topics: seq![SubscriptionView { topic_filter: sub.topic_bytes(), qos: sub.qos }],
            },
        );
        if self.session().phase() != State::Connected {
            Some(Error::ProtocolViolation)
        } else if self.session().subscribe_needs_packet(sub.topic_bytes())
            && self.outbox().enqueue_error(request) is Some {
            self.outbox().enqueue_error(request)
        } else {
            self.session().subscribe_error(sub.topic_bytes())
        }
    }

    /// Why the end of a subscription is refused, if it is: the session
    /// is not connected; the UNSUBSCRIBE is needed and the queue does not
    /// take it; or the session refuses.
    pub open spec fn unsubscribe_refusal(&self, topic: Seq<u8>) -> Option<Error> {
        let request = PacketView::Unsubscribe(
            UnsubscribeView { packet_id: PacketId(1), topics: seq![topic] },
        );
        if self.session().phase() != State::Connected {
            Some(Error::ProtocolViolation)
        } else if self.session().unsubscribe_needs_packet(topic) && self.outbox().enqueue_error(
            request,
        ) is Some {
            self.outbox().enqueue_error(request)
        } else {
            self.session().unsubscribe_error(topic)
        }
    }

    /// The packet that is ready to be taken, or why there is none:
    /// `UnexpectedEof` where no packet has arrived as a whole, else what
    /// its decoding says.
    pub open spec fn ready(&self) -> Result<PacketView, Error> {
        match self.parser().frame() {
            None => Err(Error::UnexpectedEof),
            Some((header, body)) => parse_packet(header, body),
        }
    }

    /// `after` is this client after the session took a step with the
    /// outcome `step`, and `r` is what comes back: where the session
    /// refuses, its error, and nothing new waits to be sent; otherwise the
    /// action of the step is applied to the queue.
    pub open spec fn taken(
        &self,
        after: &Self,
        step: Result<ActionView, Error>,
        r: Result<Option<EventView>, Error>,
    ) -> bool {
        match step {
            Err(e) => r == Err::<Option<EventView>, Error>(e) && self.outbox().unchanged(
                &after.outbox(),
            ),
            Ok(action) => applied(self.outbox(), after.outbox(), action, r),
        }
    }

    /// A client over a receive and a transmit buffer, with the keep-alive
    /// interval `keep_alive` and the present time `now`, both in ticks of
    /// the caller's clock.
    pub fn new(now: u64, keep_alive: u64, rx_buf: &'c mut [u8], tx_buf: &'c mut [u8]) -> (r: Self)
        ensures
            r.wf(),
            r.keep_alive().interval() == keep_alive,
            r.keep_alive().last_activity() == now,
            !r.keep_alive().ping_outstanding(),
            r.session().phase() == State::Disconnected,
            !r.session().session_present(),
            !r.session().ping_outstanding(),
            r.session().pool().is_empty(),
            r.session().incoming().slots().len() == 0,
            r.session().records().len() == 0,
            r.outbox().packets().len() == 0,
            r.outbox().compacted(),
            r.outbox().capacity() == old(tx_buf)@.len(),
            r.parser().capacity() == old(rx_buf)@.len(),
            r.parser().pending().len() == 0,
            r.parser().header() is None,
            r.parser().frame() is None,
    {
        Client {
            keep_alive: KeepAlive::new(now, keep_alive),
            session: Session::new(),
            parser: StreamParser::new(rx_buf),
            outbox: Outbox::new(tx_buf),
        }
    }

    /// Asks for a connection: the session takes the step of
    /// `Session::connect` and the CONNECT waits to be sent. Refused,
    /// without any change, while the session is not disconnected or when
    /// the queue does not take the packet.
    pub fn schedule_connect<'a>(&mut self, opts: Options<'a>) -> (r: Result<(), Error>)
        requires
            old(self).wf(),
        ensures
            final(self).wf(),
            final(self).same_io(old(self)),
            match old(self).connect_refusal(opts) {
                Some(e) => r == Err::<(), Error>(e) && final(self).untouched(old(self)),
                None => {
                    &&& r is Ok
                    &&& old(self).session().connect_step(
                        &final(self).session(),
                        opts@,
                        Ok(ActionView::Send(PacketView::Connect(opts@))),
                    )
                    &&& old(self).queued(final(self), PacketView::Connect(opts@))
                },
            },
    {
        self.session.ensure_state(State::Disconnected)?;
        let preview = Packet::Connect(Connect::from_options(opts));
        self.outbox.check(&preview)?;
        let action = self.session.connect(opts)?;
        let _ = apply_action(&mut self.outbox, action)?;
        Ok(())
    }

    /// Leaves the connection: the session takes the step of
    /// `Session::disconnect` and the DISCONNECT waits to be sent. While
    /// disconnected there is nothing to do. Refused, without any change,
    /// when the queue does not take the packet.
    pub fn schedule_disconnect(&mut self) -> (r: Result<(), Error>)
        requires
            old(self).wf(),
        ensures
            final(self).wf(),
            final(self).same_io(old(self)),
            match old(self).disconnect_refusal() {
                Some(e) => r == Err::<(), Error>(e) && final(self).untouched(old(self)),
                None => r is Ok && if old(self).session().phase() == State::Disconnected {
                    final(self).untouched(old(self))
                } else {
                    &&& old(self).session().disconnect_step(
                        &final(self).session(),
                        ActionView::Send(PacketView::Disconnect),
                    )
                    &&& old(self).queued(final(self), PacketView::Disconnect)
                },
            },
    {
        if self.session.ensure_state(State::Disconnected).is_ok() {
            return Ok(());
        }
        self.outbox.check(&Packet::Disconnect)?;
        let action = self.session.disconnect();
        let _ = apply_action(&mut self.outbox, action)?;
        Ok(())
    }

    /// Asks for a ping: the session takes the step of `Session::ping`
    /// and the PINGREQ waits to be sent. Refused, without any change,
    /// while the session is not connected, while a ping is outstanding, or
    /// when the queue does not take the packet.
    pub fn schedule_ping(&mut self) -> (r: Result<(), Error>)
        requires
            old(self).wf(),
        ensures
            final(self).wf(),
            final(self).same_io(old(self)),
            match old(self).ping_refusal() {
                Some(e) => r == Err::<(), Error>(e) && final(self).untouched(old(self)),
                None => {
                    &&& r is Ok
                    &&& old(self).session().ping_step(
                        &final(self).session(),
                        Ok(ActionView::Send(PacketView::PingReq)),
                    )
                    &&& old(self).queued(final(self), PacketView::PingReq)
                },
            },
    {
        self.session.ensure_state(State::Connected)?;
        if self.session.is_ping_outstanding() {
            return Err(Error::PingOutstanding);
        }
        self.outbox.check(&Packet::PingReq)?;
        let action = self.session.ping()?;
        let _ = apply_action(&mut self.outbox, action)?;
        Ok(())
    }

    /// Publishes a message: the session takes the step of
    /// `Session::publish` and the PUBLISH waits to be sent. Refused,
    /// without any change, while the session is not connected, when the
    /// queue does not take the packet, or when no packet identifier can
    /// be allocated.
    pub fn schedule_publish<'a>(&mut self, msg: Msg<'a>) -> (r: Result<(), Error>)
        requires
            old(self).wf(),
        ensures
            final(self).wf(),
            final(self).same_io(old(self)),
            old(self).publish_refusal(msg) matches Some(e) ==> r == Err::<(), Error>(e) && final(self).untouched(old(self)),
            old(self).publish_refusal(msg) is None ==> r is Ok,
            old(self).publish_refusal(msg) is None ==> exists|packet: PublishView|
                {
                    &&& #[trigger] old(self).session().publish_step(
                        &final(self).session(),
                        msg@,
                        Ok(ActionView::Send(PacketView::Publish(packet))),
                    )
                    &&& old(self).queued(final(self), PacketView::Publish(packet))
                },
    {
        self.session.ensure_state(State::Connected)?;
        let mut preview = Publish::from_msg(msg);
        if msg.qos != QoS::AtMostOnce {
            preview.packet_id = Some(PacketId(1));
        }
        let preview = Packet::Publish(preview);
        self.outbox.check(&preview)?;
        let action = self.session.publish(msg)?;
        let ghost sent = action@;
        proof {
            assert(sent is Send && sent->Send_0 is Publish);
            lemma_publish_size(old(self).outbox(), sent->Send_0->Publish_0, preview@->Publish_0);
        }
        let _ = apply_action(&mut self.outbox, action)?;
        proof {
            let packet = sent->Send_0->Publish_0;
            assert(old(self).session().publish_step(
                &self.session(),
                msg@,
                Ok(ActionView::Send(PacketView::Publish(packet))),
            ));
            assert(old(self).queued(self, PacketView::Publish(packet)));
        }
        Ok(())
    }

    /// Subscribes to a topic filter: the session takes the step of
    /// `Session::subscribe` and the SUBSCRIBE, if one is needed, waits to
    /// be sent. Refused, without any change, when the session refuses or
    /// the queue does not take the packet.
    pub fn schedule_subscribe(&mut self, sub: Subscription<'c>) -> (r: Result<(), Error>)
        requires
            old(self).wf(),
        ensures
            final(self).wf(),
            final(self).same_io(old(self)),
            old(self).subscribe_refusal(sub) matches Some(e) ==> r == Err::<(), Error>(e) && final(self).untouched(old(self)),
            old(self).subscribe_refusal(sub) is None ==> r is Ok,
            old(self).subscribe_refusal(sub) is None ==> exists|action: ActionView|
                {
                    &&& #[trigger] old(self).session().subscribe_step(
                        &final(self).session(),
                        sub,
                        Ok(action),
                    )
                    &&& applied(old(self).outbox(), final(self).outbox(), action, Ok(None))
                },
    {
        let request = subscribe::Subscription {
            topic_filter: crate::buffer::String::from_str(sub.topic),
            qos: sub.qos,
        };
        let preview = Packet::Subscribe(Subscribe::single(PacketId(1), request));
        if let Err(e) = self.session.ensure_state(State::Connected) {
            return Err(e);
        }
        let refusal = self.outbox.check(&preview);
        if self.session.needs_subscribe(sub.topic.as_bytes()) {
            if let Err(e) = refusal {
                return Err(e);
            }
        }
        let action = self.session.subscribe(sub)?;
        let ghost taken = action@;
        proof {
            assert(old(self).session().subscribe_step(&self.session(), sub, Ok(taken)));
            match taken {
                ActionView::Send(PacketView::Subscribe(packet)) => {
                    lemma_subscribe_size(old(self).outbox(), packet, preview@->Subscribe_0);
                },
                _ => {},
            }
        }
        let _ = apply_action(&mut self.outbox, action)?;
        proof {
            assert(old(self).session().subscribe_step(&self.session(), sub, Ok(taken)));
            assert(applied(old(self).outbox(), self.outbox(), taken, Ok(None)));
        }
        Ok(())
    }

    /// Ends the subscription to a topic filter: the session takes the
    /// step of `Session::unsubscribe` and the UNSUBSCRIBE, if one is
    /// needed, waits to be sent. Refused, without any change, when the
    /// session refuses or the queue does not take the packet.
    pub fn schedule_unsubscribe<'a>(&mut self, topic: &'a str) -> (r: Result<(), Error>)
        requires
            old(self).wf(),
        ensures
            final(self).wf(),
            final(self).same_io(old(self)),
            old(self).unsubscribe_refusal(topic.spec_bytes()) matches Some(e) ==> r == Err::<
                (),
                Error,
            >(e) && final(self).untouched(old(self)),
            old(self).unsubscribe_refusal(topic.spec_bytes()) is None ==> r is Ok,
            old(self).unsubscribe_refusal(topic.spec_bytes()) is None ==> exists|
                action: ActionView,
            |
                {
                    &&& #[trigger] old(self).session().unsubscribe_step(
                        &final(self).session(),
                        topic.spec_bytes(),
                        Ok(action),
                    )
                    &&& applied(old(self).outbox(), final(self).outbox(), action, Ok(None))
                },
    {
        let preview = Packet::Unsubscribe(
            Unsubscribe::single(PacketId(1), crate::buffer::String::from_str(topic)),
        );
        if let Err(e) = self.session.ensure_state(State::Connected) {
            return Err(e);
        }
        let refusal = self.outbox.check(&preview);
        if self.session.needs_unsubscribe(topic.as_bytes()) {
            if let Err(e) = refusal {
                return Err(e);
            }
        }
        let action = self.session.unsubscribe(topic)?;
        let ghost taken = action@;
        proof {
            assert(old(self).session().unsubscribe_step(
                &self.session(),
                topic.spec_bytes(),
                Ok(taken),
            ));
            match taken {
                ActionView::Send(PacketView::Unsubscribe(packet)) => {
                    lemma_unsubscribe_size(old(self).outbox(), packet, preview@->Unsubscribe_0);
                },
                _ => {},
            }
        }
        let _ = apply_action(&mut self.outbox, action)?;
        proof {
            assert(old(self).session().unsubscribe_step(
                &self.session(),
                topic.spec_bytes(),
                Ok(taken),
            ));
            assert(applied(old(self).outbox(), self.outbox(), taken, Ok(None)));
        }
        Ok(())
    }

    /// Looks at the keep-alive timer. When a ping is due, a PINGREQ is
    /// scheduled. When the broker has been silent for the whole interval
    /// after a ping, a DISCONNECT is scheduled and the answer is
    /// `TimedOut`. A clock that has gone backwards is a `TimeError`, and
    /// a ping or a disconnect that cannot be scheduled is the error that
    /// `schedule_ping` or `schedule_disconnect` gives.
    pub fn poll_timers(&mut self, now: u64) -> (r: Result<(), Error>)
        requires
            old(self).wf(),
        ensures
            final(self).wf(),
            final(self).parser() == old(self).parser(),
            final(self).outbox().capacity() == old(self).outbox().capacity(),
            final(self).keep_alive().interval() == old(self).keep_alive().interval(),
            final(self).keep_alive().last_activity() == old(self).keep_alive().last_activity(),
            old(self).keep_alive().ping_due(now) matches Err(e) ==> {
                &&& r == Err::<(), Error>(e)
                &&& final(self).untouched(old(self))
                &&& final(self).keep_alive() == old(self).keep_alive()
            },
            old(self).keep_alive().ping_due(now) == Ok::<bool, Error>(false) ==> final(self).keep_alive() == old(self).keep_alive(),
            old(self).keep_alive().ping_due(now) == Ok::<bool, Error>(false) ==> match old(self).keep_alive().expired(now) {
                Err(e) => r == Err::<(), Error>(e) && final(self).untouched(old(self)),
                Ok(false) => r is Ok && final(self).untouched(old(self)),
                Ok(true) => match old(self).disconnect_refusal() {
                    Some(e) => r == Err::<(), Error>(e) && final(self).untouched(old(self)),
                    None => {
                        &&& r == Err::<(), Error>(Error::TimedOut)
                        &&& if old(self).session().phase() == State::Disconnected {
                            final(self).untouched(old(self))
                        } else {
                            &&& old(self).session().disconnect_step(
                                &final(self).session(),
                                ActionView::Send(PacketView::Disconnect),
                            )
                            &&& old(self).queued(final(self), PacketView::Disconnect)
                        }
                    },
                },
            },
            old(self).keep_alive().ping_due(now) == Ok::<bool, Error>(true) ==> final(self).keep_alive().ping_outstanding(),
            old(self).keep_alive().ping_due(now) == Ok::<bool, Error>(true) ==> match old(self).ping_refusal() {
                Some(e) => r == Err::<(), Error>(e) && final(self).untouched(old(self)),
                None => if now - old(self).keep_alive().last_activity() < old(self).keep_alive().interval() {
                    &&& r is Ok
                    &&& old(self).session().ping_step(
                        &final(self).session(),
                        Ok(ActionView::Send(PacketView::PingReq)),
                    )
                    &&& old(self).queued(final(self), PacketView::PingReq)
                } else {
                    match old(self).outbox().enqueue_error_behind(
                        PacketView::PingReq,
                        PacketView::Disconnect,
                    ) {
                        Some(e) => {
                            &&& r == Err::<(), Error>(e)
                            &&& old(self).session().ping_step(
                                &final(self).session(),
                                Ok(ActionView::Send(PacketView::PingReq)),
                            )
                            &&& old(self).queued(final(self), PacketView::PingReq)
                        },
                        None => {
                            &&& r == Err::<(), Error>(Error::TimedOut)
                            &&& final(self).session().phase() == State::Disconnected
                            &&& final(self).outbox().packets() == old(self).outbox().packets().push(PacketView::PingReq.bytes()).push(
                                PacketView::Disconnect.bytes(),
                            )
                        },
                    }
                },
            },
    {
        if self.keep_alive.should_ping(now)? {
            self.schedule_ping()?;
        }
        if self.keep_alive.timed_out(now)? {
            self.schedule_disconnect()?;
            return Err(Error::TimedOut);
        }
        Ok(())
    }

    /// The phase of the connection.
    pub fn state(&self) -> (r: State)
        ensures
            r == self.session().phase(),
    {
        self.session.state()
    }

    /// The subscription to the topic filter `topic`, if there is one.
    pub fn subscription(&self, topic: &str) -> (r: Option<Subscription<'c>>)
        requires
            self.wf(),
        ensures
            r == self.session().record_of(topic.spec_bytes()),
    {
        self.session.subscription(topic)
    }

    /// When something was last sent or received.
    pub fn last_activity(&self) -> (r: u64)
        ensures
            r == self.keep_alive().last_activity(),
    {
        self.keep_alive.last_activity_at()
    }

    /// How many packets wait to be sent.
    pub fn pending_output(&self) -> (r: usize)
        ensures
            r == self.outbox().packets().len(),
    {
        self.outbox.len()
    }

    /// Whether a packet waits to be sent.
    pub fn has_output(&self) -> (r: bool)
        ensures
            r == (self.outbox().packets().len() > 0),
    {
        self.outbox.has_pending()
    }

    /// The packet to send next, as it goes on the wire.
    pub fn output(&self) -> (r: Option<&[u8]>)
        requires
            self.wf(),
        ensures
            match r {
                Some(bytes) => self.outbox().packets().len() > 0 && bytes@
                    == self.outbox().packets()[0],
                None => self.outbox().packets().len() == 0,
            },
    {
        self.outbox.head()
    }

    /// Notes that the packet that `output` handed out was sent at `now`:
    /// it leaves the queue, and the keep-alive timer starts anew.
    pub fn output_sent(&mut self, now: u64) -> (r: Result<(), Error>)
        requires
            old(self).wf(),
        ensures
            r is Ok,
            final(self).wf(),
            final(self).session() == old(self).session(),
            final(self).parser() == old(self).parser(),
            final(self).outbox().capacity() == old(self).outbox().capacity(),
            final(self).outbox().compacted(),
            final(self).outbox().packets() == if old(self).outbox().packets().len() > 0 {
                old(self).outbox().packets().skip(1)
            } else {
                old(self).outbox().packets()
            },
            final(self).keep_alive().last_activity() == now,
            final(self).keep_alive().interval() == old(self).keep_alive().interval(),
            final(self).keep_alive().ping_outstanding() == old(self).keep_alive().ping_outstanding(),
    {
        self.outbox.complete_head()?;
        self.keep_alive.on_send(now);
        Ok(())
    }

    /// Says what is to be done next. A packet that waits to be sent goes
    /// first, and nothing changes. Otherwise the receive buffer is looked
    /// at as `poll_input` does: a packet that has arrived as a whole is to
    /// be handled, and else more bytes are to be read.
    pub fn next_step(&mut self) -> (r: Result<Step, Error>)
        requires
            old(self).wf(),
        ensures
            final(self).wf(),
            final(self).session() == old(self).session(),
            final(self).outbox() == old(self).outbox(),
            final(self).keep_alive() == old(self).keep_alive(),
            final(self).parser().capacity() == old(self).parser().capacity(),
            if old(self).outbox().packets().len() > 0 {
                r == Ok::<Step, Error>(Step::Send) && final(self).parser() == old(self).parser()
            } else {
                match old(self).parser().upcoming() {
                    Err(e) => {
                        &&& r == Err::<Step, Error>(e)
                        &&& final(self).parser().pending() == old(self).parser().pending()
                        &&& final(self).parser().header() == old(self).parser().header()
                        &&& final(self).parser().frame() == old(self).parser().frame()
                    },
                    Ok(Some((header, used, body))) => {
                        &&& r == Ok::<Step, Error>(Step::Handle)
                        &&& final(self).parser().frame() == Some((header, body))
                        &&& final(self).parser().pending() == old(self).parser().pending().skip(
                            used as int,
                        )
                        &&& final(self).parser().header() is None
                    },
                    Ok(None) => {
                        &&& r == Ok::<Step, Error>(Step::Fill)
                        &&& final(self).parser().frame() is None
                        &&& final(self).parser().start() == 0
                        &&& match old(self).parser().upcoming_header() {
                            Ok(Some((header, used))) => final(self).parser().header() == Some(
                                header,
                            ) && final(self).parser().pending() == old(self).parser().pending().skip(used as int),
                            _ => final(self).parser().header() is None && final(self).parser().pending() == old(self).parser().pending(),
                        }
                    },
                }
            },
    {
        if self.outbox.has_pending() {
            return Ok(Step::Send);
        }
        if self.parser.poll()? {
            Ok(Step::Handle)
        } else {
            Ok(Step::Fill)
        }
    }

    /// Looks whether the next packet has arrived as a whole, as
    /// `StreamParser::poll` does.
    pub fn poll_input(&mut self) -> (r: Result<bool, Error>)
        requires
            old(self).wf(),
        ensures
            final(self).wf(),
            final(self).session() == old(self).session(),
            final(self).outbox() == old(self).outbox(),
            final(self).keep_alive() == old(self).keep_alive(),
            final(self).parser().capacity() == old(self).parser().capacity(),
            match old(self).parser().upcoming() {
                Err(e) => {
                    &&& r == Err::<bool, Error>(e)
                    &&& final(self).parser().pending() == old(self).parser().pending()
                    &&& final(self).parser().header() == old(self).parser().header()
                    &&& final(self).parser().frame() == old(self).parser().frame()
                },
                Ok(Some((header, used, body))) => {
                    &&& r == Ok::<bool, Error>(true)
                    &&& final(self).parser().frame() == Some((header, body))
                    &&& final(self).parser().pending() == old(self).parser().pending().skip(
                        used as int,
                    )
                    &&& final(self).parser().header() is None
                },
                Ok(None) => {
                    &&& r == Ok::<bool, Error>(false)
                    &&& final(self).parser().frame() is None
                    &&& final(self).parser().start() == 0
                    &&& match old(self).parser().upcoming_header() {
                        Ok(Some((header, used))) => final(self).parser().header() == Some(header)
                            && final(self).parser().pending() == old(self).parser().pending().skip(used as int),
                        _ => final(self).parser().header() is None && final(self).parser().pending() == old(self).parser().pending(),
                    }
                },
            },
    {
        self.parser.poll()
    }

    /// The part of the receive buffer behind the bytes that have arrived,
    /// for the transport to read into, as `StreamParser::space` hands it out.
    pub fn input_space(&mut self) -> (r: &mut [u8])
        requires
            old(self).wf(),
        ensures
            r@.len() == old(self).parser().capacity() - old(self).parser().end(),
            final(self).session() == old(self).session(),
            final(self).outbox() == old(self).outbox(),
            final(self).keep_alive() == old(self).keep_alive(),
            final(self).parser().start() == old(self).parser().start(),
            final(self).parser().end() == old(self).parser().end(),
            final(self).parser().header() == old(self).parser().header(),
            final(self).parser().frame() is None,
            final(self).parser().storage() == old(self).parser().storage().subrange(
                0,
                old(self).parser().end() as int,
            ) + final(r)@,
    {
        self.parser.space()
    }

    /// Notes that the transport has delivered `n` more bytes, as
    /// `StreamParser::commit` does.
    pub fn input_received(&mut self, n: usize) -> (r: Result<(), Error>)
        requires
            old(self).wf(),
        ensures
            final(self).wf(),
            final(self).session() == old(self).session(),
            final(self).outbox() == old(self).outbox(),
            final(self).keep_alive() == old(self).keep_alive(),
            final(self).parser().storage() == old(self).parser().storage(),
            final(self).parser().start() == old(self).parser().start(),
            final(self).parser().header() == old(self).parser().header(),
            final(self).parser().frame() == old(self).parser().frame(),
            if 0 < n <= old(self).parser().capacity() - old(self).parser().end() {
                r is Ok && final(self).parser().end() == old(self).parser().end() + n
            } else {
                r == Err::<(), Error>(Error::TransportError) && final(self).parser().end() == old(self).parser().end()
            },
    {
        self.parser.commit(n)
    }

    /// Decodes the packet that is ready and lets the session take it:
    /// the session takes the step of `Session::handle`, the reply, if
    /// there is one, waits to be sent, and the event, if there is one,
    /// comes back. The keep-alive timer starts anew. Without a packet that
    /// is ready, or with one that does not decode, nothing changes.
    pub fn handle_input(&mut self, now: u64) -> (r: Result<Option<Event<'_>>, Error>)
        requires
            old(self).wf(),
        ensures
            final(self).wf(),
            final(self).parser() == old(self).parser(),
            final(self).outbox().capacity() == old(self).outbox().capacity(),
            final(self).keep_alive().interval() == old(self).keep_alive().interval(),
            r matches Ok(Some(event)) ==> event.wf(),
            match old(self).parser().frame() {
                None => {
                    &&& r is Err && r->Err_0 == Error::UnexpectedEof
                    &&& final(self).untouched(old(self))
                    &&& final(self).keep_alive() == old(self).keep_alive()
                },
                Some((header, body)) => match parse_packet(header, body) {
                    Err(e) => {
                        &&& r is Err && r->Err_0 == e
                        &&& final(self).untouched(old(self))
                        &&& final(self).keep_alive() == old(self).keep_alive()
                    },
                    Ok(packet) => {
                        &&& final(self).keep_alive().last_activity() == now
                        &&& !final(self).keep_alive().ping_outstanding()
                        &&& exists|step: Result<ActionView, Error>|
                            {
                                &&& #[trigger] old(self).session().handle_step(
                                    &final(self).session(),
                                    packet,
                                    step,
                                )
                                &&& match step {
                                    Err(e) => event_outcome(r) == Err::<Option<EventView>, Error>(
                                        e,
                                    ) && final(self).outbox().packets() == old(self).outbox().packets(),
                                    Ok(action) => applied(
                                        old(self).outbox(),
                                        final(self).outbox(),
                                        action,
                                        event_outcome(r),
                                    ),
                                }
                            }
                    },
                },
            },
    {
        let packet = self.parser.packet()?;
        self.keep_alive.on_receive(now);

        let ghost seen = packet@;
        let action = match self.session.handle(&packet) {
            Ok(action) => action,
            Err(e) => {
                proof {
                    let step = Err::<ActionView, Error>(e);
                    assert(old(self).session().handle_step(&self.session(), seen, step));
                    assert(old(self).taken(self, step, Err::<Option<EventView>, Error>(e)));
                }
                return Err(e);
            },
        };
        let ghost step = Ok::<ActionView, Error>(action@);
        let r = apply_action(&mut self.outbox, action);
        proof {
            assert(old(self).session().handle_step(&self.session(), seen, step));
            assert(old(self).taken(self, step, event_outcome(r)));
        }
        r
    }
}

} // verus!
