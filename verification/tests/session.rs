use mqtt_client::buffer;
use mqtt_client::incoming::{PubInState, N_PUB_IN};
use mqtt_client::packet::connect::{ConnAck, ConnectReturnCode, Options};
use mqtt_client::packet::publish::{Flags, Msg, Publish};
use mqtt_client::packet::subscribe::{SubAck, SubAckReturnCode};
use mqtt_client::packet::{encode, Packet, PacketId, QoS};
use mqtt_client::packet_id_pool::PubInFlightState;
use mqtt_client::session::{
    Action, Event, Session, State, SubState, Subscription, HELD_PAYLOAD_CAPACITY,
    HELD_TOPIC_CAPACITY, N_PUB_OUT, N_SUB,
};
use mqtt_client::Error;

fn options(clean_session: bool) -> Options<'static> {
    Options {
        clean_session,
        keep_alive: 60,
        client_id: "Client",
        will: None,
        username: None,
        password: None,
    }
}

fn accepted(session_present: bool) -> ConnAck {
    ConnAck {
        session_present,
        return_code: ConnectReturnCode::Accepted,
    }
}

fn connected<'s>() -> Session<'s> {
    let mut session = Session::new();
    session.connect(options(true)).unwrap();
    session.on_connack(&accepted(false)).unwrap();
    session
}

fn sent(action: Action) -> Vec<u8> {
    match action {
        Action::Send(packet) => {
            let mut buf = [0u8; 128];
            let mut cursor = encode::Cursor::new(&mut buf);
            packet.encode(&mut cursor).unwrap();
            cursor.written().to_vec()
        }
        _ => panic!("expected a packet to send"),
    }
}

fn subscribed<'s>(topic: &'s str) -> Session<'s> {
    let mut session = connected();
    session
        .subscribe(Subscription::new(topic, Some(QoS::ExactlyOnce)))
        .unwrap();
    session
        .on_suback(&SubAck::single(PacketId(1), SubAckReturnCode::SuccessMaxQoS2))
        .unwrap();
    session
}

fn incoming<'a>(topic: &'a str, payload: &'a [u8], qos: QoS, id: Option<u16>) -> Publish<'a> {
    Publish {
        flags: Flags {
            dup: false,
            qos,
            retain: false,
        },
        topic: buffer::String::from(topic),
        packet_id: id.map(PacketId),
        payload: buffer::Slice::from(payload),
    }
}

#[test]
fn session_connects() {
    let mut session = Session::new();
    assert_eq!(session.state(), State::Disconnected);
    let bytes = sent(session.connect(options(true)).unwrap());
    assert_eq!(
        bytes,
        vec![
            0x10, 0x12, 0x00, 0x04, 0x4D, 0x51, 0x54, 0x54, 0x04, 0x02, 0x00, 0x3C, 0x00, 0x06,
            0x43, 0x6C, 0x69, 0x65, 0x6E, 0x74
        ]
    );
    assert_eq!(session.state(), State::Connecting);
    assert!(matches!(
        session.connect(options(true)),
        Err(Error::ProtocolViolation)
    ));
    let action = session.on_connack(&accepted(false)).unwrap();
    assert!(matches!(action, Action::Event(Event::Connected)));
    assert_eq!(session.state(), State::Connected);
    assert!(matches!(
        session.on_connack(&accepted(false)),
        Err(Error::ProtocolViolation)
    ));
    assert!(session.ensure_state(State::Connected).is_ok());
    assert!(matches!(
        session.ensure_state(State::Connecting),
        Err(Error::ProtocolViolation)
    ));
}

#[test]
fn session_refused_connection_is_closed() {
    let mut session = Session::new();
    session.connect(options(true)).unwrap();
    let refusal = ConnAck {
        session_present: false,
        return_code: ConnectReturnCode::NotAuthorized,
    };
    assert!(matches!(
        session.on_connack(&refusal),
        Err(Error::RemoteClosed)
    ));
    assert_eq!(session.state(), State::Disconnected);
    session.connect(options(true)).unwrap();
}

#[test]
fn session_nothing_works_while_disconnected() {
    let mut session = Session::new();
    let msg = Msg {
        qos: QoS::AtMostOnce,
        retain: false,
        topic: "t",
        payload: b"p",
    };
    assert!(matches!(session.publish(msg), Err(Error::ProtocolViolation)));
    assert!(matches!(
        session.subscribe(Subscription::new("t", None)),
        Err(Error::ProtocolViolation)
    ));
    assert!(matches!(
        session.unsubscribe("t"),
        Err(Error::ProtocolViolation)
    ));
    assert!(matches!(session.ping(), Err(Error::ProtocolViolation)));
    assert!(matches!(
        session.on_publish(&incoming("t", b"p", QoS::AtMostOnce, None)),
        Err(Error::ProtocolViolation)
    ));
    for id in [PacketId(1)] {
        assert!(matches!(session.on_puback(&id), Err(Error::ProtocolViolation)));
        assert!(matches!(session.on_pubrec(&id), Err(Error::ProtocolViolation)));
        assert!(matches!(session.on_pubrel(&id), Err(Error::ProtocolViolation)));
        assert!(matches!(session.on_pubcomp(&id), Err(Error::ProtocolViolation)));
        assert!(matches!(session.on_unsuback(&id), Err(Error::ProtocolViolation)));
    }
    assert!(matches!(
        session.on_suback(&SubAck::single(PacketId(1), SubAckReturnCode::SuccessMaxQoS0)),
        Err(Error::ProtocolViolation)
    ));
    assert!(matches!(session.disconnect(), Action::Nothing));
    assert!(matches!(session.on_disconnect(), Action::Nothing));
}

#[test]
fn session_publish_qos0_needs_no_id() {
    let mut session = connected();
    let bytes = sent(
        session
            .publish(Msg {
                qos: QoS::AtMostOnce,
                retain: true,
                topic: "t",
                payload: b"p",
            })
            .unwrap(),
    );
    assert_eq!(bytes, vec![0x31, 0x04, 0x00, 0x01, b't', b'p']);
    assert_eq!(session.publish_state(&PacketId(1)), None);
}

#[test]
fn session_publish_qos1_flow() {
    let mut session = connected();
    let bytes = sent(
        session
            .publish(Msg {
                qos: QoS::AtLeastOnce,
                retain: false,
                topic: "t",
                payload: b"p",
            })
            .unwrap(),
    );
    assert_eq!(bytes, vec![0x32, 0x06, 0x00, 0x01, b't', 0x00, 0x01, b'p']);
    assert_eq!(
        session.publish_state(&PacketId(1)),
        Some(PubInFlightState::AwaitPubAck)
    );
    assert!(matches!(
        session.on_pubrec(&PacketId(1)),
        Err(Error::ProtocolViolation)
    ));
    assert!(matches!(
        session.on_pubcomp(&PacketId(1)),
        Err(Error::ProtocolViolation)
    ));
    assert!(matches!(
        session.on_puback(&PacketId(2)),
        Err(Error::ProtocolViolation)
    ));
    assert!(matches!(
        session.on_puback(&PacketId(1)).unwrap(),
        Action::Event(Event::Published)
    ));
    assert_eq!(session.publish_state(&PacketId(1)), None);
    assert!(matches!(
        session.on_puback(&PacketId(1)),
        Err(Error::ProtocolViolation)
    ));
}

#[test]
fn session_publish_qos2_flow() {
    let mut session = connected();
    let bytes = sent(
        session
            .publish(Msg {
                qos: QoS::ExactlyOnce,
                retain: false,
                topic: "t",
                payload: b"p",
            })
            .unwrap(),
    );
    assert_eq!(bytes, vec![0x34, 0x06, 0x00, 0x01, b't', 0x00, 0x01, b'p']);
    assert_eq!(
        session.publish_state(&PacketId(1)),
        Some(PubInFlightState::AwaitPubRec)
    );
    assert!(matches!(
        session.on_puback(&PacketId(1)),
        Err(Error::ProtocolViolation)
    ));
    assert!(matches!(
        session.on_pubcomp(&PacketId(1)),
        Err(Error::ProtocolViolation)
    ));
    assert_eq!(
        sent(session.on_pubrec(&PacketId(1)).unwrap()),
        vec![0x62, 0x02, 0x00, 0x01]
    );
    assert_eq!(
        session.publish_state(&PacketId(1)),
        Some(PubInFlightState::AwaitPubComp)
    );
    assert_eq!(
        sent(session.on_pubrec(&PacketId(1)).unwrap()),
        vec![0x62, 0x02, 0x00, 0x01]
    );
    assert!(matches!(
        session.on_pubcomp(&PacketId(1)).unwrap(),
        Action::Event(Event::Published)
    ));
    assert_eq!(session.publish_state(&PacketId(1)), None);
    assert!(matches!(
        session.on_pubcomp(&PacketId(1)),
        Err(Error::ProtocolViolation)
    ));
    assert!(matches!(
        session.on_pubrec(&PacketId(1)),
        Err(Error::ProtocolViolation)
    ));
}

#[test]
fn session_publish_runs_out_of_slots() {
    let mut session = connected();
    let msg = Msg {
        qos: QoS::AtLeastOnce,
        retain: false,
        topic: "t",
        payload: b"p",
    };
    for _ in 0..N_PUB_OUT {
        session.publish(msg).unwrap();
    }
    assert!(matches!(
        session.publish(msg),
        Err(Error::NoPacketIdAvailable)
    ));
    session.on_puback(&PacketId(3)).unwrap();
    let bytes = sent(session.publish(msg).unwrap());
    assert_eq!(&bytes[5..7], &[0x00, (N_PUB_OUT + 1) as u8]);
}

#[test]
fn session_subscribe_flow() {
    let mut session = connected();
    for _ in 0..9 {
        session
            .publish(Msg {
                qos: QoS::AtLeastOnce,
                retain: false,
                topic: "t",
                payload: b"",
            })
            .unwrap();
    }
    let bytes = sent(
        session
            .subscribe(Subscription::new("a/b", Some(QoS::AtLeastOnce)))
            .unwrap(),
    );
    assert_eq!(
        bytes,
        vec![0x82, 0x08, 0x00, 0x0A, 0x00, 0x03, 0x61, 0x2F, 0x62, 0x01]
    );
    let record = session.subscription("a/b").unwrap();
    assert_eq!(record.state, SubState::Pending(PacketId(10)));
    assert_eq!(record.qos, QoS::AtLeastOnce);
    assert!(matches!(
        session
            .subscribe(Subscription::new("a/b", Some(QoS::ExactlyOnce)))
            .unwrap(),
        Action::Nothing
    ));
    assert_eq!(session.subscription("a/b").unwrap().qos, QoS::AtLeastOnce);

    let action = session
        .on_suback(&SubAck::single(PacketId(10), SubAckReturnCode::SuccessMaxQoS1))
        .unwrap();
    assert!(matches!(action, Action::Event(Event::Subscribed)));
    let record = session.subscription("a/b").unwrap();
    assert_eq!(record.state, SubState::Active);
    assert_eq!(record.qos, QoS::AtLeastOnce);
    assert!(matches!(
        session
            .subscribe(Subscription::new("a/b", None))
            .unwrap(),
        Action::Nothing
    ));
    assert!(matches!(
        session.on_suback(&SubAck::single(PacketId(10), SubAckReturnCode::SuccessMaxQoS1)),
        Err(Error::ProtocolViolation)
    ));
    assert!(session.subscription("a").is_none());
}

#[test]
fn session_subscription_granted_qos_and_failure() {
    let mut session = connected();
    session
        .subscribe(Subscription::new("low", Some(QoS::ExactlyOnce)))
        .unwrap();
    session
        .subscribe(Subscription::new("none", Some(QoS::AtLeastOnce)))
        .unwrap();
    session
        .on_suback(&SubAck::single(PacketId(1), SubAckReturnCode::SuccessMaxQoS0))
        .unwrap();
    let action = session
        .on_suback(&SubAck::single(PacketId(2), SubAckReturnCode::Failure))
        .unwrap();
    assert!(matches!(action, Action::Event(Event::SubscribeFailed)));
    assert_eq!(session.subscription("low").unwrap().qos, QoS::AtMostOnce);
    assert_eq!(session.subscription("low").unwrap().state, SubState::Active);
    assert_eq!(session.subscription("none").unwrap().state, SubState::Failed);
    assert!(matches!(
        session.unsubscribe("none"),
        Err(Error::ProtocolViolation)
    ));

    let bytes = sent(
        session
            .subscribe(Subscription::new("none", Some(QoS::ExactlyOnce)))
            .unwrap(),
    );
    assert_eq!(&bytes[2..4], &[0x00, 0x03]);
    assert_eq!(
        session.subscription("none").unwrap().state,
        SubState::Pending(PacketId(3))
    );
    assert_eq!(session.subscription("none").unwrap().qos, QoS::ExactlyOnce);
}

#[test]
fn session_subscription_table_is_bounded() {
    let names: Vec<String> = (0..N_SUB + 1).map(|i| format!("topic/{}", i)).collect();
    let mut session = connected();
    for (i, name) in names.iter().take(N_SUB).enumerate() {
        session.subscribe(Subscription::new(name, None)).unwrap();
        session
            .on_suback(&SubAck::single(
                PacketId(i as u16 + 1),
                SubAckReturnCode::SuccessMaxQoS0,
            ))
            .unwrap();
    }
    assert!(matches!(
        session.subscribe(Subscription::new(&names[N_SUB], None)),
        Err(Error::SubVectorIsFull)
    ));
    assert!(session.subscription(&names[N_SUB]).is_none());
    assert!(matches!(
        session.subscribe(Subscription::new(&names[0], None)).unwrap(),
        Action::Nothing
    ));
}

#[test]
fn session_subscribe_runs_out_of_ids() {
    let names: Vec<String> = (0..N_SUB + 1).map(|i| format!("topic/{}", i)).collect();
    let mut session = connected();
    for name in names.iter().take(N_SUB) {
        session.subscribe(Subscription::new(name, None)).unwrap();
    }
    session
        .on_suback(&SubAck::single(PacketId(1), SubAckReturnCode::Failure))
        .unwrap();
    session
        .on_suback(&SubAck::single(PacketId(2), SubAckReturnCode::Failure))
        .unwrap();
    session.subscribe(Subscription::new(&names[0], None)).unwrap();
    session.subscribe(Subscription::new(&names[1], None)).unwrap();
    session
        .on_suback(&SubAck::single(PacketId(3), SubAckReturnCode::Failure))
        .unwrap();
    session.subscribe(Subscription::new(&names[2], None)).unwrap();
    assert_eq!(
        session.subscription(&names[2]).unwrap().state,
        SubState::Pending(PacketId((N_SUB + 3) as u16))
    );
}

#[test]
fn session_suback_must_match_one_pending_subscription() {
    let mut session = connected();
    session.subscribe(Subscription::new("a", None)).unwrap();
    assert!(matches!(
        session.on_suback(&SubAck::single(PacketId(2), SubAckReturnCode::SuccessMaxQoS0)),
        Err(Error::ProtocolViolation)
    ));
    let empty = SubAck {
        packet_id: PacketId(1),
        return_codes: heapless::Vec::new(),
    };
    assert!(matches!(
        session.on_suback(&empty),
        Err(Error::ProtocolViolation)
    ));
    assert_eq!(
        session.subscription("a").unwrap().state,
        SubState::Pending(PacketId(1))
    );
    session
        .on_suback(&SubAck::single(PacketId(1), SubAckReturnCode::SuccessMaxQoS0))
        .unwrap();
}

#[test]
fn session_unsubscribe_flow() {
    let mut session = subscribed("a/b");
    assert!(matches!(
        session.unsubscribe("other"),
        Err(Error::WrongTopicToUnsubscribe)
    ));
    let bytes = sent(session.unsubscribe("a/b").unwrap());
    assert_eq!(
        bytes,
        vec![0xA2, 0x07, 0x00, 0x02, 0x00, 0x03, b'a', b'/', b'b']
    );
    assert_eq!(
        session.subscription("a/b").unwrap().state,
        SubState::UnsubPending(PacketId(2))
    );
    assert!(matches!(session.unsubscribe("a/b").unwrap(), Action::Nothing));
    assert!(matches!(
        session.subscribe(Subscription::new("a/b", None)),
        Err(Error::ProtocolViolation)
    ));
    assert!(matches!(
        session.on_unsuback(&PacketId(3)),
        Err(Error::ProtocolViolation)
    ));
    assert!(matches!(
        session.on_unsuback(&PacketId(2)).unwrap(),
        Action::Event(Event::Unsubscribed)
    ));
    assert!(session.subscription("a/b").is_none());
    assert!(matches!(
        session.on_unsuback(&PacketId(2)),
        Err(Error::ProtocolViolation)
    ));
    assert!(matches!(
        session.on_publish(&incoming("a/b", b"p", QoS::AtMostOnce, None)),
        Err(Error::Unsubscribed)
    ));
}

#[test]
fn session_unsubscribe_needs_an_active_subscription() {
    let mut session = connected();
    session.subscribe(Subscription::new("a", None)).unwrap();
    assert!(matches!(
        session.unsubscribe("a"),
        Err(Error::ProtocolViolation)
    ));
}

#[test]
fn session_incoming_qos0() {
    let mut session = subscribed("topic");
    let publish = incoming("topic", b"payload", QoS::AtMostOnce, None);
    match session.on_publish(&publish).unwrap() {
        Action::Event(Event::Received(message)) => {
            assert_eq!(message.topic(), b"topic");
            assert_eq!(message.payload(), b"payload");
            assert_eq!(message.qos(), QoS::AtMostOnce);
            assert!(!message.retain());
        }
        _ => panic!("expected a received message"),
    }
    assert!(matches!(
        session.on_publish(&incoming("topic/x", b"p", QoS::AtMostOnce, None)),
        Err(Error::Unsubscribed)
    ));
    let mut dup = incoming("topic", b"p", QoS::AtMostOnce, None);
    dup.flags.dup = true;
    assert!(matches!(
        session.on_publish(&dup),
        Err(Error::ProtocolViolation)
    ));
}

#[test]
fn session_incoming_needs_an_active_subscription() {
    let mut session = connected();
    session.subscribe(Subscription::new("topic", None)).unwrap();
    assert!(matches!(
        session.on_publish(&incoming("topic", b"p", QoS::AtMostOnce, None)),
        Err(Error::Unsubscribed)
    ));
}

#[test]
fn session_incoming_qos1() {
    let mut session = subscribed("topic");
    let publish = incoming("topic", b"one", QoS::AtLeastOnce, Some(7));
    match session.on_publish(&publish).unwrap() {
        Action::Reply(Packet::PubAck(id), Event::Received(message)) => {
            assert_eq!(id, PacketId(7));
            assert_eq!(message.payload(), b"one");
            assert_eq!(message.qos(), QoS::AtLeastOnce);
        }
        _ => panic!("expected PUBACK and a received message"),
    }
    assert_eq!(session.incoming_state(&PacketId(7)), Some(PubInState::Done));
    assert_eq!(
        sent(session.on_publish(&publish).unwrap()),
        vec![0x40, 0x02, 0x00, 0x07]
    );
    assert!(matches!(
        session.on_publish(&incoming("topic", b"one", QoS::AtLeastOnce, None)),
        Err(Error::ProtocolViolation)
    ));
}

#[test]
fn session_incoming_qos2() {
    let mut session = subscribed("topic");
    let mut publish = incoming("topic", b"two", QoS::ExactlyOnce, Some(9));
    publish.flags.retain = true;
    assert_eq!(
        sent(session.on_publish(&publish).unwrap()),
        vec![0x50, 0x02, 0x00, 0x09]
    );
    assert_eq!(
        session.incoming_state(&PacketId(9)),
        Some(PubInState::AwaitPubRel)
    );
    publish.flags.dup = true;
    assert_eq!(
        sent(session.on_publish(&publish).unwrap()),
        vec![0x50, 0x02, 0x00, 0x09]
    );
    match session.on_pubrel(&PacketId(9)).unwrap() {
        Action::Reply(Packet::PubComp(id), Event::Received(message)) => {
            assert_eq!(id, PacketId(9));
            assert_eq!(message.topic(), b"topic");
            assert_eq!(message.payload(), b"two");
            assert_eq!(message.qos(), QoS::ExactlyOnce);
            assert!(message.retain());
        }
        _ => panic!("expected PUBCOMP and a received message"),
    }
    assert_eq!(session.incoming_state(&PacketId(9)), Some(PubInState::Done));
    assert_eq!(
        sent(session.on_pubrel(&PacketId(9)).unwrap()),
        vec![0x70, 0x02, 0x00, 0x09]
    );
    assert_eq!(
        sent(session.on_publish(&publish).unwrap()),
        vec![0x50, 0x02, 0x00, 0x09]
    );
    assert_eq!(
        sent(session.on_pubrel(&PacketId(9)).unwrap()),
        vec![0x70, 0x02, 0x00, 0x09]
    );
    assert!(matches!(
        session.on_pubrel(&PacketId(10)),
        Err(Error::ProtocolViolation)
    ));
}

#[test]
fn session_incoming_qos2_must_fit_to_be_held() {
    let mut session = subscribed("topic");
    let payload = vec![7u8; HELD_PAYLOAD_CAPACITY + 1];
    assert!(matches!(
        session.on_publish(&incoming("topic", &payload, QoS::ExactlyOnce, Some(1))),
        Err(Error::BufferTooSmall)
    ));
    assert_eq!(session.incoming_state(&PacketId(1)), None);
    session
        .on_publish(&incoming(
            "topic",
            &payload[..HELD_PAYLOAD_CAPACITY],
            QoS::ExactlyOnce,
            Some(1),
        ))
        .unwrap();
    match session.on_pubrel(&PacketId(1)).unwrap() {
        Action::Reply(_, Event::Received(message)) => {
            assert_eq!(message.payload(), &payload[..HELD_PAYLOAD_CAPACITY]);
        }
        _ => panic!("expected a received message"),
    }
    match session
        .on_publish(&incoming("topic", &payload, QoS::AtLeastOnce, Some(2)))
        .unwrap()
    {
        Action::Reply(_, Event::Received(message)) => assert_eq!(message.payload(), &payload[..]),
        _ => panic!("expected a received message"),
    };
}

#[test]
fn session_incoming_long_topic_cannot_be_held() {
    let long = "t".repeat(HELD_TOPIC_CAPACITY + 1);
    let mut session = subscribed(&long);
    assert!(matches!(
        session.on_publish(&incoming(&long, b"p", QoS::ExactlyOnce, Some(1))),
        Err(Error::BufferTooSmall)
    ));
    assert!(session
        .on_publish(&incoming(&long, b"p", QoS::AtMostOnce, None))
        .is_ok());
}

#[test]
fn session_incoming_tracker_fills_up() {
    let mut session = subscribed("topic");
    for id in 1..=N_PUB_IN as u16 {
        session
            .on_publish(&incoming("topic", b"p", QoS::ExactlyOnce, Some(id)))
            .unwrap();
    }
    assert!(matches!(
        session.on_publish(&incoming("topic", b"p", QoS::ExactlyOnce, Some(100))),
        Err(Error::VectorIsFull)
    ));
    assert!(matches!(
        session.on_publish(&incoming("topic", b"p", QoS::AtLeastOnce, Some(100))),
        Err(Error::VectorIsFull)
    ));
    session.on_pubrel(&PacketId(4)).unwrap();
    session
        .on_publish(&incoming("topic", b"new", QoS::ExactlyOnce, Some(100)))
        .unwrap();
    assert_eq!(session.incoming_state(&PacketId(4)), None);
    match session.on_pubrel(&PacketId(100)).unwrap() {
        Action::Reply(_, Event::Received(message)) => assert_eq!(message.payload(), b"new"),
        _ => panic!("expected a received message"),
    }
}

#[test]
fn session_ping() {
    let mut session = connected();
    assert!(!session.is_ping_outstanding());
    assert_eq!(sent(session.ping().unwrap()), vec![0xC0, 0x00]);
    assert!(session.is_ping_outstanding());
    assert!(matches!(session.ping(), Err(Error::PingOutstanding)));
    assert!(matches!(session.on_pingresp(), Action::Nothing));
    assert!(!session.is_ping_outstanding());
    assert_eq!(sent(session.ping().unwrap()), vec![0xC0, 0x00]);
    assert_eq!(sent(session.on_pingreq()), vec![0xD0, 0x00]);
}

#[test]
fn session_disconnect_tears_down() {
    let mut session = subscribed("topic");
    session
        .publish(Msg {
            qos: QoS::ExactlyOnce,
            retain: false,
            topic: "t",
            payload: b"p",
        })
        .unwrap();
    session
        .on_publish(&incoming("topic", b"p", QoS::ExactlyOnce, Some(5)))
        .unwrap();
    session.ping().unwrap();
    assert_eq!(sent(session.disconnect()), vec![0xE0, 0x00]);
    assert_eq!(session.state(), State::Disconnected);
    assert_eq!(session.publish_state(&PacketId(2)), None);
    assert_eq!(session.incoming_state(&PacketId(5)), None);
    assert!(session.subscription("topic").is_none());
    assert!(!session.is_ping_outstanding());
    assert!(matches!(session.disconnect(), Action::Nothing));
}

#[test]
fn session_keeps_subscriptions_of_a_present_session() {
    let mut session = Session::new();
    session.connect(options(false)).unwrap();
    session.on_connack(&accepted(true)).unwrap();
    session.subscribe(Subscription::new("keep", None)).unwrap();
    session
        .on_suback(&SubAck::single(PacketId(1), SubAckReturnCode::SuccessMaxQoS0))
        .unwrap();
    assert!(matches!(
        session.on_disconnect(),
        Action::Event(Event::Disconnected)
    ));
    assert_eq!(session.state(), State::Disconnected);
    assert_eq!(session.subscription("keep").unwrap().state, SubState::Active);

    session.connect(options(false)).unwrap();
    assert!(session.subscription("keep").is_some());
    session.on_connack(&accepted(true)).unwrap();
    assert!(session.subscription("keep").is_some());
    session.disconnect();

    session.connect(options(false)).unwrap();
    session.on_connack(&accepted(false)).unwrap();
    assert!(session.subscription("keep").is_none());
}

#[test]
fn session_clean_connect_drops_subscriptions() {
    let mut session = Session::new();
    session.connect(options(false)).unwrap();
    session.on_connack(&accepted(true)).unwrap();
    session.subscribe(Subscription::new("keep", None)).unwrap();
    session.disconnect();
    assert!(session.subscription("keep").is_some());
    session.connect(options(true)).unwrap();
    assert!(session.subscription("keep").is_none());
}

#[test]
fn subscription_defaults_to_at_most_once() {
    let plain = Subscription::new("a", None);
    assert_eq!(plain.qos, QoS::AtMostOnce);
    assert_eq!(plain.state, SubState::New);
    assert_eq!(plain.topic, "a");
    let chosen = Subscription::new("b", Some(QoS::ExactlyOnce));
    assert_eq!(chosen.qos, QoS::ExactlyOnce);
}
