use mqtt_client::client::{Client, Step};
use mqtt_client::packet::connect::Options;
use mqtt_client::packet::publish::Msg;
use mqtt_client::packet::QoS;
use mqtt_client::parser::StreamParser;
use mqtt_client::session::{Event, State, SubState, Subscription};
use mqtt_client::Error;

#[derive(Debug, PartialEq)]
enum Seen {
    Nothing,
    Connected,
    Received(Vec<u8>, Vec<u8>, QoS, bool),
    Subscribed,
    SubscribeFailed,
    Unsubscribed,
    Published,
    Disconnected,
}

fn drain(client: &mut Client, now: u64) -> Vec<Vec<u8>> {
    let mut out = Vec::new();
    while client.has_output() {
        out.push(client.output().unwrap().to_vec());
        client.output_sent(now).unwrap();
    }
    out
}

fn deliver(client: &mut Client, bytes: &[u8], now: u64) -> Result<Seen, Error> {
    if !bytes.is_empty() {
        let space = client.input_space();
        space[..bytes.len()].copy_from_slice(bytes);
        client.input_received(bytes.len())?;
    }
    if !client.poll_input()? {
        return Ok(Seen::Nothing);
    }
    Ok(match client.handle_input(now)? {
        None => Seen::Nothing,
        Some(Event::Connected) => Seen::Connected,
        Some(Event::Received(message)) => Seen::Received(
            message.topic().to_vec(),
            message.payload().to_vec(),
            message.qos(),
            message.retain(),
        ),
        Some(Event::Subscribed) => Seen::Subscribed,
        Some(Event::SubscribeFailed) => Seen::SubscribeFailed,
        Some(Event::Unsubscribed) => Seen::Unsubscribed,
        Some(Event::Published) => Seen::Published,
        Some(Event::Disconnected) => Seen::Disconnected,
    })
}

fn connect<'c>(client: &mut Client<'c>) {
    client
        .schedule_connect(Options {
            clean_session: true,
            keep_alive: 60,
            client_id: "Client",
            will: None,
            username: None,
            password: None,
        })
        .unwrap();
    drain(client, 0);
    assert_eq!(deliver(client, &[0x20, 0x02, 0x00, 0x00], 0).unwrap(), Seen::Connected);
}

#[test]
fn scenario_connect_connack() {
    let mut rx = [0u8; 64];
    let mut tx = [0u8; 64];
    let mut client = Client::new(0, 60, &mut rx, &mut tx);
    assert_eq!(client.state(), State::Disconnected);
    client
        .schedule_connect(Options {
            clean_session: true,
            keep_alive: 60,
            client_id: "Client",
            will: None,
            username: None,
            password: None,
        })
        .unwrap();
    assert_eq!(client.state(), State::Connecting);
    assert_eq!(client.pending_output(), 1);
    assert_eq!(
        drain(&mut client, 1),
        vec![vec![
            0x10, 0x12, 0x00, 0x04, 0x4D, 0x51, 0x54, 0x54, 0x04, 0x02, 0x00, 0x3C, 0x00, 0x06,
            0x43, 0x6C, 0x69, 0x65, 0x6E, 0x74
        ]]
    );
    assert_eq!(client.last_activity(), 1);
    assert_eq!(
        deliver(&mut client, &[0x20, 0x02, 0x00, 0x00], 2).unwrap(),
        Seen::Connected
    );
    assert_eq!(client.state(), State::Connected);
    assert_eq!(client.last_activity(), 2);
}

#[test]
fn scenario_ping_round_trip() {
    let mut rx = [0u8; 64];
    let mut tx = [0u8; 64];
    let mut client = Client::new(0, 60, &mut rx, &mut tx);
    connect(&mut client);
    client.schedule_ping().unwrap();
    assert!(matches!(client.schedule_ping(), Err(Error::PingOutstanding)));
    assert_eq!(drain(&mut client, 10), vec![vec![0xC0, 0x00]]);
    assert_eq!(client.last_activity(), 10);
    assert_eq!(deliver(&mut client, &[0xD0, 0x00], 17).unwrap(), Seen::Nothing);
    assert_eq!(client.last_activity(), 17);
    assert!(!client.has_output());
    client.schedule_ping().unwrap();
}

#[test]
fn scenario_subscribe_suback() {
    let mut rx = [0u8; 64];
    let mut tx = [0u8; 256];
    let mut client = Client::new(0, 60, &mut rx, &mut tx);
    connect(&mut client);
    for _ in 0..9 {
        client
            .schedule_publish(Msg {
                qos: QoS::AtLeastOnce,
                retain: false,
                topic: "x",
                payload: b"",
            })
            .unwrap();
    }
    drain(&mut client, 0);
    client
        .schedule_subscribe(Subscription::new("a/b", Some(QoS::AtLeastOnce)))
        .unwrap();
    assert_eq!(
        drain(&mut client, 0),
        vec![vec![0x82, 0x08, 0x00, 0x0A, 0x00, 0x03, 0x61, 0x2F, 0x62, 0x01]]
    );
    assert_eq!(
        deliver(&mut client, &[0x90, 0x03, 0x00, 0x0A, 0x01], 0).unwrap(),
        Seen::Subscribed
    );
    let record = client.subscription("a/b").unwrap();
    assert_eq!(record.state, SubState::Active);
    assert_eq!(record.qos, QoS::AtLeastOnce);
    client
        .schedule_subscribe(Subscription::new("a/b", None))
        .unwrap();
    assert!(!client.has_output());
}

#[test]
fn scenario_publish_qos0_inbound() {
    let mut rx = [0u8; 64];
    let mut tx = [0u8; 64];
    let mut client = Client::new(0, 60, &mut rx, &mut tx);
    connect(&mut client);
    client
        .schedule_subscribe(Subscription::new("topic", None))
        .unwrap();
    drain(&mut client, 0);
    assert_eq!(
        deliver(&mut client, &[0x90, 0x03, 0x00, 0x01, 0x00], 0).unwrap(),
        Seen::Subscribed
    );
    let publish = [
        0x30, 0x0E, 0x00, 0x05, 0x74, 0x6F, 0x70, 0x69, 0x63, 0x70, 0x61, 0x79, 0x6C, 0x6F, 0x61,
        0x64,
    ];
    assert_eq!(
        deliver(&mut client, &publish, 0).unwrap(),
        Seen::Received(b"topic".to_vec(), b"payload".to_vec(), QoS::AtMostOnce, false)
    );
    assert!(!client.has_output());
}

#[test]
fn scenario_publish_qos2_outbound() {
    let mut rx = [0u8; 64];
    let mut tx = [0u8; 64];
    let mut client = Client::new(0, 60, &mut rx, &mut tx);
    connect(&mut client);
    client
        .schedule_publish(Msg {
            qos: QoS::ExactlyOnce,
            retain: false,
            topic: "t",
            payload: b"p",
        })
        .unwrap();
    assert_eq!(
        drain(&mut client, 0),
        vec![vec![0x34, 0x06, 0x00, 0x01, b't', 0x00, 0x01, b'p']]
    );
    assert_eq!(
        deliver(&mut client, &[0x50, 0x02, 0x00, 0x01], 0).unwrap(),
        Seen::Nothing
    );
    assert_eq!(drain(&mut client, 0), vec![vec![0x62, 0x02, 0x00, 0x01]]);
    assert_eq!(
        deliver(&mut client, &[0x70, 0x02, 0x00, 0x01], 0).unwrap(),
        Seen::Published
    );
    assert!(matches!(
        deliver(&mut client, &[0x70, 0x02, 0x00, 0x01], 0),
        Err(Error::ProtocolViolation)
    ));
    client
        .schedule_publish(Msg {
            qos: QoS::AtLeastOnce,
            retain: false,
            topic: "t",
            payload: b"p",
        })
        .unwrap();
    assert_eq!(
        drain(&mut client, 0),
        vec![vec![0x32, 0x06, 0x00, 0x01, b't', 0x00, 0x02, b'p']]
    );
}

#[test]
fn scenario_malformed_remaining_length() {
    let mut rx = [0u8; 64];
    let mut tx = [0u8; 64];
    let mut client = Client::new(0, 60, &mut rx, &mut tx);
    connect(&mut client);
    assert!(matches!(
        deliver(&mut client, &[0xC0, 0xFF, 0xFF, 0xFF, 0xFF], 0),
        Err(Error::MalformedRemainingLength)
    ));
}

#[test]
fn client_incoming_qos2_is_delivered_once() {
    let mut rx = [0u8; 64];
    let mut tx = [0u8; 64];
    let mut client = Client::new(0, 60, &mut rx, &mut tx);
    connect(&mut client);
    client
        .schedule_subscribe(Subscription::new("t", Some(QoS::ExactlyOnce)))
        .unwrap();
    drain(&mut client, 0);
    deliver(&mut client, &[0x90, 0x03, 0x00, 0x01, 0x02], 0).unwrap();

    let publish = [0x34, 0x06, 0x00, 0x01, b't', 0x00, 0x07, b'p'];
    assert_eq!(deliver(&mut client, &publish, 0).unwrap(), Seen::Nothing);
    assert_eq!(drain(&mut client, 0), vec![vec![0x50, 0x02, 0x00, 0x07]]);
    let again = [0x3C, 0x06, 0x00, 0x01, b't', 0x00, 0x07, b'p'];
    assert_eq!(deliver(&mut client, &again, 0).unwrap(), Seen::Nothing);
    assert_eq!(drain(&mut client, 0), vec![vec![0x50, 0x02, 0x00, 0x07]]);

    assert_eq!(
        deliver(&mut client, &[0x62, 0x02, 0x00, 0x07], 0).unwrap(),
        Seen::Received(b"t".to_vec(), b"p".to_vec(), QoS::ExactlyOnce, false)
    );
    assert_eq!(drain(&mut client, 0), vec![vec![0x70, 0x02, 0x00, 0x07]]);
    assert_eq!(
        deliver(&mut client, &[0x62, 0x02, 0x00, 0x07], 0).unwrap(),
        Seen::Nothing
    );
    assert_eq!(drain(&mut client, 0), vec![vec![0x70, 0x02, 0x00, 0x07]]);
}

#[test]
fn client_incoming_qos1_is_acknowledged() {
    let mut rx = [0u8; 64];
    let mut tx = [0u8; 64];
    let mut client = Client::new(0, 60, &mut rx, &mut tx);
    connect(&mut client);
    client
        .schedule_subscribe(Subscription::new("t", Some(QoS::AtLeastOnce)))
        .unwrap();
    drain(&mut client, 0);
    deliver(&mut client, &[0x90, 0x03, 0x00, 0x01, 0x01], 0).unwrap();
    let publish = [0x33, 0x06, 0x00, 0x01, b't', 0x00, 0x07, b'p'];
    assert_eq!(
        deliver(&mut client, &publish, 0).unwrap(),
        Seen::Received(b"t".to_vec(), b"p".to_vec(), QoS::AtLeastOnce, true)
    );
    assert_eq!(drain(&mut client, 0), vec![vec![0x40, 0x02, 0x00, 0x07]]);
    assert_eq!(deliver(&mut client, &publish, 0).unwrap(), Seen::Nothing);
    assert_eq!(drain(&mut client, 0), vec![vec![0x40, 0x02, 0x00, 0x07]]);
}

#[test]
fn client_unsubscribe_flow() {
    let mut rx = [0u8; 64];
    let mut tx = [0u8; 64];
    let mut client = Client::new(0, 60, &mut rx, &mut tx);
    connect(&mut client);
    assert!(matches!(
        client.schedule_unsubscribe("t"),
        Err(Error::WrongTopicToUnsubscribe)
    ));
    client
        .schedule_subscribe(Subscription::new("t", None))
        .unwrap();
    drain(&mut client, 0);
    deliver(&mut client, &[0x90, 0x03, 0x00, 0x01, 0x80], 0).unwrap();
    assert_eq!(client.subscription("t").unwrap().state, SubState::Failed);
    client
        .schedule_subscribe(Subscription::new("t", None))
        .unwrap();
    drain(&mut client, 0);
    assert_eq!(
        deliver(&mut client, &[0x90, 0x03, 0x00, 0x02, 0x00], 0).unwrap(),
        Seen::Subscribed
    );
    client.schedule_unsubscribe("t").unwrap();
    client.schedule_unsubscribe("t").unwrap();
    assert_eq!(
        drain(&mut client, 0),
        vec![vec![0xA2, 0x05, 0x00, 0x03, 0x00, 0x01, b't']]
    );
    assert_eq!(
        deliver(&mut client, &[0xB0, 0x02, 0x00, 0x03], 0).unwrap(),
        Seen::Unsubscribed
    );
    assert!(client.subscription("t").is_none());
}

#[test]
fn client_refusals_change_nothing() {
    let mut rx = [0u8; 64];
    let mut tx = [0u8; 24];
    let mut client = Client::new(0, 60, &mut rx, &mut tx);
    assert!(matches!(
        client.schedule_ping(),
        Err(Error::ProtocolViolation)
    ));
    assert!(matches!(
        client.schedule_publish(Msg {
            qos: QoS::AtMostOnce,
            retain: false,
            topic: "t",
            payload: b"p"
        }),
        Err(Error::ProtocolViolation)
    ));
    assert!(matches!(
        client.schedule_subscribe(Subscription::new("t", None)),
        Err(Error::ProtocolViolation)
    ));
    assert!(matches!(
        client.schedule_unsubscribe("t"),
        Err(Error::ProtocolViolation)
    ));
    assert!(client.schedule_disconnect().is_ok());
    assert!(!client.has_output());
    connect(&mut client);
    assert!(matches!(
        client.schedule_connect(Options {
            clean_session: true,
            keep_alive: 60,
            client_id: "Client",
            will: None,
            username: None,
            password: None,
        }),
        Err(Error::ProtocolViolation)
    ));

    let big = [0u8; 32];
    assert!(matches!(
        client.schedule_publish(Msg {
            qos: QoS::ExactlyOnce,
            retain: false,
            topic: "t",
            payload: &big
        }),
        Err(Error::BufferTooSmall)
    ));
    assert!(matches!(
        client.schedule_subscribe(Subscription::new("a/very/long/topic/filter", None)),
        Err(Error::BufferTooSmall)
    ));
    assert!(client.subscription("a/very/long/topic/filter").is_none());
    assert!(!client.has_output());
    client
        .schedule_publish(Msg {
            qos: QoS::ExactlyOnce,
            retain: false,
            topic: "t",
            payload: b"p",
        })
        .unwrap();
    assert_eq!(
        drain(&mut client, 0),
        vec![vec![0x34, 0x06, 0x00, 0x01, b't', 0x00, 0x01, b'p']]
    );
}

#[test]
fn client_timers() {
    let mut rx = [0u8; 64];
    let mut tx = [0u8; 64];
    let mut client = Client::new(0, 10, &mut rx, &mut tx);
    connect(&mut client);
    client.poll_timers(4).unwrap();
    assert!(!client.has_output());
    client.poll_timers(5).unwrap();
    assert_eq!(drain(&mut client, 5), vec![vec![0xC0, 0x00]]);
    client.poll_timers(14).unwrap();
    assert!(!client.has_output());
    assert!(matches!(client.poll_timers(15), Err(Error::TimedOut)));
    assert_eq!(client.state(), State::Disconnected);
    assert_eq!(drain(&mut client, 15), vec![vec![0xE0, 0x00]]);
    assert!(matches!(client.poll_timers(3), Err(Error::TimeError)));
}

#[test]
fn client_timer_is_reset_by_pingresp() {
    let mut rx = [0u8; 64];
    let mut tx = [0u8; 64];
    let mut client = Client::new(0, 10, &mut rx, &mut tx);
    connect(&mut client);
    client.poll_timers(5).unwrap();
    drain(&mut client, 5);
    assert_eq!(deliver(&mut client, &[0xD0, 0x00], 8).unwrap(), Seen::Nothing);
    client.poll_timers(15).unwrap();
    assert_eq!(drain(&mut client, 15), vec![vec![0xC0, 0x00]]);
    assert_eq!(client.state(), State::Connected);
}

#[test]
fn client_remote_disconnect() {
    let mut rx = [0u8; 64];
    let mut tx = [0u8; 64];
    let mut client = Client::new(0, 10, &mut rx, &mut tx);
    connect(&mut client);
    assert_eq!(
        deliver(&mut client, &[0xE0, 0x00], 0).unwrap(),
        Seen::Disconnected
    );
    assert_eq!(client.state(), State::Disconnected);
    assert_eq!(deliver(&mut client, &[0xC0, 0x00], 0).unwrap(), Seen::Nothing);
    assert_eq!(drain(&mut client, 0), vec![vec![0xD0, 0x00]]);
}

#[test]
fn client_schedule_disconnect() {
    let mut rx = [0u8; 64];
    let mut tx = [0u8; 64];
    let mut client = Client::new(0, 10, &mut rx, &mut tx);
    connect(&mut client);
    client.schedule_disconnect().unwrap();
    assert_eq!(client.state(), State::Disconnected);
    assert_eq!(drain(&mut client, 0), vec![vec![0xE0, 0x00]]);
}

#[test]
fn parser_takes_packets_in_pieces() {
    let mut rx = [0u8; 16];
    let mut parser = StreamParser::new(&mut rx);
    assert_eq!(parser.poll().unwrap(), false);
    assert!(matches!(parser.packet(), Err(Error::UnexpectedEof)));
    assert!(matches!(parser.commit(0), Err(Error::TransportError)));
    assert!(matches!(parser.commit(17), Err(Error::TransportError)));

    let stream = [0x30, 0x06, 0x00, 0x01, b't', b'a', b'b', b'c', 0xD0, 0x00, 0x40];
    let pieces: [&[u8]; 4] = [&stream[..1], &stream[1..3], &stream[3..9], &stream[9..]];
    let mut seen = Vec::new();
    for piece in pieces {
        parser.space()[..piece.len()].copy_from_slice(piece);
        parser.commit(piece.len()).unwrap();
        while parser.poll().unwrap() {
            assert!(parser.has_frame());
            let mut buf = [0u8; 16];
            let mut cursor = mqtt_client::packet::encode::Cursor::new(&mut buf);
            parser.packet().unwrap().encode(&mut cursor).unwrap();
            seen.push(cursor.written().to_vec());
        }
        assert!(!parser.has_frame());
    }
    assert_eq!(seen, vec![stream[..8].to_vec(), stream[8..10].to_vec()]);
    assert_eq!(parser.space().len(), 15);
}

#[test]
fn parser_refuses_packets_beyond_its_buffer() {
    let mut rx = [0u8; 8];
    let mut parser = StreamParser::new(&mut rx);
    parser.space()[..2].copy_from_slice(&[0x30, 0x09]);
    parser.commit(2).unwrap();
    assert!(matches!(parser.poll(), Err(Error::BufferTooSmall)));

    let mut rx = [0u8; 8];
    let mut parser = StreamParser::new(&mut rx);
    parser.space()[..2].copy_from_slice(&[0x30, 0x08]);
    parser.commit(2).unwrap();
    assert_eq!(parser.poll().unwrap(), false);
    assert_eq!(parser.space().len(), 8);
    parser.space().copy_from_slice(&[0, 1, b't', 1, 2, 3, 4, 5]);
    parser.commit(8).unwrap();
    assert_eq!(parser.poll().unwrap(), true);
    match parser.packet().unwrap() {
        mqtt_client::packet::Packet::Publish(publish) => {
            assert!(publish.topic.eq_str("t"));
            assert!(publish.payload.eq_bytes(&[1, 2, 3, 4, 5]));
        }
        _ => panic!("expected PUBLISH"),
    };
}

#[test]
fn parser_reports_wire_errors() {
    let cases: [(&[u8], Error); 4] = [
        (&[0x00, 0x00], Error::InvalidPacketType),
        (&[0xF0, 0x00], Error::InvalidPacketType),
        (&[0x61, 0x02, 0x00, 0x01], Error::InvalidFlags),
        (&[0x36, 0x03, 0x00, 0x01, b't'], Error::InvalidQoS),
    ];
    for (bytes, expected) in cases {
        let mut rx = [0u8; 16];
        let mut parser = StreamParser::new(&mut rx);
        parser.space()[..bytes.len()].copy_from_slice(bytes);
        parser.commit(bytes.len()).unwrap();
        let outcome = match parser.poll() {
            Err(e) => Err(e),
            Ok(_) => parser.packet().map(|_| ()),
        };
        assert_eq!(outcome, Err(expected));
    }
}

#[test]
fn client_says_what_to_do_next() {
    let mut rx = [0u8; 64];
    let mut tx = [0u8; 64];
    let mut client = Client::new(0, 10, &mut rx, &mut tx);
    assert_eq!(client.next_step().unwrap(), Step::Fill);
    connect(&mut client);
    assert_eq!(client.next_step().unwrap(), Step::Fill);
    client.input_space()[..3].copy_from_slice(&[0xD0, 0x00, 0xD0]);
    client.input_received(3).unwrap();
    client.schedule_ping().unwrap();
    assert_eq!(client.next_step().unwrap(), Step::Send);
    assert_eq!(client.next_step().unwrap(), Step::Send);
    drain(&mut client, 0);
    assert_eq!(client.next_step().unwrap(), Step::Handle);
    assert!(client.handle_input(1).unwrap().is_none());
    assert_eq!(client.next_step().unwrap(), Step::Fill);
    client.input_space()[..1].copy_from_slice(&[0x00]);
    client.input_received(1).unwrap();
    assert_eq!(client.next_step().unwrap(), Step::Handle);
    client.input_space()[..2].copy_from_slice(&[0x00, 0x00]);
    client.input_received(2).unwrap();
    assert!(matches!(client.next_step(), Err(Error::InvalidPacketType)));
}

#[test]
fn client_passes_over_broker_side_packets() {
    let mut rx = [0u8; 64];
    let mut tx = [0u8; 64];
    let mut client = Client::new(0, 10, &mut rx, &mut tx);
    connect(&mut client);
    let subscribe = [0x82, 0x08, 0x00, 0x0A, 0x00, 0x03, 0x61, 0x2F, 0x62, 0x01];
    assert_eq!(deliver(&mut client, &subscribe, 3).unwrap(), Seen::Nothing);
    assert!(!client.has_output());
    assert_eq!(client.last_activity(), 3);
}

#[test]
fn crate_root_names_the_client_types() {
    let mut rx = [0u8; 32];
    let mut tx = [0u8; 32];
    let mut client = mqtt_client::Client::new(0, 0, &mut rx, &mut tx);
    let options = mqtt_client::ConnectOptions {
        clean_session: false,
        keep_alive: 0,
        client_id: "",
        will: None,
        username: None,
        password: None,
    };
    client.schedule_connect(options).unwrap();
    assert_eq!(
        drain(&mut client, 0),
        vec![vec![0x10, 0x0C, 0x00, 0x04, b'M', b'Q', b'T', b'T', 0x04, 0x00, 0x00, 0x00, 0x00, 0x00]]
    );
    let message = mqtt_client::PublishMsg {
        qos: QoS::AtMostOnce,
        retain: false,
        topic: "t",
        payload: b"",
    };
    assert!(matches!(
        client.schedule_publish(message),
        Err(Error::ProtocolViolation)
    ));
    let seen = match client.handle_input(0) {
        Ok(Some(mqtt_client::Event::Connected)) => true,
        _ => false,
    };
    assert!(!seen);
}
