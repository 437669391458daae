use mqtt_client::buffer;
use mqtt_client::packet::connect::{
    ConnAck, Connect, ConnectReturnCode, Options, Will, WillOptions,
};
use mqtt_client::packet::publish::{Flags, Msg, Publish};
use mqtt_client::packet::subscribe::{SubAck, SubAckReturnCode, Subscribe, Subscription};
use mqtt_client::packet::unsubscribe::Unsubscribe;
use mqtt_client::packet::{
    decode, empty_body, encode, encode_packet, fixed_header, only_packet_id, Packet, PacketId, QoS,
};
use mqtt_client::parser::read_fixed_header;
use mqtt_client::protocol::{FixedHeader, PacketType};
use mqtt_client::Error;

fn on_wire(packet: &Packet) -> Vec<u8> {
    let mut buf = [0u8; 256];
    let mut cursor = encode::Cursor::new(&mut buf);
    packet.encode(&mut cursor).unwrap();
    let bytes = cursor.written().to_vec();
    assert_eq!(bytes.len(), packet.required_space());
    bytes
}

fn split(bytes: &[u8]) -> (FixedHeader, &[u8]) {
    let (header, used) = read_fixed_header(bytes).unwrap().unwrap();
    (header, &bytes[used..])
}

#[test]
fn connect_on_the_wire() {
    let packet = Packet::Connect(Connect::from_options(Options {
        clean_session: true,
        keep_alive: 60,
        client_id: "Client",
        will: None,
        username: None,
        password: None,
    }));
    assert_eq!(
        on_wire(&packet),
        vec![
            0x10, 0x12, 0x00, 0x04, 0x4D, 0x51, 0x54, 0x54, 0x04, 0x02, 0x00, 0x3C, 0x00, 0x06,
            0x43, 0x6C, 0x69, 0x65, 0x6E, 0x74
        ]
    );
}

#[test]
fn connect_round_trip() {
    let options = Options {
        clean_session: false,
        keep_alive: 120,
        client_id: "Client 2",
        will: Some(WillOptions {
            qos: QoS::ExactlyOnce,
            retain: true,
            topic: "topic1",
            payload: b"heavy-load",
        }),
        username: Some("user 1"),
        password: Some("long-pass"),
    };
    let bytes = on_wire(&Packet::Connect(Connect::from_options(options)));
    let (header, body) = split(&bytes);
    assert_eq!(header.packet_type, PacketType::Connect);
    assert_eq!(header.flags, 0);
    assert_eq!(header.remaining_len as usize, body.len());
    assert_eq!(body[7], 0b1111_0100);

    let decoded = Packet::decode(&header, body).unwrap();
    match decoded {
        Packet::Connect(connect) => {
            assert!(!connect.clean_session);
            assert_eq!(connect.keep_alive, 120);
            assert!(connect.client_id.eq_str("Client 2"));
            let will = connect.will.unwrap();
            assert_eq!(will.qos, QoS::ExactlyOnce);
            assert!(will.retain);
            assert!(will.topic.eq_str("topic1"));
            assert!(will.payload.eq_bytes(b"heavy-load"));
            assert!(connect.username.unwrap().eq_str("user 1"));
            assert!(connect.password.unwrap().eq_bytes(b"long-pass"));
        }
        _ => panic!("expected CONNECT"),
    }
}

#[test]
fn connect_minimal_round_trip() {
    let connect = Connect {
        clean_session: true,
        keep_alive: 0,
        client_id: buffer::String::from(""),
        will: None,
        username: None,
        password: None,
    };
    assert_eq!(connect.required_space(), 12);
    assert_eq!(connect.connect_flags(), 2);
    assert_eq!(connect.flags(), 0);
    let mut buf = [0u8; 12];
    let mut cursor = encode::Cursor::new(&mut buf);
    connect.encode_body(&mut cursor).unwrap();
    let mut input = decode::Cursor::new(&buf);
    let back = Connect::decode(&mut input).unwrap();
    assert!(back.clean_session);
    assert!(back.will.is_none() && back.username.is_none() && back.password.is_none());
    assert_eq!(back.client_id.len(), 0);
}

#[test]
fn connect_decode_errors() {
    let wrong_name = [0, 4, b'M', b'Q', b'T', b'X', 4, 2, 0, 60, 0, 0];
    assert!(matches!(
        Connect::decode(&mut decode::Cursor::new(&wrong_name)),
        Err(Error::MalformedPacket)
    ));
    let wrong_level = [0, 4, b'M', b'Q', b'T', b'T', 5, 2, 0, 60, 0, 0];
    assert!(matches!(
        Connect::decode(&mut decode::Cursor::new(&wrong_level)),
        Err(Error::MalformedPacket)
    ));
    let will_qos_three = [0, 4, b'M', b'Q', b'T', b'T', 4, 0b0001_1100, 0, 60, 0, 0];
    assert!(matches!(
        Connect::decode(&mut decode::Cursor::new(&will_qos_three)),
        Err(Error::InvalidQoS)
    ));
    let cut = [0, 4, b'M', b'Q', b'T', b'T', 4, 2, 0];
    assert!(matches!(
        Connect::decode(&mut decode::Cursor::new(&cut)),
        Err(Error::UnexpectedEof)
    ));
    let trailing = [0, 4, b'M', b'Q', b'T', b'T', 4, 2, 0, 60, 0, 0, 9];
    assert!(matches!(
        Connect::decode(&mut decode::Cursor::new(&trailing)),
        Err(Error::MalformedPacket)
    ));
    let bad_text = [0, 4, b'M', b'Q', b'T', b'T', 4, 2, 0, 60, 0, 1, 0xFF];
    assert!(matches!(
        Connect::decode(&mut decode::Cursor::new(&bad_text)),
        Err(Error::InvalidUtf8)
    ));
}

#[test]
fn connect_encode_refusals() {
    let connect = Connect {
        clean_session: true,
        keep_alive: 60,
        client_id: buffer::String::from("Client"),
        will: None,
        username: None,
        password: None,
    };
    let mut small = [0u8; 17];
    let mut cursor = encode::Cursor::new(&mut small);
    assert!(matches!(
        connect.encode_body(&mut cursor),
        Err(Error::UnexpectedEof)
    ));
    assert_eq!(cursor.written().len(), 0);

    let long = vec![b'a'; 65_536];
    let oversized = Connect {
        clean_session: true,
        keep_alive: 60,
        client_id: buffer::String::from("Client"),
        will: Some(Will {
            qos: QoS::AtMostOnce,
            retain: false,
            topic: buffer::String::from("t"),
            payload: buffer::Slice::from(long.as_slice()),
        }),
        username: None,
        password: None,
    };
    assert!(!oversized.is_encodable());
    let mut big = vec![0u8; 70_000];
    let mut cursor = encode::Cursor::new(&mut big);
    assert!(matches!(
        oversized.encode_body(&mut cursor),
        Err(Error::MalformedPacket)
    ));
    assert_eq!(cursor.written().len(), 0);
}

#[test]
fn connack_on_the_wire() {
    let packet = Packet::ConnAck(ConnAck {
        session_present: true,
        return_code: ConnectReturnCode::Accepted,
    });
    let bytes = on_wire(&packet);
    assert_eq!(bytes, vec![0x20, 0x02, 0x01, 0x00]);
    let (header, body) = split(&bytes);
    let decoded = Packet::decode(&header, body).unwrap();
    match decoded {
        Packet::ConnAck(ack) => {
            assert!(ack.session_present);
            assert_eq!(ack.return_code, ConnectReturnCode::Accepted);
        }
        _ => panic!("expected CONNACK"),
    }
}

#[test]
fn connack_return_codes() {
    let expected = [
        ConnectReturnCode::Accepted,
        ConnectReturnCode::UnacceptableProtocolVersion,
        ConnectReturnCode::IdentifierRejected,
        ConnectReturnCode::ServerUnavailable,
        ConnectReturnCode::BadUserNameOrPassword,
        ConnectReturnCode::NotAuthorized,
    ];
    for (code, verdict) in expected.iter().enumerate() {
        let body = [0u8, code as u8];
        let ack = ConnAck::decode(&mut decode::Cursor::new(&body)).unwrap();
        assert_eq!(ack.return_code, *verdict);
        assert_eq!(verdict.to_u8(), code as u8);
    }
    assert!(matches!(
        ConnAck::decode(&mut decode::Cursor::new(&[0, 6])),
        Err(Error::InvalidConnectReturnCode)
    ));
    assert!(matches!(
        ConnAck::decode(&mut decode::Cursor::new(&[1, 5])),
        Err(Error::MalformedPacket)
    ));
    assert!(matches!(
        ConnAck::decode(&mut decode::Cursor::new(&[0, 0, 0])),
        Err(Error::MalformedPacket)
    ));
    assert!(matches!(
        ConnAck::decode(&mut decode::Cursor::new(&[0])),
        Err(Error::UnexpectedEof)
    ));
}

#[test]
fn publish_qos0_on_the_wire() {
    let packet = Packet::Publish(Publish::from_msg(Msg {
        qos: QoS::AtMostOnce,
        retain: false,
        topic: "topic",
        payload: b"payload",
    }));
    let bytes = on_wire(&packet);
    assert_eq!(
        bytes,
        vec![
            0x30, 0x0E, 0x00, 0x05, 0x74, 0x6F, 0x70, 0x69, 0x63, 0x70, 0x61, 0x79, 0x6C, 0x6F,
            0x61, 0x64
        ]
    );
    let (header, body) = split(&bytes);
    let decoded = Packet::decode(&header, body).unwrap();
    match decoded {
        Packet::Publish(publish) => {
            assert_eq!(
                publish.flags,
                Flags {
                    dup: false,
                    qos: QoS::AtMostOnce,
                    retain: false
                }
            );
            assert_eq!(publish.packet_id, None);
            assert!(publish.topic.eq_str("topic"));
            assert!(publish.payload.eq_bytes(b"payload"));
        }
        _ => panic!("expected PUBLISH"),
    }
}

#[test]
fn publish_qos2_round_trip() {
    let publish = Publish {
        flags: Flags {
            dup: true,
            qos: QoS::ExactlyOnce,
            retain: true,
        },
        topic: buffer::String::from("t"),
        packet_id: Some(PacketId(1)),
        payload: buffer::Slice::from(b"p".as_slice()),
    };
    assert_eq!(publish.required_space(), 6);
    assert_eq!(publish.flags(), 0b1101);
    let bytes = on_wire(&Packet::Publish(publish));
    assert_eq!(bytes, vec![0x3D, 0x06, 0x00, 0x01, b't', 0x00, 0x01, b'p']);
    let (header, body) = split(&bytes);
    let decoded = Packet::decode(&header, body).unwrap();
    match decoded {
        Packet::Publish(back) => {
            assert_eq!(back.flags, publish.flags);
            assert_eq!(back.packet_id, Some(PacketId(1)));
            assert!(back.topic.eq_str("t"));
            assert!(back.payload.eq_bytes(b"p"));
        }
        _ => panic!("expected PUBLISH"),
    }
}

#[test]
fn publish_flags() {
    assert!(matches!(Flags::try_from(0b0110), Err(Error::InvalidQoS)));
    assert!(matches!(
        Flags::try_from(0b1000),
        Err(Error::MalformedPacket)
    ));
    assert!(matches!(
        Flags::try_from(0b1001),
        Err(Error::MalformedPacket)
    ));
    let flags = Flags::try_from(0b1011).unwrap();
    assert_eq!(
        flags,
        Flags {
            dup: true,
            qos: QoS::AtLeastOnce,
            retain: true
        }
    );
    assert_eq!(flags.to_u8(), 0b1011);
    assert_eq!(Flags::try_from(0).unwrap().to_u8(), 0);
}

#[test]
fn publish_decode_errors() {
    let zero_id = [0, 1, b't', 0, 0, b'p'];
    assert!(matches!(
        Publish::decode(&mut decode::Cursor::new(&zero_id), 0b0010),
        Err(Error::MalformedPacket)
    ));
    let no_id = [0, 1, b't', 7];
    assert!(matches!(
        Publish::decode(&mut decode::Cursor::new(&no_id), 0b0100),
        Err(Error::UnexpectedEof)
    ));
    let bad_topic = [0, 1, 0xFF];
    assert!(matches!(
        Publish::decode(&mut decode::Cursor::new(&bad_topic), 0),
        Err(Error::InvalidUtf8)
    ));
    let empty_payload = [0, 1, b't'];
    let publish = Publish::decode(&mut decode::Cursor::new(&empty_payload), 1).unwrap();
    assert_eq!(publish.payload.len(), 0);
    assert!(publish.flags.retain);
}

#[test]
fn publish_encode_refusals() {
    let long = "a".repeat(65_536);
    let publish = Publish::from_msg(Msg {
        qos: QoS::AtMostOnce,
        retain: false,
        topic: &long,
        payload: b"",
    });
    assert!(!publish.is_encodable());
    let mut big = vec![0u8; 70_000];
    let mut cursor = encode::Cursor::new(&mut big);
    assert!(matches!(
        publish.encode_body(&mut cursor),
        Err(Error::MalformedPacket)
    ));
    assert!(matches!(
        Packet::Publish(publish).encode(&mut cursor),
        Err(Error::MalformedPacket)
    ));
    assert_eq!(Packet::Publish(publish).body_len(), None);

    let fits = Publish::from_msg(Msg {
        qos: QoS::AtMostOnce,
        retain: false,
        topic: "t",
        payload: b"pp",
    });
    let mut small = [0u8; 4];
    let mut cursor = encode::Cursor::new(&mut small);
    assert!(matches!(
        fits.encode_body(&mut cursor),
        Err(Error::UnexpectedEof)
    ));
    assert_eq!(cursor.written().len(), 0);
}

#[test]
fn acknowledgements_on_the_wire() {
    assert_eq!(
        on_wire(&Packet::PubAck(PacketId(1))),
        vec![0x40, 0x02, 0x00, 0x01]
    );
    assert_eq!(
        on_wire(&Packet::PubRec(PacketId(1))),
        vec![0x50, 0x02, 0x00, 0x01]
    );
    assert_eq!(
        on_wire(&Packet::PubRel(PacketId(1))),
        vec![0x62, 0x02, 0x00, 0x01]
    );
    assert_eq!(
        on_wire(&Packet::PubComp(PacketId(1))),
        vec![0x70, 0x02, 0x00, 0x01]
    );
    assert_eq!(
        on_wire(&Packet::UnsubAck(PacketId(0x1234))),
        vec![0xB0, 0x02, 0x12, 0x34]
    );
    assert_eq!(on_wire(&Packet::PingReq), vec![0xC0, 0x00]);
    assert_eq!(on_wire(&Packet::PingResp), vec![0xD0, 0x00]);
    assert_eq!(on_wire(&Packet::Disconnect), vec![0xE0, 0x00]);
}

#[test]
fn acknowledgements_round_trip() {
    let packets = [
        Packet::PubAck(PacketId(7)),
        Packet::PubRec(PacketId(8)),
        Packet::PubRel(PacketId(9)),
        Packet::PubComp(PacketId(10)),
        Packet::UnsubAck(PacketId(65_535)),
        Packet::PingReq,
        Packet::PingResp,
        Packet::Disconnect,
    ];
    for packet in packets.iter() {
        let bytes = on_wire(packet);
        let (header, body) = split(&bytes);
        assert_eq!(header.packet_type, packet.packet_type());
        assert_eq!(header.flags, packet.flags());
        let back = Packet::decode(&header, body).unwrap();
        assert_eq!(on_wire(&back), bytes);
    }
}

#[test]
fn body_must_be_consumed_exactly() {
    let ping = FixedHeader {
        packet_type: PacketType::PingResp,
        flags: 0,
        remaining_len: 1,
    };
    assert!(matches!(
        Packet::decode(&ping, &[0]),
        Err(Error::MalformedPacket)
    ));
    let mismatch = FixedHeader {
        packet_type: PacketType::PubAck,
        flags: 0,
        remaining_len: 3,
    };
    assert!(matches!(
        Packet::decode(&mismatch, &[0, 1]),
        Err(Error::MalformedPacket)
    ));
    let long_ack = FixedHeader {
        packet_type: PacketType::PubAck,
        flags: 0,
        remaining_len: 3,
    };
    assert!(matches!(
        Packet::decode(&long_ack, &[0, 1, 2]),
        Err(Error::MalformedPacket)
    ));
    let short_ack = FixedHeader {
        packet_type: PacketType::PubAck,
        flags: 0,
        remaining_len: 1,
    };
    assert!(matches!(
        Packet::decode(&short_ack, &[1]),
        Err(Error::UnexpectedEof)
    ));
    assert!(matches!(
        only_packet_id(&mut decode::Cursor::new(&[0, 0])),
        Err(Error::MalformedPacket)
    ));
    assert_eq!(
        only_packet_id(&mut decode::Cursor::new(&[0, 5])).unwrap(),
        PacketId(5)
    );
}

#[test]
fn subscribe_on_the_wire() {
    let packet = Packet::Subscribe(Subscribe::single(
        PacketId(10),
        Subscription {
            topic_filter: buffer::String::from("a/b"),
            qos: QoS::AtLeastOnce,
        },
    ));
    let bytes = on_wire(&packet);
    assert_eq!(
        bytes,
        vec![0x82, 0x08, 0x00, 0x0A, 0x00, 0x03, 0x61, 0x2F, 0x62, 0x01]
    );
    let (header, body) = split(&bytes);
    let decoded = Packet::decode(&header, body).unwrap();
    match decoded {
        Packet::Subscribe(subscribe) => {
            assert_eq!(subscribe.packet_id, PacketId(10));
            assert_eq!(subscribe.topics.len(), 1);
            assert!(subscribe.topics[0].topic_filter.eq_str("a/b"));
            assert_eq!(subscribe.topics[0].qos, QoS::AtLeastOnce);
            assert_eq!(subscribe.flags(), 2);
            assert_eq!(subscribe.required_space(), 8);
        }
        _ => panic!("expected SUBSCRIBE"),
    }
}

#[test]
fn subscribe_decode_errors() {
    assert!(matches!(
        Subscribe::decode(&mut decode::Cursor::new(&[0, 10])),
        Err(Error::MalformedPacket)
    ));
    assert!(matches!(
        Subscribe::decode(&mut decode::Cursor::new(&[0, 10, 0, 1, b'a', 1, 0, 1, b'b', 0])),
        Err(Error::VectorIsFull)
    ));
    assert!(matches!(
        Subscribe::decode(&mut decode::Cursor::new(&[0, 10, 0, 1, b'a', 3])),
        Err(Error::InvalidQoS)
    ));
    assert!(matches!(
        Subscribe::decode(&mut decode::Cursor::new(&[0, 10, 0, 1, b'a'])),
        Err(Error::UnexpectedEof)
    ));
    assert!(matches!(
        Subscribe::decode(&mut decode::Cursor::new(&[0, 0, 0, 1, b'a', 1])),
        Err(Error::MalformedPacket)
    ));
}

#[test]
fn subscribe_encode_refusals() {
    let long = "a".repeat(65_536);
    let packet = Subscribe::single(
        PacketId(1),
        Subscription {
            topic_filter: buffer::String::from(long.as_str()),
            qos: QoS::AtMostOnce,
        },
    );
    assert!(!packet.is_encodable());
    let mut big = vec![0u8; 70_000];
    let mut cursor = encode::Cursor::new(&mut big);
    assert!(matches!(
        packet.encode_body(&mut cursor),
        Err(Error::MalformedPacket)
    ));
    assert_eq!(cursor.written().len(), 0);

    let one = Subscription {
        topic_filter: buffer::String::from("a/b"),
        qos: QoS::ExactlyOnce,
    };
    assert_eq!(one.required_space(), 6);
    let mut small = [0u8; 5];
    let mut cursor = encode::Cursor::new(&mut small);
    assert!(matches!(one.encode(&mut cursor), Err(Error::UnexpectedEof)));
    assert_eq!(cursor.written().len(), 0);
    let mut exact = [0u8; 6];
    let mut cursor = encode::Cursor::new(&mut exact);
    one.encode(&mut cursor).unwrap();
    assert_eq!(cursor.written(), &[0, 3, b'a', b'/', b'b', 2]);
}

#[test]
fn suback_on_the_wire() {
    let packet = Packet::SubAck(SubAck::single(PacketId(10), SubAckReturnCode::SuccessMaxQoS1));
    let bytes = on_wire(&packet);
    assert_eq!(bytes, vec![0x90, 0x03, 0x00, 0x0A, 0x01]);
    let (header, body) = split(&bytes);
    let decoded = Packet::decode(&header, body).unwrap();
    match decoded {
        Packet::SubAck(ack) => {
            assert_eq!(ack.packet_id, PacketId(10));
            assert_eq!(ack.codes(), &[SubAckReturnCode::SuccessMaxQoS1]);
            assert_eq!(ack.required_space(), 3);
        }
        _ => panic!("expected SUBACK"),
    }
}

#[test]
fn suback_return_codes() {
    let expected = [
        (0x00u8, SubAckReturnCode::SuccessMaxQoS0),
        (0x01, SubAckReturnCode::SuccessMaxQoS1),
        (0x02, SubAckReturnCode::SuccessMaxQoS2),
        (0x80, SubAckReturnCode::Failure),
    ];
    for (byte, code) in expected {
        let body = [0x00, 0x10, byte];
        let ack = SubAck::decode(&mut decode::Cursor::new(&body)).unwrap();
        assert_eq!(ack.packet_id, PacketId(16));
        assert_eq!(ack.return_codes.len(), 1);
        assert_eq!(ack.return_codes[0], code);
        assert_eq!(code.to_u8(), byte);
    }
    assert!(matches!(
        SubAck::decode(&mut decode::Cursor::new(&[0x00, 0x10, 0x05])),
        Err(Error::MalformedPacket)
    ));
    assert!(matches!(
        SubAck::decode(&mut decode::Cursor::new(&[0x00, 0x10])),
        Err(Error::MalformedPacket)
    ));
    assert!(matches!(
        SubAck::decode(&mut decode::Cursor::new(&[0x00, 0x10, 0x00, 0x01])),
        Err(Error::VectorIsFull)
    ));
    assert!(matches!(
        SubAck::decode(&mut decode::Cursor::new(&[0x00])),
        Err(Error::UnexpectedEof)
    ));
}

#[test]
fn unsubscribe_on_the_wire() {
    let packet = Packet::Unsubscribe(Unsubscribe::single(
        PacketId(3),
        buffer::String::from("a/b"),
    ));
    let bytes = on_wire(&packet);
    assert_eq!(
        bytes,
        vec![0xA2, 0x07, 0x00, 0x03, 0x00, 0x03, b'a', b'/', b'b']
    );
    let (header, body) = split(&bytes);
    let decoded = Packet::decode(&header, body).unwrap();
    match decoded {
        Packet::Unsubscribe(unsubscribe) => {
            assert_eq!(unsubscribe.packet_id, PacketId(3));
            assert_eq!(unsubscribe.topics.len(), 1);
            assert!(unsubscribe.topics[0].eq_str("a/b"));
            assert_eq!(unsubscribe.flags(), 2);
            assert_eq!(unsubscribe.required_space(), 7);
            assert!(unsubscribe.is_encodable());
        }
        _ => panic!("expected UNSUBSCRIBE"),
    }
}

#[test]
fn unsubscribe_decode_errors() {
    assert!(matches!(
        Unsubscribe::decode(&mut decode::Cursor::new(&[0, 3])),
        Err(Error::MalformedPacket)
    ));
    assert!(matches!(
        Unsubscribe::decode(&mut decode::Cursor::new(&[0, 3, 0, 1, b'a', 0, 1, b'b'])),
        Err(Error::VectorIsFull)
    ));
    assert!(matches!(
        Unsubscribe::decode(&mut decode::Cursor::new(&[0, 3, 0, 1, 0xFF])),
        Err(Error::InvalidUtf8)
    ));
    assert!(matches!(
        Unsubscribe::decode(&mut decode::Cursor::new(&[0, 3, 0, 2, b'a'])),
        Err(Error::UnexpectedEof)
    ));
}

#[test]
fn unsubscribe_encode_refusals() {
    let long = "a".repeat(65_536);
    let packet = Unsubscribe::single(PacketId(1), buffer::String::from(long.as_str()));
    assert!(!packet.is_encodable());
    let mut big = vec![0u8; 70_000];
    let mut cursor = encode::Cursor::new(&mut big);
    assert!(matches!(
        packet.encode_body(&mut cursor),
        Err(Error::MalformedPacket)
    ));
    let fits = Unsubscribe::single(PacketId(1), buffer::String::from("a"));
    let mut small = [0u8; 4];
    let mut cursor = encode::Cursor::new(&mut small);
    assert!(matches!(
        fits.encode_body(&mut cursor),
        Err(Error::UnexpectedEof)
    ));
    assert_eq!(cursor.written().len(), 0);
}

#[test]
fn fixed_header_and_empty_body() {
    let mut buf = [0u8; 8];
    let mut cursor = encode::Cursor::new(&mut buf);
    assert_eq!(
        fixed_header(PacketType::Publish, 0b0011, 321, &mut cursor).unwrap(),
        3
    );
    assert_eq!(cursor.written(), &[0x33, 0xC1, 0x02]);
    empty_body(&mut cursor, PacketType::PingReq).unwrap();
    assert_eq!(cursor.written(), &[0x33, 0xC1, 0x02, 0xC0, 0x00]);
    assert!(matches!(
        fixed_header(PacketType::Publish, 0, 268_435_456, &mut cursor),
        Err(Error::MalformedPacket)
    ));
    assert!(matches!(
        fixed_header(PacketType::Publish, 0, 2_097_152, &mut cursor),
        Err(Error::UnexpectedEof)
    ));
    assert_eq!(cursor.written().len(), 5);
    empty_body(&mut cursor, PacketType::Disconnect).unwrap();
    assert!(matches!(
        empty_body(&mut cursor, PacketType::Disconnect),
        Err(Error::UnexpectedEof)
    ));
    assert_eq!(cursor.written().len(), 7);
}

#[test]
fn whole_packet_is_all_or_nothing() {
    let packet = Packet::PubAck(PacketId(1));
    let mut small = [0u8; 3];
    let mut cursor = encode::Cursor::new(&mut small);
    assert!(matches!(
        encode_packet(&packet, &mut cursor),
        Err(Error::UnexpectedEof)
    ));
    assert_eq!(cursor.written().len(), 0);
    assert_eq!(packet.body_len(), Some(2));
    assert_eq!(packet.required_space(), 4);
}

#[test]
fn payload_beyond_the_length_field_is_malformed() {
    let payload = vec![0u8; 268_435_455];
    let publish = Publish::from_msg(Msg {
        qos: QoS::AtMostOnce,
        retain: false,
        topic: "t",
        payload: &payload,
    });
    assert_eq!(Packet::Publish(publish).body_len(), None);
    let within = Publish::from_msg(Msg {
        qos: QoS::AtMostOnce,
        retain: false,
        topic: "t",
        payload: &payload[..268_435_452],
    });
    assert_eq!(Packet::Publish(within).body_len(), Some(268_435_455));
    assert_eq!(Packet::Publish(within).required_space(), 268_435_460);
}
