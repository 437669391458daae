use heapless::Vec;
use mqtt_client::buffer;
use mqtt_client::packet::subscribe::{Subscribe, Subscription};
use mqtt_client::packet::{encode, PacketId, QoS};

fn make_subscribe<'a>() -> Subscribe<'a> {
    let mut topics: Vec<Subscription, 1> = Vec::new();
    topics
        .push(Subscription {
            topic_filter: buffer::String::from("a/b"),
            qos: QoS::AtLeastOnce,
        })
        .unwrap();
    Subscribe {
        packet_id: PacketId(10),
        topics,
    }
}

#[test]
fn encode_subscribe_single_topic() {
    let packet = make_subscribe();
    let mut buf = [0u8; 32];
    let mut cursor = encode::Cursor::new(&mut buf);

    (&packet).encode_body(&mut cursor).unwrap();

    let encoded = cursor.written();

    assert_eq!(encoded, &[0x00, 0x0A, 0x00, 0x03, b'a', b'/', b'b', 0x01]);
}
