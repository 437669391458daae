use mqtt_client::outbox::{Outbox, OUT_QUEUE_SIZE};
use mqtt_client::packet::publish::{Msg, Publish};
use mqtt_client::packet::{Packet, PacketId, QoS};
use mqtt_client::Error;

fn message(payload: &[u8]) -> Packet<'_> {
    Packet::Publish(Publish::from_msg(Msg {
        qos: QoS::AtMostOnce,
        retain: false,
        topic: "t",
        payload,
    }))
}

#[test]
fn outbox_sends_in_order() {
    let mut buf = [0u8; 64];
    let mut outbox = Outbox::new(&mut buf);
    assert!(!outbox.has_pending());
    assert!(outbox.head().is_none());

    outbox.enqueue(&Packet::PingReq).unwrap();
    outbox.enqueue(&Packet::PubRel(PacketId(1))).unwrap();
    outbox.enqueue(&message(b"abc")).unwrap();
    assert!(outbox.has_pending());
    assert_eq!(outbox.len(), 3);
    assert_eq!(outbox.write_cursor(), 2 + 4 + 8);

    assert_eq!(outbox.head().unwrap(), &[0xC0, 0x00]);
    outbox.complete_head().unwrap();
    assert_eq!(outbox.write_cursor(), 4 + 8);
    assert_eq!(outbox.head().unwrap(), &[0x62, 0x02, 0x00, 0x01]);
    outbox.complete_head().unwrap();
    assert_eq!(
        outbox.head().unwrap(),
        &[0x30, 0x06, 0x00, 0x01, b't', b'a', b'b', b'c']
    );
    outbox.complete_head().unwrap();
    assert!(!outbox.has_pending());
    assert_eq!(outbox.write_cursor(), 0);
    outbox.complete_head().unwrap();
    assert_eq!(outbox.len(), 0);
}

#[test]
fn outbox_reuses_space_after_compaction() {
    let mut buf = [0u8; 12];
    let mut outbox = Outbox::new(&mut buf);
    outbox.enqueue(&message(b"12")).unwrap();
    outbox.enqueue(&Packet::PubAck(PacketId(2))).unwrap();
    assert!(matches!(
        outbox.enqueue(&Packet::PingReq),
        Err(Error::BufferTooSmall)
    ));
    outbox.complete_head().unwrap();
    assert_eq!(outbox.write_cursor(), 4);
    outbox.enqueue(&message(b"345")).unwrap();
    assert_eq!(outbox.write_cursor(), 12);
    assert_eq!(outbox.head().unwrap(), &[0x40, 0x02, 0x00, 0x02]);
    outbox.complete_head().unwrap();
    assert_eq!(
        outbox.head().unwrap(),
        &[0x30, 0x06, 0x00, 0x01, b't', b'3', b'4', b'5']
    );
    outbox.compact().unwrap();
    assert_eq!(outbox.write_cursor(), 8);
    assert_eq!(
        outbox.head().unwrap(),
        &[0x30, 0x06, 0x00, 0x01, b't', b'3', b'4', b'5']
    );
}

#[test]
fn outbox_refuses_without_change() {
    let mut buf = [0u8; 8];
    let mut outbox = Outbox::new(&mut buf);
    assert!(matches!(
        outbox.enqueue(&message(b"too long for this")),
        Err(Error::BufferTooSmall)
    ));
    assert!(matches!(
        outbox.check(&message(b"too long for this")),
        Err(Error::BufferTooSmall)
    ));
    assert_eq!(outbox.len(), 0);
    let long = "a".repeat(65_536);
    let oversized = Packet::Publish(Publish::from_msg(Msg {
        qos: QoS::AtMostOnce,
        retain: false,
        topic: &long,
        payload: b"",
    }));
    assert!(matches!(
        outbox.enqueue(&oversized),
        Err(Error::MalformedPacket)
    ));
    assert!(outbox.check(&message(b"123")).is_ok());
    outbox.enqueue(&message(b"123")).unwrap();
    assert_eq!(outbox.len(), 1);
    assert!(matches!(
        outbox.check(&Packet::PingReq),
        Err(Error::BufferTooSmall)
    ));
}

#[test]
fn outbox_queue_depth_is_bounded() {
    let mut buf = [0u8; 256];
    let mut outbox = Outbox::new(&mut buf);
    for _ in 0..OUT_QUEUE_SIZE {
        outbox.enqueue(&Packet::PingReq).unwrap();
    }
    assert!(matches!(
        outbox.enqueue(&Packet::PingReq),
        Err(Error::VectorIsFull)
    ));
    assert_eq!(outbox.len(), OUT_QUEUE_SIZE);
    assert_eq!(outbox.write_cursor(), 2 * OUT_QUEUE_SIZE);
    outbox.complete_head().unwrap();
    outbox.enqueue(&Packet::PingResp).unwrap();
    for _ in 0..OUT_QUEUE_SIZE - 1 {
        assert_eq!(outbox.head().unwrap(), &[0xC0, 0x00]);
        outbox.complete_head().unwrap();
    }
    assert_eq!(outbox.head().unwrap(), &[0xD0, 0x00]);
}

#[test]
fn outbox_starts_at_front_after_drain() {
    let mut buf = [0u8; 8];
    let mut outbox = Outbox::new(&mut buf);
    outbox.enqueue(&message(b"123")).unwrap();
    outbox.complete_head().unwrap();
    assert_eq!(outbox.write_cursor(), 0);
    outbox.enqueue(&message(b"456")).unwrap();
    assert_eq!(outbox.write_cursor(), 8);
    assert_eq!(
        outbox.head().unwrap(),
        &[0x30, 0x06, 0x00, 0x01, b't', b'4', b'5', b'6']
    );
}
