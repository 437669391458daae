use mqtt_client::packet::PacketId;
use mqtt_client::packet_id_pool::{Kind, PacketIdPool, PubInFlightState};
use mqtt_client::Error;

#[test]
fn pool_starts_at_one() {
    let mut pool = PacketIdPool::<2, 2>::new();
    assert_eq!(pool.cursor(), 1);
    assert!(!pool.contains(1));
    assert_eq!(pool.next_id().unwrap(), 1);
    assert_eq!(pool.cursor(), 2);
}

#[test]
fn pool_allocates_distinct_nonzero_ids() {
    let mut pool = PacketIdPool::<2, 2>::new();
    let a = pool.next_pub_id(true).unwrap();
    let b = pool.next_sub_id().unwrap();
    let c = pool.next_unsub_id().unwrap();
    let d = pool.next_pub_id(false).unwrap();
    assert_eq!((a, b, c, d), (PacketId(1), PacketId(2), PacketId(3), PacketId(4)));
    for id in [a, b, c, d] {
        assert!(pool.contains(id.0));
    }
    assert!(pool.holds_request(Kind::Sub, 2));
    assert!(!pool.holds_request(Kind::Unsub, 2));
    assert!(pool.holds_request(Kind::Unsub, 3));
    assert!(!pool.holds_request(Kind::Sub, 3));
    assert_eq!(pool.publish_state(&a), Some(PubInFlightState::AwaitPubAck));
    assert_eq!(pool.publish_state(&d), Some(PubInFlightState::AwaitPubRec));
    assert_eq!(pool.publish_state(&b), None);
}

#[test]
fn pool_fails_when_store_is_full() {
    let mut pool = PacketIdPool::<1, 1>::new();
    pool.next_pub_id(true).unwrap();
    assert!(matches!(
        pool.next_pub_id(true),
        Err(Error::NoPacketIdAvailable)
    ));
    pool.next_sub_id().unwrap();
    assert!(matches!(pool.next_sub_id(), Err(Error::NoPacketIdAvailable)));
    assert!(matches!(
        pool.next_for(Kind::Sub),
        Err(Error::NoPacketIdAvailable)
    ));
    assert_eq!(pool.cursor(), 3);
    assert_eq!(pool.next_unsub_id().unwrap(), PacketId(3));
}

#[test]
fn pool_without_slots_allocates_nothing() {
    let mut pool = PacketIdPool::<0, 0>::new();
    assert!(matches!(
        pool.next_pub_id(false),
        Err(Error::NoPacketIdAvailable)
    ));
    assert!(matches!(
        pool.next_unsub_id(),
        Err(Error::NoPacketIdAvailable)
    ));
    assert_eq!(pool.cursor(), 1);
}

#[test]
fn pool_skips_ids_in_use_and_wraps() {
    let mut pool = PacketIdPool::<2, 2>::new();
    let first = pool.next_sub_id().unwrap();
    assert_eq!(first, PacketId(1));
    for expected in 2..=65_535u16 {
        assert_eq!(pool.next_id().unwrap(), expected);
    }
    assert_eq!(pool.cursor(), 1);
    assert_eq!(pool.next_pub_id(true).unwrap(), PacketId(2));
    assert_eq!(pool.cursor(), 3);
}

#[test]
fn pool_release_frees_the_id() {
    let mut pool = PacketIdPool::<1, 1>::new();
    let sub = pool.next_sub_id().unwrap();
    let unsub = pool.next_unsub_id().unwrap();
    assert!(matches!(
        pool.release_unsub_id(&sub),
        Err(Error::ProtocolViolation)
    ));
    assert!(matches!(
        pool.release_sub_id(&unsub),
        Err(Error::ProtocolViolation)
    ));
    pool.release_sub_id(&sub).unwrap();
    assert!(!pool.contains(sub.0));
    assert!(matches!(
        pool.release_sub_id(&sub),
        Err(Error::ProtocolViolation)
    ));
    pool.release_for(Kind::Unsub, &unsub).unwrap();
    assert!(!pool.contains(unsub.0));
    assert_eq!(pool.next_sub_id().unwrap(), PacketId(3));
}

#[test]
fn pool_qos1_flow() {
    let mut pool = PacketIdPool::<2, 1>::new();
    let id = pool.next_pub_id(true).unwrap();
    assert!(matches!(pool.set_pubrel(&id), Err(Error::ProtocolViolation)));
    assert!(matches!(
        pool.release_pub_id(&id, false),
        Err(Error::ProtocolViolation)
    ));
    assert_eq!(pool.publish_state(&id), Some(PubInFlightState::AwaitPubAck));
    pool.release_pub_id(&id, true).unwrap();
    assert_eq!(pool.publish_state(&id), None);
    assert!(!pool.contains(id.0));
    assert!(matches!(
        pool.release_pub_id(&id, true),
        Err(Error::ProtocolViolation)
    ));
}

#[test]
fn pool_qos2_flow() {
    let mut pool = PacketIdPool::<2, 1>::new();
    let id = pool.next_pub_id(false).unwrap();
    assert_eq!(pool.publish_state(&id), Some(PubInFlightState::AwaitPubRec));
    assert!(matches!(
        pool.release_pub_id(&id, false),
        Err(Error::ProtocolViolation)
    ));
    assert!(matches!(
        pool.release_pub_id(&id, true),
        Err(Error::ProtocolViolation)
    ));
    pool.set_pubrel(&id).unwrap();
    assert_eq!(pool.publish_state(&id), Some(PubInFlightState::AwaitPubComp));
    pool.set_pubrel(&id).unwrap();
    assert_eq!(pool.publish_state(&id), Some(PubInFlightState::AwaitPubComp));
    assert!(matches!(
        pool.release_pub_id(&id, true),
        Err(Error::ProtocolViolation)
    ));
    pool.release_pub_id(&id, false).unwrap();
    assert_eq!(pool.publish_state(&id), None);
    assert!(matches!(
        pool.set_pubrel(&PacketId(9)),
        Err(Error::ProtocolViolation)
    ));
}

#[test]
fn pool_clear_resets_everything() {
    let mut pool = PacketIdPool::<2, 2>::new();
    let a = pool.next_pub_id(true).unwrap();
    let b = pool.next_sub_id().unwrap();
    let c = pool.next_unsub_id().unwrap();
    pool.clear();
    assert_eq!(pool.cursor(), 1);
    for id in [a, b, c] {
        assert!(!pool.contains(id.0));
    }
    assert_eq!(pool.next_unsub_id().unwrap(), PacketId(1));
}
