use mqtt_client::incoming::{PubInState, Publish, N_PUB_IN};
use mqtt_client::packet::PacketId;
use mqtt_client::Error;

#[test]
fn tracker_remembers_and_completes() {
    let mut tracker = Publish::new();
    assert_eq!(tracker.find(&PacketId(5)), None);
    tracker.track(&PacketId(5)).unwrap();
    assert_eq!(tracker.find(&PacketId(5)), Some((0, PubInState::AwaitPubRel)));
    tracker.track(&PacketId(5)).unwrap();
    tracker.track(&PacketId(6)).unwrap();
    assert_eq!(tracker.find(&PacketId(6)), Some((1, PubInState::AwaitPubRel)));
    tracker.mark_complete(&PacketId(5)).unwrap();
    assert_eq!(tracker.find(&PacketId(5)), Some((0, PubInState::Done)));
    tracker.mark_complete(&PacketId(5)).unwrap();
    assert_eq!(tracker.find(&PacketId(5)), Some((0, PubInState::Done)));
    tracker.track(&PacketId(5)).unwrap();
    assert_eq!(tracker.find(&PacketId(5)), Some((0, PubInState::Done)));
}

#[test]
fn tracker_unknown_publish_is_a_violation() {
    let mut tracker = Publish::new();
    assert!(matches!(
        tracker.mark_complete(&PacketId(1)),
        Err(Error::ProtocolViolation)
    ));
}

#[test]
fn tracker_full_without_done_entry_refuses() {
    let mut tracker = Publish::new();
    for id in 1..=N_PUB_IN as u16 {
        tracker.track(&PacketId(id)).unwrap();
    }
    assert!(matches!(
        tracker.track(&PacketId(100)),
        Err(Error::VectorIsFull)
    ));
    assert!(matches!(
        tracker.track_acked(&PacketId(100)),
        Err(Error::VectorIsFull)
    ));
    assert_eq!(tracker.find(&PacketId(100)), None);
    tracker.track(&PacketId(3)).unwrap();
}

#[test]
fn tracker_evicts_done_entries_round_robin() {
    let mut tracker = Publish::new();
    for id in 1..=N_PUB_IN as u16 {
        tracker.track(&PacketId(id)).unwrap();
    }
    tracker.mark_complete(&PacketId(3)).unwrap();
    tracker.mark_complete(&PacketId(2)).unwrap();

    tracker.track(&PacketId(100)).unwrap();
    assert_eq!(tracker.find(&PacketId(2)), None);
    assert_eq!(tracker.find(&PacketId(100)), Some((1, PubInState::AwaitPubRel)));

    tracker.track(&PacketId(101)).unwrap();
    assert_eq!(tracker.find(&PacketId(3)), None);
    assert_eq!(tracker.find(&PacketId(101)), Some((2, PubInState::AwaitPubRel)));

    tracker.mark_complete(&PacketId(1)).unwrap();
    tracker.track(&PacketId(102)).unwrap();
    assert_eq!(tracker.find(&PacketId(102)), Some((0, PubInState::AwaitPubRel)));
    assert!(matches!(
        tracker.track(&PacketId(103)),
        Err(Error::VectorIsFull)
    ));
}

#[test]
fn tracker_acked_entries_are_done_at_once() {
    let mut tracker = Publish::new();
    tracker.track_acked(&PacketId(9)).unwrap();
    assert_eq!(tracker.find(&PacketId(9)), Some((0, PubInState::Done)));
    for id in 10..10 + N_PUB_IN as u16 - 1 {
        tracker.track(&PacketId(id)).unwrap();
    }
    tracker.track(&PacketId(200)).unwrap();
    assert_eq!(tracker.find(&PacketId(9)), None);
    assert_eq!(tracker.find(&PacketId(200)), Some((0, PubInState::AwaitPubRel)));
}

#[test]
fn tracker_clear_forgets() {
    let mut tracker = Publish::new();
    tracker.track(&PacketId(1)).unwrap();
    tracker.clear();
    assert_eq!(tracker.find(&PacketId(1)), None);
    tracker.track(&PacketId(2)).unwrap();
    assert_eq!(tracker.find(&PacketId(2)), Some((0, PubInState::AwaitPubRel)));
}
