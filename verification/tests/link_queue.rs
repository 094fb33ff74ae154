use reticulum_node::hash::AddressHash;
use reticulum_node::link_queue::drop_expired;
use reticulum_node::link_queue::LinkStatus;
use reticulum_node::link_queue::PendingQueues;
use reticulum_node::link_queue::SendDecision;
use reticulum_node::link_queue::ANNOUNCE_INTERVAL;
use reticulum_node::link_queue::MAX_CONCURRENT_LINKS;
use reticulum_node::link_queue::QUEUE_CLEANUP_INTERVAL;
use reticulum_node::message_queue::QueuedMessage;
use reticulum_node::message_queue::QUEUE_MESSAGE_TTL;
use reticulum_node::node::activation_verdict;
use reticulum_node::node::check_sendable;
use reticulum_node::node::Direction;
use reticulum_node::node::EventOutcome;
use reticulum_node::node::LinkActivationEvent;
use reticulum_node::node::LinkCache;
use reticulum_node::node::LinkEvent;
use reticulum_node::node::LinkSlot;
use reticulum_node::node::NodeCore;
use reticulum_node::node::NodeError;
use reticulum_node::node::Ticker;
use reticulum_node::stats::QueueStats;

const SECOND: u64 = 1_000_000;

fn peer(id: u8) -> AddressHash {
    let mut hash = [0u8; 16];
    hash[0] = id;
    hash
}

fn texts(messages: &[QueuedMessage]) -> Vec<String> {
    messages.iter().map(|m| m.text().to_string()).collect()
}

#[test]
fn test_submit_decisions() {
    let mut queues = PendingQueues::new();
    let mut stats = QueueStats::new();
    assert_eq!(queues.submit_at(peer(1), LinkStatus::Active, "a", 0, &mut stats), SendDecision::Send);
    assert_eq!(queues.submit_at(peer(1), LinkStatus::Stale, "a", 0, &mut stats), SendDecision::LinkDown { status: LinkStatus::Stale });
    assert_eq!(queues.submit_at(peer(1), LinkStatus::Closed, "a", 0, &mut stats), SendDecision::LinkDown { status: LinkStatus::Closed });
    assert_eq!(queues.depth(&peer(1)), 0);
    assert_eq!(stats, QueueStats::new());
    assert_eq!(queues.submit_at(peer(1), LinkStatus::Pending, "a", 0, &mut stats), SendDecision::Queued { depth: 1 });
    assert_eq!(queues.submit_at(peer(1), LinkStatus::Handshake, "b", 1, &mut stats), SendDecision::Queued { depth: 2 });
    assert_eq!(queues.depth(&peer(1)), 2);
    assert_eq!(stats.queued_messages, 2);
    // an active link never queues, whatever waits already
    assert_eq!(queues.submit_at(peer(1), LinkStatus::Active, "c", 2, &mut stats), SendDecision::Send);
    assert_eq!(queues.depth(&peer(1)), 2);
}

#[test]
fn test_queue_is_full_at_five() {
    let mut queues = PendingQueues::new();
    let mut stats = QueueStats::new();
    for i in 0..5 {
        assert_eq!(queues.submit_at(peer(1), LinkStatus::Pending, "m", i, &mut stats), SendDecision::Queued { depth: i as usize + 1 });
    }
    assert_eq!(queues.submit_at(peer(1), LinkStatus::Pending, "m", 9, &mut stats), SendDecision::QueueFull);
    assert_eq!(queues.depth(&peer(1)), 5);
    assert_eq!(stats.queued_messages, 5);
    // other destinations have queues of their own
    assert_eq!(queues.submit_at(peer(2), LinkStatus::Pending, "m", 9, &mut stats), SendDecision::Queued { depth: 1 });
    assert_eq!(queues.queued_count(), 6);
}

#[test]
fn test_drain_sends_in_order_and_drops_the_expired() {
    let mut queues = PendingQueues::new();
    let mut stats = QueueStats::new();
    let _ = queues.submit_at(peer(1), LinkStatus::Pending, "old", 0, &mut stats);
    let _ = queues.submit_at(peer(1), LinkStatus::Pending, "first", 10 * SECOND, &mut stats);
    let _ = queues.submit_at(peer(1), LinkStatus::Pending, "second", 20 * SECOND, &mut stats);
    let _ = queues.submit_at(peer(2), LinkStatus::Pending, "other", 0, &mut stats);
    let live = queues.drain_at(&peer(1), QUEUE_MESSAGE_TTL + 1, &mut stats);
    assert_eq!(texts(&live), vec!["first", "second"]);
    assert_eq!(live[0].queued_at(), 10 * SECOND);
    assert_eq!(queues.depth(&peer(1)), 0);
    assert_eq!(queues.depth(&peer(2)), 1);
    assert_eq!(stats, QueueStats { queued_messages: 1, expired_messages: 1, dropped_on_close: 0 });
    // nothing left to drain
    assert!(queues.drain_at(&peer(1), QUEUE_MESSAGE_TTL + 1, &mut stats).is_empty());
    assert_eq!(stats, QueueStats { queued_messages: 1, expired_messages: 1, dropped_on_close: 0 });
}

#[test]
fn test_discard_counts_what_was_dropped() {
    let mut queues = PendingQueues::new();
    let mut stats = QueueStats::new();
    let _ = queues.submit_at(peer(1), LinkStatus::Pending, "a", 0, &mut stats);
    let _ = queues.submit_at(peer(1), LinkStatus::Pending, "b", 0, &mut stats);
    assert_eq!(queues.discard(&peer(2), &mut stats), 0);
    assert_eq!(queues.discard(&peer(1), &mut stats), 2);
    assert_eq!(stats, QueueStats { queued_messages: 0, expired_messages: 0, dropped_on_close: 2 });
    assert_eq!(queues.queued_count(), 0);
}

#[test]
fn test_sweep_drops_what_waited_too_long() {
    let mut queues = PendingQueues::new();
    let mut stats = QueueStats::new();
    let _ = queues.submit_at(peer(1), LinkStatus::Pending, "a", 0, &mut stats);
    let _ = queues.submit_at(peer(1), LinkStatus::Pending, "b", 30 * SECOND, &mut stats);
    let _ = queues.submit_at(peer(2), LinkStatus::Pending, "c", 1, &mut stats);
    let _ = queues.submit_at(peer(3), LinkStatus::Pending, "d", 40 * SECOND, &mut stats);
    // at exactly the time to live nothing is dropped
    assert_eq!(queues.sweep_at(QUEUE_MESSAGE_TTL, &mut stats), 0);
    assert_eq!(queues.sweep_at(QUEUE_MESSAGE_TTL + 2, &mut stats), 2);
    assert_eq!(queues.depth(&peer(1)), 1);
    assert_eq!(queues.depth(&peer(2)), 0);
    assert_eq!(queues.depth(&peer(3)), 1);
    assert_eq!(stats, QueueStats { queued_messages: 2, expired_messages: 2, dropped_on_close: 0 });
    assert_eq!(queues.sweep_at(QUEUE_MESSAGE_TTL + 2, &mut stats), 0);
    let live = queues.drain_at(&peer(1), QUEUE_MESSAGE_TTL + 2, &mut stats);
    assert_eq!(texts(&live), vec!["b"]);
}

#[test]
fn test_drop_expired() {
    let mut queue = vec![
        QueuedMessage::with_timestamp("a".to_string(), 0),
        QueuedMessage::with_timestamp("b".to_string(), 50 * SECOND),
        QueuedMessage::with_timestamp("c".to_string(), 1),
        QueuedMessage::with_timestamp("d".to_string(), 61 * SECOND),
    ];
    assert_eq!(drop_expired(&mut queue, 61 * SECOND), 2);
    assert_eq!(texts(&queue), vec!["b", "d"]);
}

#[test]
fn test_queue_drain_on_activation() {
    let mut core: NodeCore<u32> = NodeCore::new();
    assert_eq!(core.send_message_at(peer(1), LinkStatus::Pending, "hello", 5), SendDecision::Queued { depth: 1 });
    assert_eq!(core.stats.queued_messages, 1);
    match core.on_link_event(Direction::Outbound, peer(1), LinkEvent::Activated, 6) {
        EventOutcome::Flush(messages) => assert_eq!(texts(&messages), vec!["hello"]),
        other => panic!("expected a flush, got {:?}", other),
    }
    assert_eq!(core.stats.queued_messages, 0);
    assert_eq!(core.stats.expired_messages, 0);
    assert_eq!(core.pending.depth(&peer(1)), 0);
}

#[test]
fn test_queue_discard_on_close() {
    let mut core: NodeCore<u32> = NodeCore::new();
    assert_eq!(core.links.insert(peer(1), 77), None);
    let _ = core.send_message_at(peer(1), LinkStatus::Pending, "one", 5);
    let _ = core.send_message_at(peer(1), LinkStatus::Handshake, "two", 6);
    assert_eq!(core.stats.queued_messages, 2);
    match core.on_link_event(Direction::Outbound, peer(1), LinkEvent::Closed, 7) {
        EventOutcome::Dropped(count) => assert_eq!(count, 2),
        other => panic!("expected dropped messages, got {:?}", other),
    }
    assert_eq!(core.stats.dropped_on_close, 2);
    assert_eq!(core.stats.queued_messages, 0);
    assert_eq!(core.links.slot(&peer(1)), LinkSlot::Vacant);
    assert_eq!(core.pending.depth(&peer(1)), 0);
}

#[test]
fn test_link_events() {
    let mut core: NodeCore<u32> = NodeCore::new();
    assert_eq!(core.links.insert(peer(1), 1), None);
    assert_eq!(core.links.insert(peer(2), 2), None);
    let _ = core.send_message_at(peer(1), LinkStatus::Pending, "kept", 0);
    assert!(matches!(core.on_link_event(Direction::Inbound, peer(1), LinkEvent::Activated, 1), EventOutcome::Nothing));
    assert_eq!(core.pending.depth(&peer(1)), 1);
    match core.on_link_event(Direction::Inbound, peer(1), LinkEvent::Data(vec![1, 2]), 1) {
        EventOutcome::Deliver(payload) => assert_eq!(payload, vec![1, 2]),
        other => panic!("expected data, got {:?}", other),
    }
    match core.on_link_event(Direction::Outbound, peer(1), LinkEvent::Data(vec![3]), 1) {
        EventOutcome::Deliver(payload) => assert_eq!(payload, vec![3]),
        other => panic!("expected data, got {:?}", other),
    }
    // an inbound link that closes leaves the cache; its queue stays
    assert!(matches!(core.on_link_event(Direction::Inbound, peer(1), LinkEvent::Closed, 1), EventOutcome::Nothing));
    assert_eq!(core.links.slot(&peer(1)), LinkSlot::Vacant);
    assert_eq!(core.links.slot(&peer(2)), LinkSlot::Existing);
    assert_eq!(core.pending.depth(&peer(1)), 1);
    assert_eq!(core.stats.queued_messages, 1);
    // an outbound link with nothing queued
    match core.on_link_event(Direction::Outbound, peer(2), LinkEvent::Activated, 1) {
        EventOutcome::Flush(messages) => assert!(messages.is_empty()),
        other => panic!("expected a flush, got {:?}", other),
    }
    assert!(matches!(core.on_link_event(Direction::Outbound, peer(2), LinkEvent::Closed, 1), EventOutcome::Dropped(0)));
    assert_eq!(core.on_sweep_at(QUEUE_MESSAGE_TTL + 1), 1);
    assert_eq!(core.stats, QueueStats { queued_messages: 0, expired_messages: 1, dropped_on_close: 0 });
}

#[test]
fn test_link_cache_limit() {
    let mut cache: LinkCache<String> = LinkCache::new();
    for i in 0..MAX_CONCURRENT_LINKS {
        assert_eq!(cache.slot(&peer(i as u8)), LinkSlot::Vacant);
        assert_eq!(cache.insert(peer(i as u8), format!("link {}", i)), None);
    }
    assert_eq!(cache.len(), 20);
    assert_eq!(cache.slot(&peer(3)), LinkSlot::Existing);
    assert_eq!(cache.slot(&peer(99)), LinkSlot::LimitReached);
    assert_eq!(cache.insert(peer(99), "late".to_string()), Some("late".to_string()));
    assert_eq!(cache.insert(peer(3), "again".to_string()), Some("again".to_string()));
    assert_eq!(cache.get(&peer(3)), Some(&"link 3".to_string()));
    assert_eq!(cache.get(&peer(99)), None);
    assert_eq!(cache.remove(&peer(3)), Some("link 3".to_string()));
    assert_eq!(cache.remove(&peer(3)), None);
    assert_eq!(cache.slot(&peer(99)), LinkSlot::Vacant);
}

#[test]
fn test_waiting_for_a_link() {
    assert_eq!(check_sendable(Some(LinkStatus::Active)), Ok(()));
    assert_eq!(check_sendable(Some(LinkStatus::Pending)), Err(NodeError::LinkClosed));
    assert_eq!(check_sendable(Some(LinkStatus::Closed)), Err(NodeError::LinkClosed));
    assert_eq!(check_sendable(None), Err(NodeError::LinkClosed));
    assert_eq!(activation_verdict(&LinkActivationEvent::Activated(peer(1)), &peer(1)), Some(Ok(())));
    assert_eq!(activation_verdict(&LinkActivationEvent::Closed(peer(1)), &peer(1)), Some(Err(NodeError::LinkClosed)));
    assert_eq!(activation_verdict(&LinkActivationEvent::Activated(peer(2)), &peer(1)), None);
    assert_eq!(activation_verdict(&LinkActivationEvent::Closed(peer(2)), &peer(1)), None);
}

#[test]
fn test_ticker_skips_the_first_tick_and_never_bursts() {
    let mut ticker = Ticker::new(ANNOUNCE_INTERVAL, 1_000);
    assert!(!ticker.poll(1_000));
    assert!(!ticker.poll(ANNOUNCE_INTERVAL + 999));
    assert!(ticker.poll(ANNOUNCE_INTERVAL + 1_000));
    assert!(!ticker.poll(ANNOUNCE_INTERVAL + 1_001));
    // three periods late: one tick, and the next a full period later
    let late = 5 * ANNOUNCE_INTERVAL;
    assert!(ticker.poll(late));
    assert!(!ticker.poll(late + 1));
    assert!(!ticker.poll(late + ANNOUNCE_INTERVAL - 1));
    assert!(ticker.poll(late + ANNOUNCE_INTERVAL));
    let mut sweep = Ticker::new(QUEUE_CLEANUP_INTERVAL, u64::MAX - 5);
    assert_eq!(sweep.next_due, u64::MAX);
    assert!(sweep.poll(u64::MAX));
    assert_eq!(QUEUE_CLEANUP_INTERVAL, 10 * SECOND);
}
