use pg_amqp_bridge::ChannelCounter;
use pg_amqp_bridge::config::Binding;
use pg_amqp_bridge::payload::HeaderEntry;
use pg_amqp_bridge::worker::EntityType;
use pg_amqp_bridge::worker::Worker;
use pg_amqp_bridge::worker::WorkerAction;
use pg_amqp_bridge::worker::WorkerEvent;
use pg_amqp_bridge::worker::WorkerState;
use pg_amqp_bridge::worker::build_envelope;
use pg_amqp_bridge::worker::classify_entity;
use pg_amqp_bridge::worker::next_backoff;

fn binding(pg_channel: &str, amqp_entity: &str) -> Binding {
    Binding {
        pg_channel: pg_channel.to_string(),
        amqp_entity: amqp_entity.to_string(),
    }
}

#[test]
fn classify_prefers_exchange() {
    assert_eq!(Some(EntityType::Exchange), classify_entity(true, true));
    assert_eq!(Some(EntityType::Exchange), classify_entity(false, true));
    assert_eq!(Some(EntityType::Queue), classify_entity(true, false));
    assert_eq!(None, classify_entity(false, false));
}

#[test]
fn queue_publish_uses_default_exchange() {
    // Binding c1:q1 where q1 is a queue; NOTIFY c1, 'q1|Queue test'.
    let e = build_envelope(&binding("c1", "q1"), EntityType::Queue, "q1|Queue test", 1);
    assert_eq!(e.exchange, "");
    assert_eq!(e.routing_key, "q1");
    assert_eq!(e.body, "Queue test");
    assert_eq!(e.content_type, "text");
    assert_eq!(e.delivery_mode, 1);
    assert!(e.mandatory);
    assert!(!e.immediate);
    assert_eq!(e.headers, None);
}

#[test]
fn direct_exchange_publish_uses_parsed_key() {
    // Binding c2:ex2 where ex2 is a direct exchange bound via test_direct_key.
    let e = build_envelope(
        &binding("c2", "ex2"),
        EntityType::Exchange,
        "test_direct_key|Direct exchange test",
        1,
    );
    assert_eq!(e.exchange, "ex2");
    assert_eq!(e.routing_key, "test_direct_key");
    assert_eq!(e.body, "Direct exchange test");
}

#[test]
fn topic_exchange_publish_uses_parsed_key() {
    // Binding c3:ex3 where ex3 is a topic exchange; the broker, not the
    // bridge, matches kern.critical against queue patterns.
    let e = build_envelope(
        &binding("c3", "ex3"),
        EntityType::Exchange,
        "kern.critical|Kernel critical message",
        2,
    );
    assert_eq!(e.exchange, "ex3");
    assert_eq!(e.routing_key, "kern.critical");
    assert_eq!(e.body, "Kernel critical message");
    assert_eq!(e.delivery_mode, 2);
}

#[test]
fn worker_happy_path_publishes_in_order() {
    let mut w = Worker::new(binding("c1", "q1"), 1);
    assert_eq!(w.state, WorkerState::Classifying);
    let a = w.step(WorkerEvent::Classified {
        queue_exists: true,
        exchange_exists: false,
    });
    assert_eq!(a, WorkerAction::StartListening);
    assert_eq!(w.state, WorkerState::Listening);
    assert_eq!(w.entity_type, Some(EntityType::Queue));

    let mut bodies = Vec::new();
    for payload in ["q1|first", "q1|second", "q1|third"] {
        let a = w.step(WorkerEvent::Notified {
            payload: payload.to_string(),
        });
        assert_eq!(a, WorkerAction::Publish);
        bodies.push(w.pending.as_ref().unwrap().body.clone());
        let a = w.step(WorkerEvent::PublishOk);
        assert_eq!(a, WorkerAction::ContinueListening);
        assert_eq!(w.state, WorkerState::Listening);
    }
    assert_eq!(bodies, vec!["first", "second", "third"]);
}

#[test]
fn worker_fails_fatally_when_entity_missing() {
    let mut w = Worker::new(binding("c1", "nowhere"), 1);
    let a = w.step(WorkerEvent::Classified {
        queue_exists: false,
        exchange_exists: false,
    });
    assert_eq!(a, WorkerAction::FatalEntityMissing);
    assert_eq!(w.state, WorkerState::Failed);
}

#[test]
fn worker_retries_once_on_transport_loss() {
    let mut w = Worker::new(binding("c1", "q1"), 1);
    w.step(WorkerEvent::Classified {
        queue_exists: true,
        exchange_exists: false,
    });
    let a = w.step(WorkerEvent::Notified {
        payload: "q1|hello".to_string(),
    });
    assert_eq!(a, WorkerAction::Publish);
    let envelope = w.pending.clone().unwrap();

    // Transport loss on the first attempt: reconnect, then publish the
    // same envelope exactly once more.
    let a = w.step(WorkerEvent::PublishIoError);
    assert_eq!(a, WorkerAction::Reconnect);
    assert_eq!(w.state, WorkerState::Reconnecting);
    let a = w.step(WorkerEvent::SessionRestored {
        queue_exists: true,
        exchange_exists: false,
    });
    assert_eq!(a, WorkerAction::Publish);
    assert_eq!(w.pending.as_ref(), Some(&envelope));

    // A second failure is logged and the worker keeps going.
    let a = w.step(WorkerEvent::PublishIoError);
    assert_eq!(a, WorkerAction::ContinueListening);
    assert_eq!(w.state, WorkerState::Listening);
    assert_eq!(w.pending, None);
}

#[test]
fn worker_exits_fatally_when_entity_vanishes_on_reconnect() {
    let mut w = Worker::new(binding("c1", "q1"), 1);
    w.step(WorkerEvent::Classified {
        queue_exists: true,
        exchange_exists: false,
    });
    w.step(WorkerEvent::Notified {
        payload: "q1|hello".to_string(),
    });
    w.step(WorkerEvent::PublishIoError);
    let a = w.step(WorkerEvent::SessionRestored {
        queue_exists: false,
        exchange_exists: false,
    });
    assert_eq!(a, WorkerAction::FatalEntityMissing);
    assert_eq!(w.state, WorkerState::Failed);
}

#[test]
fn worker_non_transport_error_continues() {
    let mut w = Worker::new(binding("c1", "q1"), 1);
    w.step(WorkerEvent::Classified {
        queue_exists: true,
        exchange_exists: false,
    });
    w.step(WorkerEvent::Notified {
        payload: "q1|hello".to_string(),
    });
    let a = w.step(WorkerEvent::PublishOtherError);
    assert_eq!(a, WorkerAction::ContinueListening);
    assert_eq!(w.state, WorkerState::Listening);
}

#[test]
fn worker_closes_cleanly_when_stream_ends() {
    let mut w = Worker::new(binding("c1", "q1"), 1);
    w.step(WorkerEvent::Classified {
        queue_exists: true,
        exchange_exists: false,
    });
    let a = w.step(WorkerEvent::StreamEnded);
    assert_eq!(a, WorkerAction::CloseCleanly);
    assert_eq!(w.state, WorkerState::Stopped);
}

#[test]
fn backoff_schedule_doubles_then_resets() {
    let mut waits = Vec::new();
    let mut s: u64 = 1;
    for _ in 0..7 {
        waits.push(s);
        s = next_backoff(s);
    }
    assert_eq!(waits, vec![1, 2, 4, 8, 16, 32, 1]);
}

#[test]
fn envelope_carries_parsed_headers() {
    let e = build_envelope(&binding("c1", "ex1"), EntityType::Exchange, "k|A: 1, 2|body", 1);
    assert_eq!(
        e.headers,
        Some(vec![HeaderEntry {
            name: "A".to_string(),
            values: vec!["1".to_string(), "2".to_string()],
        }])
    );
}

#[test]
fn channel_counter_wraps_at_the_16_bit_limit() {
    let mut counter = ChannelCounter::new();
    counter.counter = u16::MAX;
    assert_eq!(counter.inc(), 0);
}

#[test]
fn channel_counter_hands_out_increasing_ids() {
    let mut counter = ChannelCounter::new();
    assert_eq!(counter.counter, 0);
    assert_eq!(counter.inc(), 1);
    assert_eq!(counter.inc(), 2);
    assert_eq!(counter.inc(), 3);
}
