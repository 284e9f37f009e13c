use astroplant_websocket::engine::{Notification, PubSubEngine};
use astroplant_websocket::measurement::RawMeasurement;

fn reading(peripheral: i32, quantity_type: i32, value: f64, datetime: u64) -> RawMeasurement {
    RawMeasurement { datetime, peripheral, quantity_type, value_bits: value.to_bits() }
}

fn value(m: &RawMeasurement) -> f64 {
    f64::from_bits(m.value_bits)
}

fn subscriptions(ns: &[Notification]) -> Vec<u64> {
    let mut ids: Vec<u64> = ns.iter().map(|n| n.subscription).collect();
    ids.sort();
    ids
}

#[test]
fn greenhouse_end_to_end() {
    let mut engine: PubSubEngine<&str> = PubSubEngine::new();
    let (x, replay_x) = engine.add_raw_measurement_subscriber("greenhouse-1".to_string(), "sinkX");
    assert!(replay_x.is_empty());

    let m = reading(3, 7, 21.5, 1000);
    let ns = engine.publish_raw_measurement("greenhouse-1".to_string(), m);
    assert_eq!(ns.len(), 1);
    assert_eq!(ns[0].subscription, x);
    assert_eq!(value(&ns[0].measurement), 21.5);
    assert_eq!(engine.sink(x), Some(&"sinkX"));

    let (y, replay_y) = engine.add_raw_measurement_subscriber("greenhouse-1".to_string(), "sinkY");
    assert_ne!(x, y);
    assert_eq!(replay_y.len(), 1);
    assert_eq!(replay_y[0].subscription, y);
    assert_eq!(replay_y[0].measurement.key(), (3, 7));
    assert_eq!(value(&replay_y[0].measurement), 21.5);
}

#[test]
fn later_publish_reaches_new_subscriber() {
    let mut engine: PubSubEngine<&str> = PubSubEngine::new();
    engine.publish_raw_measurement("k".to_string(), reading(1, 2, 1.0, 1));
    let (id, replay) = engine.add_raw_measurement_subscriber("k".to_string(), "sink");
    assert_eq!(replay.len(), 1);
    assert_eq!(value(&replay[0].measurement), 1.0);
    let ns = engine.publish_raw_measurement("k".to_string(), reading(1, 2, 2.0, 2));
    assert_eq!(ns, vec![Notification { subscription: id, measurement: reading(1, 2, 2.0, 2) }]);
}

#[test]
fn replay_gives_latest_once_per_channel() {
    let mut engine: PubSubEngine<&str> = PubSubEngine::new();
    engine.publish_raw_measurement("k".to_string(), reading(1, 1, 5.0, 1));
    engine.publish_raw_measurement("k".to_string(), reading(1, 2, 6.0, 2));
    engine.publish_raw_measurement("k".to_string(), reading(2, 1, 7.0, 3));
    let (id, replay) = engine.add_raw_measurement_subscriber("k".to_string(), "sink");
    assert_eq!(replay.len(), 3);
    assert!(replay.iter().all(|n| n.subscription == id));
    let for_key: Vec<&Notification> =
        replay.iter().filter(|n| n.measurement.key() == (1, 2)).collect();
    assert_eq!(for_key.len(), 1);
    assert_eq!(value(&for_key[0].measurement), 6.0);
}

#[test]
fn second_publish_supersedes_first() {
    let mut engine: PubSubEngine<&str> = PubSubEngine::new();
    engine.publish_raw_measurement("k".to_string(), reading(4, 4, 10.0, 1));
    engine.publish_raw_measurement("k".to_string(), reading(4, 4, 11.0, 2));
    let (_, replay) = engine.add_raw_measurement_subscriber("k".to_string(), "sink");
    assert_eq!(replay.len(), 1);
    assert_eq!(value(&replay[0].measurement), 11.0);
    assert_eq!(replay[0].measurement.datetime, 2);
}

#[test]
fn publish_leaves_other_channels_alone() {
    let mut engine: PubSubEngine<&str> = PubSubEngine::new();
    engine.publish_raw_measurement("k".to_string(), reading(1, 1, 1.5, 1));
    let (_, _) = engine.add_raw_measurement_subscriber("k".to_string(), "a");
    let ns = engine.publish_raw_measurement("k".to_string(), reading(2, 2, 2.5, 2));
    assert_eq!(ns.len(), 1);
    assert_eq!(ns[0].measurement.key(), (2, 2));
    let (_, replay) = engine.add_raw_measurement_subscriber("k".to_string(), "b");
    let mut keys: Vec<(i32, i32)> = replay.iter().map(|n| n.measurement.key()).collect();
    keys.sort();
    assert_eq!(keys, vec![(1, 1), (2, 2)]);
    let old = replay.iter().find(|n| n.measurement.key() == (1, 1)).unwrap();
    assert_eq!(value(&old.measurement), 1.5);
}

#[test]
fn unsubscribe_is_idempotent() {
    let mut engine: PubSubEngine<&str> = PubSubEngine::new();
    let (a, _) = engine.add_raw_measurement_subscriber("k".to_string(), "a");
    let (b, _) = engine.add_raw_measurement_subscriber("k".to_string(), "b");
    assert!(engine.remove_raw_measurement_subscriber(a));
    assert!(!engine.remove_raw_measurement_subscriber(a));
    assert!(!engine.remove_raw_measurement_subscriber(12345));
    assert_eq!(engine.sink(a), None);
    assert_eq!(engine.sink(b), Some(&"b"));
    let ns = engine.publish_raw_measurement("k".to_string(), reading(1, 1, 3.0, 1));
    assert_eq!(subscriptions(&ns), vec![b]);
}

#[test]
fn kits_are_isolated() {
    let mut engine: PubSubEngine<&str> = PubSubEngine::new();
    let (a, _) = engine.add_raw_measurement_subscriber("A".to_string(), "on-a");
    let (b, _) = engine.add_raw_measurement_subscriber("B".to_string(), "on-b");
    let ns = engine.publish_raw_measurement("B".to_string(), reading(1, 1, 9.0, 1));
    assert_eq!(subscriptions(&ns), vec![b]);
    assert!(ns.iter().all(|n| n.subscription != a));
    let (_, replay) = engine.add_raw_measurement_subscriber("A".to_string(), "late-on-a");
    assert!(replay.is_empty());
}

#[test]
fn publish_notifies_each_subscriber_once() {
    let mut engine: PubSubEngine<&str> = PubSubEngine::new();
    let (a, _) = engine.add_raw_measurement_subscriber("k".to_string(), "a");
    let (b, _) = engine.add_raw_measurement_subscriber("k".to_string(), "b");
    let (c, _) = engine.add_raw_measurement_subscriber("k".to_string(), "c");
    let m = reading(1, 1, 4.0, 1);
    let ns = engine.publish_raw_measurement("k".to_string(), m);
    assert_eq!(ns.len(), 3);
    assert_eq!(subscriptions(&ns), vec![a, b, c]);
    assert!(ns.iter().all(|n| n.measurement == m));
    engine.remove_raw_measurement_subscriber(b);
    let ns = engine.publish_raw_measurement("k".to_string(), m);
    assert_eq!(subscriptions(&ns), vec![a, c]);
}

#[test]
fn publish_to_unknown_kit_notifies_nobody() {
    let mut engine: PubSubEngine<&str> = PubSubEngine::new();
    let ns = engine.publish_raw_measurement("fresh".to_string(), reading(1, 1, 0.5, 1));
    assert!(ns.is_empty());
    let (_, replay) = engine.add_raw_measurement_subscriber("fresh".to_string(), "s");
    assert_eq!(replay.len(), 1);
}

#[test]
fn subscription_ids_are_fresh() {
    let mut engine: PubSubEngine<&str> = PubSubEngine::new();
    assert!(engine.has_free_id());
    assert_eq!(engine.next_id(), 0);
    let (a, _) = engine.add_raw_measurement_subscriber("A".to_string(), "a");
    let (b, _) = engine.add_raw_measurement_subscriber("B".to_string(), "b");
    engine.remove_raw_measurement_subscriber(b);
    let (c, _) = engine.add_raw_measurement_subscriber("B".to_string(), "c");
    assert_eq!((a, b, c), (0, 1, 2));
    assert_eq!(engine.next_id(), 3);
    assert_eq!(engine.sink(c), Some(&"c"));
}
