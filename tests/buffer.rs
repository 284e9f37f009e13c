use astroplant_websocket::buffer::LatestValues;
use astroplant_websocket::measurement::RawMeasurement;

fn reading(peripheral: i32, quantity_type: i32, value: f64) -> RawMeasurement {
    RawMeasurement { datetime: 0, peripheral, quantity_type, value_bits: value.to_bits() }
}

#[test]
fn buffer_upsert_replaces_same_channel() {
    let mut b = LatestValues::new();
    assert!(b.snapshot().is_empty());
    b.upsert(reading(1, 1, 1.0));
    b.upsert(reading(1, 2, 2.0));
    b.upsert(reading(1, 1, 3.0));
    assert_eq!(b.get((1, 1)), Some(reading(1, 1, 3.0)));
    assert_eq!(b.get((1, 2)), Some(reading(1, 2, 2.0)));
    assert_eq!(b.get((2, 1)), None);
    let snap = b.snapshot();
    assert_eq!(snap.len(), 2);
    assert!(snap.contains(&reading(1, 1, 3.0)));
    assert!(snap.contains(&reading(1, 2, 2.0)));
}

#[test]
fn measurement_key() {
    let m = RawMeasurement { datetime: 5, peripheral: -3, quantity_type: 9, value_bits: 0 };
    assert_eq!(m.key(), (-3, 9));
    assert!(m.has_key((-3, 9)));
    assert!(!m.has_key((9, -3)));
}
