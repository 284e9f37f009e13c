use astroplant_websocket::registry::Subscribers;

#[test]
fn registry_add_get_remove() {
    let mut subs: Subscribers<String> = Subscribers::new();
    let a = subs.add("a".to_string());
    let b = subs.add("b".to_string());
    assert_ne!(a, b);
    assert_eq!(subs.get(a), Some(&"a".to_string()));
    assert_eq!(subs.remove(a), Some("a".to_string()));
    assert_eq!(subs.remove(a), None);
    assert_eq!(subs.get(a), None);
    assert_eq!(subs.ids(), vec![b]);
}

#[test]
fn registry_never_reuses_ids() {
    let mut subs: Subscribers<u8> = Subscribers::new();
    let a = subs.add(1);
    subs.remove(a);
    let b = subs.add(2);
    assert_ne!(a, b);
    subs.reserve_below(10);
    let c = subs.add(3);
    assert_eq!(c, 10);
    subs.reserve_below(5);
    let d = subs.add(4);
    assert_eq!(d, 11);
    let mut ids = subs.ids();
    ids.sort();
    assert_eq!(ids, vec![b, c, d]);
}

#[test]
fn registry_empty() {
    let subs: Subscribers<u8> = Subscribers::new();
    assert!(subs.ids().is_empty());
    assert_eq!(subs.get(0), None);
}
