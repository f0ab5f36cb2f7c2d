use chat_relay::registry::Registry;

#[test]
fn register_is_fresh_once() {
    let mut r = Registry::new();
    assert!(r.register(String::from("a")));
    assert!(r.is_registered(&String::from("a")));
    assert!(!r.register(String::from("a")));
}

#[test]
fn unregister_removes_and_is_idempotent() {
    let mut r = Registry::new();
    assert!(r.register(String::from("a")));
    r.unregister(&String::from("a"));
    assert!(!r.is_registered(&String::from("a")));
    r.unregister(&String::from("a"));
    assert!(!r.is_registered(&String::from("a")));
    r.unregister(&String::from("never-there"));
}

#[test]
fn snapshot_tracks_live_connections() {
    let mut r = Registry::new();
    assert!(r.register(String::from("a")));
    assert!(r.register(String::from("b")));
    let ids = r.snapshot_ids();
    assert_eq!(ids.len(), 2);
    assert!(ids.contains(&String::from("a")));
    assert!(ids.contains(&String::from("b")));
    r.unregister(&String::from("a"));
    let ids = r.snapshot_ids();
    assert_eq!(ids, vec![String::from("b")]);
}

#[test]
fn enqueue_all_reaches_every_queue() {
    let mut r = Registry::new();
    assert!(r.register(String::from("a")));
    assert!(r.register(String::from("b")));
    r.enqueue_all(&String::from("x"));
    assert_eq!(r.pop_outbound(&String::from("a")), Some(String::from("x")));
    assert_eq!(r.pop_outbound(&String::from("b")), Some(String::from("x")));
    assert_eq!(r.pop_outbound(&String::from("a")), None);
    assert_eq!(r.pop_outbound(&String::from("b")), None);
}

#[test]
fn pop_outbound_is_fifo() {
    let mut r = Registry::new();
    assert!(r.register(String::from("a")));
    r.enqueue_all(&String::from("m1"));
    r.enqueue_all(&String::from("m2"));
    r.enqueue_all(&String::from("m3"));
    assert_eq!(r.pop_outbound(&String::from("a")), Some(String::from("m1")));
    assert_eq!(r.pop_outbound(&String::from("a")), Some(String::from("m2")));
    assert_eq!(r.pop_outbound(&String::from("a")), Some(String::from("m3")));
    assert_eq!(r.pop_outbound(&String::from("a")), None);
}

#[test]
fn pop_outbound_absent_is_none() {
    let mut r = Registry::new();
    assert_eq!(r.pop_outbound(&String::from("ghost")), None);
}
