use chat_relay::registry::Registry;
use chat_relay::relay::Frame;
use chat_relay::relay::connect;
use chat_relay::relay::handle_frame;
use chat_relay::relay::handle_message;

#[test]
fn handle_message_tags_text_with_sender() {
    let m = handle_message("u1", &Frame::Text(String::from("hi"))).unwrap();
    assert_eq!(m.user_id, "u1");
    assert_eq!(m.message, "hi");
}

#[test]
fn handle_message_drops_non_text() {
    assert!(handle_message("u1", &Frame::NonText).is_none());
}

#[test]
fn malformed_frame_changes_nothing() {
    let mut r = Registry::new();
    assert!(r.register(String::from("a")));
    handle_frame(&mut r, "a", &Frame::NonText);
    assert!(r.is_registered(&String::from("a")));
    assert_eq!(r.pop_outbound(&String::from("a")), None);
}

#[test]
fn two_clients_broadcast_and_departure() {
    let mut r = Registry::new();
    assert!(r.register(String::from("a")));
    assert!(r.register(String::from("b")));

    handle_frame(&mut r, "a", &Frame::Text(String::from("hello")));
    let expected = String::from("{\"user_id\":\"a\",\"message\":\"hello\"}");
    assert_eq!(r.pop_outbound(&String::from("a")), Some(expected.clone()));
    assert_eq!(r.pop_outbound(&String::from("b")), Some(expected));

    r.unregister(&String::from("a"));
    handle_frame(&mut r, "b", &Frame::Text(String::from("still here")));
    let expected = String::from("{\"user_id\":\"b\",\"message\":\"still here\"}");
    assert_eq!(r.pop_outbound(&String::from("b")), Some(expected));
    assert_eq!(r.pop_outbound(&String::from("a")), None);
}

#[test]
fn single_client_gets_own_messages_in_order() {
    let mut r = Registry::new();
    assert!(r.register(String::from("solo")));
    handle_frame(&mut r, "solo", &Frame::Text(String::from("one")));
    handle_frame(&mut r, "solo", &Frame::Text(String::from("two")));
    handle_frame(&mut r, "solo", &Frame::Text(String::from("three")));
    let key = String::from("solo");
    for body in ["one", "two", "three"] {
        let expected = format!("{{\"user_id\":\"solo\",\"message\":\"{}\"}}", body);
        assert_eq!(r.pop_outbound(&key), Some(expected));
    }
    assert_eq!(r.pop_outbound(&key), None);
}

#[test]
fn connect_allocates_fresh_identifiers() {
    let mut r = Registry::new();
    let id1 = connect(&mut r).unwrap();
    let id2 = connect(&mut r).unwrap();
    assert_eq!(id1.len(), 36);
    assert_eq!(id2.len(), 36);
    assert_ne!(id1, id2);
    assert!(r.is_registered(&id1));
    assert!(r.is_registered(&id2));
}
