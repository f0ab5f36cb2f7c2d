use chat_relay::codec::ChatMessage;
use chat_relay::codec::encode_chat_message;
use chat_relay::codec::escape_json_string;

#[test]
fn encodes_plain_message() {
    let m = ChatMessage { user_id: String::from("a"), message: String::from("hello") };
    assert_eq!(encode_chat_message(&m), "{\"user_id\":\"a\",\"message\":\"hello\"}");
}

#[test]
fn escape_leaves_plain_text_unchanged() {
    assert_eq!(escape_json_string("hello world"), "hello world");
    assert_eq!(escape_json_string(""), "");
}

#[test]
fn escape_quotes_and_backslashes() {
    assert_eq!(escape_json_string("a\"b\\c"), "a\\\"b\\\\c");
}

#[test]
fn escape_control_characters() {
    assert_eq!(escape_json_string("\n\t\u{1f}"), "\\u000a\\u0009\\u001f");
}

#[test]
fn escape_keeps_non_ascii_text() {
    assert_eq!(escape_json_string("héllo ↔ wörld"), "héllo ↔ wörld");
}

#[test]
fn encoded_payload_parses_back() {
    let m = ChatMessage {
        user_id: String::from("user-42"),
        message: String::from("line1\nline2 \"quoted\" back\\slash é"),
    };
    let payload = encode_chat_message(&m);
    let v: serde_json::Value = serde_json::from_str(&payload).unwrap();
    assert_eq!(v.get("user_id").and_then(|f| f.as_str()), Some("user-42"));
    assert_eq!(
        v.get("message").and_then(|f| f.as_str()),
        Some("line1\nline2 \"quoted\" back\\slash é")
    );
    assert_eq!(v.as_object().unwrap().len(), 2);
}
