//! History store framing: encoding, parsing, and the round trip.

use mistral_cli::json::{encode_history, encode_request};
use mistral_cli::models::{LlmRequest, Message};
use mistral_cli::parse::{decode_history, HistoryError};

fn msg(role: &str, content: &str) -> Message {
    Message { role: role.to_string(), content: content.to_string() }
}

#[test]
fn encode_empty_history() {
    let h: Vec<Message> = Vec::new();
    assert_eq!(encode_history(&h), "[]");
}

#[test]
fn encode_one_message_exact() {
    let h = vec![msg("user", "hi")];
    assert_eq!(encode_history(&h), "[{\"role\":\"user\",\"content\":\"hi\"}]");
}

#[test]
fn encode_two_messages_exact() {
    let h = vec![msg("user", "a"), msg("assistant", "b")];
    assert_eq!(
        encode_history(&h),
        "[{\"role\":\"user\",\"content\":\"a\"},{\"role\":\"assistant\",\"content\":\"b\"}]"
    );
}

#[test]
fn encode_escapes_specials() {
    let h = vec![msg("user", "a\"b\\c\nd\te\rf")];
    assert_eq!(
        encode_history(&h),
        "[{\"role\":\"user\",\"content\":\"a\\\"b\\\\c\\nd\\te\\rf\"}]"
    );
}

#[test]
fn encode_escapes_control_chars() {
    let h = vec![msg("user", "\u{1}\u{8}\u{c}\u{1f}")];
    assert_eq!(
        encode_history(&h),
        "[{\"role\":\"user\",\"content\":\"\\u0001\\b\\f\\u001f\"}]"
    );
}

#[test]
fn decode_empty_array() {
    let h = decode_history("[]").unwrap();
    assert_eq!(h.len(), 0);
    let h = decode_history("  [ ]  ").unwrap();
    assert_eq!(h.len(), 0);
}

#[test]
fn decode_one_message() {
    let h = decode_history("[{\"role\":\"user\",\"content\":\"hi\"}]").unwrap();
    assert_eq!(h.len(), 1);
    assert_eq!(h[0].role, "user");
    assert_eq!(h[0].content, "hi");
}

#[test]
fn decode_accepts_whitespace_and_key_order() {
    let text = " [ { \"content\" : \"hi\" , \"role\" : \"user\" } ,\n  {\"role\":\"assistant\",\"content\":\"yo\"} ] ";
    let h = decode_history(text).unwrap();
    assert_eq!(h.len(), 2);
    assert_eq!(h[0].role, "user");
    assert_eq!(h[0].content, "hi");
    assert_eq!(h[1].role, "assistant");
    assert_eq!(h[1].content, "yo");
}

#[test]
fn decode_unicode_escapes() {
    let h = decode_history("[{\"role\":\"user\",\"content\":\"\\u0041\\u00e9\\u0009\"}]").unwrap();
    assert_eq!(h[0].content, "A\u{e9}\t");
}

#[test]
fn decode_named_escapes() {
    let h =
        decode_history("[{\"role\":\"user\",\"content\":\"\\\"\\\\\\/\\b\\f\\n\\r\\t\"}]").unwrap();
    assert_eq!(h[0].content, "\"\\/\u{8}\u{c}\n\r\t");
}

#[test]
fn decode_rejects_malformed() {
    assert_eq!(decode_history("").unwrap_err(), HistoryError::Malformed);
    assert!(decode_history("not json").is_err());
    assert!(decode_history("[").is_err());
    assert!(decode_history("[]x").is_err());
    assert!(decode_history("[{\"role\":\"user\"}]").is_err());
    assert!(decode_history("[{\"role\":\"user\",\"content\":\"hi\"}").is_err());
    assert!(decode_history("[{\"role\":\"user\",\"content\":\"hi\"},]").is_err());
    assert!(decode_history("[{\"role\":\"user\",\"role\":\"user\"}]").is_err());
    // A lone surrogate code unit names no character.
    assert!(decode_history("[{\"role\":\"user\",\"content\":\"\\ud800\"}]").is_err());
}

#[test]
fn round_trip_preserves_messages() {
    let h = vec![
        msg("user", "plain"),
        msg("assistant", "with \"quotes\" and \\slashes\\"),
        msg("system", "line\nbreaks\r\nand tabs\t"),
        msg("user", "control \u{1} char and unicode \u{e9}\u{4e2d}"),
        msg("assistant", ""),
    ];
    let text = encode_history(&h);
    let back = decode_history(&text).unwrap();
    assert_eq!(back.len(), h.len());
    for (a, b) in h.iter().zip(back.iter()) {
        assert_eq!(a.role, b.role);
        assert_eq!(a.content, b.content);
    }
}

#[test]
fn decode_accepts_serde_json_output() {
    // The same file shape a generic JSON serializer writes: key order may
    // differ and control characters arrive as \u escapes.
    let mut obj = serde_json::Map::new();
    obj.insert("role".to_string(), serde_json::Value::String("user".to_string()));
    obj.insert(
        "content".to_string(),
        serde_json::Value::String("line\n\"q\" \u{1} caf\u{e9}".to_string()),
    );
    let arr = serde_json::Value::Array(vec![serde_json::Value::Object(obj)]);
    let text = serde_json::to_string(&arr).unwrap();
    let h = decode_history(&text).unwrap();
    assert_eq!(h.len(), 1);
    assert_eq!(h[0].role, "user");
    assert_eq!(h[0].content, "line\n\"q\" \u{1} caf\u{e9}");
}

#[test]
fn serde_json_reads_our_encoding() {
    let h = vec![msg("user", "a\"b\nc\u{1} caf\u{e9}")];
    let text = encode_history(&h);
    let v: serde_json::Value = serde_json::from_str(&text).unwrap();
    assert_eq!(v[0]["role"], "user");
    assert_eq!(v[0]["content"], "a\"b\nc\u{1} caf\u{e9}");
}

#[test]
fn encode_request_exact() {
    let h = vec![msg("user", "hi")];
    let req = LlmRequest::from_messages(&h);
    assert_eq!(
        encode_request(&req),
        "{\"model\":\"mistral-large-latest\",\"messages\":[{\"role\":\"user\",\"content\":\"hi\"}]}"
    );
}
