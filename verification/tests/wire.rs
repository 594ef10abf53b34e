//! Wire shapes: the model name, request construction, and folding an API
//! message down to a history message.

use mistral_cli::json::encode_request;
use mistral_cli::models::{LlmMessage, LlmModel, LlmRequest};

#[test]
fn model_wire_name() {
    assert_eq!(LlmModel::MistralLargeLatest.as_str(), "mistral-large-latest");
}

#[test]
fn request_from_str_wraps_one_user_message() {
    let req = LlmRequest::from_str("hello");
    assert_eq!(req.messages.len(), 1);
    assert_eq!(req.messages[0].role, "user");
    assert_eq!(req.messages[0].content, "hello");
    assert_eq!(
        encode_request(&req),
        "{\"model\":\"mistral-large-latest\",\"messages\":[{\"role\":\"user\",\"content\":\"hello\"}]}"
    );
}

#[test]
fn to_message_drops_tool_calls() {
    let m = LlmMessage {
        role: "assistant".to_string(),
        tool_calls: Some(vec![0, 1, 2]),
        content: "body".to_string(),
    };
    let plain = m.to_message();
    assert_eq!(plain.role, "assistant");
    assert_eq!(plain.content, "body");
}
