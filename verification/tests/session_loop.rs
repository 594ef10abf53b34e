//! The session state machine: input modes, the quit sentinel, turn
//! content, response folding and rendering.

use mistral_cli::models::{
    Args, LlmChoice, LlmMessage, LlmResponse, LlmUsage, Message,
};
use mistral_cli::render::render_content;
use mistral_cli::session::{
    build_turn_content, is_quit_input, preamble_text, InputMode, Session, SessionState,
};

fn args_from(tokens: &[&str]) -> Args {
    let mut argv = vec!["mistral-cli".to_string()];
    for t in tokens {
        argv.push(t.to_string());
    }
    Args::from(argv)
}

fn response_with(contents: &[&str]) -> LlmResponse {
    let mut choices = Vec::new();
    for (i, c) in contents.iter().enumerate() {
        choices.push(LlmChoice {
            index: i,
            message: LlmMessage {
                role: "assistant".to_string(),
                tool_calls: Some(vec![1, 2, 3]),
                content: c.to_string(),
            },
            finish_reason: "stop".to_string(),
        });
    }
    LlmResponse {
        id: "id".to_string(),
        object: "chat.completion".to_string(),
        created: 0,
        model: "mistral-large-latest".to_string(),
        choices,
        usage: LlmUsage { prompt_tokens: 0, total_tokens: 0, completion_tokens: 0 },
    }
}

#[test]
fn parses_flags_and_literals() {
    let a = args_from(&["-c", "hello", "--long", "world", "--bogus", "-e"]);
    assert!(a.conversation);
    assert!(a.long);
    assert!(a.extended);
    assert!(!a.context);
    assert!(!a.help);
    assert_eq!(a.llm_input, vec!["hello".to_string(), "world".to_string()]);
    assert_eq!(a.warnings, vec!["--bogus".to_string()]);
}

#[test]
fn parses_context_and_help() {
    let a = args_from(&["--context", "--help"]);
    assert!(a.context);
    assert!(a.help);
    assert!(!a.conversation);
}

#[test]
fn input_mode_follows_config() {
    let s = Session::new(args_from(&["-e"]), Vec::new());
    assert_eq!(s.input_mode(), InputMode::ReadAll);
    let s = Session::new(args_from(&[]), Vec::new());
    assert_eq!(s.input_mode(), InputMode::ReadLine);
    let s = Session::new(args_from(&["literal", "words"]), Vec::new());
    assert_eq!(s.input_mode(), InputMode::NoRead);
    // Extended reading wins over literal tokens.
    let s = Session::new(args_from(&["-e", "literal"]), Vec::new());
    assert_eq!(s.input_mode(), InputMode::ReadAll);
}

#[test]
fn quit_sentinel_forms() {
    assert!(is_quit_input("wq"));
    assert!(is_quit_input("wq\n"));
    assert!(is_quit_input("wq\r\n"));
    assert!(!is_quit_input("wq "));
    assert!(!is_quit_input(" wq"));
    assert!(!is_quit_input("wqx"));
    assert!(!is_quit_input("wq\n\n"));
    assert!(!is_quit_input(""));
}

#[test]
fn one_shot_content_carries_preamble() {
    let cfg = args_from(&[]);
    let content = build_turn_content(&cfg, "fix this: def f(): pass");
    assert_eq!(content, format!("{}\n\nfix this: def f(): pass", preamble_text()));
    assert!(content.starts_with(preamble_text()));
}

#[test]
fn one_shot_content_joins_tokens() {
    let cfg = args_from(&["two", "words"]);
    let content = build_turn_content(&cfg, "input");
    assert_eq!(content, format!("{}\ntwo words\ninput", preamble_text()));
}

#[test]
fn conversation_content_has_no_preamble() {
    let cfg = args_from(&["-c"]);
    let content = build_turn_content(&cfg, "hello");
    assert_eq!(content, "\n\nhello");
    let cfg = args_from(&["-c", "two", "words"]);
    let content = build_turn_content(&cfg, "hello");
    assert_eq!(content, "\ntwo words\nhello");
}

#[test]
fn quit_terminates_before_dispatch_and_append() {
    let mut s = Session::new(args_from(&["-c"]), Vec::new());
    let body = s.on_input("wq\n");
    assert!(body.is_none());
    assert_eq!(s.history.len(), 0);
    assert!(s.is_terminated());
}

#[test]
fn non_quit_turn_builds_request() {
    let mut s = Session::new(args_from(&["-c"]), Vec::new());
    let body = s.on_input("hi\n").unwrap();
    assert_eq!(s.history.len(), 1);
    assert_eq!(s.history[0].role, "user");
    assert_eq!(s.history[0].content, "\n\nhi\n");
    assert_eq!(
        body,
        "{\"model\":\"mistral-large-latest\",\"messages\":[{\"role\":\"user\",\"content\":\"\\n\\nhi\\n\"}]}"
    );
}

#[test]
fn response_choices_append_in_order_without_tool_calls() {
    let mut s = Session::new(args_from(&["-c"]), Vec::new());
    s.on_input("hi").unwrap();
    let resp = response_with(&["first", "second", "third"]);
    let rendered = s.on_response(&resp);
    assert_eq!(rendered, vec!["first", "second", "third"]);
    assert_eq!(s.history.len(), 4);
    assert_eq!(s.history[1].role, "assistant");
    assert_eq!(s.history[1].content, "first");
    assert_eq!(s.history[2].content, "second");
    assert_eq!(s.history[3].content, "third");
}

#[test]
fn default_display_strips_fence_lines_history_keeps_them() {
    let mut s = Session::new(args_from(&[]), Vec::new());
    s.on_input("fix this: def f(): pass").unwrap();
    let resp = response_with(&["```\ndef f():\n    pass\n```", "ok"]);
    let rendered = s.on_response(&resp);
    assert_eq!(rendered, vec!["def f():\n    pass", "ok"]);
    assert_eq!(s.history.len(), 3);
    assert_eq!(s.history[1].content, "```\ndef f():\n    pass\n```");
    assert_eq!(s.history[2].content, "ok");
}

#[test]
fn verbose_display_keeps_fence_lines() {
    let mut s = Session::new(args_from(&["-l", "-c"]), Vec::new());
    s.on_input("hi").unwrap();
    let resp = response_with(&["```\ncode\n```"]);
    let rendered = s.on_response(&resp);
    assert_eq!(rendered, vec!["```\ncode\n```"]);
}

#[test]
fn render_content_edge_cases() {
    assert_eq!(render_content("", false), "");
    assert_eq!(render_content("```", false), "");
    assert_eq!(render_content("a\n```rust\nb", false), "a\nb");
    assert_eq!(render_content("``not a fence", false), "``not a fence");
    assert_eq!(render_content("line\r\nwith cr", false), "line\nwith cr");
    assert_eq!(render_content("trailing\n", false), "trailing");
    assert_eq!(render_content("```\n```\n", false), "");
    assert_eq!(render_content("anything\n```", true), "anything\n```");
}

#[test]
fn failed_exchange_keeps_user_turn_only() {
    let mut s = Session::new(args_from(&["-c"]), Vec::new());
    s.on_input("hi").unwrap();
    assert_eq!(s.history.len(), 1);
    s.on_exchange_failed();
    assert_eq!(s.history.len(), 1);
    s.finish_turn();
    assert_eq!(s.state, SessionState::AwaitingInput);
}

#[test]
fn one_shot_terminates_after_one_exchange() {
    let mut s = Session::new(args_from(&[]), Vec::new());
    s.on_input("hi").unwrap();
    s.on_response(&response_with(&["reply"]));
    s.finish_turn();
    assert!(s.is_terminated());
}

#[test]
fn conversation_round_trip_then_quit() {
    let prior = vec![Message { role: "user".to_string(), content: "old".to_string() }];
    let mut s = Session::new(args_from(&["-c"]), prior);
    let mut requests = 0;
    // First turn: "hello".
    let body = s.on_input("hello");
    assert!(body.is_some());
    requests += 1;
    let rendered = s.on_response(&response_with(&["hi there"]));
    assert_eq!(rendered.len(), 1);
    s.finish_turn();
    assert_eq!(s.state, SessionState::AwaitingInput);
    // Second turn: the quit sentinel; nothing is sent, nothing appended.
    let body = s.on_input("wq\n");
    assert!(body.is_none());
    assert!(s.is_terminated());
    assert_eq!(requests, 1);
    assert_eq!(s.history.len(), 3);
    assert_eq!(s.history[0].content, "old");
    assert_eq!(s.history[1].role, "user");
    assert_eq!(s.history[1].content, "\n\nhello");
    assert_eq!(s.history[2].role, "assistant");
    assert_eq!(s.history[2].content, "hi there");
}
