use codemao_core::chat::{
    build_chat_frame, classify_chat_frame, event_frame, event_of, generate_session_id, session_id_from,
    parse_chat_ack, ChatBuilder, ChatEffect, ChatError, ChatEventType, ChatFrame, ChatFrameKind,
    ChatState, HistoryMessage, Role, StreamEvent, DEFAULT_USER_AGENT,
};
use codemao_core::json::Json;

fn s(t: &str) -> Json {
    Json::Str(t.to_string())
}

fn n(v: i64) -> Json {
    Json::from_i64(v)
}

fn obj(entries: Vec<(&str, Json)>) -> Json {
    Json::Object(entries.into_iter().map(|(k, v)| (k.to_string(), v)).collect())
}

fn ack(content_type: &str, content: Option<&str>) -> Json {
    let mut data = vec![("content_type", s(content_type))];
    if let Some(c) = content {
        data.push(("content", s(c)));
    }
    obj(vec![("code", n(1)), ("data", obj(data))])
}

#[test]
fn chat_ack_payloads_are_read() {
    assert_eq!(parse_chat_ack(&ack("stream_output_begin", None)), Some(StreamEvent::Begin));
    assert_eq!(
        parse_chat_ack(&ack("stream_output_content", Some("abc"))),
        Some(StreamEvent::Chunk("abc".to_string()))
    );
    assert_eq!(
        parse_chat_ack(&ack("stream_output_end", None)),
        Some(StreamEvent::End(String::new()))
    );
    assert_eq!(parse_chat_ack(&ack("other", Some("x"))), None);
    let wrong_code = obj(vec![("code", n(0)), ("data", obj(vec![("content_type", s("stream_output_begin"))]))]);
    assert_eq!(parse_chat_ack(&wrong_code), None);
}

#[test]
fn chat_frame_carries_sorted_payload() {
    let frame = build_chat_frame("abc", &[HistoryMessage::user("hi")]);
    assert_eq!(
        frame,
        r#"42 ["chat",{"chat_type":"chat_v3","messages":[{"content":"hi","role":"user"}],"msg_channel":0,"session_id":"abc"}]"#
    );
    assert_eq!(event_frame("join_ack", Json::Null), r#"42 ["join_ack",null]"#);
    assert_eq!(event_frame("x", s("a\"b\n")), "42 [\"x\",\"a\\\"b\\n\"]");
}

#[test]
fn frames_are_sorted_by_prefix() {
    assert_eq!(classify_chat_frame("2"), ChatFrameKind::Ping);
    assert_eq!(classify_chat_frame("3"), ChatFrameKind::Pong);
    assert_eq!(classify_chat_frame("0{\"sid\":1}"), ChatFrameKind::Handshake("{\"sid\":1}".to_string()));
    assert_eq!(classify_chat_frame("40"), ChatFrameKind::Connected);
    assert_eq!(classify_chat_frame("42[\"a\"]"), ChatFrameKind::Event("[\"a\"]".to_string()));
    assert_eq!(classify_chat_frame("7"), ChatFrameKind::Unknown("7".to_string()));
    assert_eq!(
        event_of(&Json::Array(vec![s("chat_ack"), n(1)])),
        Some(("chat_ack".to_string(), n(1)))
    );
    assert_eq!(event_of(&Json::Array(vec![s("solo")])), Some(("solo".to_string(), Json::Null)));
    assert_eq!(event_of(&Json::Array(vec![n(1)])), None);
}

#[test]
fn builder_keeps_token_and_agent() {
    let b = ChatBuilder::new("tok");
    assert_eq!(b.token, "tok");
    assert_eq!(b.user_agent, DEFAULT_USER_AGENT);
    let b = b.user_agent("UA/1");
    assert_eq!(b.token, "tok");
    assert_eq!(b.user_agent, "UA/1");
}

#[test]
fn session_ids_use_the_charset() {
    for _ in 0..20 {
        let id = generate_session_id();
        assert_eq!(id.chars().count(), 8);
        assert!(id.chars().all(|c| c.is_ascii_lowercase() || c.is_ascii_digit()));
    }
}

#[test]
fn streamed_reply_is_kept_in_history() {
    let mut st = ChatState::new("conv".to_string());
    assert_eq!(st.prepare_message("hi", false), Err(ChatError::NotConnected));
    assert_eq!(st.connect_check(""), Err(ChatError::MissingToken));
    assert_eq!(st.connect_check("t"), Ok(false));
    st.on_established();
    assert_eq!(st.connect_check("t"), Ok(true));

    let connect = obj(vec![("code", n(1)), ("data", obj(vec![("chat_count", n(9))]))]);
    let effects = st.dispatch("on_connect_ack", &connect);
    assert_eq!(effects, vec![ChatEffect::Send("42 [\"join\"]".to_string())]);
    // A second confirmation does not join again.
    assert!(st.dispatch("on_connect_ack", &connect).is_empty());

    let join = obj(vec![("code", n(1)), ("data", obj(vec![("user_id", s("1742185446"))]))]);
    let effects = st.dispatch("join_ack", &join);
    assert_eq!(effects.len(), 2);
    let info = st.user_info();
    assert_eq!(info.user_id, Some(1742185446));
    assert_eq!(info.chat_count, Some(9));

    let frame = st.prepare_message("hi", true).unwrap();
    assert!(frame.contains("\"content\":\"hi\""));
    st.note_sent();
    assert!(!st.response_started(1));

    let mut begin = ack("stream_output_begin", None);
    if let Json::Object(es) = &mut begin {
        if let Json::Object(d) = &mut es[1].1 {
            d.push(("session_id".to_string(), s("s9")));
        }
    }
    let e = st.dispatch("chat_ack", &begin);
    assert_eq!(e, vec![ChatEffect::Emit(String::new(), ChatEventType::Start)]);
    assert!(st.response_started(1));
    assert_eq!(st.session_id.as_deref(), Some("s9"));
    assert_eq!(st.prepare_message("again", false), Err(ChatError::Busy));
    st.dispatch("chat_ack", &ack("stream_output_content", Some("Hel")));
    st.dispatch("chat_ack", &ack("stream_output_content", Some("lo")));
    let e = st.dispatch("chat_ack", &ack("stream_output_end", None));
    assert_eq!(e, vec![ChatEffect::Emit("Hello".to_string(), ChatEventType::End)]);

    let h = st.conversation_history();
    assert_eq!(h.len(), 2);
    assert_eq!(h[0].role, Role::User);
    assert_eq!(h[0].content, "hi");
    assert_eq!(h[1].role, Role::Assistant);
    assert_eq!(h[1].content, "Hello");
    assert_eq!(st.conversation_count(), 1);

    st.new_conversation("other".to_string());
    assert!(st.conversation_history().is_empty());
    assert_eq!(st.on_frame(&ChatFrame::Ping), vec![ChatEffect::Send("3".to_string())]);
    assert_eq!(st.on_frame(&ChatFrame::Handshake), vec![ChatEffect::Send("40".to_string())]);
    let lost = st.on_read_end();
    assert_eq!(lost, vec![ChatEffect::Emit("连接已断开".to_string(), ChatEventType::Error)]);
    assert!(!st.connected);
}

#[test]
fn session_ids_spell_the_drawn_positions() {
    assert_eq!(session_id_from(&vec![0, 25, 26, 35, 7]), "az09h");
    assert_eq!(session_id_from(&vec![]), "");
}
