use codemao_core::deepseek::{
    generate_session_id, urlencoding, ChatClientBuilder, ChatConfig, ChatError, ClientState,
    DsEffect, StreamEventType,
};
use codemao_core::json::Json;

fn s(t: &str) -> Json {
    Json::Str(t.to_string())
}

fn n(v: i64) -> Json {
    Json::from_i64(v)
}

fn obj(entries: Vec<(&str, Json)>) -> Json {
    Json::Object(entries.into_iter().map(|(k, v)| (k.to_string(), v)).collect())
}

fn event(name: &str, data: Json) -> Vec<Json> {
    vec![s(name), data]
}

fn ack(content_type: &str, content: &str) -> Vec<Json> {
    event(
        "chat_ack",
        obj(vec![
            ("code", n(1)),
            ("data", obj(vec![("content_type", s(content_type)), ("content", s(content))])),
        ]),
    )
}

#[test]
fn tokens_are_percent_encoded() {
    assert_eq!(urlencoding("aZ09-_.~"), "aZ09-_.~");
    assert_eq!(urlencoding("a b/c?d=e&f"), "a%20b%2Fc%3Fd%3De%26f");
    assert_eq!(urlencoding("中"), "%E4%B8%AD");
    let cfg = ChatConfig::default();
    assert_eq!(
        cfg.build_ws_url("t k"),
        Ok("wss://cr-aichat.codemao.cn/aichat/?stag=6&rf=&source_label=kn&question_type=undefined&EIO=3&transport=websocket&token=t%20k".to_string())
    );
    let mut odd = ChatConfig::default();
    odd.ws_base_url = "WSS://Example.COM/a/../chat/".to_string();
    assert_eq!(
        odd.build_ws_url("x"),
        Ok("wss://example.com/chat/?stag=6&rf=&source_label=kn&question_type=undefined&EIO=3&transport=websocket&token=x".to_string())
    );
    odd.ws_base_url = "not a url".to_string();
    assert!(matches!(odd.build_ws_url("x"), Err(ChatError::Url(_))));
    assert_eq!(cfg.connect_timeout, 10);
    assert_eq!(cfg.response_start_timeout, 10);
    assert_eq!(cfg.response_timeout, 60);
    assert!(!cfg.verbose);
}

#[test]
fn session_ids_have_the_asked_length() {
    for len in [0usize, 1, 8, 32] {
        let id = generate_session_id(len);
        assert_eq!(id.chars().count(), len);
        assert!(id.chars().all(|c| c.is_ascii_lowercase() || c.is_ascii_digit()));
    }
}

#[test]
fn builder_requires_a_token() {
    let b: ChatClientBuilder<u8> = ChatClientBuilder::new();
    match b.build() {
        Err(ChatError::Connection(m)) => assert_eq!(m, "Token未设置"),
        _ => panic!("built without a token"),
    }
    let parts = ChatClientBuilder::<u8>::new()
        .token("tok")
        .verbose(true)
        .connect_timeout(3)
        .response_start_timeout(4)
        .response_timeout(5)
        .on_event(7)
        .build()
        .ok()
        .unwrap();
    assert_eq!(parts.token, "tok");
    assert!(parts.config.verbose);
    assert_eq!(parts.config.connect_timeout, 3);
    assert_eq!(parts.config.response_start_timeout, 4);
    assert_eq!(parts.config.response_timeout, 5);
    assert_eq!(parts.callbacks, vec![7]);
}

#[test]
fn reply_is_returned_and_kept() {
    let mut st = ClientState::new("conv".to_string());
    match st.prepare_send("hi", true) {
        Err(ChatError::Connection(m)) => assert_eq!(m, "尚未加入房间，请稍后重试"),
        _ => panic!("sent before joining"),
    }
    let open = st.on_socket_open();
    assert_eq!(open[0], DsEffect::Send("40".to_string()));
    assert!(st.connected);
    assert_eq!(st.handle_message("2", None), vec![DsEffect::Send("3".to_string())]);
    assert!(st.connect_wait(false).is_none());

    let join = event(
        "join_ack",
        obj(vec![("code", n(1)), ("data", obj(vec![("user_id", n(77)), ("search_session", s("ss"))]))]),
    );
    let effects = st.handle_message("42[...]", Some(&join));
    assert_eq!(effects.len(), 2);
    assert!(st.joined);
    assert_eq!(st.user_id, Some(77));
    assert_eq!(st.search_session.as_deref(), Some("ss"));
    assert_eq!(st.connect_wait(false), Some(Ok(())));

    let frame = st.prepare_send("hi", true).unwrap();
    assert!(frame.starts_with("42 [\"chat\","));
    assert_eq!(st.start_wait(false), None);
    match st.start_wait(true) {
        Some(Err(ChatError::Timeout(m))) => assert_eq!(m, "等待回复开始超时"),
        _ => panic!("no timeout"),
    }

    let e = st.handle_message("42", Some(&ack("stream_output_begin", "")));
    assert_eq!(e, vec![DsEffect::Emit(String::new(), StreamEventType::Start)]);
    assert_eq!(st.start_wait(false), Some(Ok(())));
    st.handle_message("42", Some(&ack("stream_output_content", "Hi ")));
    st.handle_message("42", Some(&ack("stream_output_content", "there")));
    assert_eq!(st.end_wait(false), None);
    let e = st.handle_message("42", Some(&ack("stream_output_end", "")));
    assert_eq!(e, vec![DsEffect::Emit("Hi there".to_string(), StreamEventType::End)]);
    assert_eq!(st.end_wait(false), Some(Ok("Hi there".to_string())));
    assert_eq!(st.conversation_history.len(), 2);
    assert_eq!(st.conversation_history[1].content, "Hi there");

    // Without the history only the new message is kept.
    st.prepare_send("next", false).unwrap();
    assert_eq!(st.conversation_history.len(), 1);
    assert_eq!(st.conversation_history[0].content, "next");
}

#[test]
fn refused_request_is_answered_with_its_message() {
    let mut st = ClientState::new("c".to_string());
    st.on_socket_open();
    let join = event("join_ack", obj(vec![("code", n(1))]));
    st.handle_message("42", Some(&join));
    st.prepare_send("q", true).unwrap();
    let refusal = event("chat_ack", obj(vec![("code", n(0)), ("code_msg", s("quota"))]));
    assert!(st.handle_message("42", Some(&refusal)).is_empty());
    assert_eq!(st.end_wait(false), Some(Ok("错误: quota".to_string())));
}
