use codemao_core::cloud_session::{decode_payload, CloudState};
use codemao_core::cloud::{
    cloud_url, execute_list_action, join_values, merge_commands, parse_list_action, CloudBuilder, CloudValue,
    CommandFactory, EditorType, ListAction, VarKind, DEFAULT_FLUSH_INTERVAL_MS,
    DEFAULT_MAX_RECONNECT_ATTEMPTS, DEFAULT_RECONNECT_INTERVAL_MS,
};
use codemao_core::cloud_store::DataStore;
use codemao_core::json::Json;

fn num(v: i64) -> CloudValue {
    CloudValue::Number(v)
}

fn text(t: &str) -> CloudValue {
    CloudValue::Text(t.to_string())
}

#[test]
fn values_convert_from_and_to_json() {
    assert_eq!(CloudValue::from_json(&Json::from_i64(5)), num(5));
    assert_eq!(CloudValue::from_json(&Json::Bool(true)), num(1));
    assert_eq!(CloudValue::from_json(&Json::Str("a".into())), text("a"));
    assert_eq!(CloudValue::from_json(&Json::Number("1.5".into())), text("1.5"));
    assert_eq!(CloudValue::from_json(&Json::Number("2.0".into())), num(2));
    assert_eq!(CloudValue::from_json(&Json::Number("-17.00".into())), num(-17));
    assert_eq!(CloudValue::from_json(&Json::Number("-0.0".into())), num(0));
    assert_eq!(CloudValue::from_json(&Json::Number("2.05".into())), text("2.05"));
    assert_eq!(
        CloudValue::from_json(&Json::Number("99999999999999999999.0".into())),
        text("99999999999999999999.0")
    );
    assert_eq!(CloudValue::from_json(&Json::Null), text("null"));
    assert_eq!(num(-7).to_json(), Json::from_i64(-7));
    assert_eq!(num(-7).display(), "-7");
    assert_eq!(text("x").display(), "x");
    assert_eq!(num(1).param_type(), "number");
    assert_eq!(text("1").param_type(), "string");
    assert!(num(3).equals(&num(3)));
    assert!(!num(3).equals(&text("3")));
    assert_eq!(EditorType::Nemo.query_params(), ("5", "2"));
    assert_eq!(EditorType::default(), EditorType::Kitten);
}

#[test]
fn list_actions_apply_and_report() {
    let mut items = vec![num(1), num(2)];
    let out = execute_list_action(&mut items, &ListAction::Append(num(3))).unwrap();
    assert_eq!(items, vec![num(1), num(2), num(3)]);
    assert_eq!(out.op, "push");
    assert_eq!(out.args, vec![num(3), num(2)]);
    let out = execute_list_action(&mut items, &ListAction::Insert(1, text("a"))).unwrap();
    assert_eq!(items, vec![num(1), text("a"), num(2), num(3)]);
    assert_eq!(out.op, "insert");
    let out = execute_list_action(&mut items, &ListAction::ReplaceAt(0, num(9))).unwrap();
    assert_eq!(out.args, vec![num(1), num(9), num(0)]);
    let out = execute_list_action(&mut items, &ListAction::DeleteLast).unwrap();
    assert_eq!(out.op, "pop");
    assert_eq!(items, vec![num(9), text("a"), num(2)]);
    assert!(execute_list_action(&mut items, &ListAction::DeleteAt(3)).is_none());
    assert!(execute_list_action(&mut items, &ListAction::Insert(4, num(0))).is_none());
    assert_eq!(items.len(), 3);
    execute_list_action(&mut items, &ListAction::DeleteAll).unwrap();
    assert!(items.is_empty());
    assert!(execute_list_action(&mut items, &ListAction::ReplaceLast(num(1))).is_none());
}

#[test]
fn list_actions_survive_the_wire() {
    let actions = vec![
        ListAction::Append(num(3)),
        ListAction::Unshift(text("u")),
        ListAction::Insert(2, num(4)),
        ListAction::DeleteLast,
        ListAction::DeleteAll,
        ListAction::DeleteAt(1),
        ListAction::ReplaceLast(text("r")),
        ListAction::ReplaceAt(0, num(8)),
    ];
    for a in actions {
        let mut items = vec![num(1), num(2), num(3)];
        let out = execute_list_action(&mut items, &a).unwrap();
        assert_eq!(parse_list_action(&out.wire), Some(a));
    }
    let mut items = vec![num(1)];
    let out = execute_list_action(&mut items, &ListAction::Insert(0, num(5))).unwrap();
    assert_eq!(
        out.wire,
        Json::Object(vec![
            ("action".to_string(), Json::Str("insert".into())),
            ("nth".to_string(), Json::from_i64(1)),
            ("value".to_string(), Json::from_i64(5)),
        ])
    );
    assert_eq!(parse_list_action(&Json::Null), None);
}

#[test]
fn queued_updates_are_merged_by_kind_and_list() {
    let commands = vec![
        CommandFactory::update_private_variable("p1", &num(1)),
        CommandFactory::update_list("l1", vec![Json::from_i64(10)]),
        CommandFactory::update_public_variable("g1", &text("x")),
        CommandFactory::update_list("l1", vec![Json::from_i64(11)]),
        CommandFactory::update_list("l2", vec![Json::from_i64(12)]),
        CommandFactory::update_private_variable("p2", &num(2)),
    ];
    let merged = merge_commands(commands);
    assert_eq!(merged.private_updates.len(), 2);
    assert_eq!(merged.public_updates.len(), 1);
    assert_eq!(
        merged.public_updates[0].get("action"),
        Some(&Json::Str("set".to_string()))
    );
    assert_eq!(
        merged.list_updates,
        vec![
            ("l1".to_string(), vec![Json::from_i64(10), Json::from_i64(11)]),
            ("l2".to_string(), vec![Json::from_i64(12)]),
        ]
    );
}

#[test]
fn builder_and_address() {
    let b = CloudBuilder::new(42);
    assert_eq!(b.max_reconnect_attempts, DEFAULT_MAX_RECONNECT_ATTEMPTS);
    assert_eq!(b.reconnect_interval_ms, DEFAULT_RECONNECT_INTERVAL_MS);
    assert_eq!(b.flush_interval_ms, DEFAULT_FLUSH_INTERVAL_MS);
    assert_eq!(b.effective_editor(), EditorType::Kitten);
    let b = b.editor(EditorType::KittenN).authorization_token("t").auto_reconnect(false);
    assert_eq!(b.effective_editor(), EditorType::KittenN);
    assert_eq!(b.authorization_token.as_deref(), Some("t"));
    assert!(!b.auto_reconnect);
    assert_eq!(
        cloud_url(42, EditorType::KittenN),
        "wss://socketcv.codemao.cn:9096/cloudstorage/?session_id=42&authorization_type=5&stag=3&EIO=3&transport=websocket"
    );
}

#[test]
fn store_reads_back_created_data() {
    let mut st = DataStore::new();
    st.create_variable(VarKind::Public, "cv1", "score", num(10));
    st.create_list("cl1", "names", vec![text("a")]);
    assert_eq!(st.variable(VarKind::Public, "score").map(|v| v.value.clone()), Some(num(10)));
    assert_eq!(st.variable(VarKind::Public, "cv1").map(|v| v.name.clone()), Some("score".to_string()));
    assert!(st.variable(VarKind::Private, "score").is_none());
    let i = st.variable_index(VarKind::Public, "score").unwrap();
    let old = st.replace_value(VarKind::Public, i, num(11));
    assert_eq!(old, num(10));
    assert_eq!(st.variable(VarKind::Public, "score").map(|v| v.value.clone()), Some(num(11)));
    let li = st.list_index("cl1").unwrap();
    st.apply_to_list(li, &ListAction::Append(text("b"))).unwrap();
    assert_eq!(st.list("names").map(|l| l.items.clone()), Some(vec![text("a"), text("b")]));
    assert_eq!(st.all_variables(VarKind::Public), vec![("score".to_string(), num(11))]);
    st.clear_all();
    assert!(st.list("names").is_none());
}

#[test]
fn list_items_join_with_a_separator() {
    assert_eq!(join_values(&vec![num(1), text("a"), num(-2)], ", "), "1, a, -2");
    assert_eq!(join_values(&vec![text("only")], "|"), "only");
    assert_eq!(join_values(&vec![], "|"), "");
}

#[test]
fn rejected_local_list_action_names_the_operation() {
    let mut st = codemao_core::cloud_session::CloudState::new(1);
    st.store.create_list("c1", "items", vec![num(1)]);
    match st.list_apply_local("items", &ListAction::ReplaceAt(5, num(2))) {
        Err(codemao_core::cloud::CloudError::InvalidArgument(m)) => {
            assert_eq!(m, "列表操作越界或非法: replace")
        }
        other => panic!("unexpected {:?}", other.is_ok()),
    }
    match st.list_apply_local("items", &ListAction::Insert(9, num(2))) {
        Err(codemao_core::cloud::CloudError::InvalidArgument(m)) => {
            assert_eq!(m, "列表操作越界或非法: insert")
        }
        other => panic!("unexpected {:?}", other.is_ok()),
    }
}

#[test]
fn text_payload_holding_json_is_read_as_json() {
    let item = Json::Object(vec![
        ("cvid".to_string(), Json::Str("c".to_string())),
        ("name".to_string(), Json::Str("v".to_string())),
        ("value".to_string(), Json::from_i64(3)),
        ("type".to_string(), Json::from_i64(1)),
    ]);
    let inner = Json::Array(vec![item]);
    let mut st = CloudState::new(1);
    st.dispatch_frame_event(
        "list_variables_done",
        Json::Str("[{\"cvid\":\"c\",\"name\":\"v\",\"value\":3,\"type\":1}]".to_string()),
        Some(inner),
    );
    assert!(st.data_ready);
    assert_eq!(st.store.variable(VarKind::Public, "v").map(|v| v.value.clone()), Some(num(3)));
    assert_eq!(
        decode_payload(Json::Str("x".to_string()), None),
        Json::Str("x".to_string())
    );
    assert_eq!(
        decode_payload(Json::from_i64(2), Some(Json::Null)),
        Json::from_i64(2)
    );
    assert_eq!(
        decode_payload(Json::Str("[1,2]".to_string()), Some(Json::Array(vec![Json::from_i64(1), Json::from_i64(2)]))),
        Json::Array(vec![Json::from_i64(1), Json::from_i64(2)])
    );
}

#[test]
fn removing_a_callback_drops_only_that_one() {
    use_store();
}

fn use_store() {
    let mut s: codemao_core::callbacks::CallbackStore<&str> = codemao_core::callbacks::CallbackStore::new();
    let h1 = s.add("a");
    let h2 = s.add("b");
    let h3 = s.add("c");
    assert_ne!(h1, h2);
    s.remove(h1);
    assert_eq!(s.items, vec![(h2.0, "b"), (h3.0, "c")]);
    s.remove(h1);
    assert_eq!(s.items, vec![(h2.0, "b"), (h3.0, "c")]);
    s.remove(codemao_core::callbacks::CallbackHandle(99));
    assert_eq!(s.items, vec![(h2.0, "b"), (h3.0, "c")]);
    let all = s.take_all();
    assert!(s.items.is_empty());
    let h4 = s.add("d");
    s.restore(all);
    assert_eq!(s.items, vec![(h4.0, "d"), (h2.0, "b"), (h3.0, "c")]);
}
