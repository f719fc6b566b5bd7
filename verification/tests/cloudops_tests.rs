use codemao_core::cloud::{ChangeSource, VarKind};
use codemao_core::cloudops::{
    apply_list_op, classify_ops_frame, join_body, ops_event_parts, ops_merge, ops_parse,
    ops_upload_frames, ops_url, truncate_text, CloudConnectionBuilder, CloudError, DataType,
    EditorType, OpsCommand, OpsEffect, OpsFrame, OpsListOp, OpsResult, OpsState,
    ReceiveMessageType, SendMessageType,
};
use codemao_core::json::Json;

fn s(t: &str) -> Json {
    Json::Str(t.to_string())
}

fn n(v: i64) -> Json {
    Json::from_i64(v)
}

fn obj(entries: Vec<(&str, Json)>) -> Json {
    Json::Object(entries.into_iter().map(|(k, v)| (k.to_string(), v)).collect())
}

fn loaded_state() -> OpsState {
    let mut st = OpsState::new(7);
    let data = Json::Array(vec![
        obj(vec![("cvid", s("p1")), ("name", s("score")), ("value", n(5)), ("type", n(0))]),
        obj(vec![("cvid", s("g1")), ("name", s("count")), ("value", s("a")), ("type", n(1))]),
        obj(vec![
            ("cvid", s("l1")),
            ("name", s("names")),
            ("value", Json::Array(vec![s("x"), s("y")])),
            ("type", n(2)),
        ]),
        obj(vec![("cvid", s("z")), ("name", s("odd")), ("value", n(1)), ("type", n(9))]),
    ]);
    let effects = st.process_event("list_variables_done", &data);
    assert_eq!(effects, vec![OpsEffect::DataReady]);
    st
}

#[test]
fn editor_parameters_and_message_names() {
    assert_eq!(EditorType::NEMO.as_param(), ("5", "2"));
    assert_eq!(EditorType::KITTEN.as_param(), ("1", "1"));
    assert_eq!(EditorType::NEKO.as_param(), ("5", "3"));
    assert_eq!(EditorType::COCO.as_param(), ("1", "1"));
    assert_eq!(SendMessageType::GetAllData.as_str(), "list_variables");
    assert_eq!(SendMessageType::UpdateList.as_str(), "update_lists");
    assert_eq!(ReceiveMessageType::from_name("update_vars_done"), ReceiveMessageType::UpdatePublicVariable);
    assert_eq!(
        ReceiveMessageType::from_name("something"),
        ReceiveMessageType::Unknown("something".to_string())
    );
    assert_eq!(DataType::try_from_i64(2), Ok(DataType::List));
    assert_eq!(DataType::try_from_i64(3), Err(CloudError::InvalidVariableType));
    assert_eq!(
        ops_url(12, EditorType::NEMO),
        "wss://socketcv.codemao.cn:9096/cloudstorage/?session_id=12&authorization_type=5&stag=2&EIO=3&transport=websocket"
    );
    assert_eq!(join_body(12), obj(vec![("session_id", Json::from_u64(12))]));
    let b = CloudConnectionBuilder::new(3).with_editor(EditorType::NEKO).with_auth_token("t".to_string());
    assert_eq!(b.work_id, 3);
    assert_eq!(b.editor, EditorType::NEKO);
    assert_eq!(b.auth_token, Some("t".to_string()));
}

#[test]
fn ops_frames_are_sorted_by_prefix() {
    assert_eq!(classify_ops_frame("2"), OpsFrame::Ignore);
    assert_eq!(classify_ops_frame("0{\"sid\":1}"), OpsFrame::Ignore);
    assert_eq!(classify_ops_frame("41"), OpsFrame::Shutdown);
    assert_eq!(classify_ops_frame("42[\"a\",1]"), OpsFrame::Event("[\"a\",1]".to_string()));
    assert_eq!(classify_ops_frame("44"), OpsFrame::Ignore);
    assert_eq!(ops_event_parts(&vec![s("x")], None), None);
    assert_eq!(
        ops_event_parts(&vec![s("x"), s("{\"a\":1}")], Some(obj(vec![("a", n(1))]))),
        Some(("x".to_string(), obj(vec![("a", n(1))])))
    );
    assert_eq!(ops_event_parts(&vec![n(1), s("plain")], None), Some((String::new(), s("plain"))));
}

#[test]
fn list_operations_follow_the_list_rules() {
    let mut items = vec![s("a"), s("b")];
    assert_eq!(
        apply_list_op(&mut items, &OpsListOp::Push(n(3))),
        OpsResult::Done { removed: None, event: Some(("push".to_string(), vec![n(3), n(2)])) }
    );
    assert_eq!(items, vec![s("a"), s("b"), n(3)]);
    assert_eq!(apply_list_op(&mut items, &OpsListOp::Push(Json::Null)), OpsResult::Rejected);
    assert_eq!(apply_list_op(&mut items, &OpsListOp::Insert(5, s("q"))), OpsResult::Rejected);
    assert_eq!(
        apply_list_op(&mut items, &OpsListOp::Shift),
        OpsResult::Done { removed: Some(s("a")), event: Some(("shift".to_string(), vec![s("a"), n(0)])) }
    );
    assert_eq!(
        apply_list_op(&mut items, &OpsListOp::Replace(0, s("c"))),
        OpsResult::Done {
            removed: None,
            event: Some(("replace".to_string(), vec![s("b"), s("c"), n(0)]))
        }
    );
    assert_eq!(items, vec![s("c"), n(3)]);
    assert_eq!(
        apply_list_op(&mut items, &OpsListOp::Remove(9)),
        OpsResult::Done { removed: None, event: None }
    );
    assert_eq!(
        apply_list_op(&mut items, &OpsListOp::Clear),
        OpsResult::Done {
            removed: None,
            event: Some(("clear".to_string(), vec![Json::Array(vec![s("c"), n(3)])]))
        }
    );
    assert!(items.is_empty());
    assert_eq!(
        apply_list_op(&mut items, &OpsListOp::Pop),
        OpsResult::Done { removed: None, event: None }
    );
}

#[test]
fn server_list_operations_are_read() {
    assert_eq!(
        ops_parse(&obj(vec![("action", s("append")), ("value", n(1))])),
        Some(OpsListOp::Push(n(1)))
    );
    assert_eq!(
        ops_parse(&obj(vec![("action", s("insert")), ("nth", n(2)), ("value", s("v"))])),
        Some(OpsListOp::Insert(1, s("v")))
    );
    assert_eq!(ops_parse(&obj(vec![("action", s("delete")), ("nth", s("last"))])), Some(OpsListOp::Pop));
    assert_eq!(ops_parse(&obj(vec![("action", s("delete")), ("nth", s("all"))])), Some(OpsListOp::Clear));
    assert_eq!(ops_parse(&obj(vec![("action", s("delete")), ("nth", n(0))])), Some(OpsListOp::Remove(0)));
    assert_eq!(
        ops_parse(&obj(vec![("action", s("replace")), ("nth", s("last")), ("value", n(4))])),
        Some(OpsListOp::ReplaceLast(n(4)))
    );
    assert_eq!(ops_parse(&obj(vec![("action", s("jump"))])), None);
}

#[test]
fn events_update_the_stored_data() {
    let mut st = loaded_state();
    assert!(st.data_ready);
    assert_eq!(st.private_variables.len(), 1);
    assert_eq!(st.public_variables[0].name, "count");
    assert_eq!(st.lists[0].items, vec![s("x"), s("y")]);

    let effects = st.process_event("update_vars_done", &Json::Array(vec![obj(vec![("cvid", s("g1")), ("value", s("b"))])]));
    assert_eq!(
        effects,
        vec![OpsEffect::VariableChanged {
            kind: VarKind::Public,
            name: "count".to_string(),
            old: s("a"),
            new: s("b"),
            source: ChangeSource::Cloud,
        }]
    );
    let effects = st.process_event(
        "update_lists_done",
        &obj(vec![("names", Json::Array(vec![obj(vec![("action", s("append")), ("value", s("z"))])]))]),
    );
    assert_eq!(
        effects,
        vec![OpsEffect::ListOperation {
            name: "names".to_string(),
            op: "push".to_string(),
            args: vec![s("z"), n(2)],
        }]
    );
    assert_eq!(st.lists[0].items, vec![s("x"), s("y"), s("z")]);
    assert!(st.process_event("online_users_change", &obj(vec![("total", n(4))])).is_empty());
    assert_eq!(st.online_users, 4);
    assert!(st.process_event("nonsense", &Json::Null).is_empty());
}

#[test]
fn local_changes_are_queued_and_merged() {
    let mut st = loaded_state();
    assert_eq!(
        st.set_variable(VarKind::Private, "score", &n(9)).unwrap(),
        vec![OpsEffect::VariableChanged {
            kind: VarKind::Private,
            name: "score".to_string(),
            old: n(5),
            new: n(9),
            source: ChangeSource::Local,
        }]
    );
    assert_eq!(st.private_variables[0].value, n(9));
    assert_eq!(st.command_queue.len(), 1);
    assert_eq!(st.set_variable(VarKind::Public, "count", &Json::Null), Err(CloudError::InvalidVariableType));
    assert_eq!(st.set_variable(VarKind::Public, "missing", &n(1)), Err(CloudError::InvalidVariableType));
    st.set_variable(VarKind::Public, "count", &s("c")).unwrap();
    st.list_local("names", &OpsListOp::Push(s("w"))).unwrap();
    st.list_local("names", &OpsListOp::Shift).unwrap();
    assert_eq!(st.list_local("missing", &OpsListOp::Pop), Err(CloudError::NotConnected));
    assert_eq!(st.list_local("missing", &OpsListOp::Push(n(1))), Err(CloudError::InvalidListItemType));
    let commands = st.drain_commands();
    assert_eq!(commands.len(), 4);
    assert!(st.command_queue.is_empty());
    assert_eq!(
        commands[0],
        OpsCommand::VariableUpdate {
            cmd_type: "update_private_vars".to_string(),
            data: obj(vec![("cvid", s("p1")), ("value", n(9))]),
        }
    );
    let (private_updates, public_updates, lists) = ops_merge(&commands);
    assert_eq!(private_updates.len(), 1);
    assert_eq!(public_updates, vec![obj(vec![("action", s("set")), ("cvid", s("g1")), ("value", s("c"))])]);
    assert_eq!(lists.len(), 1);
    assert_eq!(lists[0].0, "l1");
    assert_eq!(lists[0].1.len(), 2);
    let frames = ops_upload_frames(&commands);
    let names: Vec<&str> = frames.iter().map(|f| f.0.as_str()).collect();
    assert_eq!(names, vec!["update_private_vars", "update_vars", "update_lists"]);
    assert_eq!(
        frames[2].1,
        obj(vec![(
            "l1",
            Json::Array(vec![
                obj(vec![("action", s("append")), ("value", s("w"))]),
                obj(vec![("action", s("delete")), ("nth", n(1))]),
            ])
        )])
    );
}

#[test]
fn ranking_answers_the_oldest_request() {
    let mut st = loaded_state();
    let body = st.request_ranking("score", 10, -1).unwrap();
    assert_eq!(body, obj(vec![("cvid", s("p1")), ("limit", n(10)), ("order_type", n(-1))]));
    assert_eq!(st.request_ranking("nope", 1, 1), Err(CloudError::InvalidVariableType));
    let data = obj(vec![(
        "items",
        Json::Array(vec![obj(vec![
            ("avatar_url", s("u")),
            ("identifier", s("42")),
            ("nickname", s("nick")),
            ("value", n(8)),
        ])]),
    )]);
    let effects = st.process_event("list_ranking_done", &data);
    assert_eq!(
        effects,
        vec![OpsEffect::Ranking {
            name: "score".to_string(),
            items: vec![obj(vec![
                (
                    "user",
                    obj(vec![("avatar_url", s("u")), ("id", n(42)), ("nickname", s("nick"))])
                ),
                ("value", n(8)),
            ])],
        }]
    );
    assert!(st.pending_ranking_requests.is_empty());
    assert!(st.process_event("list_ranking_done", &data).is_empty());
}

#[test]
fn long_texts_are_shortened_around_dots() {
    assert_eq!(truncate_text("short"), "short");
    let long: String = "0123456789".repeat(6);
    assert_eq!(truncate_text(&long), format!("{}...{}", &long[..23], &long[37..]));
}

#[test]
fn uploaded_list_operations_replay_to_the_same_list() {
    let ops = vec![
        OpsListOp::Shift,
        OpsListOp::Insert(1, s("i")),
        OpsListOp::Replace(0, n(5)),
        OpsListOp::Remove(1),
        OpsListOp::ReplaceLast(s("r")),
        OpsListOp::Pop,
        OpsListOp::Unshift(s("u")),
    ];
    for op in ops {
        let mut st = loaded_state();
        let mut remote: Vec<Json> = st.lists[0].items.iter().map(|j| j.deep_clone()).collect();
        st.list_local("names", &op).unwrap();
        let commands = st.drain_commands();
        let wire = match &commands[0] {
            OpsCommand::ListUpdate { operations, .. } => operations[0].deep_clone(),
            other => panic!("unexpected command {:?}", other),
        };
        let parsed = ops_parse(&wire).unwrap();
        apply_list_op(&mut remote, &parsed);
        assert_eq!(remote, st.lists[0].items);
    }
}

#[test]
fn ops_ranking_answers_go_to_requests_in_order() {
    let mut st = OpsState::new(1);
    st.process_event(
        "list_variables_done",
        &Json::Array(vec![
            obj(vec![("cvid", s("a")), ("name", s("first")), ("value", n(1)), ("type", n(0))]),
            obj(vec![("cvid", s("b")), ("name", s("second")), ("value", n(2)), ("type", n(0))]),
        ]),
    );
    st.request_ranking("first", 5, 1).unwrap();
    st.request_ranking("second", 5, 1).unwrap();
    let data = obj(vec![("items", Json::Array(vec![]))]);
    assert_eq!(
        st.process_event("list_ranking_done", &data),
        vec![OpsEffect::Ranking { name: "first".to_string(), items: vec![] }]
    );
    assert_eq!(st.pending_ranking_requests, vec!["b".to_string()]);
    assert_eq!(
        st.process_event("list_ranking_done", &data),
        vec![OpsEffect::Ranking { name: "second".to_string(), items: vec![] }]
    );
}
