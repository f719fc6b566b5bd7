use codemao_core::coco::{reorganize, CocoError};
use codemao_core::decoders::{
    attach_block_data, build_metadata, decompile_kitten_xml, choose_comments, clean_work_data, collect_referenced_ids, extract_filename_from_url,
    infer_shadow_type, push_block_xml, push_xml_escaped, restore_global_fields, take_actor_info,
    update_work_info,
    write_blocks, WorkError,
};
use codemao_core::json::Json;

fn s(t: &str) -> Json {
    Json::Str(t.to_string())
}

fn n(v: i64) -> Json {
    Json::from_i64(v)
}

fn obj(entries: Vec<(&str, Json)>) -> Json {
    Json::Object(entries.into_iter().map(|(k, v)| (k.to_string(), v)).collect())
}

fn arr(items: Vec<Json>) -> Json {
    Json::Array(items)
}

fn get<'a>(v: &'a Json, k: &str) -> &'a Json {
    v.get(k).unwrap_or_else(|| panic!("missing {}", k))
}

#[test]
fn xml_escaping_covers_markup_characters() {
    let mut out = String::from(">");
    push_xml_escaped(&mut out, "a&b<c>\"d'e");
    assert_eq!(out, ">a&amp;b&lt;c&gt;&quot;d&apos;e");
}

#[test]
fn block_with_fields_and_shadow_value() {
    let block = obj(vec![
        ("type", s("a")),
        ("id", s("1")),
        (
            "params",
            obj(vec![
                ("N", n(5)),
                ("S", s("x<y")),
                ("B", Json::Bool(true)),
                (
                    "O",
                    obj(vec![
                        ("type", s("math_number")),
                        ("id", s("2")),
                        ("params", obj(vec![("NUM", n(3))])),
                    ]),
                ),
            ]),
        ),
    ]);
    let mut out = String::new();
    push_block_xml(&mut out, &block, true, 440, &vec!["math_number".to_string()]);
    assert_eq!(
        out,
        [
            r#"<block type="a" id="1" inline="true" visible="visible" x="0" y="440">"#,
            r#"<field name="N">5</field><field name="S">x&lt;y</field><field name="B">true</field>"#,
            r#"<value name="O"><shadow type="math_number" id="2" visible="visible">"#,
            r#"<field name="NUM">3</field></shadow></value></block>"#
        ].concat()
    );
    // Without the shadow type the slot holds a full block.
    let mut plain = String::new();
    push_block_xml(&mut plain, &block, false, 0, &vec![]);
    assert!(plain.contains(
        r#"<value name="O"><block type="math_number" id="2" inline="true" visible="visible"><field name="NUM">3</field></block></value>"#
    ));
}

#[test]
fn if_block_names_branches_and_else() {
    let block = obj(vec![
        ("type", s("controls_if")),
        ("id", s("i")),
        ("conditions", arr(vec![obj(vec![("type", s("logic_boolean")), ("id", s("c"))])])),
        (
            "child_block",
            arr(vec![
                obj(vec![("type", s("x")), ("id", s("d0"))]),
                obj(vec![("type", s("y")), ("id", s("e"))]),
            ]),
        ),
    ]);
    let mut out = String::new();
    push_block_xml(&mut out, &block, false, 0, &vec![]);
    assert_eq!(
        out,
        [
            r#"<block type="controls_if" id="i" inline="true" visible="visible">"#,
            r#"<value name="IF0"><block type="logic_boolean" id="c" inline="true" visible="visible"></block></value>"#,
            r#"<statement name="DO0"><block type="x" id="d0" inline="true" visible="visible"></block></statement>"#,
            r#"<statement name="ELSE"><block type="y" id="e" inline="true" visible="visible"></block></statement>"#,
            r#"</block>"#
        ].concat()
    );
}

#[test]
fn only_root_blocks_are_written_and_stacked() {
    let actor = obj(vec![(
        "compiled_block_map",
        obj(vec![
            (
                "b1",
                obj(vec![
                    ("type", s("start")),
                    ("id", s("b1")),
                    ("next_block", obj(vec![("type", s("move")), ("id", s("b2"))])),
                ]),
            ),
            ("b2", obj(vec![("type", s("move")), ("id", s("b2"))])),
            ("b3", obj(vec![("type", s("procedures_2_defnoreturn")), ("id", s("b3")),
                ("child_block", arr(vec![obj(vec![("type", s("say")), ("id", s("b4"))])]))])),
        ]),
    )]);
    let xml = write_blocks(&actor, &vec![]);
    assert_eq!(
        xml,
        [
            "<variables></variables>",
            r#"<block type="start" id="b1" inline="true" visible="visible" x="0" y="0">"#,
            r#"<next><block type="move" id="b2" inline="true" visible="visible"></block></next></block>"#,
            r#"<block type="procedures_2_defnoreturn" id="b3" inline="true" visible="visible" x="0" y="220">"#,
            r#"<statement name="STACK"><block type="say" id="b4" inline="true" visible="visible"></block></statement></block>"#
        ].concat()
    );
    assert_eq!(write_blocks(&obj(vec![]), &vec![]), "<variables></variables>");
}

#[test]
fn referenced_ids_are_collected_once() {
    let blocks = vec![
        (
            "b1".to_string(),
            obj(vec![
                ("next_block", s("b2")),
                ("child_block", arr(vec![s("c1"), obj(vec![("id", s("c2"))])])),
                ("conditions", arr(vec![obj(vec![("id", s("k"))]), n(3)])),
                ("params", obj(vec![("p", obj(vec![("id", s("q"))])), ("t", s("not-a-ref"))])),
            ]),
        ),
        ("b2".to_string(), obj(vec![("next_block", obj(vec![("id", s("c1"))]))])),
    ];
    let mut ids = collect_referenced_ids(&blocks);
    ids.sort();
    assert_eq!(ids, vec!["b2", "c1", "c2", "k", "q"]);
}

#[test]
fn file_names_are_cut_from_urls() {
    assert_eq!(extract_filename_from_url("https://a.com/x/y/file.png?v=1#top"), "file.png");
    assert_eq!(extract_filename_from_url("https://a.com/img.webp"), "img.webp");
    assert_eq!(extract_filename_from_url("a/b#frag"), "b");
    assert_eq!(extract_filename_from_url("https://a.com/dir/"), "");
    assert_eq!(extract_filename_from_url("no-slash"), "");
}

fn sample_work() -> Json {
    obj(vec![
        ("id", n(1)),
        ("apiToken", s("secret")),
        (
            "widgetMap",
            obj(vec![
                ("w1", obj(vec![("n", n(1))])),
                ("w2", obj(vec![("n", n(2))])),
                ("w3", obj(vec![("n", n(3))])),
            ]),
        ),
        (
            "screenList",
            arr(vec![obj(vec![
                ("id", s("s1")),
                ("widgetIds", arr(vec![s("w1"), s("wx")])),
                ("invisibleWidgetIds", arr(vec![s("w2")])),
            ])]),
        ),
        ("blockJsonMap", obj(vec![("s1", obj(vec![("blocks", arr(vec![]))]))])),
        ("imageFileMap", obj(vec![("i1", obj(vec![("url", s("u"))]))])),
        (
            "variableMap",
            obj(vec![
                ("v1", n(5)),
                ("v2", arr(vec![n(1)])),
                ("v3", obj(vec![("a", n(1))])),
                ("v4", s("t")),
            ]),
        ),
    ])
}

#[test]
fn coco_work_is_reorganised_for_the_editor() {
    let out = reorganize(sample_work(), n(42), "My Work").unwrap();
    assert_eq!(get(&out, "authorId"), &n(42));
    assert_eq!(get(&out, "title"), &s("My Work"));
    for gone in ["id", "apiToken", "widgetMap", "screenList", "blockJsonMap", "imageFileMap", "variableMap"] {
        assert!(out.get(gone).is_none(), "{} kept", gone);
    }
    let screen = get(get(&out, "screens"), "s1");
    assert_eq!(get(screen, "snapshot"), &s(""));
    assert_eq!(get(screen, "broadcasts"), &arr(vec![s("Hi")]));
    assert_eq!(get(screen, "primitiveVariables"), &arr(vec![]));
    let widgets = get(screen, "widgets");
    assert_eq!(get(widgets, "w1"), &obj(vec![("n", n(1))]));
    assert_eq!(get(widgets, "w2"), &obj(vec![("n", n(2))]));
    assert!(widgets.get("w3").is_none());
    assert_eq!(get(screen, "missing_widget_ids"), &arr(vec![s("wx")]));
    assert_eq!(get(&out, "screenIds"), &arr(vec![s("s1")]));
    // The widgets no screen took stay in the global pool.
    assert_eq!(get(&out, "globalWidgets"), &obj(vec![("w3", obj(vec![("n", n(3))]))]));
    assert_eq!(get(&out, "globalWidgetIds"), &arr(vec![s("w3")]));
    let ws = get(get(&out, "blockly"), "s1");
    assert_eq!(get(ws, "screenId"), &s("s1"));
    assert_eq!(get(ws, "workspaceJson"), &obj(vec![("blocks", arr(vec![]))]));
    assert_eq!(get(ws, "workspaceOffset"), &obj(vec![("x", n(0)), ("y", n(0))]));
    assert_eq!(get(&out, "imageFileList"), &arr(vec![obj(vec![("url", s("u"))])]));
    assert!(out.get("soundFileList").is_none());
    let vars = get(&out, "globalVariableList");
    assert_eq!(
        vars,
        &arr(vec![
            obj(vec![("id", s("v1")), ("name", s("变量1")), ("defaultValue", n(5)), ("value", n(5))]),
            obj(vec![("id", s("v4")), ("name", s("变量2")), ("defaultValue", s("t")), ("value", s("t"))]),
        ])
    );
    let lists = get(&out, "globalArrayList");
    assert_eq!(get(match lists { Json::Array(a) => &a[0], _ => panic!() }, "name"), &s("列表1"));
    let dicts = get(&out, "globalObjectList");
    assert_eq!(get(match dicts { Json::Array(a) => &a[0], _ => panic!() }, "name"), &s("字典1"));
    assert_eq!(get(&out, "sourceTag"), &n(1));
    assert_eq!(get(&out, "sourceId"), &s(""));
}

#[test]
fn coco_errors_name_the_broken_part() {
    assert_eq!(reorganize(Json::Null, n(1), "t"), Err(CocoError::WorkNotObject));
    let bad_screen = obj(vec![("screenList", arr(vec![n(5)]))]);
    assert_eq!(reorganize(bad_screen, n(1), "t"), Err(CocoError::ScreenNotObject));
    let no_id = obj(vec![("screenList", arr(vec![obj(vec![("name", s("x"))])]))]);
    assert_eq!(reorganize(no_id, n(1), "t"), Err(CocoError::ScreenWithoutId));
    let empty = reorganize(obj(vec![]), n(7), "t").unwrap();
    assert_eq!(get(&empty, "screens"), &obj(vec![]));
    assert_eq!(get(&empty, "globalWidgets"), &obj(vec![]));
    assert_eq!(get(&empty, "globalWidgetIds"), &arr(vec![]));
}

#[test]
fn shadow_types_follow_name_then_value() {
    assert_eq!(infer_shadow_type("BOOL", &n(1)), "logic_empty");
    assert_eq!(infer_shadow_type("scene_id", &n(1)), "get_current_scene");
    assert_eq!(infer_shadow_type("other", &s("x")), "text");
    assert_eq!(infer_shadow_type("other", &Json::Bool(false)), "logic_boolean");
    assert_eq!(infer_shadow_type("other", &Json::Null), "math_number");
}

#[test]
fn actors_are_taken_out_of_the_theatre() {
    let mut work = obj(vec![(
        "theatre",
        obj(vec![
            ("actors", obj(vec![("a1", obj(vec![("name", s("cat"))]))])),
            ("scenes", obj(vec![("s1", obj(vec![("name", s("stage"))]))])),
        ]),
    )]);
    assert_eq!(take_actor_info(&mut work, "a1"), obj(vec![("name", s("cat"))]));
    assert!(get(get(&work, "theatre"), "actors").get("a1").is_none());
    assert!(get(get(&work, "theatre"), "scenes").get("s1").is_some());
}

#[test]
fn missing_actors_get_a_stand_in() {
    let mut work = obj(vec![(
        "theatre",
        obj(vec![
            ("actors", obj(vec![])),
            ("scenes", obj(vec![("s1", obj(vec![("name", s("stage"))]))])),
        ]),
    )]);
    assert_eq!(take_actor_info(&mut work, "s1"), obj(vec![("name", s("stage"))]));
    assert!(get(get(&work, "theatre"), "scenes").get("s1").is_none());
    let before = obj(vec![("theatre", obj(vec![]))]);
    let mut same = obj(vec![("theatre", obj(vec![]))]);
    let stand_in = take_actor_info(&mut same, "0123456789abc");
    assert_eq!(same, before);
    assert_eq!(get(&stand_in, "name"), &s("未知角色_01234567"));
    assert_eq!(get(&stand_in, "id"), &s("0123456789abc"));
    assert_eq!(get(&stand_in, "direction"), &n(90));
    assert_eq!(get(&stand_in, "visible"), &Json::Bool(true));
}

#[test]
fn work_data_is_cleaned() {
    let mut work = obj(vec![
        ("compile_result", Json::Array(vec![])),
        ("preview", s("p")),
        ("title", s("t")),
        ("theatre", obj(vec![("current_scene", s("x")), ("actors", obj(vec![]))])),
    ]);
    assert_eq!(clean_work_data(&mut work, false), Ok(()));
    assert_eq!(
        work,
        obj(vec![("title", s("t")), ("theatre", obj(vec![("actors", obj(vec![]))]))])
    );
    let mut kept = obj(vec![("preview", s("p")), ("theatre", obj(vec![("current_scene", s("x"))]))]);
    assert_eq!(clean_work_data(&mut kept, true), Ok(()));
    assert_eq!(kept, obj(vec![("theatre", obj(vec![("current_scene", s("x"))]))]));
    let mut bad = n(3);
    assert_eq!(clean_work_data(&mut bad, false), Err(WorkError::NotObject));
    assert_eq!(bad, n(3));
}

#[test]
fn nemo_metadata_names_the_work() {
    let info = obj(vec![
        ("name", s("Game")),
        ("work_urls", Json::Array(vec![s("https://x/1.bcm"), s("https://x/2.bcm")])),
        ("bcm_version", s("0.16.2")),
    ]);
    let meta = build_metadata(&info, 99);
    assert_eq!(get(&meta, "bcm_name"), &s("Game"));
    assert_eq!(get(&meta, "bcm_url"), &s("https://x/1.bcm"));
    assert_eq!(get(&meta, "bcm_version"), &s("0.16.2"));
    assert_eq!(get(&meta, "publish_preview"), &s(""));
    assert_eq!(get(get(&meta, "upload_status"), "work_id"), &n(99));
    assert_eq!(get(get(&meta, "bcm_count"), "entity_cnt"), &Json::Number("1.0".to_string()));
    assert!(meta
        .to_text()
        .starts_with(r#"{"bcm_count":{"block_cnt":0.0,"block_cnt_without_invisible":0.0,"entity_cnt":1.0},"bcm_name":"Game""#));
}

#[test]
fn kitten_work_gets_editor_settings() {
    let toolbox = vec!["a".to_string(), "b".to_string()];
    let mut work = obj(vec![("physics2", obj(vec![("g", n(1))])), ("title", s("x"))]);
    assert_eq!(update_work_info(&mut work, false, 5, "N", &toolbox), Ok(()));
    assert_eq!(get(&work, "physics2"), &obj(vec![("g", n(1))]));
    assert_eq!(get(&work, "hidden_toolbox"), &obj(vec![("toolbox", arr(vec![])), ("blocks", arr(vec![]))]));
    assert_eq!(get(&work, "work_source_label"), &n(1));
    assert_eq!(get(&work, "sample_id"), &s(""));
    assert_eq!(get(&work, "codemao_value"), &s("5"));
    assert_eq!(get(&work, "device_widget_type"), &Json::Null);
    assert_eq!(get(&work, "project_name"), &s("N"));
    assert_eq!(get(&work, "toolbox_order"), &arr(vec![s("a"), s("b")]));
    assert_eq!(get(&work, "last_toolbox_order"), &arr(vec![s("a"), s("b")]));
    assert!(work.get("work_business").is_none());

    let mut k3 = obj(vec![]);
    assert_eq!(update_work_info(&mut k3, true, 5, "N", &toolbox), Ok(()));
    assert_eq!(get(&k3, "work_source_label"), &n(6));
    assert_eq!(get(&k3, "work_business"), &n(0));
    assert!(k3.get("sample_id").is_none());
    assert!(k3.get("last_toolbox_order").is_none());
    let mut bad = Json::Null;
    assert_eq!(update_work_info(&mut bad, true, 5, "N", &toolbox), Err(WorkError::NotObject));
}

#[test]
fn global_fields_are_put_back() {
    let fields = vec![("variables".to_string(), obj(vec![("v", n(1))]))];
    let groups = arr(vec![s("g")]);
    let mut work = obj(vec![("variables", obj(vec![])), ("theatre", obj(vec![("actors", obj(vec![]))]))]);
    restore_global_fields(&mut work, &fields, Some(&groups));
    assert_eq!(get(&work, "variables"), &obj(vec![("v", n(1))]));
    assert_eq!(get(get(&work, "theatre"), "groups"), &groups);
    let mut empty = Json::Null;
    restore_global_fields(&mut empty, &fields, Some(&groups));
    assert_eq!(empty, obj(vec![("variables", obj(vec![("v", n(1))]))]));
}

#[test]
fn comments_come_from_the_compiled_data_first() {
    let own = obj(vec![("comments", obj(vec![("c1", s("x"))]))]);
    let empty = obj(vec![("comments", obj(vec![]))]);
    let none = obj(vec![]);
    let info = obj(vec![("block_data_json", obj(vec![("comments", obj(vec![("old", n(1))]))]))]);
    let bare = obj(vec![("name", s("a"))]);
    assert_eq!(choose_comments(&own, &info), obj(vec![("c1", s("x"))]));
    assert_eq!(choose_comments(&empty, &info), obj(vec![("old", n(1))]));
    assert_eq!(choose_comments(&none, &info), obj(vec![("old", n(1))]));
    assert_eq!(choose_comments(&none, &bare), obj(vec![]));
    assert_eq!(choose_comments(&obj(vec![("comments", arr(vec![]))]), &bare), arr(vec![]));
}

#[test]
fn rebuilt_block_data_is_stored_on_the_actor() {
    let mut actor = obj(vec![("name", s("a")), ("block_data_json", n(0))]);
    attach_block_data(&mut actor, obj(vec![]), obj(vec![("k", arr(vec![]))]), obj(vec![]));
    assert_eq!(
        actor,
        obj(vec![
            ("name", s("a")),
            (
                "block_data_json",
                obj(vec![
                    ("blocks", obj(vec![])),
                    ("connections", obj(vec![("k", arr(vec![]))])),
                    ("comments", obj(vec![])),
                ])
            ),
        ])
    );
    let mut other = s("x");
    attach_block_data(&mut other, obj(vec![]), obj(vec![]), obj(vec![]));
    assert_eq!(other, s("x"));
}

#[test]
fn kitten_xml_decompile_fills_actors_and_scenes() {
    let work = obj(vec![
        ("variables", obj(vec![("v1", obj(vec![("name", s("score"))]))])),
        ("preview", s("p.png")),
        (
            "theatre",
            obj(vec![
                ("actors", obj(vec![("a1", obj(vec![("name", s("cat"))]))])),
                ("scenes", obj(vec![("s1", obj(vec![]))])),
                ("groups", arr(vec![n(1)])),
            ]),
        ),
        (
            "compile_result",
            arr(vec![
                obj(vec![("id", s("a1")), ("compiled_block_map", obj(vec![]))]),
                obj(vec![("id", s("s1"))]),
                obj(vec![("id", s("ghost"))]),
            ]),
        ),
    ]);
    let toolbox = vec!["motion".to_string()];
    let out = decompile_kitten_xml(work, 7, "My work", &toolbox, &vec![]).unwrap();
    assert!(out.get("compile_result").is_none());
    assert!(out.get("preview").is_none());
    assert_eq!(get(&out, "variables"), &obj(vec![("v1", obj(vec![("name", s("score"))]))]));
    assert_eq!(get(&out, "project_name"), &s("My work"));
    let theatre = get(&out, "theatre");
    assert_eq!(get(theatre, "groups"), &arr(vec![n(1)]));
    let actor = get(get(theatre, "actors"), "a1");
    assert_eq!(get(actor, "blocksXML"), &s("<variables></variables>"));
    let scene = get(get(theatre, "scenes"), "s1");
    assert_eq!(get(scene, "blocksXML"), &s("<variables></variables>"));
    assert!(get(theatre, "actors").get("ghost").is_none());

    let missing = obj(vec![("theatre", obj(vec![]))]);
    assert_eq!(
        decompile_kitten_xml(missing, 7, "w", &toolbox, &vec![]),
        Err(WorkError::MissingCompileResult)
    );
    assert_eq!(
        decompile_kitten_xml(s("x"), 7, "w", &toolbox, &vec![]),
        Err(WorkError::MissingCompileResult)
    );
}
