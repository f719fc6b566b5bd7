use codemao_core::executer::{
    accounts_to_use, ads_strategy, apply_choice, blacklist_strategy, build_identifier,
    comment_entries, duplicates_strategy, get_report_id, infer_report_type, is_official, keyword_reply,  parse_resolution,
    parse_violation, report_target, split_on, title_preview_str,
    violation_source, ApplyAction, BatchActionManager, ChoiceOutcome, MultiAccount,
    OfficialCheckProcessor, ProcessingContext, ReplyProcessor, ReportTarget,
};
use codemao_core::json::Json;
use codemao_core::registry::{shop_comment_config, Resolution, SourceConfig};

fn s(t: &str) -> Json {
    Json::Str(t.to_string())
}

fn n(v: i64) -> Json {
    Json::from_i64(v)
}

fn obj(entries: Vec<(&str, Json)>) -> Json {
    Json::Object(entries.into_iter().map(|(k, v)| (k.to_string(), v)).collect())
}

#[test]
fn batch_actions_read_back_what_was_saved() {
    let mut m = BatchActionManager::new();
    assert_eq!(m.get_batch_action("user", "42"), None);
    m.save_batch_action("user", "42", "D");
    m.save_batch_action("user", "43", "P");
    m.save_batch_action("user", "42", "S");
    assert_eq!(m.get_batch_action("user", "42"), Some("S".to_string()));
    assert_eq!(m.get_batch_action("user", "43"), Some("P".to_string()));
    assert_eq!(m.get_batch_action("content", "42"), None);
    assert!(!m.is_record_processed("r1"));
    m.mark_record_processed("r1");
    m.mark_record_processed("r1");
    assert!(m.is_record_processed("r1"));
    assert!(!m.is_record_processed("r2"));
    m.clear_processed_records();
    assert!(!m.is_record_processed("r1"));
    assert_eq!(m.get_batch_action("user", "43"), Some("P".to_string()));
}

#[test]
fn links_and_titles_are_prepared_for_display() {
    assert_eq!(ReplyProcessor::protect_cdn_link("ab"), "a\u{200b}\u{200d}b\u{200b}\u{200d}");
    assert_eq!(ReplyProcessor::protect_cdn_link(""), "");
    assert_eq!(title_preview_str(""), "");
    assert_eq!(title_preview_str("short"), "[short]");
    assert_eq!(title_preview_str("0123456789abc"), "[0123456789]");
    assert_eq!(title_preview_str("你好世界你好世界你好世界"), "[你好世界你好世界你好]");
    assert_eq!(title_preview_str("a你好世界bcdefg"), "[a你好世界bcdef]");
    assert_eq!(accounts_to_use(5, Some(3)), 3);
    assert_eq!(accounts_to_use(2, Some(3)), 2);
    assert_eq!(accounts_to_use(4, None), 4);
    let ma: MultiAccount<u8> = MultiAccount::new(1);
    assert!(ma.accounts.is_empty());
}

#[test]
fn identifiers_round_trip_through_parsing() {
    let data = obj(vec![("id", n(55)), ("parent_id", n(9))]);
    let id = build_identifier("forum", 123, &data, true);
    assert_eq!(id, "forum:123:reply:9:55");
    assert_eq!(build_identifier("work", 7, &data, false), "work:7:comment:0:55");
    assert_eq!(build_identifier("shop", 1, &obj(vec![]), false), "shop:1:comment:0:0");
    assert_eq!(
        parse_violation(&id),
        Some(("forum".to_string(), 123, "reply".to_string(), 9, 55))
    );
    assert_eq!(parse_violation("a:b:c:d:e"), None);
    assert_eq!(parse_violation("a:1:c:2"), None);
    assert_eq!(split_on("a::b", ':'), vec!["a", "", "b"]);
    assert_eq!(split_on("", ':'), vec![""]);
    assert_eq!(split_on("x\ny\n", '\n'), vec!["x", "y", ""]);
}

#[test]
fn report_targets_follow_source_and_kind() {
    assert_eq!(report_target("forum", 1, "post", 0, 5), Ok(ReportTarget::ForumPost(5)));
    assert_eq!(report_target("work", 1, "post", 0, 5), Err("不能在非论坛举报帖子".to_string()));
    assert_eq!(report_target("x", 1, "work", 0, 6), Ok(ReportTarget::Work(6)));
    assert_eq!(report_target("work", 8, "comment", 0, 6), Ok(ReportTarget::WorkComment(8, 6)));
    assert_eq!(report_target("forum", 8, "reply", 3, 6), Ok(ReportTarget::ForumItem(6, true)));
    assert_eq!(report_target("shop", 8, "reply", 3, 6), Ok(ReportTarget::ShopComment(6, Some(3))));
    assert_eq!(report_target("shop", 8, "comment", 3, 6), Ok(ReportTarget::ShopComment(6, None)));
    assert_eq!(report_target("moon", 8, "comment", 3, 6), Err("不支持的来源".to_string()));
    assert_eq!(report_target("work", 8, "spam", 3, 6), Err("未知违规类型: spam".to_string()));
}

#[test]
fn resolutions_and_sources_are_named() {
    assert_eq!(parse_resolution("DELETE"), Ok(Resolution::Delete));
    assert_eq!(parse_resolution("UNLOAD"), Ok(Resolution::Unload));
    assert_eq!(parse_resolution("nope"), Err("未知状态: nope".to_string()));
    assert_eq!(violation_source("shop_comment"), "shop");
    assert_eq!(violation_source("forum_discussion"), "forum");
    assert_eq!(violation_source("work_work"), "work");
    assert!(is_official(128963));
    assert!(!is_official(1));
}

#[test]
fn records_are_read_by_their_fields() {
    assert_eq!(infer_report_type(&obj(vec![("_report_type", s("x"))])), Some("x".to_string()));
    assert_eq!(infer_report_type(&obj(vec![("comment_id", n(1))])), Some("shop_comment".to_string()));
    assert_eq!(infer_report_type(&obj(vec![("work_name", s("w"))])), Some("work_work".to_string()));
    assert_eq!(infer_report_type(&obj(vec![("discussion_id", n(1))])), Some("forum_discussion".to_string()));
    assert_eq!(
        infer_report_type(&obj(vec![("post_title", s("t")), ("board_name", s("b"))])),
        Some("forum_post".to_string())
    );
    assert_eq!(infer_report_type(&obj(vec![("post_title", s("t"))])), None);

    let cfg = SourceConfig::base("t", "m");
    assert_eq!(get_report_id(&cfg, &obj(vec![("id", s("77"))])), 77);
    assert_eq!(get_report_id(&cfg, &obj(vec![("id", n(77))])), 0);

    let info = obj(vec![("comment", s("c text")), ("reply", s("r text")), ("reply_id", s("31"))]);
    assert_eq!(ReplyProcessor::extract_comment_text("WORK_COMMENT", &info), "c text");
    assert_eq!(ReplyProcessor::extract_comment_text("WORK_REPLY", &info), "r text");
    let reply = obj(vec![("reference_id", n(12))]);
    assert_eq!(ReplyProcessor::extract_target_and_parent_ids("POST_COMMENT", &reply, &info), (12, 0));
    assert_eq!(ReplyProcessor::extract_target_and_parent_ids("POST_REPLY", &reply, &info), (31, 12));
}

fn comments() -> Vec<Json> {
    vec![
        obj(vec![
            ("id", n(1)),
            ("user_id", n(100)),
            ("content", s("Buy NOW at shop")),
            (
                "replies",
                Json::Array(vec![obj(vec![
                    ("id", n(2)),
                    ("parent_id", n(1)),
                    ("user_id", s("200")),
                    ("content", s("spam spam")),
                ])]),
            ),
        ]),
        obj(vec![("id", n(3)), ("is_top", Json::Bool(true)), ("user_id", n(100)), ("content", s("buy now"))]),
        obj(vec![("id", n(4)), ("user_id", n(300)), ("content", s("spam spam"))]),
        obj(vec![("id", n(5)), ("user_id", n(300)), ("content", s("SPAM spam"))]),
    ]
}

#[test]
fn strategies_find_their_violations() {
    let entries = comment_entries(&comments());
    assert_eq!(entries.len(), 4);
    assert!(entries[1].1);
    let ads = obj(vec![("ads", Json::Array(vec![s("BUY NOW")]))]);
    assert_eq!(ads_strategy(&comments(), 9, &ads, "work"), vec!["work:9:comment:0:1"]);
    let black = obj(vec![("blacklist", Json::Array(vec![s("200")]))]);
    assert_eq!(blacklist_strategy(&comments(), 9, &black, "shop"), vec!["shop:9:reply:1:2"]);
    let dup = obj(vec![("duplicates", n(2))]);
    let mut hits = duplicates_strategy(&comments(), 9, &dup, "forum");
    hits.sort();
    assert_eq!(hits, vec!["forum:9:comment:0:4", "forum:9:comment:0:5"]);
    assert!(duplicates_strategy(&comments(), 9, &obj(vec![]), "forum").is_empty());
}

#[test]
fn official_content_passes_at_once() {
    let item = obj(vec![("id", s("501")), ("comment_user_id", n(128963))]);
    let mut ctx = ProcessingContext::new("r1".to_string(), "shop_comment".to_string(), item, 9);
    ctx.config = Some(shop_comment_config());
    let act = OfficialCheckProcessor.process(&mut ctx);
    assert_eq!(
        act,
        Some(ApplyAction {
            handle_method: "execute_process_comment_report".to_string(),
            report_id: 501,
            admin_id: 9,
            resolution: "PASS".to_string(),
        })
    );
    assert_eq!(ctx.action.as_deref(), Some("P"));
    assert!(ctx.processed);
    assert_eq!(ctx.user_id, Some(128963));
    assert_eq!(ctx.messages, vec!["官方内容，自动通过", "已自动通过官方内容"]);

    let other = obj(vec![("id", s("502")), ("comment_user_id", s("5"))]);
    let mut ctx = ProcessingContext::new("r2".to_string(), "shop_comment".to_string(), other, 9);
    ctx.config = Some(shop_comment_config());
    assert_eq!(OfficialCheckProcessor.process(&mut ctx), None);
    assert_eq!(ctx.user_id, Some(5));
    assert!(!ctx.processed);
}

#[test]
fn operator_choices_decide_the_report() {
    let item = obj(vec![
        ("id", s("600")),
        ("comment_source", s("WORK_SHOP")),
        ("comment_source_object_id", n(44)),
        ("comment_user_id", n(7)),
    ]);
    let mut ctx = ProcessingContext::new("r".to_string(), "shop_comment".to_string(), item, 3);
    ctx.config = Some(shop_comment_config());
    assert_eq!(
        apply_choice(&mut ctx, "F"),
        ChoiceOutcome::CheckViolation(44, "shop".to_string(), String::new(), Some(7))
    );
    assert!(!ctx.processed);
    match apply_choice(&mut ctx, "T") {
        ChoiceOutcome::Apply(Some(a)) => {
            assert_eq!(a.resolution, "MUTE_THREE_MONTHS");
            assert_eq!(a.report_id, 600);
            assert_eq!(a.admin_id, 3);
        }
        other => panic!("{:?}", other),
    }
    assert_eq!(ctx.action.as_deref(), Some("T"));
    assert!(ctx.processed);

    let mut bare = ProcessingContext::new("r".to_string(), "x".to_string(), Json::Null, 3);
    assert_eq!(apply_choice(&mut bare, "F"), ChoiceOutcome::Unsupported);
    assert_eq!(apply_choice(&mut bare, "D"), ChoiceOutcome::Apply(None));
    assert_eq!(apply_choice(&mut bare, "J"), ChoiceOutcome::Skipped);
    assert_eq!(bare.skip_reason.as_deref(), Some("用户选择跳过"));
}

#[test]
fn account_file_lines_are_read_in_order() {
    let mut ma: MultiAccount<u8> = MultiAccount::new(2);
    ma.accounts.push(("old".to_string(), "gone".to_string()));
    ma.load_from_text("a : b\n#c:d\n\nx\n  y:z:w \r\n");
    assert_eq!(
        ma.accounts,
        vec![
            ("a".to_string(), "b".to_string()),
            ("y".to_string(), "z:w".to_string())
        ]
    );
    assert_eq!(ma.identity_type, 2);
    ma.load_from_text("");
    assert!(ma.accounts.is_empty());
}

#[test]
fn keyword_replies_follow_the_first_matching_keyword() {
    let answers = vec![
        ("你好".to_string(), Json::Array(vec![s("hi"), s("hello"), n(3)])),
        ("bye".to_string(), s("see you")),
        ("好".to_string(), s("later")),
        ("x".to_string(), Json::Array(vec![])),
        ("y".to_string(), n(1)),
    ];
    let replies = vec!["r0".to_string(), "r1".to_string()];
    assert_eq!(
        keyword_reply("你好呀", &answers, &replies, 1),
        ("hello".to_string(), Some("你好".to_string()))
    );
    assert_eq!(
        keyword_reply("你好呀", &answers, &replies, 2),
        (String::new(), Some("你好".to_string()))
    );
    assert_eq!(
        keyword_reply("ok bye 好", &answers, &replies, 0),
        ("see you".to_string(), Some("bye".to_string()))
    );
    assert_eq!(
        keyword_reply("x", &answers, &replies, 0),
        (String::new(), Some("x".to_string()))
    );
    assert_eq!(
        keyword_reply("y", &answers, &replies, 0),
        (String::new(), Some("y".to_string()))
    );
    assert_eq!(keyword_reply("nothing", &answers, &replies, 1), ("r1".to_string(), None));
    assert_eq!(keyword_reply("nothing", &answers, &vec![], 0), (String::new(), None));
}

#[test]
fn matched_keyword_reply_is_one_of_its_answers() {
    let answers = vec![("hi".to_string(), Json::Array(vec![s("a"), s("b")]))];
    let replies = vec!["r0".to_string(), "r1".to_string(), "r2".to_string()];
    for _ in 0..20 {
        let (text, key) = ReplyProcessor::match_keyword("oh hi", &answers, &replies);
        assert_eq!(key, Some("hi".to_string()));
        assert!(text == "a" || text == "b");
        let (text, key) = ReplyProcessor::match_keyword("none", &answers, &replies);
        assert_eq!(key, None);
        assert!(replies.contains(&text));
    }
    assert_eq!(ReplyProcessor::match_keyword("none", &answers, &vec![]), (String::new(), None));
}
