use codemao_core::compiler::{batch_rounds, DecompileOptions};
use codemao_core::json::Json;
use codemao_core::pipeline::{
    any_keyword, classify_violations, process_single_comment, select_report_account,
    violation_identifier, CheckConfig, ViolationKind,
};
use codemao_core::registry::default_registry;
use codemao_core::retrieve::{
    admin_report_stats, aggregate_user_comments, comment_ids, merge_work_sources, per_source_limit, report_admins, replies_to_take, reply_batch_size, reply_page_step,
    reply_user_field_of, CommentQueryBuilder, CommentSource, DataQuery, DataQueryError,
    NotificationCategory, UniqueFilter,
};
use codemao_core::services::{extract_group_key, format_timestamp, GroupTracker};
use codemao_core::terminal::{
    choose_answer, console_command, done_keyword, farewell_lines, DoneAction, DoneView, filter_answer, menu_answer, ConsoleCommand, status_filter_options, FilterAnswer, MenuAnswer,
    RunStats,
};
use std::path::PathBuf;

fn s(t: &str) -> Json {
    Json::Str(t.to_string())
}

fn n(v: i64) -> Json {
    Json::from_i64(v)
}

fn obj(entries: Vec<(&str, Json)>) -> Json {
    Json::Object(entries.into_iter().map(|(k, v)| (k.to_string(), v)).collect())
}

#[test]
fn comments_are_sorted_into_candidates() {
    assert_eq!(violation_identifier("work", 1, false, 0, 5), "work:1:comment:0:5");
    assert_eq!(violation_identifier("forum", -2, true, 3, 4), "forum:-2:reply:3:4");
    let kw = vec!["cpdd".to_string()];
    assert!(any_keyword("hello cpdd!", &kw));
    assert!(!any_keyword("hello", &kw));
    let item = obj(vec![("id", n(5)), ("user_id", n(9)), ("content", s("Hello World"))]);
    assert_eq!(
        process_single_comment(&item, "work", 1, 0, false, &vec!["xyz".to_string()]),
        Some(ViolationKind::Duplicate("9".to_string(), "hello world".to_string(), "work:1:comment:0:5".to_string()))
    );
    assert_eq!(
        process_single_comment(&item, "work", 1, 0, false, &vec!["world".to_string()]),
        Some(ViolationKind::Ad("work:1:comment:0:5".to_string()))
    );
    let empty = obj(vec![("id", n(6)), ("user_id", n(9))]);
    assert_eq!(process_single_comment(&empty, "work", 1, 0, false, &kw), None);
}

#[test]
fn violations_are_ads_then_repeats() {
    let pending = vec![
        ViolationKind::Duplicate("u".into(), "t".into(), "x".into()),
        ViolationKind::Ad("a".into()),
        ViolationKind::Duplicate("v".into(), "t".into(), "z".into()),
        ViolationKind::Duplicate("u".into(), "t".into(), "y".into()),
    ];
    assert_eq!(classify_violations(&pending, 2), vec!["a", "x", "y"]);
    assert_eq!(classify_violations(&pending, 1), vec!["a", "x", "y", "z"]);
    assert_eq!(classify_violations(&pending, 3), vec!["a"]);
    let cfg = CheckConfig::default();
    assert_eq!(cfg.spam_threshold, 3);
    assert_eq!(cfg.max_reports_per_account, 25);
    assert!(cfg.ad_keywords.contains(&"cpdd"));
}

#[test]
fn report_accounts_are_taken_in_turn() {
    assert_eq!(select_report_account(&vec![25, 3, 25], 0, 25), Some(1));
    assert_eq!(select_report_account(&vec![0, 0, 0], 4, 5), Some(1));
    assert_eq!(select_report_account(&vec![5, 0, 5], 2, 5), Some(1));
    assert_eq!(select_report_account(&vec![25, 25], 1, 25), None);
    assert_eq!(select_report_account(&vec![], 0, 25), None);
}

#[test]
fn timestamps_print_as_utc_minutes() {
    assert_eq!(format_timestamp(&n(1_700_000_000)), "2023-11-14 22:13");
    assert_eq!(format_timestamp(&n(1_700_000_000_123)), "2023-11-14 22:13");
    assert_eq!(format_timestamp(&n(86_400 * 59 + 61)), "1970-03-01 00:01");
    assert_eq!(format_timestamp(&n(0)), "");
    assert_eq!(format_timestamp(&s("1700000000")), "");
}

#[test]
fn batch_groups_complete_at_their_threshold() {
    let reg = default_registry();
    let item = obj(vec![("comment_id", n(5)), ("id", s("77"))]);
    assert_eq!(
        extract_group_key(&reg, &item),
        Some(("item_id".to_string(), "77".to_string()))
    );
    assert_eq!(extract_group_key(&reg, &obj(vec![("comment_id", n(5))])), None);
    assert_eq!(extract_group_key(&reg, &obj(vec![("x", n(5))])), None);

    let mut t = GroupTracker::new(2, 3);
    let key = ("item_id".to_string(), "a".to_string());
    assert!(t.add(key.clone(), n(1)).is_none());
    assert!(t.add(("content".to_string(), "c".to_string()), n(2)).is_none());
    let g = t.add(key.clone(), n(3)).unwrap();
    assert_eq!(g.group_type, "item_id");
    assert_eq!(g.group_key, "a");
    assert_eq!(g.items, vec![n(1), n(3)]);
    assert_eq!(t.pending.len(), 1);
}

#[test]
fn menu_answers_are_read() {
    let keys = vec!["a", "b", "c"];
    assert_eq!(menu_answer(" 2 ", &keys, None), MenuAnswer::Select(1));
    assert_eq!(menu_answer("B", &keys, None), MenuAnswer::Select(1));
    assert_eq!(menu_answer("q", &keys, None), MenuAnswer::Cancel);
    assert_eq!(menu_answer("0", &keys, None), MenuAnswer::Cancel);
    assert_eq!(menu_answer("", &keys, Some(0)), MenuAnswer::Select(0));
    assert_eq!(menu_answer("", &keys, None), MenuAnswer::Invalid);
    assert_eq!(menu_answer("9", &keys, None), MenuAnswer::Invalid);
    assert_eq!(menu_answer("zz", &keys, None), MenuAnswer::Invalid);
    assert_eq!(filter_answer("", 3), FilterAnswer::Cancel);
    assert_eq!(filter_answer("0", 3), FilterAnswer::All);
    assert_eq!(filter_answer("2", 3), FilterAnswer::Select(1));
    assert_eq!(filter_answer("5", 3), FilterAnswer::Cancel);
    assert_eq!(filter_answer("x", 3), FilterAnswer::Cancel);
    assert_eq!(choose_answer(" d ", &vec!["D", "P"]), Some("D".to_string()));
    assert_eq!(choose_answer("x", &vec!["D", "P"]), None);
    assert_eq!(status_filter_options(), vec!["PASS", "DELETE", "MUTE_SEVEN_DAYS", "MUTE_THREE_MONTHS", "UNLOAD"]);
}

#[test]
fn run_statistics_add_up() {
    let mut a = RunStats::default();
    a.record("P", 2);
    a.record("D", 1);
    a.record("J", 5);
    assert_eq!(a.total(), 3);
    let mut b = RunStats::default();
    b.record("T", 4);
    a.merge(b);
    assert_eq!(a.muted3, 4);
    assert_eq!(a.total(), 7);
    assert_eq!(
        a.summary(),
        "共 7 条: 通过 2 | 删除 1 | 禁言7天 0 | 禁言3月 4 | 取消发布 0 | 跳过 0"
    );
}

#[test]
fn comment_queries_are_checked_and_counted() {
    assert_eq!(CommentSource::parse("work"), Ok(CommentSource::Work));
    assert_eq!(CommentSource::parse("shop"), Ok(CommentSource::Shop));
    assert_eq!(CommentSource::parse("x"), Err(DataQueryError::InvalidSource("x".to_string())));
    assert_eq!(CommentSource::Forum.as_str(), "forum");
    assert_eq!(NotificationCategory::CommentReply.as_str(), "COMMENT_REPLY");
    assert_eq!(reply_user_field_of(CommentSource::Forum), "user");
    assert_eq!(reply_user_field_of(CommentSource::Shop), "reply_user");

    let q = DataQuery::new().query_comments();
    assert_eq!(q, CommentQueryBuilder::new());
    assert_eq!(
        q.validate(),
        Err(DataQueryError::InvalidSource("未设置来源".to_string()))
    );
    let q = q.source(CommentSource::Work);
    assert_eq!(q.validate(), Err(DataQueryError::InvalidSource("未设置源ID".to_string())));
    let q = q.target_id(5);
    assert_eq!(q.validate(), Ok((CommentSource::Work, 5, 500)));
    assert_eq!(q.limit(Some(5000)).validate(), Ok((CommentSource::Work, 5, 1000)));
    assert_eq!(q.limit(None).validate(), Ok((CommentSource::Work, 5, 500)));

    let dq = DataQuery::new();
    let reqs = dq.count_requests(CommentSource::Shop, 7);
    assert_eq!(reqs.len(), 2);
    assert_eq!(reqs[0].endpoint, "/web/discussions/7/comments");
    assert_eq!(reqs[1].total_key, "totalReply");
    assert!(reqs[0].workshop_params);
    let reqs = dq.count_requests(CommentSource::Work, 9);
    assert_eq!(reqs[0].endpoint, "/creation-tools/v1/works/9/comments");
    assert_eq!(dq.count_comments(&vec![Some(3), Some(4)]), Ok(7));
    assert!(matches!(dq.count_comments(&vec![Some(3), None]), Err(DataQueryError::ParseError(_))));
    assert!(matches!(
        dq.count_comments(&vec![Some(1u64 << 31)]),
        Err(DataQueryError::ParseError(_))
    ));
}

#[test]
fn streams_are_paged_and_deduplicated() {
    let mut f = UniqueFilter::new();
    assert!(f.accept("a"));
    assert!(!f.accept("a"));
    assert!(f.accept("b"));
    assert_eq!(
        comment_ids(&obj(vec![("id", n(10))]), &vec![obj(vec![("id", n(11))]), obj(vec![("x", n(1))])]),
        vec!["10", "10.11"]
    );
    assert!(comment_ids(&Json::Null, &vec![]).is_empty());
    assert_eq!(per_source_limit(5), 3);
    assert_eq!(per_source_limit(4), 2);
    assert_eq!(replies_to_take(0, 7), 7);
    assert_eq!(replies_to_take(3, 7), 3);
    assert_eq!(replies_to_take(9, 7), 7);
    assert_eq!(reply_batch_size(2), 5);
    assert_eq!(reply_batch_size(300), 200);
    assert_eq!(reply_batch_size(50), 50);
    assert_eq!(reply_page_step(10, 0, 4), Some((4, 6, 4)));
    assert_eq!(reply_page_step(3, 10, 5), Some((3, 0, 15)));
    assert_eq!(reply_page_step(5, 0, 0), None);
}

#[test]
fn decompile_batches_run_in_rounds() {
    let o = DecompileOptions::new();
    assert!(o.save_raw);
    assert_eq!(o.batch_concurrency, 1);
    assert!(o.output_dir.is_none());
    let o = o.batch_concurrency(0).save_raw(false).output_dir(PathBuf::from("/tmp/out"));
    assert_eq!(o.batch_concurrency, 1);
    assert!(!o.save_raw);
    assert_eq!(o.output_dir, Some(PathBuf::from("/tmp/out")));
    assert_eq!(batch_rounds(5, 2), vec![(0, 2), (2, 4), (4, 5)]);
    assert_eq!(batch_rounds(3, 1), vec![(0, 1), (1, 2), (2, 3)]);
    assert_eq!(batch_rounds(1, 4), vec![(0, 1)]);
    assert!(batch_rounds(0, 4).is_empty());
}

#[test]
fn defaults_match_the_constructors() {
    let o = DecompileOptions::default();
    assert!(o.output_dir.is_none());
    assert!(o.save_raw);
    assert_eq!(o.batch_concurrency, 1);
    let q = CommentQueryBuilder::default();
    assert_eq!(q, CommentQueryBuilder::new());
    assert_eq!(q.limit, Some(500));
}

#[test]
fn console_main_menu_answers() {
    assert_eq!(console_command(" 1 "), ConsoleCommand::Process);
    assert_eq!(console_command("P"), ConsoleCommand::Process);
    assert_eq!(console_command("d"), ConsoleCommand::ViewDone);
    assert_eq!(console_command("3"), ConsoleCommand::Stats);
    assert_eq!(console_command("S"), ConsoleCommand::Stats);
    assert_eq!(console_command(""), ConsoleCommand::Quit);
    assert_eq!(console_command("Q\n"), ConsoleCommand::Quit);
    assert_eq!(console_command("0"), ConsoleCommand::Quit);
    assert_eq!(console_command("x"), ConsoleCommand::Invalid);
    assert_eq!(farewell_lines(&RunStats::default()), vec!["退出举报处理控制台".to_string()]);
    let mut run = RunStats::default();
    run.passed = 2;
    run.skipped = 1;
    assert_eq!(
        farewell_lines(&run),
        vec![
            "本次会话处理统计: 共 3 条: 通过 2 | 删除 0 | 禁言7天 0 | 禁言3月 0 | 取消发布 0 | 跳过 1".to_string(),
            "退出举报处理控制台".to_string()
        ]
    );
}

fn jo(entries: Vec<(&str, Json)>) -> Json {
    Json::Object(entries.into_iter().map(|(k, v)| (k.to_string(), v)).collect())
}

#[test]
fn works_of_both_sources_are_renamed_and_cut_to_the_limit() {
    let nemo = Ok(jo(vec![(
        "items",
        Json::Array(vec![
            jo(vec![("work_id", Json::from_i64(1)), ("user_name", Json::Str("a".into())), ("extra", Json::Null)]),
            Json::Str("not a work".into()),
        ]),
    )]));
    let web = Ok(jo(vec![(
        "items",
        Json::Array(vec![
            jo(vec![("work_id", Json::from_i64(2)), ("nickname", Json::Str("b".into())), ("likes_count", Json::from_i64(5))]),
            jo(vec![("work_id", Json::from_i64(3))]),
        ]),
    )]));
    let out = merge_work_sources(&nemo, &web, 2);
    assert_eq!(
        out,
        vec![
            Ok(jo(vec![("work_id", Json::from_i64(1)), ("user_name", Json::Str("a".into()))])),
            Ok(jo(vec![
                ("work_id", Json::from_i64(2)),
                ("user_name", Json::Str("b".into())),
                ("like_count", Json::from_i64(5)),
            ])),
        ]
    );
    assert_eq!(merge_work_sources(&nemo, &web, 10).len(), 3);
    assert!(merge_work_sources(&nemo, &web, 0).is_empty());
    let failed: Result<Json, String> = Err("down".to_string());
    assert_eq!(
        merge_work_sources(&failed, &web, 1),
        vec![Err(DataQueryError::External("down".to_string()))]
    );
}

#[test]
fn admin_statistics_are_summed_and_ordered() {
    let admins = report_admins();
    assert_eq!(admins.len(), 8);
    assert_eq!(admins[0], (220, "石榴 Grant"));
    let counts = vec![
        (220, "a".to_string(), 1, 2),
        (222, "b".to_string(), 5, 0),
        (223, "c".to_string(), 0, 3),
        (224, "d".to_string(), 0, 0),
    ];
    let st = admin_report_stats(&counts);
    assert_eq!(st.total_admins, 4);
    assert_eq!(st.total_comment_reports, 6);
    assert_eq!(st.total_work_reports, 5);
    assert_eq!(st.total_all_reports, 11);
    let order: Vec<(i32, i32)> = st.statistics.iter().map(|e| (e.admin_id, e.total_reports)).collect();
    assert_eq!(order, vec![(222, 5), (220, 3), (223, 3), (224, 0)]);
}

#[test]
fn comments_are_gathered_by_commenter() {
    let c = |uid: Json, text: &str, nick: &str| {
        jo(vec![("user_id", uid), ("content", Json::Str(text.into())), ("nickname", Json::Str(nick.into()))])
    };
    let comments = vec![
        c(Json::from_i64(1), "a", "one"),
        c(Json::Str("2".into()), "b", "two"),
        c(Json::from_i64(2), "c", "two again"),
        jo(vec![("user_id", Json::from_i64(3)), ("content", Json::Str("no nick".into()))]),
        c(Json::from_i64(1), "d", "renamed"),
        c(Json::Str("4".into()), "e", "four"),
    ];
    let out = aggregate_user_comments(&comments);
    let strs = |v: Vec<&str>| Json::Array(v.into_iter().map(|t| Json::Str(t.into())).collect());
    assert_eq!(
        out,
        vec![
            jo(vec![
                ("user_id", Json::Str("1".into())),
                ("nickname", Json::Str("one".into())),
                ("comments", strs(vec!["a", "d"])),
                ("comment_count", Json::from_i64(2)),
            ]),
            jo(vec![
                ("user_id", Json::Str("2".into())),
                ("nickname", Json::Str("two".into())),
                ("comments", strs(vec!["b", "c"])),
                ("comment_count", Json::from_i64(2)),
            ]),
            jo(vec![
                ("user_id", Json::Str("4".into())),
                ("nickname", Json::Str("four".into())),
                ("comments", strs(vec!["e"])),
                ("comment_count", Json::from_i64(1)),
            ]),
        ]
    );
    assert!(aggregate_user_comments(&vec![]).is_empty());
}

#[test]
fn processed_records_view_answers() {
    let mut v = DoneView::new();
    assert!(v.needs_more(14));
    assert!(!v.needs_more(15));
    assert_eq!(DoneView::page_count(0), 1);
    assert_eq!(DoneView::page_count(15), 1);
    assert_eq!(DoneView::page_count(16), 2);
    assert_eq!(v.step("3", 0), DoneAction::NoRecords);
    assert_eq!(v.step(" 3 ", 5), DoneAction::ShowDetail(2));
    assert_eq!(v.step("6", 5), DoneAction::OutOfRange);
    assert_eq!(v.step("b", 5), DoneAction::AtFirstPage);
    assert_eq!(v.step("N", 40), DoneAction::Show);
    assert_eq!(v.page, 1);
    v.exhausted = true;
    assert_eq!(v.step("n", 40), DoneAction::Show);
    assert_eq!(v.step("n", 40), DoneAction::AtLastPage);
    assert_eq!(v.page, 2);
    assert_eq!(v.step("m", 40), DoneAction::Refilter);
    assert!(v.mine);
    assert_eq!(v.page, 0);
    v.keyword = Some("x".to_string());
    v.page = 2;
    assert_eq!(v.step("k", 40), DoneAction::AskKeyword);
    assert_eq!(v.page, 0);
    assert_eq!(v.step("x", 40), DoneAction::Refilter);
    assert!(!v.mine);
    assert_eq!(v.keyword, None);
    assert_eq!(v.step("u", 40), DoneAction::Process);
    assert_eq!(v.step("", 40), DoneAction::Back);
    assert_eq!(v.step("zz", 40), DoneAction::Invalid);
    assert_eq!(done_keyword("  ABC "), Some("abc".to_string()));
    assert_eq!(done_keyword("  "), None);
}

#[test]
fn type_filtered_view_answers() {
    let mut v = DoneView::new();
    assert_eq!(v.type_step("p", 20), DoneAction::AtFirstPage);
    assert_eq!(v.type_step("n", 20), DoneAction::Show);
    assert_eq!(v.type_step("P", 20), DoneAction::Show);
    assert_eq!(v.page, 0);
    v.page = 1;
    assert_eq!(v.type_step("t", 20), DoneAction::AskType);
    assert_eq!(v.page, 1);
    v.choose_type(Some("forum_post".to_string()));
    assert_eq!(v.page, 0);
    assert_eq!(v.report_type, Some("forum_post".to_string()));
    assert_eq!(v.type_step("2", 20), DoneAction::ShowDetail(1));
    assert_eq!(v.type_step("q", 20), DoneAction::Back);
    assert_eq!(v.type_step("b", 20), DoneAction::Invalid);
}
