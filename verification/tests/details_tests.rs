use codemao_core::details::{detail_lines, forum_post_id, DetailDisplayProcessor};
use codemao_core::executer::ProcessingContext;
use codemao_core::json::Json;
use codemao_core::registry::{forum_post_config, shop_comment_config, SourceConfig};

fn s(t: &str) -> Json {
    Json::Str(t.to_string())
}

fn n(v: i64) -> Json {
    Json::from_i64(v)
}

fn obj(entries: Vec<(&str, Json)>) -> Json {
    Json::Object(entries.into_iter().map(|(k, v)| (k.to_string(), v)).collect())
}

#[test]
fn comment_report_details() {
    let cfg = shop_comment_config();
    let item = obj(vec![
        ("comment_content", s("<p>hi</p>")),
        ("comment_user_nickname", s("bob")),
        ("comment_user_id", n(5)),
        ("comment_source_object_name", s("S")),
        ("comment_source_object_id", n(7)),
        ("reason_content", s("spam")),
        ("created_at", n(1700000000)),
    ]);
    assert_eq!(
        detail_lines("shop_comment", &item, Some(&cfg), None),
        vec![
            "=== 评论举报详情 ===",
            "举报内容: hi\n",
            "被举报人昵称: bob",
            "被举报人链接: https://shequ.codemao.cn/user/5",
            "工作室名称: S",
            "工作室链接: https://shequ.codemao.cn/work_shop/7",
            "举报原因: spam",
            "举报时间: 1700000000",
        ]
    );
    assert!(detail_lines("shop_comment", &item, None, None).is_empty());
}

#[test]
fn generic_report_details_skip_missing_fields() {
    let cfg = SourceConfig::base("测试", "m");
    let item = obj(vec![("reason_content", s("r")), ("created_at", n(5))]);
    assert_eq!(
        detail_lines("other", &item, Some(&cfg), None),
        vec!["=== 测试 详情 ===", "举报原因: r", "举报时间: 5"]
    );
}

#[test]
fn forum_report_details_show_fetched_content() {
    let cfg = forum_post_config();
    let mut entries = vec![
        (cfg.source_id_field.clone(), s("123")),
        (cfg.user_nickname_field.clone(), s("amy")),
    ];
    if let Some(t) = &cfg.title_field {
        entries.push((t.clone(), s("Title")));
    }
    let item = Json::Object(entries);
    assert_eq!(forum_post_id(&item, &cfg), Some(123));
    let lines = detail_lines("forum_post", &item, Some(&cfg), Some("<p>body</p>"));
    assert_eq!(lines[0], "=== 帖子举报详情 ===");
    assert_eq!(lines[1], "帖子作者: amy");
    assert_eq!(lines[3], "帖子链接: https://shequ.codemao.cn/community/123");
    assert_eq!(lines[4], "内容: body\n");
    if cfg.title_field.is_some() {
        assert_eq!(lines[5], "标题: Title");
    }
    let without = detail_lines("forum_post", &item, Some(&cfg), None);
    assert_eq!(without.len(), lines.len() - 1);
    let unknown = detail_lines("forum_post", &obj(vec![]), Some(&cfg), Some("x"));
    assert_eq!(unknown[1], "帖子作者: 未知");
    assert_eq!(unknown.len(), without.len() - if cfg.title_field.is_some() { 1 } else { 0 });
}

#[test]
fn detail_processor_shows_the_context_record() {
    let cfg = shop_comment_config();
    let item = obj(vec![("comment_content", s("x")), ("reason_content", s("r"))]);
    let mut ctx = ProcessingContext::new("1".to_string(), "shop_comment".to_string(), item, 3);
    assert!(DetailDisplayProcessor.process(&ctx, None).is_empty());
    ctx.config = Some(cfg);
    let shown = DetailDisplayProcessor.process(&ctx, None);
    assert_eq!(shown[0], "=== 评论举报详情 ===");
    assert_eq!(shown, detail_lines("shop_comment", &ctx.item, ctx.config.as_ref(), None));
}
