use codemao_core::json::Json;
use codemao_core::registry::{
    action_name, chunk_all, default_registry, resolution_display_name, ActionConfig, ChunkSource, Chunker,
    ReportAction, ReportStatus, ReportTypeRegistry, SourceConfig,
};
use std::collections::HashSet;

fn record(i: i32) -> Json {
    Json::Object(vec![
        ("content".to_string(), Json::Str(format!("item {}", i))),
        ("id".to_string(), Json::Str(i.to_string())),
        ("status".to_string(), Json::Str("TOBEDONE".to_string())),
    ])
}

fn field<'a>(v: &'a Json, key: &str) -> Option<&'a str> {
    match v.get(key) {
        Some(Json::Str(s)) => Some(s.as_str()),
        _ => None,
    }
}

#[test]
fn fetch_chunked_terminates_without_duplicates() {
    const TOTAL: i32 = 350;
    let mut registry = ReportTypeRegistry::new();
    let mut cfg = SourceConfig::base("测试类型", "execute_process_comment_report");
    cfg.chunk_size = 100;
    registry.register("test_type", cfg);

    let mut batches: Vec<(ChunkSource, Vec<Json>)> = Vec::new();
    for rt in registry.get_all_types() {
        let config = registry.get_config(&rt).unwrap();
        batches.push((ChunkSource::of(&rt, config), (0..TOTAL).map(record).collect()));
    }
    let chunks = chunk_all(ReportStatus::ToBeDone, &batches);
    assert_eq!(chunks.iter().map(|c| c.len()).collect::<Vec<_>>(), vec![100, 100, 100, 50]);
    let items: Vec<Json> = chunks.into_iter().flatten().collect();

    assert_eq!(items.len(), TOTAL as usize);

    let mut ids: Vec<String> = items
        .iter()
        .filter_map(|v| field(v, "id").map(String::from))
        .collect();
    ids.sort();
    let unique: HashSet<String> = ids.iter().cloned().collect();
    assert_eq!(ids.len(), unique.len());

    assert!(items
        .iter()
        .all(|v| field(v, "_report_type") == Some("test_type")));
}

#[test]
fn chunks_have_the_chunk_size() {
    let mut chunker = Chunker::new(ReportStatus::ToBeDone);
    let src = ChunkSource { report_type: "t".to_string(), status_field: "status".to_string(), chunk_size: 3 };
    let mut sizes = Vec::new();
    for i in 0..7 {
        if let Some(c) = chunker.push(&src, record(i)) {
            sizes.push(c.len());
        }
    }
    assert_eq!(sizes, vec![3, 3]);
    assert_eq!(chunker.finish().map(|c| c.len()), Some(1));
    assert!(chunker.finish().is_none());
}

#[test]
fn done_records_are_dropped_when_waiting_ones_are_asked_for() {
    let mut chunker = Chunker::new(ReportStatus::ToBeDone);
    let src = ChunkSource { report_type: "t".to_string(), status_field: "status".to_string(), chunk_size: 10 };
    let done = Json::Object(vec![("status".to_string(), Json::Str("DONE".to_string()))]);
    assert!(chunker.push(&src, done).is_none());
    assert!(chunker.finish().is_none());

    let mut all = Chunker::new(ReportStatus::Done);
    let done = Json::Object(vec![("status".to_string(), Json::Str("DONE".to_string()))]);
    assert!(all.push(&src, done).is_none());
    assert_eq!(all.finish().map(|c| c.len()), Some(1));
}

#[test]
fn action_keys_round_trip() {
    let all = [
        ReportAction::Delete,
        ReportAction::Mute7d,
        ReportAction::Mute3m,
        ReportAction::Unpublish,
        ReportAction::Pass,
        ReportAction::CheckViolation,
        ReportAction::Skip,
    ];
    for a in all {
        assert_eq!(ReportAction::from_key(a.key()), Some(a));
    }
    assert_eq!(ReportAction::from_key("X"), None);
    assert_eq!(ReportAction::from_key("d"), None);
}

#[test]
fn names_of_actions_and_resolutions() {
    assert_eq!(action_name("S"), "禁言7天");
    assert_eq!(action_name("Q"), "未知动作");
    assert_eq!(resolution_display_name("TOBEDONE"), "待处理");
    assert_eq!(resolution_display_name("WHATEVER"), "WHATEVER");
    let a = ActionConfig::simple("U");
    assert_eq!(a.name, "取消发布");
    assert!(a.enabled);
}

#[test]
fn default_registry_prompts() {
    let r = default_registry();
    assert_eq!(
        r.get_all_types(),
        vec!["shop_comment", "work_work", "forum_post", "forum_discussion"]
    );
    assert_eq!(
        r.get_action_prompt("work_work"),
        "选择操作:D(删除),P(通过),U(取消发布),J(跳过)"
    );
    assert!(r.is_action_available("forum_post", "F"));
    assert!(!r.is_action_available("work_work", "S"));
    assert!(!r.is_action_available("nope", "D"));
    assert_eq!(r.get_action_prompt("nope"), "选择操作:");
}
