//! The report types that the moderation tools handle: their actions and
//! field names, the registry that holds them, and the chunking of fetched
//! report records.

use vstd::prelude::*;

use crate::json::{jget, jstr, put_entry, Json, JsonV, entries_put, view_entries};
use crate::search::{first_index, lemma_first_index, lemma_first_index_at, lemma_first_index_none};
use crate::text::{own, push_str, str_eq};

verus! {

/// The decision taken on a report.
#[derive(Debug, Clone, Copy, PartialEq, Eq, Structural)]
pub enum Resolution {
    Pass,
    Delete,
    MuteSevenDays,
    MuteThreeMonths,
    Unload,
}

impl Resolution {
    /// The name of the decision in the report service.
    pub fn as_str(&self) -> (r: &'static str)
        ensures
            r@ == resolution_name(*self),
    {
        match self {
            Resolution::Pass => "PASS",
            Resolution::Delete => "DELETE",
            Resolution::MuteSevenDays => "MUTE_SEVEN_DAYS",
            Resolution::MuteThreeMonths => "MUTE_THREE_MONTHS",
            Resolution::Unload => "UNLOAD",
        }
    }
}

pub open spec fn resolution_name(r: Resolution) -> Seq<char> {
    match r {
        Resolution::Pass => "PASS"@,
        Resolution::Delete => "DELETE"@,
        Resolution::MuteSevenDays => "MUTE_SEVEN_DAYS"@,
        Resolution::MuteThreeMonths => "MUTE_THREE_MONTHS"@,
        Resolution::Unload => "UNLOAD"@,
    }
}

/// Whether reports waiting for a decision or decided ones are asked for.
#[derive(Debug, Clone, Copy, PartialEq, Eq, Structural)]
pub enum ReportStatus {
    ToBeDone,
    Done,
}

impl ReportStatus {
    /// The name of the status in the report service.
    pub fn as_str(&self) -> (r: &'static str)
        ensures
            r@ == (match *self {
                ReportStatus::ToBeDone => "TOBEDONE"@,
                ReportStatus::Done => "DONE"@,
            }),
    {
        match self {
            ReportStatus::ToBeDone => "TOBEDONE",
            ReportStatus::Done => "DONE",
        }
    }
}

/// An action on a report.
#[derive(Debug, Clone, Copy, PartialEq, Eq, Structural)]
pub enum ReportAction {
    Delete,
    Mute7d,
    Mute3m,
    Unpublish,
    Pass,
    CheckViolation,
    Skip,
}

/// The key of an action.
pub open spec fn action_key(a: ReportAction) -> Seq<char> {
    match a {
        ReportAction::Delete => "D"@,
        ReportAction::Mute7d => "S"@,
        ReportAction::Mute3m => "T"@,
        ReportAction::Unpublish => "U"@,
        ReportAction::Pass => "P"@,
        ReportAction::CheckViolation => "F"@,
        ReportAction::Skip => "J"@,
    }
}

/// The action with a key.
pub open spec fn action_of_key(s: Seq<char>) -> Option<ReportAction> {
    if s == "D"@ {
        Some(ReportAction::Delete)
    } else if s == "S"@ {
        Some(ReportAction::Mute7d)
    } else if s == "T"@ {
        Some(ReportAction::Mute3m)
    } else if s == "U"@ {
        Some(ReportAction::Unpublish)
    } else if s == "P"@ {
        Some(ReportAction::Pass)
    } else if s == "F"@ {
        Some(ReportAction::CheckViolation)
    } else if s == "J"@ {
        Some(ReportAction::Skip)
    } else {
        None
    }
}

impl ReportAction {
    /// The key of the action.
    pub fn key(self) -> (r: &'static str)
        ensures
            r@ == action_key(self),
    {
        match self {
            ReportAction::Delete => "D",
            ReportAction::Mute7d => "S",
            ReportAction::Mute3m => "T",
            ReportAction::Unpublish => "U",
            ReportAction::Pass => "P",
            ReportAction::CheckViolation => "F",
            ReportAction::Skip => "J",
        }
    }

    /// The action with key `s`, if any.
    pub fn from_key(s: &str) -> (r: Option<ReportAction>)
        ensures
            r == action_of_key(s@),
    {
        if str_eq(s, "D") {
            Some(ReportAction::Delete)
        } else if str_eq(s, "S") {
            Some(ReportAction::Mute7d)
        } else if str_eq(s, "T") {
            Some(ReportAction::Mute3m)
        } else if str_eq(s, "U") {
            Some(ReportAction::Unpublish)
        } else if str_eq(s, "P") {
            Some(ReportAction::Pass)
        } else if str_eq(s, "F") {
            Some(ReportAction::CheckViolation)
        } else if str_eq(s, "J") {
            Some(ReportAction::Skip)
        } else {
            None
        }
    }
}

proof fn lemma_keys_distinct()
    ensures
        "D"@ != "S"@, "D"@ != "T"@, "D"@ != "U"@, "D"@ != "P"@, "D"@ != "F"@, "D"@ != "J"@,
        "S"@ != "T"@, "S"@ != "U"@, "S"@ != "P"@, "S"@ != "F"@, "S"@ != "J"@,
        "T"@ != "U"@, "T"@ != "P"@, "T"@ != "F"@, "T"@ != "J"@,
        "U"@ != "P"@, "U"@ != "F"@, "U"@ != "J"@,
        "P"@ != "F"@, "P"@ != "J"@,
        "F"@ != "J"@,
{
    reveal_strlit("D");
    reveal_strlit("S");
    reveal_strlit("T");
    reveal_strlit("U");
    reveal_strlit("P");
    reveal_strlit("F");
    reveal_strlit("J");
    assert("D"@[0] != "S"@[0]);
    assert("D"@[0] != "T"@[0]);
    assert("D"@[0] != "U"@[0]);
    assert("D"@[0] != "P"@[0]);
    assert("D"@[0] != "F"@[0]);
    assert("D"@[0] != "J"@[0]);
    assert("S"@[0] != "T"@[0]);
    assert("S"@[0] != "U"@[0]);
    assert("S"@[0] != "P"@[0]);
    assert("S"@[0] != "F"@[0]);
    assert("S"@[0] != "J"@[0]);
    assert("T"@[0] != "U"@[0]);
    assert("T"@[0] != "P"@[0]);
    assert("T"@[0] != "F"@[0]);
    assert("T"@[0] != "J"@[0]);
    assert("U"@[0] != "P"@[0]);
    assert("U"@[0] != "F"@[0]);
    assert("U"@[0] != "J"@[0]);
    assert("P"@[0] != "F"@[0]);
    assert("P"@[0] != "J"@[0]);
    assert("F"@[0] != "J"@[0]);
}

/// Every action is found again from its key, and every key that names an
/// action is that action's key.
pub proof fn law_action_key_roundtrip(a: ReportAction, s: Seq<char>)
    ensures
        action_of_key(action_key(a)) == Some(a),
        action_of_key(s) == Some(a) ==> s == action_key(a),
{
    lemma_keys_distinct();
}

/// The display name of an action key.
pub open spec fn action_name_spec(key: Seq<char>) -> Seq<char> {
    if key == "D"@ {
        "删除"@
    } else if key == "S"@ {
        "禁言7天"@
    } else if key == "T"@ {
        "禁言3月"@
    } else if key == "U"@ {
        "取消发布"@
    } else if key == "P"@ {
        "通过"@
    } else if key == "F"@ {
        "检查违规"@
    } else if key == "J"@ {
        "跳过"@
    } else {
        "未知动作"@
    }
}

/// The display name of an action key.
pub fn action_name(key: &str) -> (r: &'static str)
    ensures
        r@ == action_name_spec(key@),
{
    if str_eq(key, "D") {
        "删除"
    } else if str_eq(key, "S") {
        "禁言7天"
    } else if str_eq(key, "T") {
        "禁言3月"
    } else if str_eq(key, "U") {
        "取消发布"
    } else if str_eq(key, "P") {
        "通过"
    } else if str_eq(key, "F") {
        "检查违规"
    } else if str_eq(key, "J") {
        "跳过"
    } else {
        "未知动作"
    }
}

/// The display name of a decision or status; other texts stand for
/// themselves.
pub open spec fn resolution_display_spec(s: Seq<char>) -> Seq<char> {
    if s == "PASS"@ {
        "通过"@
    } else if s == "DELETE"@ {
        "删除"@
    } else if s == "MUTE_SEVEN_DAYS"@ {
        "禁言7天"@
    } else if s == "MUTE_THREE_MONTHS"@ {
        "禁言3月"@
    } else if s == "UNLOAD"@ {
        "取消发布"@
    } else if s == "TOBEDONE"@ {
        "待处理"@
    } else if s == "DONE"@ {
        "已处理"@
    } else {
        s
    }
}

/// The display name of a decision or status.
pub fn resolution_display_name(status: &str) -> (r: String)
    ensures
        r@ == resolution_display_spec(status@),
{
    if str_eq(status, "PASS") {
        own("通过")
    } else if str_eq(status, "DELETE") {
        own("删除")
    } else if str_eq(status, "MUTE_SEVEN_DAYS") {
        own("禁言7天")
    } else if str_eq(status, "MUTE_THREE_MONTHS") {
        own("禁言3月")
    } else if str_eq(status, "UNLOAD") {
        own("取消发布")
    } else if str_eq(status, "TOBEDONE") {
        own("待处理")
    } else if str_eq(status, "DONE") {
        own("已处理")
    } else {
        own(status)
    }
}

/// An action offered for a report type.
#[derive(Debug, Clone, PartialEq, Eq)]
pub struct ActionConfig {
    pub key: String,
    pub name: String,
    pub description: String,
    /// The decision the action takes; none for checking and skipping.
    pub resolution: Option<Resolution>,
    pub enabled: bool,
}

/// The decision that an action key takes.
pub open spec fn key_resolution(key: Seq<char>) -> Option<Resolution> {
    if key == "D"@ {
        Some(Resolution::Delete)
    } else if key == "S"@ {
        Some(Resolution::MuteSevenDays)
    } else if key == "T"@ {
        Some(Resolution::MuteThreeMonths)
    } else if key == "U"@ {
        Some(Resolution::Unload)
    } else if key == "P"@ {
        Some(Resolution::Pass)
    } else {
        None
    }
}

/// The action configuration built from a key alone.
pub open spec fn simple_action(c: ActionConfig, key: Seq<char>) -> bool {
    &&& c.key@ == key
    &&& c.name@ == action_name_spec(key)
    &&& c.description@.len() == 0
    &&& c.resolution == key_resolution(key)
    &&& c.enabled
}

impl ActionConfig {
    /// The enabled action with key `key`, its name and decision from the
    /// built-in tables.
    pub fn simple(key: &str) -> (r: ActionConfig)
        ensures
            simple_action(r, key@),
    {
        let resolution = if str_eq(key, "D") {
            Some(Resolution::Delete)
        } else if str_eq(key, "S") {
            Some(Resolution::MuteSevenDays)
        } else if str_eq(key, "T") {
            Some(Resolution::MuteThreeMonths)
        } else if str_eq(key, "U") {
            Some(Resolution::Unload)
        } else if str_eq(key, "P") {
            Some(Resolution::Pass)
        } else {
            None
        };
        ActionConfig {
            key: own(key),
            name: own(action_name(key)),
            description: String::new(),
            resolution,
            enabled: true,
        }
    }
}

/// The actions for a list of keys, in order.
pub fn actions(keys: &[&str]) -> (r: Vec<ActionConfig>)
    ensures
        r@.len() == keys@.len(),
        forall|i: int| 0 <= i < keys@.len() ==> simple_action(#[trigger] r@[i], keys@[i]@),
{
    let mut out: Vec<ActionConfig> = Vec::new();
    let mut i: usize = 0;
    while i < keys.len()
        invariant
            i <= keys@.len(),
            out@.len() == i,
            forall|j: int| 0 <= j < i ==> simple_action(#[trigger] out@[j], keys@[j]@),
        decreases keys@.len() - i,
    {
        out.push(ActionConfig::simple(keys[i]));
        i = i + 1;
    }
    out
}


/// An extra test that decides whether a report record may be checked for
/// violations.
#[derive(Debug, Clone, Copy, PartialEq, Eq, Structural)]
pub enum SpecialCheck {
    /// The comment was made in a workshop.
    WorkshopComment,
    /// Every record may be checked.
    Always,
}

/// Whether a record passes a special check.
pub open spec fn special_check_spec(c: SpecialCheck, item: JsonV) -> bool {
    match c {
        SpecialCheck::WorkshopComment => jstr(jget(item, "comment_source"@)) == Some("WORK_SHOP"@),
        SpecialCheck::Always => true,
    }
}

impl SpecialCheck {
    /// Applies the check to a record.
    pub fn applies(&self, item: &Json) -> (r: bool)
        ensures
            r == special_check_spec(*self, item@),
    {
        match self {
            SpecialCheck::WorkshopComment => match crate::chat::str_field(item, "comment_source") {
                Some(s) => str_eq(s.as_str(), "WORK_SHOP"),
                None => false,
            },
            SpecialCheck::Always => true,
        }
    }
}

/// How the records of a report type are named, fetched and handled.
#[derive(Debug, Clone, PartialEq, Eq)]
pub struct SourceConfig {
    pub admin_id_field: String,
    pub admin_username_field: String,
    pub available_actions: Vec<ActionConfig>,
    pub board_id_field: Option<String>,
    pub board_name_field: Option<String>,
    pub chunk_size: usize,
    pub content_field: String,
    pub content_id_field: String,
    pub content_type_field: String,
    pub created_at_field: String,
    pub description_field: String,
    pub handle_method: String,
    pub item_id_field: String,
    pub name: String,
    pub parent_id_field: String,
    pub reason_field: String,
    pub reason_id_field: String,
    pub report_id_field: String,
    pub source_id_field: String,
    pub source_name_field: String,
    pub source_object_id_field: String,
    pub source_object_name_field: String,
    pub source_type_field: String,
    pub special_check: Option<SpecialCheck>,
    pub status_field: String,
    pub title_field: Option<String>,
    pub user_id_field: String,
    pub user_nickname_field: String,
    pub user_parent_id_field: String,
    pub user_parent_nickname_field: String,
    pub work_type_field: Option<String>,
}

/// The field names shared by most report types, with the type-specific ones
/// left empty.
pub open spec fn is_base_config(c: SourceConfig, name: Seq<char>, handle_method: Seq<char>) -> bool {
    &&& c.name@ == name
    &&& c.handle_method@ == handle_method
    &&& c.admin_id_field@ == "admin_id"@
    &&& c.admin_username_field@.len() == 0
    &&& c.available_actions@.len() == 0
    &&& c.board_id_field.is_none()
    &&& c.board_name_field.is_none()
    &&& c.chunk_size == 100
    &&& c.content_field@.len() == 0
    &&& c.content_id_field@.len() == 0
    &&& c.content_type_field@.len() == 0
    &&& c.created_at_field@ == "created_at"@
    &&& c.description_field@ == "description"@
    &&& c.item_id_field@ == "id"@
    &&& c.parent_id_field@.len() == 0
    &&& c.reason_field@ == "reason_content"@
    &&& c.reason_id_field@ == "reason_id"@
    &&& c.report_id_field@ == "id"@
    &&& c.source_id_field@.len() == 0
    &&& c.source_name_field@.len() == 0
    &&& c.source_object_id_field@.len() == 0
    &&& c.source_object_name_field@.len() == 0
    &&& c.source_type_field@.len() == 0
    &&& c.special_check.is_none()
    &&& c.status_field@ == "status"@
    &&& c.title_field.is_none()
    &&& c.user_id_field@.len() == 0
    &&& c.user_nickname_field@.len() == 0
    &&& c.user_parent_id_field@.len() == 0
    &&& c.user_parent_nickname_field@.len() == 0
    &&& c.work_type_field.is_none()
}

impl SourceConfig {
    /// A configuration with the shared field names.
    pub fn base(name: &str, handle_method: &str) -> (r: SourceConfig)
        ensures
            is_base_config(r, name@, handle_method@),
    {
        SourceConfig {
            name: own(name),
            handle_method: own(handle_method),
            admin_id_field: own("admin_id"),
            admin_username_field: String::new(),
            available_actions: Vec::new(),
            board_id_field: None,
            board_name_field: None,
            chunk_size: 100,
            content_field: String::new(),
            content_id_field: String::new(),
            content_type_field: String::new(),
            created_at_field: own("created_at"),
            description_field: own("description"),
            item_id_field: own("id"),
            parent_id_field: String::new(),
            reason_field: own("reason_content"),
            reason_id_field: own("reason_id"),
            report_id_field: own("id"),
            source_id_field: String::new(),
            source_name_field: String::new(),
            source_object_id_field: String::new(),
            source_object_name_field: String::new(),
            source_type_field: String::new(),
            special_check: None,
            status_field: own("status"),
            title_field: None,
            user_id_field: String::new(),
            user_nickname_field: String::new(),
            user_parent_id_field: String::new(),
            user_parent_nickname_field: String::new(),
            work_type_field: None,
        }
    }
}


/// The configuration of the `shop_comment` report type.
pub open spec fn is_shop_comment_config(c: SourceConfig) -> bool {
    &&& c.name@ == "工作室评论举报"@
    &&& c.handle_method@ == "execute_process_comment_report"@
    &&& c.admin_id_field@ == "admin_id"@
    &&& c.admin_username_field@ == "admin_user_name"@
    &&& c.content_field@ == "comment_content"@
    &&& c.content_id_field@ == "comment_id"@
    &&& c.content_type_field@ == "comment_source"@
    &&& c.created_at_field@ == "created_at"@
    &&& c.description_field@ == "description"@
    &&& c.item_id_field@ == "id"@
    &&& c.parent_id_field@ == "comment_parent_id"@
    &&& c.reason_field@ == "reason_content"@
    &&& c.reason_id_field@ == "reason_id"@
    &&& c.report_id_field@ == "id"@
    &&& c.source_id_field@ == "comment_source_object_id"@
    &&& c.source_name_field@ == "comment_source_object_name"@
    &&& c.source_object_id_field@ == "comment_source_object_id"@
    &&& c.source_object_name_field@ == "comment_source_object_name"@
    &&& c.source_type_field@ == "comment_source"@
    &&& c.status_field@ == "status"@
    &&& c.user_id_field@ == "comment_user_id"@
    &&& c.user_nickname_field@ == "comment_user_nickname"@
    &&& c.user_parent_id_field@ == "comment_parent_user_id"@
    &&& c.user_parent_nickname_field@ == "comment_parent_user_nickname"@
    &&& c.board_id_field.is_none()
    &&& c.board_name_field.is_none()
    &&& c.title_field.is_none()
    &&& c.work_type_field.is_none()
    &&& c.chunk_size == 100
    &&& c.available_actions@.len() == 6
    &&& simple_action(c.available_actions@[0], "D"@)
    &&& simple_action(c.available_actions@[1], "S"@)
    &&& simple_action(c.available_actions@[2], "T"@)
    &&& simple_action(c.available_actions@[3], "P"@)
    &&& simple_action(c.available_actions@[4], "F"@)
    &&& simple_action(c.available_actions@[5], "J"@)
    &&& c.special_check == Some(SpecialCheck::WorkshopComment)
}

/// The configuration of the `shop_comment` report type.
pub fn shop_comment_config() -> (c: SourceConfig)
    ensures
        is_shop_comment_config(c),
{
    let mut c = SourceConfig::base("工作室评论举报", "execute_process_comment_report");
    c.admin_username_field = own("admin_user_name");
    c.content_field = own("comment_content");
    c.content_type_field = own("comment_source");
    c.content_id_field = own("comment_id");
    c.user_id_field = own("comment_user_id");
    c.user_nickname_field = own("comment_user_nickname");
    c.user_parent_id_field = own("comment_parent_user_id");
    c.user_parent_nickname_field = own("comment_parent_user_nickname");
    c.source_id_field = own("comment_source_object_id");
    c.source_name_field = own("comment_source_object_name");
    c.source_type_field = own("comment_source");
    c.source_object_id_field = own("comment_source_object_id");
    c.source_object_name_field = own("comment_source_object_name");
    c.parent_id_field = own("comment_parent_id");
    c.available_actions = actions(&["D", "S", "T", "P", "F", "J"]);
    c.special_check = Some(SpecialCheck::WorkshopComment);
    c
}

/// The configuration of the `work_work` report type.
pub open spec fn is_work_work_config(c: SourceConfig) -> bool {
    &&& c.name@ == "作品举报"@
    &&& c.handle_method@ == "execute_process_work_report"@
    &&& c.admin_id_field@ == "admin_id"@
    &&& c.admin_username_field@ == "admin_username"@
    &&& c.content_field@ == "work_name"@
    &&& c.content_id_field@ == "work_id"@
    &&& c.content_type_field@ == "work_type"@
    &&& c.created_at_field@ == "created_at"@
    &&& c.description_field@ == "description"@
    &&& c.item_id_field@ == "id"@
    &&& c.parent_id_field@.len() == 0
    &&& c.reason_field@ == "reason_content"@
    &&& c.reason_id_field@ == "reason_id"@
    &&& c.report_id_field@ == "id"@
    &&& c.source_id_field@ == "work_id"@
    &&& c.source_name_field@ == "work_name"@
    &&& c.source_object_id_field@ == "work_id"@
    &&& c.source_object_name_field@ == "work_name"@
    &&& c.source_type_field@ == "work_type"@
    &&& c.status_field@ == "status"@
    &&& c.user_id_field@ == "work_user_id"@
    &&& c.user_nickname_field@ == "work_user_nickname"@
    &&& c.user_parent_id_field@.len() == 0
    &&& c.user_parent_nickname_field@.len() == 0
    &&& c.board_id_field.is_none()
    &&& c.board_name_field.is_none()
    &&& c.title_field matches Some(t) && t@ == "work_name"@
    &&& c.work_type_field matches Some(t) && t@ == "work_type"@
    &&& c.chunk_size == 100
    &&& c.available_actions@.len() == 4
    &&& simple_action(c.available_actions@[0], "D"@)
    &&& simple_action(c.available_actions@[1], "P"@)
    &&& simple_action(c.available_actions@[2], "U"@)
    &&& simple_action(c.available_actions@[3], "J"@)
    &&& c.special_check.is_none()
}

/// The configuration of the `work_work` report type.
pub fn work_work_config() -> (c: SourceConfig)
    ensures
        is_work_work_config(c),
{
    let mut c = SourceConfig::base("作品举报", "execute_process_work_report");
    c.admin_username_field = own("admin_username");
    c.content_field = own("work_name");
    c.content_type_field = own("work_type");
    c.content_id_field = own("work_id");
    c.user_id_field = own("work_user_id");
    c.user_nickname_field = own("work_user_nickname");
    c.source_id_field = own("work_id");
    c.source_name_field = own("work_name");
    c.source_type_field = own("work_type");
    c.source_object_id_field = own("work_id");
    c.source_object_name_field = own("work_name");
    c.work_type_field = Some(own("work_type"));
    c.title_field = Some(own("work_name"));
    c.available_actions = actions(&["D", "P", "U", "J"]);
    c
}

/// The configuration of the `forum_post` report type.
pub open spec fn is_forum_post_config(c: SourceConfig) -> bool {
    &&& c.name@ == "帖子举报"@
    &&& c.handle_method@ == "execute_process_post_report"@
    &&& c.admin_id_field@ == "admin_id"@
    &&& c.admin_username_field@ == "admin_username"@
    &&& c.content_field@ == "post_title"@
    &&& c.content_id_field@ == "post_id"@
    &&& c.content_type_field@ == "board_name"@
    &&& c.created_at_field@ == "created_at"@
    &&& c.description_field@ == "description"@
    &&& c.item_id_field@ == "id"@
    &&& c.parent_id_field@.len() == 0
    &&& c.reason_field@ == "reason_content"@
    &&& c.reason_id_field@ == "reason_id"@
    &&& c.report_id_field@ == "id"@
    &&& c.source_id_field@ == "post_id"@
    &&& c.source_name_field@ == "board_name"@
    &&& c.source_object_id_field@ == "post_id"@
    &&& c.source_object_name_field@ == "board_name"@
    &&& c.source_type_field@ == "board_name"@
    &&& c.status_field@ == "status"@
    &&& c.user_id_field@ == "post_user_id"@
    &&& c.user_nickname_field@ == "post_user_nick_name"@
    &&& c.user_parent_id_field@.len() == 0
    &&& c.user_parent_nickname_field@.len() == 0
    &&& c.board_id_field matches Some(t) && t@ == "board_id"@
    &&& c.board_name_field matches Some(t) && t@ == "board_name"@
    &&& c.title_field matches Some(t) && t@ == "post_title"@
    &&& c.work_type_field.is_none()
    &&& c.chunk_size == 100
    &&& c.available_actions@.len() == 6
    &&& simple_action(c.available_actions@[0], "D"@)
    &&& simple_action(c.available_actions@[1], "S"@)
    &&& simple_action(c.available_actions@[2], "T"@)
    &&& simple_action(c.available_actions@[3], "P"@)
    &&& simple_action(c.available_actions@[4], "F"@)
    &&& simple_action(c.available_actions@[5], "J"@)
    &&& c.special_check == Some(SpecialCheck::Always)
}

/// The configuration of the `forum_post` report type.
pub fn forum_post_config() -> (c: SourceConfig)
    ensures
        is_forum_post_config(c),
{
    let mut c = SourceConfig::base("帖子举报", "execute_process_post_report");
    c.admin_username_field = own("admin_username");
    c.content_field = own("post_title");
    c.content_type_field = own("board_name");
    c.content_id_field = own("post_id");
    c.user_id_field = own("post_user_id");
    c.user_nickname_field = own("post_user_nick_name");
    c.source_id_field = own("post_id");
    c.source_name_field = own("board_name");
    c.source_type_field = own("board_name");
    c.source_object_id_field = own("post_id");
    c.source_object_name_field = own("board_name");
    c.title_field = Some(own("post_title"));
    c.board_name_field = Some(own("board_name"));
    c.board_id_field = Some(own("board_id"));
    c.available_actions = actions(&["D", "S", "T", "P", "F", "J"]);
    c.special_check = Some(SpecialCheck::Always);
    c
}

/// The configuration of the `forum_discussion` report type.
pub open spec fn is_forum_discussion_config(c: SourceConfig) -> bool {
    &&& c.name@ == "讨论举报"@
    &&& c.handle_method@ == "execute_process_discussion_report"@
    &&& c.admin_id_field@ == "admin_id"@
    &&& c.admin_username_field@ == "admin_username"@
    &&& c.content_field@ == "discussion_content"@
    &&& c.content_id_field@ == "discussion_id"@
    &&& c.content_type_field@ == "discussion_source"@
    &&& c.created_at_field@ == "created_at"@
    &&& c.description_field@ == "description"@
    &&& c.item_id_field@ == "id"@
    &&& c.parent_id_field@.len() == 0
    &&& c.reason_field@ == "reason_content"@
    &&& c.reason_id_field@ == "reason_id"@
    &&& c.report_id_field@ == "id"@
    &&& c.source_id_field@ == "post_id"@
    &&& c.source_name_field@ == "post_title"@
    &&& c.source_object_id_field@ == "post_id"@
    &&& c.source_object_name_field@ == "post_title"@
    &&& c.source_type_field@ == "discussion_source"@
    &&& c.status_field@ == "status"@
    &&& c.user_id_field@ == "discussion_user_id"@
    &&& c.user_nickname_field@ == "discussion_user_nickname"@
    &&& c.user_parent_id_field@.len() == 0
    &&& c.user_parent_nickname_field@.len() == 0
    &&& c.board_id_field matches Some(t) && t@ == "board_id"@
    &&& c.board_name_field matches Some(t) && t@ == "board_name"@
    &&& c.title_field matches Some(t) && t@ == "post_title"@
    &&& c.work_type_field.is_none()
    &&& c.chunk_size == 100
    &&& c.available_actions@.len() == 6
    &&& simple_action(c.available_actions@[0], "D"@)
    &&& simple_action(c.available_actions@[1], "S"@)
    &&& simple_action(c.available_actions@[2], "T"@)
    &&& simple_action(c.available_actions@[3], "P"@)
    &&& simple_action(c.available_actions@[4], "F"@)
    &&& simple_action(c.available_actions@[5], "J"@)
    &&& c.special_check == Some(SpecialCheck::Always)
}

/// The configuration of the `forum_discussion` report type.
pub fn forum_discussion_config() -> (c: SourceConfig)
    ensures
        is_forum_discussion_config(c),
{
    let mut c = SourceConfig::base("讨论举报", "execute_process_discussion_report");
    c.admin_username_field = own("admin_username");
    c.content_field = own("discussion_content");
    c.content_type_field = own("discussion_source");
    c.content_id_field = own("discussion_id");
    c.user_id_field = own("discussion_user_id");
    c.user_nickname_field = own("discussion_user_nickname");
    c.source_id_field = own("post_id");
    c.source_name_field = own("post_title");
    c.source_type_field = own("discussion_source");
    c.source_object_id_field = own("post_id");
    c.source_object_name_field = own("post_title");
    c.title_field = Some(own("post_title"));
    c.board_name_field = Some(own("board_name"));
    c.board_id_field = Some(own("board_id"));
    c.available_actions = actions(&["D", "S", "T", "P", "F", "J"]);
    c.special_check = Some(SpecialCheck::Always);
    c
}


/// The actions, prompt and keys offered for a report type.
#[derive(Debug, Clone, PartialEq, Eq)]
pub struct ActionOptions {
    pub prompt: String,
    pub valid_keys: Vec<String>,
    pub actions: Vec<ActionConfig>,
}

/// Whether an action is offered: enabled, and not the reserved key `C`.
pub open spec fn is_offered(a: ActionConfig) -> bool {
    a.enabled && a.key@ != "C"@
}

/// The actions offered, in order.
pub open spec fn offered(acts: Seq<ActionConfig>) -> Seq<ActionConfig>
    decreases acts.len(),
{
    if acts.len() == 0 {
        Seq::empty()
    } else if is_offered(acts.last()) {
        offered(acts.drop_last()).push(acts.last())
    } else {
        offered(acts.drop_last())
    }
}

/// One entry of the prompt: the key and the name in brackets.
pub open spec fn prompt_item(a: ActionConfig) -> Seq<char> {
    a.key@ + seq!['('] + a.name@ + seq![')']
}

/// The entries of the prompt joined by commas.
pub open spec fn prompt_items(acts: Seq<ActionConfig>) -> Seq<char>
    decreases acts.len(),
{
    if acts.len() == 0 {
        Seq::empty()
    } else if acts.len() == 1 {
        prompt_item(acts[0])
    } else {
        prompt_items(acts.drop_last()) + seq![','] + prompt_item(acts.last())
    }
}

/// The prompt that lists the offered actions.
pub open spec fn prompt_spec(acts: Seq<ActionConfig>) -> Seq<char> {
    "选择操作:"@ + prompt_items(acts)
}

/// Report types with their configurations; a type registered again
/// replaces the earlier one.
#[derive(Debug, Clone, PartialEq, Eq)]
pub struct ReportTypeRegistry {
    pub entries: Vec<(String, SourceConfig)>,
    pub default_actions: Vec<ActionConfig>,
}

pub open spec fn entry_named(name: Seq<char>) -> spec_fn((String, SourceConfig)) -> bool {
    |e: (String, SourceConfig)| e.0@ == name
}

impl ReportTypeRegistry {
    /// The configuration registered for a type.
    pub open spec fn config_of(self, report_type: Seq<char>) -> Option<SourceConfig> {
        match first_index(self.entries@, entry_named(report_type)) {
            Some(i) => Some(self.entries@[i].1),
            None => None,
        }
    }

    /// The names of the registered types, each once.
    pub open spec fn type_names(self) -> Seq<Seq<char>> {
        self.entries@.map_values(|e: (String, SourceConfig)| e.0@)
    }

    /// No type is registered twice.
    pub open spec fn wf(self) -> bool {
        forall|i: int, j: int|
            0 <= i < j < self.entries@.len() ==> #[trigger] self.entries@[i].0@ != #[trigger] self.entries@[j].0@
    }

    /// An empty registry with the default action list.
    pub fn new() -> (r: ReportTypeRegistry)
        ensures
            r.wf(),
            r.entries@.len() == 0,
            r.default_actions@.len() == 7,
            simple_action(r.default_actions@[0], "D"@),
            simple_action(r.default_actions@[1], "S"@),
            simple_action(r.default_actions@[2], "T"@),
            simple_action(r.default_actions@[3], "U"@),
            simple_action(r.default_actions@[4], "P"@),
            simple_action(r.default_actions@[5], "F"@),
            simple_action(r.default_actions@[6], "J"@),
    {
        ReportTypeRegistry {
            entries: Vec::new(),
            default_actions: actions(&["D", "S", "T", "U", "P", "F", "J"]),
        }
    }

    fn index_of(&self, report_type: &str) -> (r: Option<usize>)
        ensures
            match r {
                Some(i) => first_index(self.entries@, entry_named(report_type@)) == Some(i as int),
                None => first_index(self.entries@, entry_named(report_type@)).is_none(),
            },
    {
        let mut i: usize = 0;
        while i < self.entries.len()
            invariant
                i <= self.entries@.len(),
                forall|j: int| 0 <= j < i ==> !(entry_named(report_type@))(#[trigger] self.entries@[j]),
            decreases self.entries@.len() - i,
        {
            if str_eq(self.entries[i].0.as_str(), report_type) {
                proof {
                    lemma_first_index_at(self.entries@, entry_named(report_type@), i as int);
                }
                return Some(i);
            }
            i = i + 1;
        }
        proof {
            lemma_first_index_none(self.entries@, entry_named(report_type@));
        }
        None
    }

    /// Registers `config` for `report_type`, replacing an earlier one.
    pub fn register(&mut self, report_type: &str, config: SourceConfig)
        requires
            old(self).wf(),
        ensures
            final(self).wf(),
            final(self).config_of(report_type@) == Some(config),
            forall|t: Seq<char>| t != report_type@ ==> #[trigger] final(self).config_of(t) == old(self).config_of(t),
            final(self).default_actions == old(self).default_actions,
            final(self).type_names() == (if old(self).config_of(report_type@).is_some() {
                old(self).type_names()
            } else {
                old(self).type_names().push(report_type@)
            }),
    {
        let ghost cfg = config;
        match self.index_of(report_type) {
            Some(i) => {
                proof {
                    lemma_first_index(self.entries@, entry_named(report_type@));
                }
                let ghost before = self.entries@;
                self.entries.set(i, (own(report_type), config));
                proof {
                    assert(self.type_names() =~= old(self).type_names());
                    assert(self.entries@ == before.update(i as int, self.entries@[i as int]));
                    lemma_first_index_at(self.entries@, entry_named(report_type@), i as int);
                    assert forall|t: Seq<char>| t != report_type@ implies #[trigger] self.config_of(t)
                        == old(self).config_of(t) by {
                        lemma_first_index(before, entry_named(t));
                        match first_index(before, entry_named(t)) {
                            Some(k) => {
                                assert(k != i);
                                assert forall|j: int| 0 <= j < k implies !(entry_named(t))(
                                    #[trigger] self.entries@[j],
                                ) by {
                                    if j != i {
                                        assert(self.entries@[j] == before[j]);
                                    }
                                }
                                lemma_first_index_at(self.entries@, entry_named(t), k);
                            },
                            None => {
                                assert forall|j: int| 0 <= j < self.entries@.len() implies !(
                                entry_named(t))(#[trigger] self.entries@[j]) by {
                                    if j != i {
                                        assert(self.entries@[j] == before[j]);
                                    }
                                }
                                lemma_first_index_none(self.entries@, entry_named(t));
                            },
                        }
                    }
                    assert forall|a: int, b: int|
                        0 <= a < b < self.entries@.len() implies #[trigger] self.entries@[a].0@
                        != #[trigger] self.entries@[b].0@ by {
                        if a != i && b != i {
                            assert(self.entries@[a] == before[a]);
                            assert(self.entries@[b] == before[b]);
                        } else if a == i {
                            assert(self.entries@[b] == before[b]);
                        } else {
                            assert(self.entries@[a] == before[a]);
                        }
                    }
                }
            },
            None => {
                proof {
                    lemma_first_index(self.entries@, entry_named(report_type@));
                }
                let ghost before = self.entries@;
                self.entries.push((own(report_type), config));
                proof {
                    assert(self.type_names() =~= old(self).type_names().push(report_type@));
                    let n = before.len() as int;
                    assert(self.entries@[n].0@ == report_type@);
                    assert forall|j: int| 0 <= j < n implies !(entry_named(report_type@))(
                        #[trigger] self.entries@[j],
                    ) by {
                        assert(self.entries@[j] == before[j]);
                    }
                    lemma_first_index_at(self.entries@, entry_named(report_type@), n);
                    assert forall|t: Seq<char>| t != report_type@ implies #[trigger] self.config_of(t)
                        == old(self).config_of(t) by {
                        lemma_first_index(before, entry_named(t));
                        match first_index(before, entry_named(t)) {
                            Some(k) => {
                                assert forall|j: int| 0 <= j < k implies !(entry_named(t))(
                                    #[trigger] self.entries@[j],
                                ) by {
                                    assert(self.entries@[j] == before[j]);
                                }
                                assert(self.entries@[k] == before[k]);
                                lemma_first_index_at(self.entries@, entry_named(t), k);
                            },
                            None => {
                                assert forall|j: int| 0 <= j < self.entries@.len() implies !(
                                entry_named(t))(#[trigger] self.entries@[j]) by {
                                    if j < n {
                                        assert(self.entries@[j] == before[j]);
                                    }
                                }
                                lemma_first_index_none(self.entries@, entry_named(t));
                            },
                        }
                    }
                    assert forall|a: int, b: int|
                        0 <= a < b < self.entries@.len() implies #[trigger] self.entries@[a].0@
                        != #[trigger] self.entries@[b].0@ by {
                        assert(self.entries@[a] == before[a]);
                        if b < n {
                            assert(self.entries@[b] == before[b]);
                        }
                    }
                }
            },
        }
    }

    /// The configuration registered for a type.
    pub fn get_config(&self, report_type: &str) -> (r: Option<&SourceConfig>)
        ensures
            match r {
                Some(c) => self.config_of(report_type@) == Some(*c),
                None => self.config_of(report_type@).is_none(),
            },
    {
        match self.index_of(report_type) {
            Some(i) => {
                proof {
                    lemma_first_index(self.entries@, entry_named(report_type@));
                }
                Some(&self.entries[i].1)
            },
            None => None,
        }
    }

    /// The names of the registered types, in the order they were first
    /// registered.
    pub fn get_all_types(&self) -> (r: Vec<String>)
        ensures
            r@.map_values(|s: String| s@) == self.type_names(),
    {
        let mut out: Vec<String> = Vec::new();
        let mut i: usize = 0;
        while i < self.entries.len()
            invariant
                i <= self.entries@.len(),
                out@.map_values(|s: String| s@) == self.type_names().subrange(0, i as int),
            decreases self.entries@.len() - i,
        {
            let ghost before = out@;
            out.push(self.entries[i].0.clone());
            assert(out@.map_values(|s: String| s@) =~= before.map_values(|s: String| s@).push(
                self.entries@[i as int].0@,
            ));
            assert(self.type_names().subrange(0, i + 1) =~= self.type_names().subrange(0, i as int).push(
                self.entries@[i as int].0@,
            ));
            i = i + 1;
        }
        assert(self.type_names().subrange(0, self.entries@.len() as int) =~= self.type_names());
        out
    }
}


fn copy_action(a: &ActionConfig) -> (r: ActionConfig)
    ensures
        r == *a,
{
    ActionConfig {
        key: a.key.clone(),
        name: a.name.clone(),
        description: a.description.clone(),
        resolution: a.resolution,
        enabled: a.enabled,
    }
}

/// The actions offered for a configuration, and the prompt listing them.
fn offered_actions(acts: &Vec<ActionConfig>) -> (r: Vec<ActionConfig>)
    ensures
        r@ == offered(acts@),
{
    let mut out: Vec<ActionConfig> = Vec::new();
    let mut i: usize = 0;
    while i < acts.len()
        invariant
            i <= acts@.len(),
            out@ == offered(acts@.subrange(0, i as int)),
        decreases acts@.len() - i,
    {
        let ghost sub = acts@.subrange(0, i + 1);
        assert(sub.drop_last() =~= acts@.subrange(0, i as int));
        assert(sub.last() == acts@[i as int]);
        if acts[i].enabled && !str_eq(acts[i].key.as_str(), "C") {
            out.push(copy_action(&acts[i]));
        }
        i = i + 1;
    }
    assert(acts@.subrange(0, acts@.len() as int) =~= acts@);
    out
}

fn build_prompt(acts: &Vec<ActionConfig>) -> (r: String)
    ensures
        r@ == prompt_spec(acts@),
{
    let mut out = own("选择操作:");
    let mut i: usize = 0;
    while i < acts.len()
        invariant
            i <= acts@.len(),
            out@ == "选择操作:"@ + prompt_items(acts@.subrange(0, i as int)),
        decreases acts@.len() - i,
    {
        let ghost before = out@;
        let ghost sub = acts@.subrange(0, i + 1);
        assert(sub.drop_last() =~= acts@.subrange(0, i as int));
        if i > 0 {
            push_str(&mut out, ",");
        }
        push_str(&mut out, acts[i].key.as_str());
        push_str(&mut out, "(");
        push_str(&mut out, acts[i].name.as_str());
        push_str(&mut out, ")");
        proof {
            reveal_strlit(",");
            reveal_strlit("(");
            reveal_strlit(")");
            if i == 0 {
                assert(acts@.subrange(0, 0) =~= Seq::<ActionConfig>::empty());
                assert(out@ =~= "选择操作:"@ + prompt_item(acts@[0]));
                assert(sub =~= seq![acts@[0]]);
            } else {
                assert(out@ =~= before + seq![','] + prompt_item(acts@[i as int]));
            }
        }
        i = i + 1;
    }
    assert(acts@.subrange(0, acts@.len() as int) =~= acts@);
    out
}

impl ReportTypeRegistry {
    /// The actions offered for a report type (none for an unknown type),
    /// the prompt that lists them and their keys.
    pub fn action_options(&self, report_type: &str) -> (r: ActionOptions)
        ensures
            r.actions@ == (match self.config_of(report_type@) {
                Some(c) => offered(c.available_actions@),
                None => Seq::empty(),
            }),
            r.prompt@ == prompt_spec(r.actions@),
            r.valid_keys@.len() == r.actions@.len(),
            forall|i: int| 0 <= i < r.actions@.len() ==> (#[trigger] r.valid_keys@[i])@ == r.actions@[i].key@,
    {
        let acts = match self.get_config(report_type) {
            Some(c) => offered_actions(&c.available_actions),
            None => Vec::new(),
        };
        let prompt = build_prompt(&acts);
        let mut keys: Vec<String> = Vec::new();
        let mut i: usize = 0;
        while i < acts.len()
            invariant
                i <= acts@.len(),
                keys@.len() == i,
                forall|j: int| 0 <= j < i ==> (#[trigger] keys@[j])@ == acts@[j].key@,
            decreases acts@.len() - i,
        {
            keys.push(acts[i].key.clone());
            i = i + 1;
        }
        ActionOptions { prompt, valid_keys: keys, actions: acts }
    }

    /// The prompt listing the actions offered for a report type.
    pub fn get_action_prompt(&self, report_type: &str) -> (r: String)
        ensures
            r@ == prompt_spec(
                match self.config_of(report_type@) {
                    Some(c) => offered(c.available_actions@),
                    None => Seq::empty(),
                },
            ),
    {
        self.action_options(report_type).prompt
    }

    /// Whether the action with key `action_key` is offered for a type.
    pub fn is_action_available(&self, report_type: &str, action_key: &str) -> (r: bool)
        ensures
            r == (match self.config_of(report_type@) {
                Some(c) => exists|i: int|
                    0 <= i < offered(c.available_actions@).len() && (#[trigger] offered(
                        c.available_actions@,
                    )[i]).key@ == action_key@,
                None => false,
            }),
    {
        let opts = self.action_options(report_type);
        let mut i: usize = 0;
        while i < opts.valid_keys.len()
            invariant
                i <= opts.valid_keys@.len(),
                opts.valid_keys@.len() == opts.actions@.len(),
                forall|j: int| 0 <= j < opts.actions@.len() ==> (#[trigger] opts.valid_keys@[j])@ == opts.actions@[j].key@,
                forall|j: int| 0 <= j < i ==> (#[trigger] opts.actions@[j]).key@ != action_key@,
                opts.actions@ == (match self.config_of(report_type@) {
                    Some(c) => offered(c.available_actions@),
                    None => Seq::empty(),
                }),
            decreases opts.valid_keys@.len() - i,
        {
            if str_eq(opts.valid_keys[i].as_str(), action_key) {
                assert(opts.actions@[i as int].key@ == action_key@);
                return true;
            }
            i = i + 1;
        }
        proof {
            if let Some(c) = self.config_of(report_type@) {
                assert forall|k: int| 0 <= k < offered(c.available_actions@).len() implies (
                #[trigger] offered(c.available_actions@)[k]).key@ != action_key@ by {
                    assert(opts.actions@[k].key@ != action_key@);
                }
            }
        }
        false
    }
}

/// The registry with the four report types that the tools handle:
/// workshop comments, works, forum posts and forum discussions.
pub fn default_registry() -> (r: ReportTypeRegistry)
    ensures
        r.wf(),
        r.type_names() == seq!["shop_comment"@, "work_work"@, "forum_post"@, "forum_discussion"@],
        r.config_of("shop_comment"@) matches Some(c) && is_shop_comment_config(c),
        r.config_of("work_work"@) matches Some(c) && is_work_work_config(c),
        r.config_of("forum_post"@) matches Some(c) && is_forum_post_config(c),
        r.config_of("forum_discussion"@) matches Some(c) && is_forum_discussion_config(c),
{
    proof {
        reveal_strlit("shop_comment");
        reveal_strlit("work_work");
        reveal_strlit("forum_post");
        reveal_strlit("forum_discussion");
        assert("shop_comment"@.len() == 12);
        assert("work_work"@.len() == 9);
        assert("forum_post"@.len() == 10);
        assert("forum_discussion"@.len() == 16);
    }
    let mut r = ReportTypeRegistry::new();
    assert(r.type_names() =~= Seq::<Seq<char>>::empty());
    r.register("shop_comment", shop_comment_config());
    r.register("work_work", work_work_config());
    r.register("forum_post", forum_post_config());
    r.register("forum_discussion", forum_discussion_config());
    assert(r.type_names() =~= seq!["shop_comment"@, "work_work"@, "forum_post"@, "forum_discussion"@]);
    r
}


/// What the chunking needs to know of the report type a record came from.
#[derive(Debug, Clone, PartialEq, Eq)]
pub struct ChunkSource {
    pub report_type: String,
    pub status_field: String,
    pub chunk_size: usize,
}

/// The model of a [`ChunkSource`].
pub struct ChunkSourceV {
    pub report_type: Seq<char>,
    pub status_field: Seq<char>,
    pub chunk_size: usize,
}

impl View for ChunkSource {
    type V = ChunkSourceV;

    open spec fn view(&self) -> ChunkSourceV {
        ChunkSourceV {
            report_type: self.report_type@,
            status_field: self.status_field@,
            chunk_size: self.chunk_size,
        }
    }
}

impl ChunkSource {
    /// The chunking facts of a registered type.
    pub fn of(report_type: &str, config: &SourceConfig) -> (r: ChunkSource)
        ensures
            r@ == (ChunkSourceV {
                report_type: report_type@,
                status_field: config.status_field@,
                chunk_size: config.chunk_size,
            }),
    {
        ChunkSource {
            report_type: own(report_type),
            status_field: config.status_field.clone(),
            chunk_size: config.chunk_size,
        }
    }
}

/// Whether a record is kept: when only waiting reports are asked for, a
/// record whose status field is a text other than `TOBEDONE` is dropped.
pub open spec fn keep_spec(only_to_be_done: bool, status_field: Seq<char>, item: JsonV) -> bool {
    !(only_to_be_done && match jstr(jget(item, status_field)) {
        Some(st) => st != "TOBEDONE"@,
        None => false,
    })
}

/// A record marked with its report type under `_report_type`; a record that
/// is not an object is left as it is.
pub open spec fn tag_spec(item: JsonV, report_type: Seq<char>) -> JsonV {
    match item {
        JsonV::Object(es) => JsonV::Object(entries_put(es, "_report_type"@, JsonV::Str(report_type))),
        _ => item,
    }
}

/// What one fetched record does to the chunk being built: a kept record is
/// marked and added; once the chunk holds at least the source's chunk size,
/// that many records leave as a finished chunk and the rest stay.
pub open spec fn push_spec(cur: Seq<JsonV>, only_to_be_done: bool, src: ChunkSourceV, item: JsonV) -> (
    Option<Seq<JsonV>>,
    Seq<JsonV>,
) {
    if !keep_spec(only_to_be_done, src.status_field, item) {
        (None, cur)
    } else {
        let c = cur.push(tag_spec(item, src.report_type));
        if c.len() >= src.chunk_size {
            (Some(c.take(src.chunk_size as int)), c.skip(src.chunk_size as int))
        } else {
            (None, c)
        }
    }
}

/// Splits fetched report records into chunks.
#[derive(Debug, PartialEq)]
pub struct Chunker {
    pub only_to_be_done: bool,
    /// The chunk being built.
    pub current: Vec<Json>,
}

fn tag(item: Json, report_type: &String) -> (r: Json)
    ensures
        r@ == tag_spec(item@, report_type@),
{
    match item {
        Json::Object(es) => {
            let mut es = es;
            put_entry(&mut es, own("_report_type"), Json::Str(report_type.clone()));
            Json::Object(es)
        },
        other => other,
    }
}

fn keep(only_to_be_done: bool, status_field: &str, item: &Json) -> (r: bool)
    ensures
        r == keep_spec(only_to_be_done, status_field@, item@),
{
    if !only_to_be_done {
        return true;
    }
    match crate::chat::str_field(item, status_field) {
        Some(st) => str_eq(st.as_str(), "TOBEDONE"),
        None => true,
    }
}

impl Chunker {
    /// A chunker for reports of `status`; only for waiting reports are the
    /// records filtered by their status field.
    pub fn new(status: ReportStatus) -> (r: Chunker)
        ensures
            r.only_to_be_done == (status == ReportStatus::ToBeDone),
            r.current@.len() == 0,
    {
        Chunker { only_to_be_done: status == ReportStatus::ToBeDone, current: Vec::new() }
    }

    /// Takes one fetched record of source `src`; returns a finished chunk
    /// when one is full.
    pub fn push(&mut self, src: &ChunkSource, item: Json) -> (r: Option<Vec<Json>>)
        ensures
            final(self).only_to_be_done == old(self).only_to_be_done,
            ({
                let (o, rest) = push_spec(
                    crate::json::view_items(old(self).current@),
                    old(self).only_to_be_done,
                    src@,
                    item@,
                );
                &&& crate::json::view_items(final(self).current@) == rest
                &&& match r {
                    Some(ch) => o == Some(crate::json::view_items(ch@)),
                    None => o.is_none(),
                }
            }),
    {
        let ghost cur = crate::json::view_items(self.current@);
        if !keep(self.only_to_be_done, src.status_field.as_str(), &item) {
            return None;
        }
        let tagged = tag(item, &src.report_type);
        let ghost tv = tagged@;
        self.current.push(tagged);
        proof {
            crate::json::lemma_view_items_push(old(self).current@, self.current@.last());
        }
        let ghost c = crate::json::view_items(self.current@);
        assert(c == cur.push(tv));
        proof {
            crate::json::lemma_view_items(self.current@);
        }
        if self.current.len() >= src.chunk_size {
            let ghost full = self.current@;
            let mut chunk: Vec<Json> = Vec::new();
            std::mem::swap(&mut chunk, &mut self.current);
            let rest = chunk.split_off(src.chunk_size);
            self.current = rest;
            proof {
                crate::json::lemma_view_items(full);
                crate::json::lemma_view_items(chunk@);
                crate::json::lemma_view_items(self.current@);
                assert(crate::json::view_items(chunk@) =~= c.take(src.chunk_size as int));
                assert(crate::json::view_items(self.current@) =~= c.skip(src.chunk_size as int));
            }
            Some(chunk)
        } else {
            None
        }
    }

    /// The last chunk, when records are left over.
    pub fn finish(&mut self) -> (r: Option<Vec<Json>>)
        ensures
            final(self).current@.len() == 0,
            final(self).only_to_be_done == old(self).only_to_be_done,
            old(self).current@.len() == 0 ==> r.is_none(),
            old(self).current@.len() > 0 ==> r == Some(old(self).current),
    {
        if self.current.len() == 0 {
            None
        } else {
            let mut chunk: Vec<Json> = Vec::new();
            std::mem::swap(&mut chunk, &mut self.current);
            Some(chunk)
        }
    }
}

/// The chunks finished and the records left after taking `pairs` of source
/// and record in order, starting from the chunk `cur`.
pub open spec fn run_spec(cur: Seq<JsonV>, only_to_be_done: bool, pairs: Seq<(ChunkSourceV, JsonV)>) -> (
    Seq<Seq<JsonV>>,
    Seq<JsonV>,
)
    decreases pairs.len(),
{
    if pairs.len() == 0 {
        (Seq::empty(), cur)
    } else {
        let (chunks, c1) = run_spec(cur, only_to_be_done, pairs.drop_last());
        let (o, c2) = push_spec(c1, only_to_be_done, pairs.last().0, pairs.last().1);
        (
            match o {
                Some(ch) => chunks.push(ch),
                None => chunks,
            },
            c2,
        )
    }
}

/// The records of `pairs` that are kept, marked with their report types.
pub open spec fn kept_spec(only_to_be_done: bool, pairs: Seq<(ChunkSourceV, JsonV)>) -> Seq<JsonV>
    decreases pairs.len(),
{
    if pairs.len() == 0 {
        Seq::empty()
    } else {
        let (src, item) = pairs.last();
        let rest = kept_spec(only_to_be_done, pairs.drop_last());
        if keep_spec(only_to_be_done, src.status_field, item) {
            rest.push(tag_spec(item, src.report_type))
        } else {
            rest
        }
    }
}

/// The chunks laid end to end.
pub open spec fn flatten(chunks: Seq<Seq<JsonV>>) -> Seq<JsonV>
    decreases chunks.len(),
{
    if chunks.len() == 0 {
        Seq::empty()
    } else {
        flatten(chunks.drop_last()) + chunks.last()
    }
}

/// Nothing is lost, repeated or reordered: the finished chunks followed by
/// what is left are exactly the starting chunk followed by every kept record,
/// marked with its report type, in the order fetched.
pub proof fn law_chunks_preserve_records(
    cur: Seq<JsonV>,
    only_to_be_done: bool,
    pairs: Seq<(ChunkSourceV, JsonV)>,
)
    ensures
        flatten(run_spec(cur, only_to_be_done, pairs).0) + run_spec(cur, only_to_be_done, pairs).1
            == cur + kept_spec(only_to_be_done, pairs),
    decreases pairs.len(),
{
    if pairs.len() == 0 {
        assert(flatten(Seq::<Seq<JsonV>>::empty()) + cur =~= cur + Seq::<JsonV>::empty());
    } else {
        law_chunks_preserve_records(cur, only_to_be_done, pairs.drop_last());
        let (chunks, c1) = run_spec(cur, only_to_be_done, pairs.drop_last());
        let (src, item) = pairs.last();
        let (o, c2) = push_spec(c1, only_to_be_done, src, item);
        let prev = kept_spec(only_to_be_done, pairs.drop_last());
        if keep_spec(only_to_be_done, src.status_field, item) {
            let c = c1.push(tag_spec(item, src.report_type));
            match o {
                Some(ch) => {
                    let nc = chunks.push(ch);
                    assert(nc.drop_last() =~= chunks);
                    assert(ch + c2 =~= c);
                    assert(flatten(nc) + c2 =~= flatten(chunks) + (ch + c2));
                    assert(flatten(chunks) + c =~= (flatten(chunks) + c1).push(tag_spec(item, src.report_type)));
                    assert(cur + prev.push(tag_spec(item, src.report_type)) =~= (cur + prev).push(
                        tag_spec(item, src.report_type),
                    ));
                },
                None => {
                    assert(flatten(chunks) + c =~= (flatten(chunks) + c1).push(tag_spec(item, src.report_type)));
                    assert(cur + prev.push(tag_spec(item, src.report_type)) =~= (cur + prev).push(
                        tag_spec(item, src.report_type),
                    ));
                },
            }
        }
    }
}

/// With one chunk size `n` for every source, every finished chunk holds
/// exactly `n` records and fewer than `n` are left over.
pub proof fn law_chunk_sizes(
    cur: Seq<JsonV>,
    only_to_be_done: bool,
    pairs: Seq<(ChunkSourceV, JsonV)>,
    n: usize,
)
    requires
        n > 0,
        cur.len() < n,
        forall|k: int| 0 <= k < pairs.len() ==> (#[trigger] pairs[k]).0.chunk_size == n,
    ensures
        forall|k: int|
            0 <= k < run_spec(cur, only_to_be_done, pairs).0.len() ==> (#[trigger] run_spec(
                cur,
                only_to_be_done,
                pairs,
            ).0[k]).len() == n,
        run_spec(cur, only_to_be_done, pairs).1.len() < n,
    decreases pairs.len(),
{
    if pairs.len() > 0 {
        assert forall|k: int| 0 <= k < pairs.drop_last().len() implies (
        #[trigger] pairs.drop_last()[k]).0.chunk_size == n by {
            assert(pairs.drop_last()[k] == pairs[k]);
        }
        law_chunk_sizes(cur, only_to_be_done, pairs.drop_last(), n);
        assert(pairs.last() == pairs[pairs.len() - 1]);
    }
}


/// The records of the batches, each with its source, batch by batch in
/// order.
pub open spec fn batch_pairs(batches: Seq<(ChunkSourceV, Seq<JsonV>)>) -> Seq<(ChunkSourceV, JsonV)>
    decreases batches.len(),
{
    if batches.len() == 0 {
        Seq::empty()
    } else {
        let b = batches.last();
        batch_pairs(batches.drop_last()) + b.1.map_values(|x: JsonV| (b.0, x))
    }
}

/// Every chunk that the records give: the finished chunks in order, then
/// the records left over as a last chunk when there are any.
pub open spec fn all_chunks_spec(only_to_be_done: bool, pairs: Seq<(ChunkSourceV, JsonV)>) -> Seq<Seq<JsonV>> {
    let (chunks, rest) = run_spec(Seq::empty(), only_to_be_done, pairs);
    if rest.len() > 0 {
        chunks.push(rest)
    } else {
        chunks
    }
}

/// The models of the batches.
pub open spec fn batches_view(b: Seq<(ChunkSource, Vec<Json>)>) -> Seq<(ChunkSourceV, Seq<JsonV>)> {
    b.map_values(|x: (ChunkSource, Vec<Json>)| (x.0@, crate::json::view_items(x.1@)))
}

/// The models of the chunks.
pub open spec fn chunks_view(c: Seq<Vec<Json>>) -> Seq<Seq<JsonV>> {
    c.map_values(|x: Vec<Json>| crate::json::view_items(x@))
}

/// Chunks the fetched records of every report type for reports of
/// `status`: the records of each type, types in order, go through one
/// [`Chunker`], and what is left at the end forms a last chunk
/// ([`all_chunks_spec`]).
pub fn chunk_all(status: ReportStatus, batches: &Vec<(ChunkSource, Vec<Json>)>) -> (r: Vec<Vec<Json>>)
    ensures
        chunks_view(r@) == all_chunks_spec(status == ReportStatus::ToBeDone, batch_pairs(batches_view(batches@))),
{
    let mut chunker = Chunker::new(status);
    let ghost otb = chunker.only_to_be_done;
    let ghost bv = batches_view(batches@);
    let mut out: Vec<Vec<Json>> = Vec::new();
    assert(bv.take(0) =~= Seq::<(ChunkSourceV, Seq<JsonV>)>::empty());
    assert(chunks_view(out@) =~= Seq::<Seq<JsonV>>::empty());
    proof {
        crate::json::lemma_view_items(chunker.current@);
    }
    assert(crate::json::view_items(chunker.current@) =~= Seq::<JsonV>::empty());
    let mut i: usize = 0;
    while i < batches.len()
        invariant
            i <= batches@.len(),
            bv == batches_view(batches@),
            bv.len() == batches@.len(),
            otb == chunker.only_to_be_done,
            chunks_view(out@) == run_spec(Seq::empty(), otb, batch_pairs(bv.take(i as int))).0,
            crate::json::view_items(chunker.current@) == run_spec(Seq::empty(), otb, batch_pairs(bv.take(i as int))).1,
        decreases batches@.len() - i,
    {
        let ghost before = batch_pairs(bv.take(i as int));
        let ghost b = bv[i as int];
        let items = &batches[i].1;
        proof {
            crate::json::lemma_view_items(items@);
        }
        assert(b.1.map_values(|x: JsonV| (b.0, x)).take(0) =~= Seq::<(ChunkSourceV, JsonV)>::empty());
        assert(before + Seq::<(ChunkSourceV, JsonV)>::empty() =~= before);
        let mut j: usize = 0;
        while j < items.len()
            invariant
                i < batches@.len(),
                j <= items@.len(),
                items == batches@[i as int].1,
                bv == batches_view(batches@),
                b == bv[i as int],
                b.0 == batches@[i as int].0@,
                b.1 == crate::json::view_items(items@),
                b.1.len() == items@.len(),
                forall|k: int| 0 <= k < items@.len() ==> #[trigger] b.1[k] == items@[k]@,
                otb == chunker.only_to_be_done,
                chunks_view(out@) == run_spec(
                    Seq::empty(),
                    otb,
                    before + b.1.map_values(|x: JsonV| (b.0, x)).take(j as int),
                ).0,
                crate::json::view_items(chunker.current@) == run_spec(
                    Seq::empty(),
                    otb,
                    before + b.1.map_values(|x: JsonV| (b.0, x)).take(j as int),
                ).1,
            decreases items@.len() - j,
        {
            let ghost p0 = before + b.1.map_values(|x: JsonV| (b.0, x)).take(j as int);
            let ghost p1 = before + b.1.map_values(|x: JsonV| (b.0, x)).take(j + 1);
            assert(p1.drop_last() =~= p0);
            assert(p1.last() == (b.0, items@[j as int]@));
            let item = items[j].deep_clone();
            let ghost out0 = out@;
            match chunker.push(&batches[i].0, item) {
                Some(ch) => {
                    out.push(ch);
                    assert(chunks_view(out@) =~= chunks_view(out0).push(crate::json::view_items(out@.last()@)));
                },
                None => {},
            }
            j = j + 1;
        }
        proof {
            let m = b.1.map_values(|x: JsonV| (b.0, x));
            assert(m.take(items@.len() as int) =~= m);
            assert(bv.take(i + 1).drop_last() =~= bv.take(i as int));
            assert(bv.take(i + 1).last() == b);
        }
        i = i + 1;
    }
    assert(bv.take(batches@.len() as int) =~= bv);
    let ghost out0 = out@;
    match chunker.finish() {
        Some(ch) => {
            out.push(ch);
            assert(chunks_view(out@) =~= chunks_view(out0).push(crate::json::view_items(out@.last()@)));
        },
        None => {},
    }
    out
}

} // verus!
