//! The detail view of a report: the lines shown to the moderator before a
//! decision, by report type.

use vstd::prelude::*;

use crate::json::{jget, jstr, Json, JsonV};
use crate::registry::SourceConfig;
use crate::retrieve::view_texts;
use crate::services::field_text;
use crate::text::{own, parse_i32, parse_i32_spec, push_str, truncate_chars, truncate_chars_spec};
use crate::types::{html_to_text, html_to_text_spec, timestamp_to_string, timestamp_to_string_spec};

verus! {

/// The address of the community site.
pub open spec fn site() -> Seq<char> {
    "https://shequ.codemao.cn"@
}

/// The text of a string field, empty where there is none.
pub open spec fn text_field(item: JsonV, f: Seq<char>) -> Seq<char> {
    match jstr(jget(item, f)) {
        Some(t) => t,
        None => Seq::empty(),
    }
}

/// The text of a string field, `未知` where there is none.
pub open spec fn text_or_unknown(item: JsonV, f: Seq<char>) -> Seq<char> {
    match jstr(jget(item, f)) {
        Some(t) => t,
        None => "未知"@,
    }
}

/// A time field as it is shown, empty where there is none.
pub open spec fn time_field(item: JsonV, f: Seq<char>) -> Seq<char> {
    match jget(item, f) {
        Some(v) => timestamp_to_string_spec(v),
        None => Seq::empty(),
    }
}

/// `label` and the text of field `f` where it is a string; nothing otherwise.
pub open spec fn line_if(item: JsonV, f: Seq<char>, label: Seq<char>) -> Seq<Seq<char>> {
    match jstr(jget(item, f)) {
        Some(t) => seq![label + t],
        None => Seq::empty(),
    }
}

/// [`line_if`] for a field that only some report types have.
pub open spec fn line_if_opt(item: JsonV, f: Option<String>, label: Seq<char>) -> Seq<Seq<char>> {
    match f {
        Some(name) => line_if(item, name@, label),
        None => Seq::empty(),
    }
}

/// The detail lines of a work report.
pub open spec fn work_lines(item: JsonV, c: SourceConfig) -> Seq<Seq<char>> {
    seq![
        "=== 作品举报详情 ==="@,
        "作者昵称: "@ + text_or_unknown(item, c.user_nickname_field@),
        "作者链接: "@ + site() + "/user/"@ + field_text(item, c.user_id_field@),
        "作品链接: "@ + site() + "/work/"@ + field_text(item, c.source_id_field@),
    ] + line_if_opt(item, c.work_type_field, "作品类型: "@) + seq![
        "举报原因: "@ + text_field(item, c.reason_field@),
        "举报线索: "@ + text_field(item, c.description_field@),
        "举报时间: "@ + time_field(item, c.created_at_field@),
    ]
}

/// The detail lines of a workshop comment report.
pub open spec fn comment_lines(item: JsonV, c: SourceConfig) -> Seq<Seq<char>> {
    seq![
        "=== 评论举报详情 ==="@,
        "举报内容: "@ + html_to_text_spec(text_field(item, c.content_field@)),
        "被举报人昵称: "@ + text_or_unknown(item, c.user_nickname_field@),
        "被举报人链接: "@ + site() + "/user/"@ + field_text(item, c.user_id_field@),
        "工作室名称: "@ + text_or_unknown(item, c.source_name_field@),
        "工作室链接: "@ + site() + "/work_shop/"@ + field_text(item, c.source_id_field@),
        "举报原因: "@ + text_field(item, c.reason_field@),
        "举报时间: "@ + time_field(item, c.created_at_field@),
    ]
}

/// The id of the post of a forum report, when its source id reads as one.
pub open spec fn post_id_spec(item: JsonV, c: SourceConfig) -> Option<i32> {
    parse_i32_spec(field_text(item, c.source_id_field@))
}

/// The detail lines of a forum post report; `content` is the post's text
/// as fetched by its id, shown cleaned and shortened to 200 characters.
pub open spec fn forum_lines(item: JsonV, c: SourceConfig, content: Option<Seq<char>>) -> Seq<Seq<char>> {
    seq![
        "=== 帖子举报详情 ==="@,
        "帖子作者: "@ + text_or_unknown(item, c.user_nickname_field@),
        "作者链接: "@ + site() + "/user/"@ + field_text(item, c.user_id_field@),
        "帖子链接: "@ + site() + "/community/"@ + field_text(item, c.source_id_field@),
    ] + (match (post_id_spec(item, c), content) {
        (Some(_), Some(t)) => seq!["内容: "@ + truncate_chars_spec(html_to_text_spec(t), 200)],
        _ => Seq::empty(),
    }) + line_if_opt(item, c.title_field, "标题: "@) + seq![
        "举报原因: "@ + text_field(item, c.reason_field@),
        "举报线索: "@ + text_field(item, c.description_field@),
        "举报时间: "@ + time_field(item, c.created_at_field@),
    ]
}

/// The detail lines of a forum discussion report.
pub open spec fn discussion_lines(item: JsonV, c: SourceConfig) -> Seq<Seq<char>> {
    seq![
        "=== 讨论举报详情 ==="@,
        "被举报内容: "@ + html_to_text_spec(text_field(item, c.content_field@)),
        "被举报人昵称: "@ + text_or_unknown(item, c.user_nickname_field@),
        "被举报人链接: "@ + site() + "/user/"@ + field_text(item, c.user_id_field@),
        "帖子链接: "@ + site() + "/community/"@ + field_text(item, c.source_id_field@),
    ] + line_if_opt(item, c.title_field, "帖子标题: "@) + line_if_opt(item, c.board_name_field, "分区: "@)
        + seq![
        "举报原因: "@ + text_field(item, c.reason_field@),
        "举报时间: "@ + time_field(item, c.created_at_field@),
    ]
}

/// The detail lines of a report of any other type.
pub open spec fn generic_lines(item: JsonV, c: SourceConfig) -> Seq<Seq<char>> {
    seq!["=== "@ + c.name@ + " 详情 ==="@] + line_if(item, c.content_field@, "内容: "@) + line_if(
        item,
        c.reason_field@,
        "举报原因: "@,
    ) + line_if(item, c.description_field@, "举报描述: "@) + line_if(item, c.user_nickname_field@, "用户昵称: "@)
        + seq!["举报时间: "@ + time_field(item, c.created_at_field@)]
}

/// The detail lines of a report by its type; `content` is used by forum
/// post reports only.
pub open spec fn detail_lines_spec(
    report_type: Seq<char>,
    item: JsonV,
    c: SourceConfig,
    content: Option<Seq<char>>,
) -> Seq<Seq<char>> {
    if report_type == "work_work"@ {
        work_lines(item, c)
    } else if report_type == "shop_comment"@ {
        comment_lines(item, c)
    } else if report_type == "forum_post"@ {
        forum_lines(item, c, content)
    } else if report_type == "forum_discussion"@ {
        discussion_lines(item, c)
    } else {
        generic_lines(item, c)
    }
}

fn text_of(item: &Json, f: &str) -> (r: String)
    ensures
        r@ == text_field(item@, f@),
{
    match crate::chat::str_field(item, f) {
        Some(t) => t,
        None => String::new(),
    }
}

fn text_or_unknown_of(item: &Json, f: &str) -> (r: String)
    ensures
        r@ == text_or_unknown(item@, f@),
{
    match crate::chat::str_field(item, f) {
        Some(t) => t,
        None => own("未知"),
    }
}

fn value_of(item: &Json, f: &str) -> (r: String)
    ensures
        r@ == field_text(item@, f@),
{
    match item.get(f) {
        Some(v) => crate::types::value_to_string(v),
        None => String::new(),
    }
}

fn time_of(item: &Json, f: &str) -> (r: String)
    ensures
        r@ == time_field(item@, f@),
{
    match item.get(f) {
        Some(v) => timestamp_to_string(v),
        None => String::new(),
    }
}

/// Appends `label` followed by `t`, then by `tail`.
fn push_line(lines: &mut Vec<String>, label: &str, t: &str, tail: &str)
    ensures
        view_texts(final(lines)@) == view_texts(old(lines)@).push(label@ + t@ + tail@),
{
    let mut s = own(label);
    push_str(&mut s, t);
    push_str(&mut s, tail);
    let ghost before = lines@;
    lines.push(s);
    assert(view_texts(lines@) =~= view_texts(before).push(label@ + t@ + tail@));
}

/// Appends `label`, the site, `path` and `t`.
fn push_link(lines: &mut Vec<String>, label: &str, path: &str, t: &str)
    ensures
        view_texts(final(lines)@) == view_texts(old(lines)@).push(label@ + site() + path@ + t@),
{
    let mut s = own(label);
    push_str(&mut s, "https://shequ.codemao.cn");
    push_str(&mut s, path);
    push_str(&mut s, t);
    let ghost before = lines@;
    lines.push(s);
    assert(view_texts(lines@) =~= view_texts(before).push(label@ + site() + path@ + t@));
}

/// Appends [`line_if`].
fn push_line_if(lines: &mut Vec<String>, item: &Json, f: &str, label: &str)
    ensures
        view_texts(final(lines)@) == view_texts(old(lines)@) + line_if(item@, f@, label@),
{
    match crate::chat::str_field(item, f) {
        Some(t) => {
            proof {
                reveal_strlit("");
            }
            push_line(lines, label, t.as_str(), "");
            assert(label@ + t@ + ""@ =~= label@ + t@);
            assert(view_texts(lines@) =~= view_texts(old(lines)@) + seq![label@ + t@]);
        },
        None => {
            assert(view_texts(lines@) =~= view_texts(old(lines)@) + Seq::<Seq<char>>::empty());
        },
    }
}

/// Appends [`line_if_opt`].
fn push_line_if_opt(lines: &mut Vec<String>, item: &Json, f: &Option<String>, label: &str)
    ensures
        view_texts(final(lines)@) == view_texts(old(lines)@) + line_if_opt(item@, *f, label@),
{
    match f {
        Some(name) => push_line_if(lines, item, name.as_str(), label),
        None => {
            assert(view_texts(lines@) =~= view_texts(old(lines)@) + Seq::<Seq<char>>::empty());
        },
    }
}

/// The id of the post of a forum report ([`post_id_spec`]), by which its
/// text is fetched.
pub fn forum_post_id(item: &Json, config: &SourceConfig) -> (r: Option<i32>)
    ensures
        r == post_id_spec(item@, *config),
{
    let v = value_of(item, config.source_id_field.as_str());
    parse_i32(v.as_str())
}

fn push_title(lines: &mut Vec<String>, title: &str)
    ensures
        view_texts(final(lines)@) == view_texts(old(lines)@).push(title@),
{
    let ghost before = lines@;
    lines.push(own(title));
    assert(view_texts(lines@) =~= view_texts(before).push(title@));
}

fn work_report(item: &Json, c: &SourceConfig) -> (r: Vec<String>)
    ensures
        view_texts(r@) == work_lines(item@, *c),
{
    proof {
        reveal_strlit("");
    }
    let mut lines: Vec<String> = Vec::new();
    push_title(&mut lines, "=== 作品举报详情 ===");
    let nick = text_or_unknown_of(item, c.user_nickname_field.as_str());
    push_line(&mut lines, "作者昵称: ", nick.as_str(), "");
    let uid = value_of(item, c.user_id_field.as_str());
    push_link(&mut lines, "作者链接: ", "/user/", uid.as_str());
    let wid = value_of(item, c.source_id_field.as_str());
    push_link(&mut lines, "作品链接: ", "/work/", wid.as_str());
    let ghost head = view_texts(lines@);
    push_line_if_opt(&mut lines, item, &c.work_type_field, "作品类型: ");
    let ghost mid = view_texts(lines@);
    let reason = text_of(item, c.reason_field.as_str());
    push_line(&mut lines, "举报原因: ", reason.as_str(), "");
    let desc = text_of(item, c.description_field.as_str());
    push_line(&mut lines, "举报线索: ", desc.as_str(), "");
    let at = time_of(item, c.created_at_field.as_str());
    push_line(&mut lines, "举报时间: ", at.as_str(), "");
    assert(head =~= seq![
        "=== 作品举报详情 ==="@,
        "作者昵称: "@ + nick@,
        "作者链接: "@ + site() + "/user/"@ + uid@,
        "作品链接: "@ + site() + "/work/"@ + wid@,
    ]);
    assert(view_texts(lines@) =~= mid + seq![
        "举报原因: "@ + reason@,
        "举报线索: "@ + desc@,
        "举报时间: "@ + at@,
    ]);
    lines
}

fn comment_report(item: &Json, c: &SourceConfig) -> (r: Vec<String>)
    ensures
        view_texts(r@) == comment_lines(item@, *c),
{
    proof {
        reveal_strlit("");
    }
    let mut lines: Vec<String> = Vec::new();
    push_title(&mut lines, "=== 评论举报详情 ===");
    let content = text_of(item, c.content_field.as_str());
    let clean = html_to_text(content.as_str());
    push_line(&mut lines, "举报内容: ", clean.as_str(), "");
    let nick = text_or_unknown_of(item, c.user_nickname_field.as_str());
    push_line(&mut lines, "被举报人昵称: ", nick.as_str(), "");
    let uid = value_of(item, c.user_id_field.as_str());
    push_link(&mut lines, "被举报人链接: ", "/user/", uid.as_str());
    let studio = text_or_unknown_of(item, c.source_name_field.as_str());
    push_line(&mut lines, "工作室名称: ", studio.as_str(), "");
    let sid = value_of(item, c.source_id_field.as_str());
    push_link(&mut lines, "工作室链接: ", "/work_shop/", sid.as_str());
    let reason = text_of(item, c.reason_field.as_str());
    push_line(&mut lines, "举报原因: ", reason.as_str(), "");
    let at = time_of(item, c.created_at_field.as_str());
    push_line(&mut lines, "举报时间: ", at.as_str(), "");
    assert(view_texts(lines@) =~= comment_lines(item@, *c));
    lines
}

fn forum_report(item: &Json, c: &SourceConfig, content: Option<&str>) -> (r: Vec<String>)
    ensures
        view_texts(r@) == forum_lines(
            item@,
            *c,
            match content {
                Some(t) => Some(t@),
                None => None,
            },
        ),
{
    proof {
        reveal_strlit("");
    }
    let mut lines: Vec<String> = Vec::new();
    push_title(&mut lines, "=== 帖子举报详情 ===");
    let nick = text_or_unknown_of(item, c.user_nickname_field.as_str());
    push_line(&mut lines, "帖子作者: ", nick.as_str(), "");
    let uid = value_of(item, c.user_id_field.as_str());
    push_link(&mut lines, "作者链接: ", "/user/", uid.as_str());
    let pid = value_of(item, c.source_id_field.as_str());
    push_link(&mut lines, "帖子链接: ", "/community/", pid.as_str());
    let ghost head = view_texts(lines@);
    assert(head =~= seq![
        "=== 帖子举报详情 ==="@,
        "帖子作者: "@ + nick@,
        "作者链接: "@ + site() + "/user/"@ + uid@,
        "帖子链接: "@ + site() + "/community/"@ + pid@,
    ]);
    match (parse_i32(pid.as_str()), content) {
        (Some(_), Some(t)) => {
            let clean = html_to_text(t);
            let short = truncate_chars(clean.as_str(), 200);
            push_line(&mut lines, "内容: ", short.as_str(), "");
        },
        _ => {},
    }
    let ghost with_content = view_texts(lines@);
    push_line_if_opt(&mut lines, item, &c.title_field, "标题: ");
    let ghost mid = view_texts(lines@);
    let reason = text_of(item, c.reason_field.as_str());
    push_line(&mut lines, "举报原因: ", reason.as_str(), "");
    let desc = text_of(item, c.description_field.as_str());
    push_line(&mut lines, "举报线索: ", desc.as_str(), "");
    let at = time_of(item, c.created_at_field.as_str());
    push_line(&mut lines, "举报时间: ", at.as_str(), "");
    assert(view_texts(lines@) =~= mid + seq![
        "举报原因: "@ + reason@,
        "举报线索: "@ + desc@,
        "举报时间: "@ + at@,
    ]);
    lines
}

fn discussion_report(item: &Json, c: &SourceConfig) -> (r: Vec<String>)
    ensures
        view_texts(r@) == discussion_lines(item@, *c),
{
    proof {
        reveal_strlit("");
    }
    let mut lines: Vec<String> = Vec::new();
    push_title(&mut lines, "=== 讨论举报详情 ===");
    let content = text_of(item, c.content_field.as_str());
    let clean = html_to_text(content.as_str());
    push_line(&mut lines, "被举报内容: ", clean.as_str(), "");
    let nick = text_or_unknown_of(item, c.user_nickname_field.as_str());
    push_line(&mut lines, "被举报人昵称: ", nick.as_str(), "");
    let uid = value_of(item, c.user_id_field.as_str());
    push_link(&mut lines, "被举报人链接: ", "/user/", uid.as_str());
    let pid = value_of(item, c.source_id_field.as_str());
    push_link(&mut lines, "帖子链接: ", "/community/", pid.as_str());
    let ghost head = view_texts(lines@);
    assert(head =~= seq![
        "=== 讨论举报详情 ==="@,
        "被举报内容: "@ + clean@,
        "被举报人昵称: "@ + nick@,
        "被举报人链接: "@ + site() + "/user/"@ + uid@,
        "帖子链接: "@ + site() + "/community/"@ + pid@,
    ]);
    push_line_if_opt(&mut lines, item, &c.title_field, "帖子标题: ");
    push_line_if_opt(&mut lines, item, &c.board_name_field, "分区: ");
    let ghost mid = view_texts(lines@);
    let reason = text_of(item, c.reason_field.as_str());
    push_line(&mut lines, "举报原因: ", reason.as_str(), "");
    let at = time_of(item, c.created_at_field.as_str());
    push_line(&mut lines, "举报时间: ", at.as_str(), "");
    assert(view_texts(lines@) =~= mid + seq!["举报原因: "@ + reason@, "举报时间: "@ + at@]);
    lines
}

fn generic_report(item: &Json, c: &SourceConfig) -> (r: Vec<String>)
    ensures
        view_texts(r@) == generic_lines(item@, *c),
{
    proof {
        reveal_strlit("");
    }
    let mut lines: Vec<String> = Vec::new();
    push_line(&mut lines, "=== ", c.name.as_str(), " 详情 ===");
    let ghost head = view_texts(lines@);
    push_line_if(&mut lines, item, c.content_field.as_str(), "内容: ");
    push_line_if(&mut lines, item, c.reason_field.as_str(), "举报原因: ");
    push_line_if(&mut lines, item, c.description_field.as_str(), "举报描述: ");
    push_line_if(&mut lines, item, c.user_nickname_field.as_str(), "用户昵称: ");
    let ghost mid = view_texts(lines@);
    let at = time_of(item, c.created_at_field.as_str());
    push_line(&mut lines, "举报时间: ", at.as_str(), "");
    assert(view_texts(lines@) =~= mid + seq!["举报时间: "@ + at@]);
    lines
}

/// The detail lines of a report ([`detail_lines_spec`]); without a
/// configuration there are none. `post_content` is the fetched text of the
/// post of a forum post report, where it could be had.
pub fn detail_lines(
    report_type: &str,
    item: &Json,
    config: Option<&SourceConfig>,
    post_content: Option<&str>,
) -> (r: Vec<String>)
    ensures
        match config {
            Some(c) => view_texts(r@) == detail_lines_spec(
                report_type@,
                item@,
                *c,
                match post_content {
                    Some(t) => Some(t@),
                    None => None,
                },
            ),
            None => r@.len() == 0,
        },
{
    let c = match config {
        Some(c) => c,
        None => {
            return Vec::new();
        },
    };
    if crate::text::str_eq(report_type, "work_work") {
        work_report(item, c)
    } else if crate::text::str_eq(report_type, "shop_comment") {
        comment_report(item, c)
    } else if crate::text::str_eq(report_type, "forum_post") {
        forum_report(item, c, post_content)
    } else if crate::text::str_eq(report_type, "forum_discussion") {
        discussion_report(item, c)
    } else {
        generic_report(item, c)
    }
}


/// Shows the details of a report as its type lays them out.
pub struct DetailDisplayProcessor;

impl DetailDisplayProcessor {
    /// The detail lines of the report of `context` ([`detail_lines`] of its
    /// type, record and configuration); `post_content` is the text of the
    /// reported forum post, when it was fetched.
    pub fn process(&self, context: &crate::executer::ProcessingContext, post_content: Option<&str>) -> (r: Vec<
        String,
    >)
        ensures
            match context.config {
                Some(c) => view_texts(r@) == detail_lines_spec(
                    context.report_type@,
                    context.item@,
                    c,
                    match post_content {
                        Some(p) => Some(p@),
                        None => None,
                    },
                ),
                None => r@.len() == 0,
            },
    {
        detail_lines(context.report_type.as_str(), &context.item, context.config.as_ref(), post_content)
    }
}

} // verus!

