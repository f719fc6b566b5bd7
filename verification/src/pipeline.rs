//! The violation checks of the report pipeline: which comments are
//! advertising or repeated, how candidates are sorted into violations, and
//! which account files the next report.

use vstd::prelude::*;

use crate::json::{jbool, jget, jint, jstr, view_items, Json, JsonV};
use crate::search::{first_index, lemma_first_index, lemma_first_index_at, lemma_first_index_none};
use crate::text::{contains_str, contains_text, dec_int, lowercase, own, push_char, push_i64, push_str, str_eq, to_lowercase};

verus! {

/// The settings of the violation checks.
#[derive(Debug, Clone, PartialEq, Eq)]
pub struct CheckConfig {
    pub official_ids: Vec<i64>,
    pub ad_keywords: Vec<&'static str>,
    /// How often one user may post the same text before it counts as spam.
    pub spam_threshold: usize,
    pub comment_fetch_default_limit: usize,
    pub max_reports_per_account: usize,
    pub batch_item_id_threshold: usize,
    pub batch_content_threshold: usize,
}

/// The advertising keywords checked by default.
pub open spec fn default_ad_keywords() -> Seq<Seq<char>> {
    seq![
        "codemao.cn/work"@, "cpdd"@, "scp"@, "不喜可删"@, "互关"@, "互赞"@, "交友"@, "光头强"@,
        "关注"@, "再创作"@, "冲传说"@, "冲大佬"@, "冲高手"@, "协作项目"@, "基金会"@, "处cp"@,
        "家族招人"@, "我的作品"@, "戴雨默"@, "所有作品"@, "扫厕所"@, "找徒弟"@, "找闺"@, "招人"@,
        "有赞必回"@, "点个"@, "爬虫"@, "看一下我的"@, "看我的"@, "看看我的"@, "粘贴到别人作品"@,
        "赞我"@, "转发"@,
    ]
}

impl Default for CheckConfig {
    /// The official accounts, the default keywords, spam from 3 repeats,
    /// 100 comments fetched, 25 reports per account, batches from 5 reports
    /// of one item or 3 of one text.
    fn default() -> (r: CheckConfig)
        ensures
            r.official_ids@ == crate::executer::official_ids(),
            r.ad_keywords@.map_values(|k: &'static str| k@) == default_ad_keywords(),
            r.spam_threshold == 3,
            r.comment_fetch_default_limit == 100,
            r.max_reports_per_account == 25,
            r.batch_item_id_threshold == 5,
            r.batch_content_threshold == 3,
    {
        let r = CheckConfig {
            official_ids: vec![128963, 629055, 203577, 859722, 148883, 2191000, 7492052, 387963, 3649031],
            ad_keywords: vec![
                "codemao.cn/work", "cpdd", "scp", "不喜可删", "互关", "互赞", "交友", "光头强",
                "关注", "再创作", "冲传说", "冲大佬", "冲高手", "协作项目", "基金会", "处cp",
                "家族招人", "我的作品", "戴雨默", "所有作品", "扫厕所", "找徒弟", "找闺", "招人",
                "有赞必回", "点个", "爬虫", "看一下我的", "看我的", "看看我的", "粘贴到别人作品",
                "赞我", "转发",
            ],
            spam_threshold: 3,
            comment_fetch_default_limit: 100,
            max_reports_per_account: 25,
            batch_item_id_threshold: 5,
            batch_content_threshold: 3,
        };
        assert(r.official_ids@ =~= crate::executer::official_ids());
        assert(r.ad_keywords@.map_values(|k: &'static str| k@) =~= default_ad_keywords());
        r
    }
}

/// A candidate violation.
#[derive(Debug, Clone, PartialEq, Eq)]
pub enum ViolationKind {
    /// Advertising, with its identifier.
    Ad(String),
    /// A text posted by a user: (user, lower-cased text) and the identifier.
    Duplicate(String, String, String),
}

/// The model of a [`ViolationKind`].
pub enum ViolationKindV {
    Ad(Seq<char>),
    Duplicate(Seq<char>, Seq<char>, Seq<char>),
}

impl View for ViolationKind {
    type V = ViolationKindV;

    open spec fn view(&self) -> ViolationKindV {
        match self {
            ViolationKind::Ad(i) => ViolationKindV::Ad(i@),
            ViolationKind::Duplicate(u, c, i) => ViolationKindV::Duplicate(u@, c@, i@),
        }
    }
}

pub open spec fn view_kinds(s: Seq<ViolationKind>) -> Seq<ViolationKindV> {
    s.map_values(|v: ViolationKind| v@)
}

/// The identifier of a violation: `source:source_id:kind:parent:item`.
pub open spec fn violation_identifier_spec(source_type: Seq<char>, source_id: i64, is_reply: bool, parent: i64, item: i64) -> Seq<char> {
    source_type + seq![':'] + dec_int(source_id as int) + seq![':'] + (if is_reply {
        "reply"@
    } else {
        "comment"@
    }) + seq![':'] + dec_int(parent as int) + seq![':'] + dec_int(item as int)
}

/// Builds the identifier of a violation.
pub fn violation_identifier(source_type: &str, source_id: i64, is_reply: bool, parent: i64, item: i64) -> (r: String)
    ensures
        r@ == violation_identifier_spec(source_type@, source_id, is_reply, parent, item),
{
    let mut out = own(source_type);
    push_char(&mut out, ':');
    push_i64(&mut out, source_id);
    push_char(&mut out, ':');
    if is_reply {
        push_str(&mut out, "reply");
    } else {
        push_str(&mut out, "comment");
    }
    push_char(&mut out, ':');
    push_i64(&mut out, parent);
    push_char(&mut out, ':');
    push_i64(&mut out, item);
    assert(out@ =~= violation_identifier_spec(source_type@, source_id, is_reply, parent, item));
    out
}

/// Whether a lower-cased text holds one of the keywords.
pub open spec fn has_keyword(text: Seq<char>, keywords: Seq<Seq<char>>) -> bool {
    exists|i: int| 0 <= i < keywords.len() && contains_text(text, #[trigger] keywords[i])
}

/// Whether a text holds one of the keywords.
pub fn any_keyword(text: &str, keywords: &Vec<String>) -> (r: bool)
    ensures
        r == has_keyword(text@, crate::retrieve::view_texts(keywords@)),
{
    let mut i: usize = 0;
    while i < keywords.len()
        invariant
            i <= keywords@.len(),
            forall|j: int| 0 <= j < i ==> !contains_text(text@, #[trigger] crate::retrieve::view_texts(keywords@)[j]),
        decreases keywords@.len() - i,
    {
        if contains_str(text, keywords[i].as_str()) {
            assert(contains_text(text@, crate::retrieve::view_texts(keywords@)[i as int]));
            return true;
        }
        i = i + 1;
    }
    false
}

/// What one comment or reply is: advertising when its non-empty lower-cased
/// text holds a keyword; else, when it has a user id and a text, a candidate
/// for repeated posting; else nothing.
pub open spec fn single_comment_spec(
    item: JsonV,
    source_type: Seq<char>,
    source_id: i64,
    parent: i64,
    is_reply: bool,
    keywords: Seq<Seq<char>>,
) -> Option<ViolationKindV> {
    let content = lowercase(crate::chat::text_or_empty(jstr(jget(item, "content"@))));
    let item_id = match jint(jget(item, "id"@)) {
        Some(n) => n,
        None => 0,
    };
    let ident = violation_identifier_spec(source_type, source_id, is_reply, parent, item_id);
    if content.len() > 0 && has_keyword(content, keywords) {
        Some(ViolationKindV::Ad(ident))
    } else {
        match jint(jget(item, "user_id"@)) {
            Some(u) => if content.len() > 0 {
                Some(ViolationKindV::Duplicate(dec_int(u as int), content, ident))
            } else {
                None
            },
            None => None,
        }
    }
}

/// Classifies one comment or reply.
pub fn process_single_comment(
    item: &Json,
    source_type: &str,
    source_id: i64,
    parent: i64,
    is_reply: bool,
    keywords: &Vec<String>,
) -> (r: Option<ViolationKind>)
    ensures
        match r {
            Some(v) => single_comment_spec(item@, source_type@, source_id, parent, is_reply, crate::retrieve::view_texts(keywords@)) == Some(v@),
            None => single_comment_spec(item@, source_type@, source_id, parent, is_reply, crate::retrieve::view_texts(keywords@)).is_none(),
        },
{
    let raw = match crate::chat::str_field(item, "content") {
        Some(s) => s,
        None => String::new(),
    };
    let content = to_lowercase(raw.as_str());
    let user_id: Option<i64> = match item.get("user_id") {
        Some(x) => x.as_i64(),
        None => None,
    };
    let item_id: i64 = match item.get("id") {
        Some(x) => match x.as_i64() {
            Some(n) => n,
            None => 0,
        },
        None => 0,
    };
    let nonempty = content.as_str().unicode_len() > 0;
    if nonempty && any_keyword(content.as_str(), keywords) {
        return Some(ViolationKind::Ad(violation_identifier(source_type, source_id, is_reply, parent, item_id)));
    }
    match user_id {
        Some(u) => if nonempty {
            Some(
                ViolationKind::Duplicate(
                    crate::text::fmt_i64(u),
                    content,
                    violation_identifier(source_type, source_id, is_reply, parent, item_id),
                ),
            )
        } else {
            None
        },
        None => None,
    }
}

/// The candidates of a list of detailed comments: each comment that is not
/// pinned, then each of its replies that is an object, with the comment's id
/// as their parent.
pub open spec fn pending_spec(
    comments: Seq<JsonV>,
    source_type: Seq<char>,
    source_id: i64,
    keywords: Seq<Seq<char>>,
) -> Seq<ViolationKindV>
    decreases comments.len(),
{
    if comments.len() == 0 {
        Seq::empty()
    } else {
        let rest = pending_spec(comments.drop_last(), source_type, source_id, keywords);
        let c = comments.last();
        if jbool(jget(c, "is_top"@)) == Some(true) {
            rest
        } else {
            let own_v = match single_comment_spec(c, source_type, source_id, 0, false, keywords) {
                Some(v) => seq![v],
                None => Seq::empty(),
            };
            let parent = match jint(jget(c, "id"@)) {
                Some(n) => n,
                None => 0,
            };
            let replies = match crate::json::jarr(jget(c, "replies"@)) {
                Some(rs) => reply_candidates(rs, source_type, source_id, parent, keywords),
                None => Seq::empty(),
            };
            rest + own_v + replies
        }
    }
}

/// The candidates among replies that are objects.
pub open spec fn reply_candidates(
    rs: Seq<JsonV>,
    source_type: Seq<char>,
    source_id: i64,
    parent: i64,
    keywords: Seq<Seq<char>>,
) -> Seq<ViolationKindV>
    decreases rs.len(),
{
    if rs.len() == 0 {
        Seq::empty()
    } else {
        let rest = reply_candidates(rs.drop_last(), source_type, source_id, parent, keywords);
        let r = rs.last();
        if r is Object {
            match single_comment_spec(r, source_type, source_id, parent, true, keywords) {
                Some(v) => rest.push(v),
                None => rest,
            }
        } else {
            rest
        }
    }
}

fn reply_candidates_of(
    rs: &Vec<Json>,
    source_type: &str,
    source_id: i64,
    parent: i64,
    keywords: &Vec<String>,
    out: &mut Vec<ViolationKind>,
)
    ensures
        view_kinds(final(out)@) == view_kinds(old(out)@) + reply_candidates(
            view_items(rs@),
            source_type@,
            source_id,
            parent,
            crate::retrieve::view_texts(keywords@),
        ),
{
    proof {
        crate::json::lemma_view_items(rs@);
    }
    let ghost start = view_kinds(out@);
    let ghost kw = crate::retrieve::view_texts(keywords@);
    let mut k: usize = 0;
    assert(view_kinds(out@) =~= start + reply_candidates(view_items(rs@).subrange(0, 0), source_type@, source_id, parent, kw));
    while k < rs.len()
        invariant
            k <= rs@.len(),
            view_items(rs@).len() == rs@.len(),
            forall|j: int| 0 <= j < rs@.len() ==> #[trigger] view_items(rs@)[j] == rs@[j]@,
            kw == crate::retrieve::view_texts(keywords@),
            view_kinds(out@) == start + reply_candidates(view_items(rs@).subrange(0, k as int), source_type@, source_id, parent, kw),
        decreases rs@.len() - k,
    {
        let ghost sub = view_items(rs@).subrange(0, k + 1);
        assert(sub.drop_last() =~= view_items(rs@).subrange(0, k as int));
        assert(sub.last() == rs@[k as int]@);
        let is_obj = match &rs[k] {
            Json::Object(_) => true,
            _ => false,
        };
        if is_obj {
            match process_single_comment(&rs[k], source_type, source_id, parent, true, keywords) {
                Some(v) => {
                    let ghost before = view_kinds(out@);
                    out.push(v);
                    assert(view_kinds(out@) =~= before.push(v@));
                },
                None => {},
            }
        }
        k = k + 1;
    }
    assert(view_items(rs@).subrange(0, rs@.len() as int) =~= view_items(rs@));
}

/// Gathers the candidates of a list of detailed comments.
pub fn collect_pending_violations(
    comments: &Vec<Json>,
    source_type: &str,
    source_id: i64,
    keywords: &Vec<String>,
) -> (r: Vec<ViolationKind>)
    ensures
        view_kinds(r@) == pending_spec(view_items(comments@), source_type@, source_id, crate::retrieve::view_texts(keywords@)),
{
    proof {
        crate::json::lemma_view_items(comments@);
    }
    let ghost kw = crate::retrieve::view_texts(keywords@);
    let mut out: Vec<ViolationKind> = Vec::new();
    let mut i: usize = 0;
    assert(view_kinds(out@) =~= Seq::empty());
    while i < comments.len()
        invariant
            i <= comments@.len(),
            view_items(comments@).len() == comments@.len(),
            forall|j: int| 0 <= j < comments@.len() ==> #[trigger] view_items(comments@)[j] == comments@[j]@,
            kw == crate::retrieve::view_texts(keywords@),
            view_kinds(out@) == pending_spec(view_items(comments@).subrange(0, i as int), source_type@, source_id, kw),
        decreases comments@.len() - i,
    {
        let ghost sub = view_items(comments@).subrange(0, i + 1);
        assert(sub.drop_last() =~= view_items(comments@).subrange(0, i as int));
        assert(sub.last() == comments@[i as int]@);
        let c = &comments[i];
        let top = match c.get("is_top") {
            Some(x) => x.as_bool() == Some(true),
            None => false,
        };
        if !top {
            let ghost before = view_kinds(out@);
            match process_single_comment(c, source_type, source_id, 0, false, keywords) {
                Some(v) => {
                    out.push(v);
                    assert(view_kinds(out@) =~= before + seq![v@]);
                },
                None => {
                    assert(view_kinds(out@) =~= before + Seq::empty());
                },
            }
            let ghost mid = view_kinds(out@);
            let parent: i64 = match c.get("id") {
                Some(x) => match x.as_i64() {
                    Some(n) => n,
                    None => 0,
                },
                None => 0,
            };
            match c.get("replies") {
                Some(rv) => match rv.as_array() {
                    Some(rs) => reply_candidates_of(rs, source_type, source_id, parent, keywords, &mut out),
                    None => {
                        assert(view_kinds(out@) =~= mid + Seq::empty());
                    },
                },
                None => {
                    assert(view_kinds(out@) =~= mid + Seq::empty());
                },
            }
        }
        i = i + 1;
    }
    assert(view_items(comments@).subrange(0, comments@.len() as int) =~= view_items(comments@));
    out
}


/// The repeated-posting groups of the candidates: one group per (user,
/// text), in the order the pairs first appear, each with its identifiers in
/// order.
pub open spec fn dup_groups(pending: Seq<ViolationKindV>) -> Seq<((Seq<char>, Seq<char>), Seq<Seq<char>>)>
    decreases pending.len(),
{
    if pending.len() == 0 {
        Seq::empty()
    } else {
        let g = dup_groups(pending.drop_last());
        match pending.last() {
            ViolationKindV::Ad(_) => g,
            ViolationKindV::Duplicate(u, c, id) => match first_index(g, group_key_is(u, c)) {
                Some(k) => g.update(k, (g[k].0, g[k].1.push(id))),
                None => g.push(((u, c), seq![id])),
            },
        }
    }
}

pub open spec fn group_key_is(u: Seq<char>, c: Seq<char>) -> spec_fn(((Seq<char>, Seq<char>), Seq<Seq<char>>)) -> bool {
    |e: ((Seq<char>, Seq<char>), Seq<Seq<char>>)| e.0 == (u, c)
}

/// The advertising identifiers, in order.
pub open spec fn ad_ids(pending: Seq<ViolationKindV>) -> Seq<Seq<char>>
    decreases pending.len(),
{
    if pending.len() == 0 {
        Seq::empty()
    } else {
        let rest = ad_ids(pending.drop_last());
        match pending.last() {
            ViolationKindV::Ad(id) => rest.push(id),
            _ => rest,
        }
    }
}

/// The identifiers of the groups that reach the threshold, group by group.
pub open spec fn spam_ids(groups: Seq<((Seq<char>, Seq<char>), Seq<Seq<char>>)>, threshold: nat) -> Seq<Seq<char>>
    decreases groups.len(),
{
    if groups.len() == 0 {
        Seq::empty()
    } else {
        let rest = spam_ids(groups.drop_last(), threshold);
        if groups.last().1.len() >= threshold {
            rest + groups.last().1
        } else {
            rest
        }
    }
}

/// The violations among the candidates: every advertisement, then every
/// identifier of a (user, text) posted at least `threshold` times.
pub open spec fn classify_spec(pending: Seq<ViolationKindV>, threshold: nat) -> Seq<Seq<char>> {
    ad_ids(pending) + spam_ids(dup_groups(pending), threshold)
}

pub open spec fn view_groups(g: Seq<((String, String), Vec<String>)>) -> Seq<((Seq<char>, Seq<char>), Seq<Seq<char>>)> {
    g.map_values(|e: ((String, String), Vec<String>)| ((e.0.0@, e.0.1@), crate::retrieve::view_texts(e.1@)))
}

fn find_group(g: &Vec<((String, String), Vec<String>)>, u: &str, c: &str) -> (r: Option<usize>)
    ensures
        match r {
            Some(k) => first_index(view_groups(g@), group_key_is(u@, c@)) == Some(k as int),
            None => first_index(view_groups(g@), group_key_is(u@, c@)).is_none(),
        },
{
    let mut i: usize = 0;
    while i < g.len()
        invariant
            i <= g@.len(),
            forall|j: int| 0 <= j < i ==> !(group_key_is(u@, c@))(#[trigger] view_groups(g@)[j]),
        decreases g@.len() - i,
    {
        if str_eq(g[i].0.0.as_str(), u) && str_eq(g[i].0.1.as_str(), c) {
            proof {
                lemma_first_index_at(view_groups(g@), group_key_is(u@, c@), i as int);
            }
            return Some(i);
        }
        assert(!(group_key_is(u@, c@))(view_groups(g@)[i as int]));
        i = i + 1;
    }
    proof {
        lemma_first_index_none(view_groups(g@), group_key_is(u@, c@));
    }
    None
}

/// Sorts the candidates into violations.
pub fn classify_violations(pending: &Vec<ViolationKind>, spam_threshold: usize) -> (r: Vec<String>)
    ensures
        crate::retrieve::view_texts(r@) == classify_spec(view_kinds(pending@), spam_threshold as nat),
{
    let ghost p = view_kinds(pending@);
    let mut ads: Vec<String> = Vec::new();
    let mut groups: Vec<((String, String), Vec<String>)> = Vec::new();
    let mut i: usize = 0;
    assert(crate::retrieve::view_texts(ads@) =~= ad_ids(p.subrange(0, 0)));
    assert(view_groups(groups@) =~= dup_groups(p.subrange(0, 0)));
    while i < pending.len()
        invariant
            i <= pending@.len(),
            p == view_kinds(pending@),
            crate::retrieve::view_texts(ads@) == ad_ids(p.subrange(0, i as int)),
            view_groups(groups@) == dup_groups(p.subrange(0, i as int)),
        decreases pending@.len() - i,
    {
        let ghost sub = p.subrange(0, i + 1);
        assert(sub.drop_last() =~= p.subrange(0, i as int));
        assert(sub.last() == pending@[i as int]@);
        match &pending[i] {
            ViolationKind::Ad(id) => {
                let ghost before = ads@;
                ads.push(id.clone());
                assert(crate::retrieve::view_texts(ads@) =~= crate::retrieve::view_texts(before).push(id@));
            },
            ViolationKind::Duplicate(u, c, id) => {
                let ghost gb = view_groups(groups@);
                match find_group(&groups, u.as_str(), c.as_str()) {
                    Some(k) => {
                        proof {
                            lemma_first_index(gb, group_key_is(u@, c@));
                        }
                        let mut entry = groups[k].1.clone();
                        let key = (groups[k].0.0.clone(), groups[k].0.1.clone());
                        let ghost eb = entry@;
                        entry.push(id.clone());
                        assert(crate::retrieve::view_texts(entry@) =~= crate::retrieve::view_texts(eb).push(id@));
                        groups.set(k, (key, entry));
                        assert(view_groups(groups@) =~= gb.update(k as int, (gb[k as int].0, gb[k as int].1.push(id@))));
                    },
                    None => {
                        let one = vec![id.clone()];
                        assert(crate::retrieve::view_texts(one@) =~= seq![id@]);
                        groups.push(((u.clone(), c.clone()), one));
                        assert(view_groups(groups@) =~= gb.push(((u@, c@), seq![id@])));
                    },
                }
            },
        }
        i = i + 1;
    }
    assert(p.subrange(0, pending@.len() as int) =~= p);
    let ghost gs = view_groups(groups@);
    let mut out = ads;
    let mut k: usize = 0;
    assert(crate::retrieve::view_texts(out@) =~= ad_ids(p) + spam_ids(gs.subrange(0, 0), spam_threshold as nat));
    while k < groups.len()
        invariant
            k <= groups@.len(),
            gs == view_groups(groups@),
            crate::retrieve::view_texts(out@) == ad_ids(p) + spam_ids(gs.subrange(0, k as int), spam_threshold as nat),
        decreases groups@.len() - k,
    {
        let ghost sub = gs.subrange(0, k + 1);
        assert(sub.drop_last() =~= gs.subrange(0, k as int));
        assert(sub.last() == gs[k as int]);
        if groups[k].1.len() >= spam_threshold {
            let ghost before = crate::retrieve::view_texts(out@);
            let ids = &groups[k].1;
            let mut j: usize = 0;
            while j < ids.len()
                invariant
                    j <= ids@.len(),
                    crate::retrieve::view_texts(out@) == before + crate::retrieve::view_texts(ids@).subrange(0, j as int),
                decreases ids@.len() - j,
            {
                let ghost b2 = out@;
                out.push(ids[j].clone());
                assert(crate::retrieve::view_texts(out@) =~= crate::retrieve::view_texts(b2).push(ids@[j as int]@));
                assert(crate::retrieve::view_texts(ids@).subrange(0, j + 1) =~= crate::retrieve::view_texts(ids@).subrange(0, j as int).push(ids@[j as int]@));
                j = j + 1;
            }
            assert(crate::retrieve::view_texts(ids@).subrange(0, ids@.len() as int) =~= crate::retrieve::view_texts(ids@));
            assert(crate::retrieve::view_texts(out@) =~= ad_ids(p) + (spam_ids(gs.subrange(0, k as int), spam_threshold as nat) + gs[k as int].1));
        }
        k = k + 1;
    }
    assert(gs.subrange(0, groups@.len() as int) =~= gs);
    out
}

/// The next account to report with, searching round from `current`: the
/// first whose use count is below the cap; `None` when all are used up or
/// there are none.
pub open spec fn select_account_spec(usage: Seq<usize>, current: usize, cap: usize) -> Option<usize> {
    if usage.len() == 0 {
        None
    } else {
        let n = usage.len();
        let start = (current as int) % (n as int);
        match first_index(Seq::new(n, |o: int| (start + o) % (n as int)), below_cap(usage, cap)) {
            Some(o) => Some(((start + o) % (n as int)) as usize),
            None => None,
        }
    }
}

/// Whether the account at an index has reports left.
pub open spec fn below_cap(usage: Seq<usize>, cap: usize) -> spec_fn(int) -> bool {
    |idx: int| usage[idx] < cap
}

/// Chooses the next account to report with; `usage[i]` is how often
/// account `i` has reported.
pub fn select_report_account(usage: &Vec<usize>, current: usize, cap: usize) -> (r: Option<usize>)
    ensures
        r == select_account_spec(usage@, current, cap),
        r matches Some(i) ==> i < usage@.len() && usage@[i as int] < cap,
{
    let n = usage.len();
    if n == 0 {
        return None;
    }
    let start = current % n;
    let ghost order = Seq::new(n as nat, |o: int| (start + o) % (n as int));
    let ghost f = below_cap(usage@, cap);
    let mut o: usize = 0;
    while o < n
        invariant
            n == usage@.len(),
            n > 0,
            start < n,
            start == current % n,
            o <= n,
            order == Seq::new(n as nat, |o: int| (start + o) % (n as int)),
            forall|j: int| 0 <= j < o ==> usage@[#[trigger] order[j]] >= cap,
        decreases n - o,
    {
        let idx = if o >= n - start { o - (n - start) } else { start + o };
        assert(idx == (start + o) % (n as int)) by (nonlinear_arith)
            requires
                start < n,
                o < n,
                idx == (if start + o >= n { start + o - n } else { start + o }),
        ;
        assert(order[o as int] == idx);
        if usage[idx] < cap {
            proof {
                assert forall|j: int| 0 <= j < o implies !(below_cap(usage@, cap))(#[trigger] order[j]) by {
                }
                lemma_first_index_at(order, below_cap(usage@, cap), o as int);
                let spec_order = Seq::new(n as nat, |q: int| ((current as int) % (n as int) + q) % (n as int));
                assert(spec_order =~= order);
            }
            return Some(idx);
        }
        o = o + 1;
    }
    proof {
        assert forall|j: int| 0 <= j < order.len() implies !(below_cap(usage@, cap))(#[trigger] order[j]) by {
        }
        lemma_first_index_none(order, below_cap(usage@, cap));
        let spec_order = Seq::new(n as nat, |q: int| ((current as int) % (n as int) + q) % (n as int));
        assert(spec_order =~= order);
    }
    None
}


/// The identifiers of the repeated-posting candidates whose (user, text) is
/// `key`, in order.
pub open spec fn key_ids(pending: Seq<ViolationKindV>, key: (Seq<char>, Seq<char>)) -> Seq<Seq<char>>
    decreases pending.len(),
{
    if pending.len() == 0 {
        Seq::empty()
    } else {
        let rest = key_ids(pending.drop_last(), key);
        match pending.last() {
            ViolationKindV::Duplicate(u, c, id) => if (u, c) == key {
                rest.push(id)
            } else {
                rest
            },
            _ => rest,
        }
    }
}

/// Repeated posts are grouped exactly by (user, text): each group holds every
/// candidate identifier of its pair, in order, no pair has two groups, and
/// every pair that occurs has a group.
pub proof fn law_dup_groups_by_key(pending: Seq<ViolationKindV>)
    ensures
        forall|k: int| 0 <= k < dup_groups(pending).len() ==> (#[trigger] dup_groups(pending)[k]).1 == key_ids(
            pending,
            dup_groups(pending)[k].0,
        ),
        forall|k: int, m: int|
            0 <= k < m < dup_groups(pending).len() ==> (#[trigger] dup_groups(pending)[k]).0 != (#[trigger] dup_groups(
                pending,
            )[m]).0,
        forall|key: (Seq<char>, Seq<char>)|
            #![trigger key_ids(pending, key)]
            key_ids(pending, key).len() > 0 ==> exists|k: int|
                0 <= k < dup_groups(pending).len() && (#[trigger] dup_groups(pending)[k]).0 == key,
    decreases pending.len(),
{
    if pending.len() > 0 {
        let p0 = pending.drop_last();
        law_dup_groups_by_key(p0);
        let g = dup_groups(p0);
        let g2 = dup_groups(pending);
        match pending.last() {
            ViolationKindV::Ad(_) => {
                assert forall|key: (Seq<char>, Seq<char>)| #![trigger key_ids(pending, key)] true implies key_ids(
                    pending,
                    key,
                ) == key_ids(p0, key) by {}
            },
            ViolationKindV::Duplicate(u, c, id) => {
                lemma_first_index(g, group_key_is(u, c));
                match first_index(g, group_key_is(u, c)) {
                    Some(k0) => {
                        assert(g[k0].0 == (u, c));
                        assert forall|k: int| 0 <= k < g2.len() implies (#[trigger] g2[k]).1 == key_ids(
                            pending,
                            g2[k].0,
                        ) by {
                            if k == k0 {
                            } else {
                                assert(g2[k] == g[k]);
                                assert(g[k].0 != g[k0].0);
                            }
                        }
                        assert forall|k: int, m: int| 0 <= k < m < g2.len() implies (#[trigger] g2[k]).0 != (
                        #[trigger] g2[m]).0 by {
                            assert(g2[k].0 == g[k].0);
                            assert(g2[m].0 == g[m].0);
                        }
                        assert forall|key: (Seq<char>, Seq<char>)|
                            #![trigger key_ids(pending, key)]
                            key_ids(pending, key).len() > 0 implies exists|k: int|
                                0 <= k < g2.len() && (#[trigger] g2[k]).0 == key by {
                            if key == (u, c) {
                                assert(g2[k0].0 == key);
                            } else {
                                assert(key_ids(pending, key) == key_ids(p0, key));
                                let k = choose|k: int| 0 <= k < g.len() && (#[trigger] g[k]).0 == key;
                                assert(g2[k].0 == key);
                            }
                        }
                    },
                    None => {
                        assert(key_ids(p0, (u, c)).len() == 0) by {
                            if key_ids(p0, (u, c)).len() > 0 {
                                let k = choose|k: int| 0 <= k < g.len() && (#[trigger] g[k]).0 == (u, c);
                                assert(group_key_is(u, c)(g[k]));
                            }
                        }
                        assert(key_ids(p0, (u, c)).push(id) =~= seq![id]);
                        assert forall|k: int| 0 <= k < g2.len() implies (#[trigger] g2[k]).1 == key_ids(
                            pending,
                            g2[k].0,
                        ) by {
                            if k < g.len() {
                                assert(g2[k] == g[k]);
                                assert(!group_key_is(u, c)(g[k]));
                            }
                        }
                        assert forall|k: int, m: int| 0 <= k < m < g2.len() implies (#[trigger] g2[k]).0 != (
                        #[trigger] g2[m]).0 by {
                            if m == g.len() {
                                assert(!group_key_is(u, c)(g[k]));
                            } else {
                                assert(g2[k] == g[k] && g2[m] == g[m]);
                            }
                        }
                        assert forall|key: (Seq<char>, Seq<char>)|
                            #![trigger key_ids(pending, key)]
                            key_ids(pending, key).len() > 0 implies exists|k: int|
                                0 <= k < g2.len() && (#[trigger] g2[k]).0 == key by {
                            if key == (u, c) {
                                assert(g2[g.len() as int].0 == key);
                            } else {
                                assert(key_ids(pending, key) == key_ids(p0, key));
                                let k = choose|k: int| 0 <= k < g.len() && (#[trigger] g[k]).0 == key;
                                assert(g2[k].0 == key);
                            }
                        }
                    },
                }
            },
        }
    }
}

/// A group's identifiers are reported as repeated posting exactly when the
/// group holds at least `threshold` of them: every identifier of such a group
/// is reported, and every reported identifier comes from such a group.
pub proof fn law_spam_threshold(groups: Seq<((Seq<char>, Seq<char>), Seq<Seq<char>>)>, threshold: nat)
    ensures
        forall|k: int, i: int|
            0 <= k < groups.len() && groups[k].1.len() >= threshold && 0 <= i < groups[k].1.len()
                ==> spam_ids(groups, threshold).contains(#[trigger] groups[k].1[i]),
        forall|x: Seq<char>|
            #[trigger] spam_ids(groups, threshold).contains(x) ==> exists|k: int|
                0 <= k < groups.len() && (#[trigger] groups[k]).1.len() >= threshold && groups[k].1.contains(x),
    decreases groups.len(),
{
    if groups.len() > 0 {
        let g0 = groups.drop_last();
        law_spam_threshold(g0, threshold);
        let rest = spam_ids(g0, threshold);
        let last = groups.last();
        let n = groups.len() - 1;
        assert forall|k: int, i: int|
            0 <= k < groups.len() && groups[k].1.len() >= threshold && 0 <= i < groups[k].1.len()
                implies spam_ids(groups, threshold).contains(#[trigger] groups[k].1[i]) by {
            if k < n {
                assert(groups[k] == g0[k]);
                assert(rest.contains(g0[k].1[i]));
                let j = choose|j: int| 0 <= j < rest.len() && rest[j] == g0[k].1[i];
                if last.1.len() >= threshold {
                    assert((rest + last.1)[j] == rest[j]);
                }
            } else {
                assert(groups[k] == last);
                assert((rest + last.1)[rest.len() + i] == last.1[i]);
            }
        }
        assert forall|x: Seq<char>|
            #[trigger] spam_ids(groups, threshold).contains(x) implies exists|k: int|
                0 <= k < groups.len() && (#[trigger] groups[k]).1.len() >= threshold && groups[k].1.contains(x) by {
            let sp = spam_ids(groups, threshold);
            let j = choose|j: int| 0 <= j < sp.len() && sp[j] == x;
            if j < rest.len() {
                if last.1.len() >= threshold {
                    assert((rest + last.1)[j] == rest[j]);
                }
                assert(rest.contains(x));
                let k = choose|k: int| 0 <= k < g0.len() && (#[trigger] g0[k]).1.len() >= threshold && g0[k].1.contains(x);
                assert(groups[k] == g0[k]);
            } else {
                assert(last.1.len() >= threshold);
                assert((rest + last.1)[j] == last.1[j - rest.len()]);
                assert(last.1.contains(x));
                assert(groups[n] == last);
            }
        }
    }
}

/// Repeated posting, stated over the candidates: every identifier of a
/// (user, text) pair posted at least `threshold` times is a violation, and
/// every violation is an advertisement or belongs to such a pair.
pub proof fn law_spam_by_key(pending: Seq<ViolationKindV>, threshold: nat)
    ensures
        forall|key: (Seq<char>, Seq<char>), i: int|
            key_ids(pending, key).len() >= threshold && 0 <= i < key_ids(pending, key).len()
                ==> classify_spec(pending, threshold).contains(#[trigger] key_ids(pending, key)[i]),
        forall|x: Seq<char>|
            #[trigger] classify_spec(pending, threshold).contains(x) ==> ad_ids(pending).contains(x) || exists|
                key: (Seq<char>, Seq<char>),
            | key_ids(pending, key).len() >= threshold && (#[trigger] key_ids(pending, key)).contains(x),
{
    law_dup_groups_by_key(pending);
    let g = dup_groups(pending);
    law_spam_threshold(g, threshold);
    let a = ad_ids(pending);
    let sp = spam_ids(g, threshold);
    assert forall|key: (Seq<char>, Seq<char>), i: int|
        key_ids(pending, key).len() >= threshold && 0 <= i < key_ids(pending, key).len()
            implies classify_spec(pending, threshold).contains(#[trigger] key_ids(pending, key)[i]) by {
        assert(key_ids(pending, key).len() > 0);
        let k = choose|k: int| 0 <= k < g.len() && (#[trigger] g[k]).0 == key;
        assert(g[k].1 == key_ids(pending, g[k].0));
        assert(sp.contains(g[k].1[i]));
        let j = choose|j: int| 0 <= j < sp.len() && sp[j] == g[k].1[i];
        assert((a + sp)[a.len() + j] == sp[j]);
    }
    assert forall|x: Seq<char>|
        #[trigger] classify_spec(pending, threshold).contains(x) implies a.contains(x) || exists|
            key: (Seq<char>, Seq<char>),
        | key_ids(pending, key).len() >= threshold && (#[trigger] key_ids(pending, key)).contains(x) by {
        let all = a + sp;
        let j = choose|j: int| 0 <= j < all.len() && all[j] == x;
        if j < a.len() {
            assert(a[j] == x);
        } else {
            assert(sp[j - a.len()] == x);
            assert(sp.contains(x));
            let k = choose|k: int| 0 <= k < g.len() && (#[trigger] g[k]).1.len() >= threshold && g[k].1.contains(x);
            assert(g[k].1 == key_ids(pending, g[k].0));
            assert(key_ids(pending, g[k].0).contains(x));
        }
    }
}

/// How many steps round from account `s` it takes to reach account `j`,
/// among `n` accounts.
pub open spec fn round_dist(s: int, j: int, n: int) -> int {
    if j >= s {
        j - s
    } else {
        j + n - s
    }
}

/// The `o`-th account visited round from `s` is the one `o` steps away.
proof fn lemma_round_order(s: int, o: int, n: int)
    requires
        0 <= s < n,
        0 <= o < n,
    ensures
        0 <= (s + o) % n < n,
        round_dist(s, (s + o) % n, n) == o,
{
    assert((s + o) % n == (if s + o < n {
        s + o
    } else {
        s + o - n
    })) by (nonlinear_arith)
        requires
            0 <= s < n,
            0 <= o < n,
    ;
}

/// Accounts are used round-robin from the current one: the account chosen
/// has reports left and every account before it on the way round from the
/// current one is used up; `None` only when all are used up; and the current
/// account is kept while it has reports left.
pub proof fn law_select_round_robin(usage: Seq<usize>, current: usize, cap: usize)
    requires
        0 < usage.len() <= usize::MAX,
    ensures
        ({
            let n = usage.len() as int;
            let s = current as int % n;
            &&& match select_account_spec(usage, current, cap) {
                Some(i) => {
                    &&& i < n
                    &&& usage[i as int] < cap
                    &&& forall|j: int|
                        0 <= j < n && round_dist(s, j, n) < round_dist(s, i as int, n) ==> #[trigger] usage[j] >= cap
                },
                None => forall|j: int| 0 <= j < n ==> #[trigger] usage[j] >= cap,
            }
            &&& usage[s] < cap ==> select_account_spec(usage, current, cap) == Some(s as usize)
        }),
{
    let n = usage.len() as int;
    let s = current as int % n;
    assert(0 <= s < n) by (nonlinear_arith)
        requires
            n > 0,
            s == current as int % n,
            current >= 0,
    ;
    let order = Seq::new(n as nat, |o: int| (s + o) % n);
    let f = below_cap(usage, cap);
    let spec_order = Seq::new(usage.len(), |o: int| ((current as int) % (usage.len() as int) + o) % (
    usage.len() as int));
    assert(spec_order =~= order);
    crate::search::lemma_first_index(order, f);
    assert forall|j: int| 0 <= j < n implies order[round_dist(s, j, n)] == j by {
        let d = round_dist(s, j, n);
        lemma_round_order(s, d, n);
        assert((s + d) % n == j) by (nonlinear_arith)
            requires
                0 <= s < n,
                0 <= j < n,
                d == (if j >= s {
                    j - s
                } else {
                    j + n - s
                }),
        ;
    }
    match first_index(order, f) {
        Some(o) => {
            lemma_round_order(s, o, n);
            let i = (s + o) % n;
            assert(order[o] == i);
            assert(select_account_spec(usage, current, cap) == Some(i as usize));
            assert(f(order[o]));
            assert(usage[i] < cap);
            assert((i as usize) as int == i);
            assert forall|j: int| 0 <= j < n && round_dist(s, j, n) < round_dist(s, i, n) implies #[trigger] usage[j]
                >= cap by {
                let d = round_dist(s, j, n);
                assert(order[d] == j);
                assert(!f(order[d]));
            }
            if usage[s] < cap {
                lemma_round_order(s, 0, n);
                assert(order[0] == s);
                if o > 0 {
                    assert(!f(order[0]));
                }
            }
        },
        None => {
            assert forall|j: int| 0 <= j < n implies #[trigger] usage[j] >= cap by {
                let d = round_dist(s, j, n);
                lemma_round_order(s, d, n);
                assert(order[d] == j);
                assert(!f(order[d]));
            }
        },
    }
}

} // verus!
