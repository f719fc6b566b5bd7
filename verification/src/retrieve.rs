//! Queries over comments and community data: the query settings, the
//! checks made before a query runs, and what is made of the records that
//! come back.

use vstd::prelude::*;

use crate::json::{
    jget, jint, jobj, jstr, lemma_view_entries, lemma_view_items, view_entries, view_items, Json,
    JsonV,
};
use crate::text::{dec_int, own, push_i64, push_str, str_eq};

verus! {

/// At most this many comments are streamed when no limit is given.
pub const DEFAULT_COMMENT_STREAM_LIMIT: usize = 500;

/// No more comments than this are ever streamed.
pub const MAX_COMMENT_STREAM_LIMIT: usize = 1000;

/// Errors of the data queries.
#[derive(Debug, Clone, PartialEq, Eq)]
pub enum DataQueryError {
    InvalidSource(String),
    ParseError(String),
    Json(String),
    External(String),
}

/// Where comments come from.
#[derive(Debug, Clone, Copy, PartialEq, Eq, Structural)]
pub enum CommentSource {
    Work,
    Forum,
    Shop,
}

pub open spec fn comment_source_name(s: CommentSource) -> Seq<char> {
    match s {
        CommentSource::Work => "work"@,
        CommentSource::Forum => "forum"@,
        CommentSource::Shop => "shop"@,
    }
}

impl CommentSource {
    /// The name of the source.
    pub fn as_str(&self) -> (r: &'static str)
        ensures
            r@ == comment_source_name(*self),
    {
        match self {
            CommentSource::Work => "work",
            CommentSource::Forum => "forum",
            CommentSource::Shop => "shop",
        }
    }

    /// The source with a name; any other name is refused as an invalid
    /// source carrying the name.
    pub fn parse(s: &str) -> (r: Result<CommentSource, DataQueryError>)
        ensures
            s@ == "work"@ ==> r == Ok::<CommentSource, DataQueryError>(CommentSource::Work),
            s@ == "forum"@ ==> r == Ok::<CommentSource, DataQueryError>(CommentSource::Forum),
            s@ == "shop"@ ==> r == Ok::<CommentSource, DataQueryError>(CommentSource::Shop),
            s@ != "work"@ && s@ != "forum"@ && s@ != "shop"@ ==> (r matches Err(
                DataQueryError::InvalidSource(m),
            ) && m@ == s@),
    {
        proof {
            reveal_strlit("work");
            reveal_strlit("forum");
            reveal_strlit("shop");
            assert("work"@[0] != "shop"@[0]);
            assert("work"@.len() != "forum"@.len());
            assert("shop"@.len() != "forum"@.len());
        }
        if str_eq(s, "work") {
            Ok(CommentSource::Work)
        } else if str_eq(s, "forum") {
            Ok(CommentSource::Forum)
        } else if str_eq(s, "shop") {
            Ok(CommentSource::Shop)
        } else {
            Err(DataQueryError::InvalidSource(own(s)))
        }
    }
}

/// A kind of notification.
#[derive(Debug, Clone, Copy, PartialEq, Eq, Structural)]
pub enum NotificationCategory {
    LikeFork,
    CommentReply,
    System,
}

impl NotificationCategory {
    /// The name of the kind in the community service.
    pub fn as_str(&self) -> (r: &'static str)
        ensures
            r@ == (match *self {
                NotificationCategory::LikeFork => "LIKE_FORK"@,
                NotificationCategory::CommentReply => "COMMENT_REPLY"@,
                NotificationCategory::System => "SYSTEM"@,
            }),
    {
        match self {
            NotificationCategory::LikeFork => "LIKE_FORK",
            NotificationCategory::CommentReply => "COMMENT_REPLY",
            NotificationCategory::System => "SYSTEM",
        }
    }
}

/// The settings of a comment query.
#[derive(Debug, Clone, Copy, PartialEq, Eq)]
pub struct CommentQueryBuilder {
    pub source: Option<CommentSource>,
    pub target_id: Option<i32>,
    pub limit: Option<usize>,
}

/// The comment limit that a query uses: the one set, 500 when none is,
/// and never more than 1000.
pub open spec fn safe_limit_spec(limit: Option<usize>) -> usize {
    let l = match limit {
        Some(n) => n,
        None => 500,
    };
    if l < 1000 {
        l
    } else {
        1000
    }
}

impl Default for CommentQueryBuilder {
    /// The settings of [`CommentQueryBuilder::new`].
    fn default() -> (r: CommentQueryBuilder)
        ensures
            r == (CommentQueryBuilder { source: None, target_id: None, limit: Some(500) }),
    {
        CommentQueryBuilder::new()
    }
}

impl CommentQueryBuilder {
    /// No source, no target, a limit of 500.
    pub fn new() -> (r: CommentQueryBuilder)
        ensures
            r == (CommentQueryBuilder { source: None, target_id: None, limit: Some(500) }),
    {
        CommentQueryBuilder { source: None, target_id: None, limit: Some(500) }
    }

    /// Sets the source.
    pub fn source(self, source: CommentSource) -> (r: CommentQueryBuilder)
        ensures
            r == (CommentQueryBuilder { source: Some(source), ..self }),
    {
        CommentQueryBuilder { source: Some(source), ..self }
    }

    /// Sets the id of the work, post or discussion.
    pub fn target_id(self, id: i32) -> (r: CommentQueryBuilder)
        ensures
            r == (CommentQueryBuilder { target_id: Some(id), ..self }),
    {
        CommentQueryBuilder { target_id: Some(id), ..self }
    }

    /// Sets the limit.
    pub fn limit(self, limit: Option<usize>) -> (r: CommentQueryBuilder)
        ensures
            r == (CommentQueryBuilder { limit, ..self }),
    {
        CommentQueryBuilder { limit, ..self }
    }

    /// What a query runs with: refused without a source or without a
    /// target; otherwise the source, the target and the limit to use.
    pub fn validate(&self) -> (r: Result<(CommentSource, i32, usize), DataQueryError>)
        ensures
            self.source.is_none() ==> (r matches Err(DataQueryError::InvalidSource(m)) && m@
                == "未设置来源"@),
            self.source.is_some() && self.target_id.is_none() ==> (r matches Err(
                DataQueryError::InvalidSource(m),
            ) && m@ == "未设置源ID"@),
            self.source.is_some() && self.target_id.is_some() ==> r == Ok::<
                (CommentSource, i32, usize),
                DataQueryError,
            >((self.source.unwrap(), self.target_id.unwrap(), safe_limit_spec(self.limit))),
    {
        let source = match self.source {
            Some(s) => s,
            None => return Err(DataQueryError::InvalidSource(own("未设置来源"))),
        };
        let target = match self.target_id {
            Some(t) => t,
            None => return Err(DataQueryError::InvalidSource(own("未设置源ID"))),
        };
        let l = match self.limit {
            Some(n) => n,
            None => DEFAULT_COMMENT_STREAM_LIMIT,
        };
        let safe = if l < MAX_COMMENT_STREAM_LIMIT {
            l
        } else {
            MAX_COMMENT_STREAM_LIMIT
        };
        Ok((source, target, safe))
    }
}

/// The user field of a reply: `user` in the forum, `reply_user` elsewhere.
pub open spec fn reply_user_field(s: CommentSource) -> Seq<char> {
    match s {
        CommentSource::Forum => "user"@,
        _ => "reply_user"@,
    }
}

/// The user field of a reply.
pub fn reply_user_field_of(s: CommentSource) -> (r: &'static str)
    ensures
        r@ == reply_user_field(s),
{
    match s {
        CommentSource::Forum => "user",
        _ => "reply_user",
    }
}

/// One request that a comment count is made of.
#[derive(Debug, Clone, PartialEq, Eq)]
pub struct CountRequest {
    pub endpoint: String,
    pub total_key: String,
    /// Whether the workshop parameters are sent.
    pub workshop_params: bool,
}

/// The entry point of queries.
#[derive(Debug, Clone, Copy, PartialEq, Eq)]
pub struct DataQuery;

fn endpoint(prefix: &str, id: i32, suffix: &str) -> (r: String)
    ensures
        r@ == prefix@ + dec_int(id as int) + suffix@,
{
    let mut s = own(prefix);
    push_i64(&mut s, id as i64);
    push_str(&mut s, suffix);
    s
}

/// The totals that a count is made of, in order: a work's comments, a
/// workshop discussion's comments and replies, a post's replies and
/// comments.
pub open spec fn count_requests_spec(source: CommentSource, id: i32) -> Seq<(Seq<char>, Seq<char>, bool)> {
    match source {
        CommentSource::Work => seq![
            ("/creation-tools/v1/works/"@ + dec_int(id as int) + "/comments"@, "total"@, false),
        ],
        CommentSource::Shop => seq![
            ("/web/discussions/"@ + dec_int(id as int) + "/comments"@, "total"@, true),
            ("/web/discussions/"@ + dec_int(id as int) + "/comments"@, "totalReply"@, true),
        ],
        CommentSource::Forum => seq![
            ("/web/forums/posts/"@ + dec_int(id as int) + "/details"@, "n_replies"@, false),
            ("/web/forums/posts/"@ + dec_int(id as int) + "/details"@, "n_comments"@, false),
        ],
    }
}

pub open spec fn count_request_v(r: CountRequest) -> (Seq<char>, Seq<char>, bool) {
    (r.endpoint@, r.total_key@, r.workshop_params)
}

/// The sum of the totals, each a count within `i32`.
pub open spec fn sum_totals(ts: Seq<u64>) -> int
    decreases ts.len(),
{
    if ts.len() == 0 {
        0
    } else {
        sum_totals(ts.drop_last()) + ts.last()
    }
}

/// Once every total is present and within `i32`, a prefix sums to no more
/// than the whole.
proof fn lemma_sum_totals_prefix(totals: Seq<Option<u64>>, i: int)
    requires
        0 <= i < totals.len(),
        forall|j: int| 0 <= j <= i ==> (#[trigger] totals[j]).is_some(),
    ensures
        sum_totals(totals.subrange(0, i + 1).map_values(|t: Option<u64>| t.unwrap()))
            == sum_totals(totals.subrange(0, i as int).map_values(|t: Option<u64>| t.unwrap()))
            + totals[i].unwrap(),
{
    let sub = totals.subrange(0, i + 1).map_values(|t: Option<u64>| t.unwrap());
    assert(sub.drop_last() =~= totals.subrange(0, i as int).map_values(|t: Option<u64>| t.unwrap()));
}

impl DataQuery {
    /// The query entry point.
    pub fn new() -> (r: DataQuery)
        ensures
            r == DataQuery,
    {
        DataQuery
    }

    /// A comment query with the default settings.
    pub fn query_comments(&self) -> (r: CommentQueryBuilder)
        ensures
            r == (CommentQueryBuilder { source: None, target_id: None, limit: Some(500) }),
    {
        CommentQueryBuilder::new()
    }

    /// The totals to fetch for a comment count.
    pub fn count_requests(&self, source: CommentSource, target_id: i32) -> (r: Vec<CountRequest>)
        ensures
            r@.map_values(|c: CountRequest| count_request_v(c)) == count_requests_spec(source, target_id),
    {
        let r = match source {
            CommentSource::Work => vec![
                CountRequest {
                    endpoint: endpoint("/creation-tools/v1/works/", target_id, "/comments"),
                    total_key: own("total"),
                    workshop_params: false,
                },
            ],
            CommentSource::Shop => vec![
                CountRequest {
                    endpoint: endpoint("/web/discussions/", target_id, "/comments"),
                    total_key: own("total"),
                    workshop_params: true,
                },
                CountRequest {
                    endpoint: endpoint("/web/discussions/", target_id, "/comments"),
                    total_key: own("totalReply"),
                    workshop_params: true,
                },
            ],
            CommentSource::Forum => vec![
                CountRequest {
                    endpoint: endpoint("/web/forums/posts/", target_id, "/details"),
                    total_key: own("n_replies"),
                    workshop_params: false,
                },
                CountRequest {
                    endpoint: endpoint("/web/forums/posts/", target_id, "/details"),
                    total_key: own("n_comments"),
                    workshop_params: false,
                },
            ],
        };
        assert(r@.map_values(|c: CountRequest| count_request_v(c)) =~= count_requests_spec(
            source,
            target_id,
        ));
        r
    }

    /// The comment count from the fetched totals, in the order of
    /// [`DataQuery::count_requests`]: a missing total is a parse error, as
    /// is a total beyond `i32`; otherwise their sum.
    pub fn count_comments(&self, totals: &Vec<Option<u64>>) -> (r: Result<i32, DataQueryError>)
        requires
            totals@.len() <= 2,
            (forall|i: int| 0 <= i < totals@.len() ==> (#[trigger] totals@[i]).is_some() && totals@[i].unwrap() <= i32::MAX)
                ==> sum_totals(totals@.map_values(|t: Option<u64>| t.unwrap())) <= i32::MAX,
        ensures
            (exists|i: int| 0 <= i < totals@.len() && (#[trigger] totals@[i]).is_none()) ==> (r matches Err(
                DataQueryError::ParseError(_),
            )),
            (forall|i: int| 0 <= i < totals@.len() ==> (#[trigger] totals@[i]).is_some()) ==> (match r {
                Ok(n) => (forall|i: int| 0 <= i < totals@.len() ==> (#[trigger] totals@[i]).unwrap()
                    <= i32::MAX) && n == sum_totals(totals@.map_values(|t: Option<u64>| t.unwrap())),
                Err(e) => e is ParseError && exists|i: int|
                    0 <= i < totals@.len() && (#[trigger] totals@[i]).unwrap() > i32::MAX,
            }),
    {
        let mut sum: i32 = 0;
        let mut i: usize = 0;
        while i < totals.len()
            invariant
                i <= totals@.len(),
                totals@.len() <= 2,
                forall|j: int| 0 <= j < i ==> (#[trigger] totals@[j]).is_some() && totals@[j].unwrap()
                    <= i32::MAX,
                sum == sum_totals(totals@.subrange(0, i as int).map_values(|t: Option<u64>| t.unwrap())),
                0 <= sum <= i * (i32::MAX as int),
                (forall|k: int| 0 <= k < totals@.len() ==> (#[trigger] totals@[k]).is_some() && totals@[k].unwrap() <= i32::MAX)
                    ==> sum_totals(totals@.map_values(|t: Option<u64>| t.unwrap())) <= i32::MAX,
            decreases totals@.len() - i,
        {
            let ghost sub = totals@.subrange(0, i + 1).map_values(|t: Option<u64>| t.unwrap());
            assert(sub.drop_last() =~= totals@.subrange(0, i as int).map_values(
                |t: Option<u64>| t.unwrap(),
            ));
            match totals[i] {
                None => {
                    return Err(DataQueryError::ParseError(own("分页元数据缺少总数")));
                },
                Some(t) => {
                    if t > 0x7fff_ffff {
                        assert(totals@[i as int].unwrap() > i32::MAX);
                        let mut m = own("总数超出 i32 范围: ");
                        crate::text::push_u64(&mut m, t);
                        return Err(DataQueryError::ParseError(m));
                    }
                    proof {
                        lemma_sum_totals_prefix(totals@, i as int);
                        if i == 1 {
                            assert(totals@.subrange(0, 2) =~= totals@);
                            assert forall|j: int| 0 <= j < totals@.len() implies (#[trigger] totals@[j]).is_some()
                                && totals@[j].unwrap() <= i32::MAX by {
                                if j < 1 {
                                    assert(totals@[j].is_some());
                                }
                            }
                        }
                    }
                    sum = sum + (t as i32);
                },
            }
            i = i + 1;
        }
        assert(totals@.subrange(0, totals@.len() as int) =~= totals@);
        Ok(sum)
    }
}


/// Keeps the first occurrence of each value of a stream.
#[derive(Debug, Clone, PartialEq, Eq)]
pub struct UniqueFilter {
    pub seen: Vec<String>,
}

pub open spec fn view_texts(s: Seq<String>) -> Seq<Seq<char>> {
    s.map_values(|t: String| t@)
}

/// The values of `s` without repeats, each where it first occurs.
pub open spec fn dedup_spec(s: Seq<Seq<char>>) -> Seq<Seq<char>>
    decreases s.len(),
{
    if s.len() == 0 {
        Seq::empty()
    } else {
        let d = dedup_spec(s.drop_last());
        if d.contains(s.last()) {
            d
        } else {
            d.push(s.last())
        }
    }
}

impl UniqueFilter {
    /// Nothing seen yet.
    pub fn new() -> (r: UniqueFilter)
        ensures
            r.seen@.len() == 0,
    {
        UniqueFilter { seen: Vec::new() }
    }

    /// Whether `v` is seen for the first time; it is remembered.
    pub fn accept(&mut self, v: &str) -> (r: bool)
        ensures
            r == !view_texts(old(self).seen@).contains(v@),
            view_texts(final(self).seen@) == (if r {
                view_texts(old(self).seen@).push(v@)
            } else {
                view_texts(old(self).seen@)
            }),
    {
        let mut i: usize = 0;
        while i < self.seen.len()
            invariant
                i <= self.seen@.len(),
                forall|j: int| 0 <= j < i ==> view_texts(self.seen@)[j] != v@,
            decreases self.seen@.len() - i,
        {
            if str_eq(self.seen[i].as_str(), v) {
                assert(view_texts(self.seen@)[i as int] == v@);
                return false;
            }
            i = i + 1;
        }
        let ghost before = self.seen@;
        self.seen.push(own(v));
        assert(view_texts(self.seen@) =~= view_texts(before).push(v@));
        true
    }
}

/// Filtering a stream keeps what the first-occurrence sequence keeps: after
/// taking `s` from a fresh filter, the accepted values are `dedup_spec(s)`,
/// and each value is accepted at most once.
pub proof fn law_unique_filter(s: Seq<Seq<char>>)
    ensures
        forall|i: int, j: int| 0 <= i < j < dedup_spec(s).len() ==> dedup_spec(s)[i] != dedup_spec(s)[j],
        forall|x: Seq<char>| s.contains(x) <==> dedup_spec(s).contains(x),
    decreases s.len(),
{
    if s.len() > 0 {
        law_unique_filter(s.drop_last());
        let d = dedup_spec(s.drop_last());
        let p = s.drop_last();
        assert forall|x: Seq<char>| s.contains(x) <==> (p.contains(x) || x == s.last()) by {
            if s.contains(x) {
                let k = choose|k: int| 0 <= k < s.len() && s[k] == x;
                if k < s.len() - 1 {
                    assert(p[k] == x);
                }
            }
            if p.contains(x) {
                let k = choose|k: int| 0 <= k < p.len() && p[k] == x;
                assert(s[k] == x);
            }
            if x == s.last() {
                assert(s[s.len() - 1] == x);
            }
        }
        if !d.contains(s.last()) {
            let e = d.push(s.last());
            assert forall|x: Seq<char>| e.contains(x) <==> (d.contains(x) || x == s.last()) by {
                if e.contains(x) {
                    let k = choose|k: int| 0 <= k < e.len() && e[k] == x;
                    if k < d.len() {
                        assert(d[k] == x);
                    }
                }
                if d.contains(x) {
                    let k = choose|k: int| 0 <= k < d.len() && d[k] == x;
                    assert(e[k] == x);
                }
                if x == s.last() {
                    assert(e[d.len() as int] == x);
                }
            }
            assert forall|i: int, j: int| 0 <= i < j < e.len() implies e[i] != e[j] by {
                if j == d.len() {
                    assert(e[i] == d[i]);
                    if d[i] == s.last() {
                        assert(d.contains(s.last()));
                    }
                } else {
                    assert(e[i] == d[i]);
                    assert(e[j] == d[j]);
                }
            }
        }
    }
}

/// The ids of a comment and its replies: the comment's id when it is not
/// zero, then `comment.reply` for every reply with an id; nothing when the
/// comment is not an object.
pub open spec fn comment_ids_spec(comment: JsonV, replies: Seq<JsonV>) -> Seq<Seq<char>> {
    match comment {
        JsonV::Object(_) => {
            let cid = match jint(jget(comment, "id"@)) {
                Some(n) => n as int,
                None => 0,
            };
            let head: Seq<Seq<char>> = if cid != 0 {
                seq![dec_int(cid)]
            } else {
                Seq::empty()
            };
            head + reply_ids_spec(cid, replies)
        },
        _ => Seq::empty(),
    }
}

/// `cid.rid` for every reply with an id.
pub open spec fn reply_ids_spec(cid: int, replies: Seq<JsonV>) -> Seq<Seq<char>>
    decreases replies.len(),
{
    if replies.len() == 0 {
        Seq::empty()
    } else {
        let rest = reply_ids_spec(cid, replies.drop_last());
        match jint(jget(replies.last(), "id"@)) {
            Some(rid) => rest.push(dec_int(cid) + seq!['.'] + dec_int(rid as int)),
            None => rest,
        }
    }
}

fn id_of(v: &Json) -> (r: Option<i64>)
    ensures
        r == jint(jget(v@, "id"@)),
{
    match v.get("id") {
        Some(x) => x.as_i64(),
        None => None,
    }
}

/// The ids of a comment and its replies.
pub fn comment_ids(comment: &Json, replies: &Vec<Json>) -> (r: Vec<String>)
    ensures
        view_texts(r@) == comment_ids_spec(comment@, view_items(replies@)),
{
    let mut out: Vec<String> = Vec::new();
    match comment {
        Json::Object(_) => {},
        _ => {
            assert(view_texts(out@) =~= Seq::empty());
            return out;
        },
    }
    let cid: i64 = match id_of(comment) {
        Some(n) => n,
        None => 0,
    };
    if cid != 0 {
        out.push(crate::text::fmt_i64(cid));
    }
    let ghost head = view_texts(out@);
    assert(head =~= (if cid != 0 {
        seq![dec_int(cid as int)]
    } else {
        Seq::<Seq<char>>::empty()
    }));
    proof {
        lemma_view_items(replies@);
    }
    let mut i: usize = 0;
    while i < replies.len()
        invariant
            i <= replies@.len(),
            view_items(replies@).len() == replies@.len(),
            forall|j: int| 0 <= j < replies@.len() ==> #[trigger] view_items(replies@)[j] == replies@[j]@,
            view_texts(out@) == head + reply_ids_spec(cid as int, view_items(replies@).subrange(0, i as int)),
        decreases replies@.len() - i,
    {
        let ghost sub = view_items(replies@).subrange(0, i + 1);
        assert(sub.drop_last() =~= view_items(replies@).subrange(0, i as int));
        assert(sub.last() == replies@[i as int]@);
        match id_of(&replies[i]) {
            Some(rid) => {
                let mut t = crate::text::fmt_i64(cid);
                crate::text::push_char(&mut t, '.');
                push_i64(&mut t, rid);
                assert(t@ =~= dec_int(cid as int) + seq!['.'] + dec_int(rid as int));
                let ghost before = out@;
                out.push(t);
                assert(view_texts(out@) =~= view_texts(before).push(
                    dec_int(cid as int) + seq!['.'] + dec_int(rid as int),
                ));
            },
            None => {},
        }
        i = i + 1;
    }
    assert(view_items(replies@).subrange(0, replies@.len() as int) =~= view_items(replies@));
    out
}

/// How many works each of the two sources gives for a total of `limit`:
/// half, rounded up.
pub fn per_source_limit(limit: i32) -> (r: i32)
    requires
        limit > 0,
    ensures
        r == limit / 2 + limit % 2,
        2 * r >= limit,
{
    limit / 2 + limit % 2
}

/// How many new replies a stream yields: all there are when the limit is
/// zero, else at most the limit.
pub fn replies_to_take(limit: i32, total: i32) -> (r: i32)
    ensures
        r == (if limit == 0 {
            total
        } else if limit < total {
            limit
        } else {
            total
        }),
{
    if limit == 0 {
        total
    } else if limit < total {
        limit
    } else {
        total
    }
}

/// The size of the next page of replies: what is left, but between 5 and 200.
pub fn reply_batch_size(remaining: i32) -> (r: i32)
    ensures
        r == (if remaining < 5 {
            5
        } else if remaining > 200 {
            200
        } else {
            remaining
        }),
{
    if remaining < 5 {
        5
    } else if remaining > 200 {
        200
    } else {
        remaining
    }
}

/// After a page of `fetched` replies: how many are kept and the new count
/// left and offset. An empty page ends the stream (`None`).
pub fn reply_page_step(remaining: i32, offset: i32, fetched: i32) -> (r: Option<(i32, i32, i32)>)
    requires
        remaining > 0,
        fetched >= 0,
        offset + fetched <= i32::MAX,
    ensures
        fetched == 0 ==> r.is_none(),
        fetched > 0 ==> r == Some(
            (
                if fetched < remaining {
                    fetched
                } else {
                    remaining
                },
                (remaining - (if fetched < remaining {
                    fetched
                } else {
                    remaining
                })) as i32,
                (offset + fetched) as i32,
            ),
        ),
{
    if fetched == 0 {
        return None;
    }
    let take = if fetched < remaining {
        fetched
    } else {
        remaining
    };
    Some((take, remaining - take, offset + fetched))
}


/// The fields kept of a work from the Nemo source: (name kept, name there).
pub open spec fn nemo_work_fields() -> Seq<(Seq<char>, Seq<char>)> {
    seq![
        ("work_id"@, "work_id"@),
        ("work_name"@, "work_name"@),
        ("user_name"@, "user_name"@),
        ("user_id"@, "user_id"@),
        ("like_count"@, "like_count"@),
        ("updated_at"@, "updated_at"@),
    ]
}

/// The fields kept of a work from the web source: (name kept, name there).
pub open spec fn web_work_fields() -> Seq<(Seq<char>, Seq<char>)> {
    seq![
        ("work_id"@, "work_id"@),
        ("work_name"@, "work_name"@),
        ("user_name"@, "nickname"@),
        ("user_id"@, "user_id"@),
        ("like_count"@, "likes_count"@),
        ("updated_at"@, "updated_at"@),
    ]
}

/// The fields of a work renamed by `mapping`; a field the work lacks is
/// left out.
pub open spec fn mapped_fields(es: Seq<(Seq<char>, JsonV)>, mapping: Seq<(Seq<char>, Seq<char>)>) -> Seq<
    (Seq<char>, JsonV),
>
    decreases mapping.len(),
{
    if mapping.len() == 0 {
        Seq::empty()
    } else {
        let rest = mapped_fields(es, mapping.drop_last());
        match crate::json::entry_val(es, mapping.last().1) {
            Some(v) => rest.push((mapping.last().0, v)),
            None => rest,
        }
    }
}

/// The works among `items` (the objects), each with its fields renamed.
pub open spec fn mapped_works(items: Seq<JsonV>, mapping: Seq<(Seq<char>, Seq<char>)>) -> Seq<JsonV>
    decreases items.len(),
{
    if items.len() == 0 {
        Seq::empty()
    } else {
        let rest = mapped_works(items.drop_last(), mapping);
        match items.last() {
            JsonV::Object(es) => rest.push(JsonV::Object(mapped_fields(es, mapping))),
            _ => rest,
        }
    }
}

/// Each work as a successful item of a stream.
pub open spec fn ok_works(s: Seq<JsonV>) -> Seq<Result<JsonV, Seq<char>>>
    decreases s.len(),
{
    if s.len() == 0 {
        Seq::empty()
    } else {
        ok_works(s.drop_last()).push(Ok(s.last()))
    }
}

/// What one source gives: the renamed works of the `items` of its answer,
/// or one error with the message of a failed fetch.
pub open spec fn source_works(answer: Result<JsonV, Seq<char>>, mapping: Seq<(Seq<char>, Seq<char>)>) -> Seq<
    Result<JsonV, Seq<char>>,
> {
    match answer {
        Ok(v) => ok_works(
            mapped_works(
                match jget(v, "items"@) {
                    Some(JsonV::Array(a)) => a,
                    _ => Seq::empty(),
                },
                mapping,
            ),
        ),
        Err(m) => seq![Err(m)],
    }
}

/// The works of both sources: the Nemo works, then the web works, at most
/// `limit` of them; nothing for a limit that is not positive.
pub open spec fn both_sources_spec(nemo: Result<JsonV, Seq<char>>, web: Result<JsonV, Seq<char>>, limit: i32) -> Seq<
    Result<JsonV, Seq<char>>,
> {
    if limit <= 0 {
        Seq::empty()
    } else {
        let all = source_works(nemo, nemo_work_fields()) + source_works(web, web_work_fields());
        if all.len() <= limit {
            all
        } else {
            all.take(limit as int)
        }
    }
}

/// The model of a stream of works.
pub open spec fn works_view(s: Seq<Result<Json, DataQueryError>>) -> Seq<Result<JsonV, Seq<char>>> {
    s.map_values(
        |r: Result<Json, DataQueryError>|
            match r {
                Ok(j) => Ok(j@),
                Err(DataQueryError::External(m)) => Err(m@),
                Err(_) => Err(Seq::empty()),
            },
    )
}

/// The model of a source's answer.
pub open spec fn answer_v(a: Result<Json, String>) -> Result<JsonV, Seq<char>> {
    match a {
        Ok(j) => Ok(j@),
        Err(m) => Err(m@),
    }
}

fn map_fields(es: &Vec<(String, Json)>, mapping: &Vec<(&str, &str)>) -> (r: Vec<(String, Json)>)
    ensures
        view_entries(r@) == mapped_fields(view_entries(es@), mapping@.map_values(|p: (&str, &str)| (p.0@, p.1@))),
{
    let ghost mv = mapping@.map_values(|p: (&str, &str)| (p.0@, p.1@));
    let mut out: Vec<(String, Json)> = Vec::new();
    assert(view_entries(out@) =~= mapped_fields(view_entries(es@), mv.subrange(0, 0)));
    let mut i: usize = 0;
    while i < mapping.len()
        invariant
            i <= mapping@.len(),
            mv == mapping@.map_values(|p: (&str, &str)| (p.0@, p.1@)),
            view_entries(out@) == mapped_fields(view_entries(es@), mv.subrange(0, i as int)),
        decreases mapping@.len() - i,
    {
        let ghost sub = mv.subrange(0, i + 1);
        assert(sub.drop_last() =~= mv.subrange(0, i as int));
        assert(sub.last() == (mapping@[i as int].0@, mapping@[i as int].1@));
        let (target, source) = mapping[i];
        match crate::json::find_entry(es, source) {
            Some(j) => {
                proof {
                    crate::json::lemma_find_key(view_entries(es@), source@);
                    lemma_view_entries(es@);
                }
                let e = (own(target), es[j].1.deep_clone());
                proof {
                    crate::json::lemma_view_entries_push(out@, e);
                }
                out.push(e);
            },
            None => {},
        }
        i = i + 1;
    }
    assert(mv.subrange(0, mapping@.len() as int) =~= mv);
    out
}

fn push_source_works(out: &mut Vec<Result<Json, DataQueryError>>, answer: &Result<Json, String>, mapping: &Vec<(&str, &str)>)
    ensures
        works_view(final(out)@) == works_view(old(out)@) + source_works(
            answer_v(*answer),
            mapping@.map_values(|p: (&str, &str)| (p.0@, p.1@)),
        ),
{
    let ghost mv = mapping@.map_values(|p: (&str, &str)| (p.0@, p.1@));
    let ghost start = works_view(out@);
    match answer {
        Ok(v) => {
            let empty: Vec<Json> = Vec::new();
            let items: &Vec<Json> = match v.get("items") {
                Some(Json::Array(a)) => a,
                _ => &empty,
            };
            let ghost iv = view_items(items@);
            proof {
                lemma_view_items(items@);
                lemma_view_items(empty@);
            }
            assert(iv == (match jget(v@, "items"@) {
                Some(JsonV::Array(a)) => a,
                _ => Seq::<JsonV>::empty(),
            }));
            assert(ok_works(mapped_works(iv.subrange(0, 0), mv)) =~= Seq::<Result<JsonV, Seq<char>>>::empty());
            assert(works_view(out@) =~= start + ok_works(mapped_works(iv.subrange(0, 0), mv)));
            let mut i: usize = 0;
            while i < items.len()
                invariant
                    i <= items@.len(),
                    iv == view_items(items@),
                    iv.len() == items@.len(),
                    forall|k: int| 0 <= k < items@.len() ==> #[trigger] iv[k] == items@[k]@,
                    mv == mapping@.map_values(|p: (&str, &str)| (p.0@, p.1@)),
                    works_view(out@) == start + ok_works(mapped_works(iv.subrange(0, i as int), mv)),
                decreases items@.len() - i,
            {
                let ghost sub = iv.subrange(0, i + 1);
                assert(sub.drop_last() =~= iv.subrange(0, i as int));
                assert(sub.last() == items@[i as int]@);
                let ghost before = out@;
                match &items[i] {
                    Json::Object(es) => {
                        let m = map_fields(es, mapping);
                        proof {
                            lemma_view_entries(m@);
                        }
                        out.push(Ok(Json::Object(m)));
                        assert(works_view(out@) =~= works_view(before).push(
                            Ok::<JsonV, Seq<char>>(JsonV::Object(view_entries(m@))),
                        ));
                        assert(sub.last() == JsonV::Object(view_entries(es@)));
                        assert(mapped_works(sub, mv) == mapped_works(iv.subrange(0, i as int), mv).push(
                            JsonV::Object(view_entries(m@)),
                        ));
                        let ghost mp = mapped_works(iv.subrange(0, i as int), mv);
                        let ghost x = JsonV::Object(view_entries(m@));
                        assert(mp.push(x).drop_last() =~= mp);
                        assert(ok_works(mapped_works(sub, mv)) == ok_works(mp).push(Ok::<JsonV, Seq<char>>(x)));
                    },
                    _ => {},
                }
                i = i + 1;
            }
            assert(iv.subrange(0, items@.len() as int) =~= iv);
        },
        Err(m) => {
            let ghost before = out@;
            out.push(Err(DataQueryError::External(m.clone())));
            assert(works_view(out@) =~= works_view(before).push(Err::<JsonV, Seq<char>>(m@)));
        },
    }
}

/// The works of the two sources for a stream of `limit` works
/// ([`both_sources_spec`]): `nemo` and `web` are the answers of the two
/// fetches, each asked for [`per_source_limit`] works, or the message of a
/// failed fetch.
pub fn merge_work_sources(nemo: &Result<Json, String>, web: &Result<Json, String>, limit: i32) -> (r: Vec<
    Result<Json, DataQueryError>,
>)
    ensures
        works_view(r@) == both_sources_spec(answer_v(*nemo), answer_v(*web), limit),
{
    let mut out: Vec<Result<Json, DataQueryError>> = Vec::new();
    if limit <= 0 {
        assert(works_view(out@) =~= Seq::<Result<JsonV, Seq<char>>>::empty());
        return out;
    }
    let nemo_fields: Vec<(&str, &str)> = vec![
        ("work_id", "work_id"),
        ("work_name", "work_name"),
        ("user_name", "user_name"),
        ("user_id", "user_id"),
        ("like_count", "like_count"),
        ("updated_at", "updated_at"),
    ];
    let web_fields: Vec<(&str, &str)> = vec![
        ("work_id", "work_id"),
        ("work_name", "work_name"),
        ("user_name", "nickname"),
        ("user_id", "user_id"),
        ("like_count", "likes_count"),
        ("updated_at", "updated_at"),
    ];
    assert(nemo_fields@.map_values(|p: (&str, &str)| (p.0@, p.1@)) =~= nemo_work_fields());
    assert(web_fields@.map_values(|p: (&str, &str)| (p.0@, p.1@)) =~= web_work_fields());
    assert(works_view(out@) =~= Seq::<Result<JsonV, Seq<char>>>::empty());
    push_source_works(&mut out, nemo, &nemo_fields);
    push_source_works(&mut out, web, &web_fields);
    let ghost all = works_view(out@);
    assert(all =~= source_works(answer_v(*nemo), nemo_work_fields()) + source_works(
        answer_v(*web),
        web_work_fields(),
    ));
    if out.len() > limit as usize {
        out.truncate(limit as usize);
        assert(works_view(out@) =~= all.take(limit as int));
    }
    out
}


/// One administrator's report counts. The share of all reports, a rounded
/// percentage, is worked out where it is shown.
#[derive(Debug, Clone, PartialEq, Eq)]
pub struct AdminReportStatsEntry {
    pub admin_id: i32,
    pub admin_name: String,
    pub comment_reports: i32,
    pub work_reports: i32,
    pub total_reports: i32,
}

/// The model of an [`AdminReportStatsEntry`].
pub struct AdminEntryV {
    pub admin_id: i32,
    pub admin_name: Seq<char>,
    pub comment_reports: i32,
    pub work_reports: i32,
    pub total_reports: i32,
}

impl View for AdminReportStatsEntry {
    type V = AdminEntryV;

    open spec fn view(&self) -> AdminEntryV {
        AdminEntryV {
            admin_id: self.admin_id,
            admin_name: self.admin_name@,
            comment_reports: self.comment_reports,
            work_reports: self.work_reports,
            total_reports: self.total_reports,
        }
    }
}

/// The administrators' report counts with their sums.
#[derive(Debug, Clone, PartialEq, Eq)]
pub struct AdminReportStatistics {
    pub total_admins: i32,
    pub total_comment_reports: i32,
    pub total_work_reports: i32,
    pub total_all_reports: i32,
    pub statistics: Vec<AdminReportStatsEntry>,
}

/// The administrators whose reports are counted: id and name.
pub fn report_admins() -> (r: Vec<(i32, &'static str)>)
    ensures
        r@.len() == 8,
        r@.map_values(|a: (i32, &str)| a.0) == seq![220i32, 222, 223, 224, 225, 226, 227, 228],
{
    let r = vec![
        (220, "石榴 Grant"),
        (222, "shidang88"),
        (223, "喵鱼 a"),
        (224, "沙雕的初小白"),
        (225, "旁观者 JErS"),
        (226, "宜壳乐 Cat"),
        (227, "凌风光耀 Aug"),
        (228, "奇怪的小蜜桃"),
    ];
    assert(r@.map_values(|a: (i32, &str)| a.0) =~= seq![220i32, 222, 223, 224, 225, 226, 227, 228]);
    r
}

/// Where an entry with `x`'s total goes among `s`: after the last entry whose
/// total is at least as large, scanning from the end.
pub open spec fn desc_slot(s: Seq<AdminEntryV>, x: AdminEntryV) -> nat
    decreases s.len(),
{
    if s.len() == 0 {
        0
    } else if s.last().total_reports >= x.total_reports {
        s.len()
    } else {
        desc_slot(s.drop_last(), x)
    }
}

/// The entries ordered by total, largest first; entries with equal totals
/// keep their order (a stable sort).
pub open spec fn sort_desc(s: Seq<AdminEntryV>) -> Seq<AdminEntryV>
    decreases s.len(),
{
    if s.len() == 0 {
        Seq::empty()
    } else {
        let t = sort_desc(s.drop_last());
        t.insert(desc_slot(t, s.last()) as int, s.last())
    }
}

/// The entry of one administrator's counts.
pub open spec fn admin_entry(c: (i32, Seq<char>, i32, i32)) -> AdminEntryV {
    AdminEntryV {
        admin_id: c.0,
        admin_name: c.1,
        comment_reports: c.2,
        work_reports: c.3,
        total_reports: (c.2 + c.3) as i32,
    }
}

/// The sum of the comment report counts.
pub open spec fn sum_comments(c: Seq<(i32, Seq<char>, i32, i32)>) -> int
    decreases c.len(),
{
    if c.len() == 0 {
        0
    } else {
        sum_comments(c.drop_last()) + c.last().2
    }
}

/// The sum of the work report counts.
pub open spec fn sum_works(c: Seq<(i32, Seq<char>, i32, i32)>) -> int
    decreases c.len(),
{
    if c.len() == 0 {
        0
    } else {
        sum_works(c.drop_last()) + c.last().3
    }
}

/// The models of the administrators' counts.
pub open spec fn counts_view(c: Seq<(i32, String, i32, i32)>) -> Seq<(i32, Seq<char>, i32, i32)> {
    c.map_values(|x: (i32, String, i32, i32)| (x.0, x.1@, x.2, x.3))
}

proof fn lemma_sums_monotone(c: Seq<(i32, Seq<char>, i32, i32)>, i: int)
    requires
        0 <= i <= c.len(),
        forall|k: int| 0 <= k < c.len() ==> (#[trigger] c[k]).2 >= 0 && c[k].3 >= 0,
    ensures
        0 <= sum_comments(c.take(i)) <= sum_comments(c),
        0 <= sum_works(c.take(i)) <= sum_works(c),
    decreases c.len() - i,
{
    if i < c.len() {
        assert(c.take(i + 1).drop_last() =~= c.take(i));
        lemma_sums_monotone(c, i + 1);
    } else {
        assert(c.take(i) =~= c);
    }
    if i > 0 {
        assert(c.take(i).drop_last() =~= c.take(i - 1));
    }
    lemma_sums_nonneg(c.take(i));
}

proof fn lemma_sums_nonneg(c: Seq<(i32, Seq<char>, i32, i32)>)
    requires
        forall|k: int| 0 <= k < c.len() ==> (#[trigger] c[k]).2 >= 0 && c[k].3 >= 0,
    ensures
        sum_comments(c) >= 0,
        sum_works(c) >= 0,
    decreases c.len(),
{
    if c.len() > 0 {
        assert forall|k: int| 0 <= k < c.drop_last().len() implies (#[trigger] c.drop_last()[k]).2 >= 0
            && c.drop_last()[k].3 >= 0 by {
            assert(c.drop_last()[k] == c[k]);
        }
        lemma_sums_nonneg(c.drop_last());
        assert(c.last() == c[c.len() - 1]);
    }
}

fn slot_of(s: &Vec<AdminReportStatsEntry>, total: i32) -> (r: usize)
    ensures
        r <= s@.len(),
        r == desc_slot(
            s@.map_values(|e: AdminReportStatsEntry| e@),
            AdminEntryV { admin_id: 0, admin_name: Seq::empty(), comment_reports: 0, work_reports: 0, total_reports: total },
        ),
{
    let ghost sv = s@.map_values(|e: AdminReportStatsEntry| e@);
    let ghost x = AdminEntryV { admin_id: 0, admin_name: Seq::empty(), comment_reports: 0, work_reports: 0, total_reports: total };
    let mut p: usize = s.len();
    assert(sv.take(p as int) =~= sv);
    while p > 0 && s[p - 1].total_reports < total
        invariant
            p <= s@.len(),
            sv == s@.map_values(|e: AdminReportStatsEntry| e@),
            desc_slot(sv, x) == desc_slot(sv.take(p as int), x),
            x.total_reports == total,
        decreases p,
    {
        assert(sv.take(p as int).drop_last() =~= sv.take(p - 1));
        assert(sv.take(p as int).last() == s@[p - 1]@);
        assert(sv.take(p as int).last().total_reports < x.total_reports);
        assert(desc_slot(sv.take(p as int), x) == desc_slot(sv.take(p - 1), x));
        p = p - 1;
    }
    if p > 0 {
        assert(sv.take(p as int).last() == s@[p - 1]@);
    }
    p
}

proof fn lemma_slot_total_only(s: Seq<AdminEntryV>, x: AdminEntryV, y: AdminEntryV)
    requires
        x.total_reports == y.total_reports,
    ensures
        desc_slot(s, x) == desc_slot(s, y),
    decreases s.len(),
{
    if s.len() > 0 {
        lemma_slot_total_only(s.drop_last(), x, y);
    }
}

/// The statistics of the administrators' counts (`counts`: id, name,
/// comment reports, work reports, in the order asked): each entry with its
/// total, the entries by total, largest first and in the order given among
/// equal totals, and the sums.
pub fn admin_report_stats(counts: &Vec<(i32, String, i32, i32)>) -> (r: AdminReportStatistics)
    requires
        counts@.len() <= i32::MAX,
        forall|k: int| 0 <= k < counts@.len() ==> (#[trigger] counts@[k]).2 >= 0 && counts@[k].3 >= 0,
        sum_comments(counts_view(counts@)) + sum_works(counts_view(counts@)) <= i32::MAX,
    ensures
        r.total_admins == counts@.len(),
        r.total_comment_reports == sum_comments(counts_view(counts@)),
        r.total_work_reports == sum_works(counts_view(counts@)),
        r.total_all_reports == sum_comments(counts_view(counts@)) + sum_works(counts_view(counts@)),
        r.statistics@.map_values(|e: AdminReportStatsEntry| e@) == sort_desc(
            counts_view(counts@).map_values(|c: (i32, Seq<char>, i32, i32)| admin_entry(c)),
        ),
{
    let ghost cv = counts_view(counts@);
    let ghost ev = cv.map_values(|c: (i32, Seq<char>, i32, i32)| admin_entry(c));
    proof {
        assert forall|k: int| 0 <= k < cv.len() implies (#[trigger] cv[k]).2 >= 0 && cv[k].3 >= 0 by {
            assert(cv[k] == (counts@[k].0, counts@[k].1@, counts@[k].2, counts@[k].3));
        }
    }
    let mut stats: Vec<AdminReportStatsEntry> = Vec::new();
    let mut total_comments: i32 = 0;
    let mut total_works: i32 = 0;
    assert(ev.take(0) =~= Seq::<AdminEntryV>::empty());
    assert(cv.take(0) =~= Seq::<(i32, Seq<char>, i32, i32)>::empty());
    assert(stats@.map_values(|e: AdminReportStatsEntry| e@) =~= Seq::<AdminEntryV>::empty());
    let mut i: usize = 0;
    while i < counts.len()
        invariant
            i <= counts@.len(),
            cv == counts_view(counts@),
            ev == cv.map_values(|c: (i32, Seq<char>, i32, i32)| admin_entry(c)),
            forall|k: int| 0 <= k < cv.len() ==> (#[trigger] cv[k]).2 >= 0 && cv[k].3 >= 0,
            sum_comments(cv) + sum_works(cv) <= i32::MAX,
            total_comments == sum_comments(cv.take(i as int)),
            total_works == sum_works(cv.take(i as int)),
            stats@.map_values(|e: AdminReportStatsEntry| e@) == sort_desc(ev.take(i as int)),
        decreases counts@.len() - i,
    {
        proof {
            lemma_sums_monotone(cv, i + 1);
            assert(cv.take(i + 1).drop_last() =~= cv.take(i as int));
            assert(cv.take(i + 1).last() == cv[i as int]);
            assert(cv[i as int] == (counts@[i as int].0, counts@[i as int].1@, counts@[i as int].2, counts@[i as int].3));
            lemma_sums_nonneg(cv.take(i as int));
        }
        let (id, name, c, w) = (counts[i].0, counts[i].1.clone(), counts[i].2, counts[i].3);
        assert(c + w <= i32::MAX);
        total_comments = total_comments + c;
        total_works = total_works + w;
        let entry = AdminReportStatsEntry {
            admin_id: id,
            admin_name: name,
            comment_reports: c,
            work_reports: w,
            total_reports: c + w,
        };
        let ghost sv = stats@.map_values(|e: AdminReportStatsEntry| e@);
        let p = slot_of(&stats, c + w);
        proof {
            lemma_slot_total_only(
                sv,
                AdminEntryV { admin_id: 0, admin_name: Seq::empty(), comment_reports: 0, work_reports: 0, total_reports: (c + w) as i32 },
                entry@,
            );
            assert(ev.take(i + 1).drop_last() =~= ev.take(i as int));
            assert(ev.take(i + 1).last() == entry@);
        }
        stats.insert(p, entry);
        assert(stats@.map_values(|e: AdminReportStatsEntry| e@) =~= sv.insert(p as int, entry@));
        i = i + 1;
    }
    assert(cv.take(counts@.len() as int) =~= cv);
    assert(ev.take(counts@.len() as int) =~= ev);
    proof {
        lemma_sums_nonneg(cv);
    }
    AdminReportStatistics {
        total_admins: counts.len() as i32,
        total_comment_reports: total_comments,
        total_work_reports: total_works,
        total_all_reports: total_comments + total_works,
        statistics: stats,
    }
}


/// Whether the entries are ordered by total, largest first.
pub open spec fn sorted_desc(s: Seq<AdminEntryV>) -> bool {
    forall|i: int, j: int| 0 <= i < j < s.len() ==> (#[trigger] s[i]).total_reports >= (#[trigger] s[j]).total_reports
}

proof fn lemma_desc_slot(t: Seq<AdminEntryV>, x: AdminEntryV)
    ensures
        desc_slot(t, x) <= t.len(),
        forall|k: int| desc_slot(t, x) <= k < t.len() ==> (#[trigger] t[k]).total_reports < x.total_reports,
        desc_slot(t, x) > 0 ==> t[desc_slot(t, x) - 1].total_reports >= x.total_reports,
    decreases t.len(),
{
    if t.len() > 0 && t.last().total_reports < x.total_reports {
        lemma_desc_slot(t.drop_last(), x);
        assert forall|k: int| desc_slot(t, x) <= k < t.len() implies (#[trigger] t[k]).total_reports
            < x.total_reports by {
            if k < t.len() - 1 {
                assert(t[k] == t.drop_last()[k]);
            }
        }
        if desc_slot(t, x) > 0 {
            assert(t[desc_slot(t, x) - 1] == t.drop_last()[desc_slot(t, x) - 1]);
        }
    }
}

/// The administrators' statistics are ordered by total, largest first, and
/// hold one entry for each administrator counted.
pub proof fn law_admin_stats_sorted(s: Seq<AdminEntryV>)
    ensures
        sorted_desc(sort_desc(s)),
        sort_desc(s).len() == s.len(),
    decreases s.len(),
{
    if s.len() > 0 {
        law_admin_stats_sorted(s.drop_last());
        let t = sort_desc(s.drop_last());
        let x = s.last();
        let p = desc_slot(t, x) as int;
        lemma_desc_slot(t, x);
        let u = t.insert(p, x);
        assert forall|i: int, j: int| 0 <= i < j < u.len() implies (#[trigger] u[i]).total_reports
            >= (#[trigger] u[j]).total_reports by {
            if j < p {
                assert(u[i] == t[i] && u[j] == t[j]);
            } else if j == p {
                assert(u[i] == t[i]);
                assert(t[i].total_reports >= t[p - 1].total_reports || i == p - 1);
            } else if i < p {
                assert(u[i] == t[i] && u[j] == t[j - 1]);
            } else if i == p {
                assert(u[j] == t[j - 1]);
            } else {
                assert(u[i] == t[i - 1] && u[j] == t[j - 1]);
            }
        }
    }
}


/// One commenter's comments: user id, nickname, and the comment texts in
/// the order met.
pub struct UserCommentsV {
    pub uid: Seq<char>,
    pub nick: Seq<char>,
    pub comments: Seq<Seq<char>>,
}

/// The user id, text and nickname of a comment, when it has all three: the
/// id is a number's text or a string.
pub open spec fn comment_parts(c: JsonV) -> Option<(Seq<char>, Seq<char>, Seq<char>)> {
    let uid = match jget(c, "user_id"@) {
        Some(JsonV::Number(t)) => Some(t),
        Some(JsonV::Str(t)) => Some(t),
        _ => None,
    };
    match (uid, jstr(jget(c, "content"@)), jstr(jget(c, "nickname"@))) {
        (Some(u), Some(t), Some(n)) => Some((u, t, n)),
        _ => None,
    }
}

/// Whether a commenter is the user `u`.
pub open spec fn commenter_is(u: Seq<char>) -> spec_fn(UserCommentsV) -> bool {
    |g: UserCommentsV| g.uid == u
}

/// The comments grouped by user, users in the order they first comment;
/// each user keeps the nickname of their first comment.
pub open spec fn group_comments(cs: Seq<JsonV>) -> Seq<UserCommentsV>
    decreases cs.len(),
{
    if cs.len() == 0 {
        Seq::empty()
    } else {
        let gs = group_comments(cs.drop_last());
        match comment_parts(cs.last()) {
            Some((u, t, n)) => match crate::search::first_index(gs, commenter_is(u)) {
                Some(i) => gs.update(i, UserCommentsV { comments: gs[i].comments.push(t), ..gs[i] }),
                None => gs.push(UserCommentsV { uid: u, nick: n, comments: seq![t] }),
            },
            None => gs,
        }
    }
}

/// Where a group with `n` comments goes among `s`: after the last group with
/// at least as many, scanning from the end.
pub open spec fn count_slot(s: Seq<UserCommentsV>, n: nat) -> nat
    decreases s.len(),
{
    if s.len() == 0 {
        0
    } else if s.last().comments.len() >= n {
        s.len()
    } else {
        count_slot(s.drop_last(), n)
    }
}

/// The groups by number of comments, most first, keeping their order among
/// equal numbers.
pub open spec fn sort_by_count(s: Seq<UserCommentsV>) -> Seq<UserCommentsV>
    decreases s.len(),
{
    if s.len() == 0 {
        Seq::empty()
    } else {
        let t = sort_by_count(s.drop_last());
        t.insert(count_slot(t, s.last().comments.len()) as int, s.last())
    }
}

/// A commenter's record: `user_id`, `nickname`, `comments`, `comment_count`.
pub open spec fn commenter_json(g: UserCommentsV) -> JsonV {
    JsonV::Object(
        seq![
            ("user_id"@, JsonV::Str(g.uid)),
            ("nickname"@, JsonV::Str(g.nick)),
            ("comments"@, JsonV::Array(g.comments.map_values(|t: Seq<char>| JsonV::Str(t)))),
            ("comment_count"@, crate::json::jnum(g.comments.len() as int)),
        ],
    )
}

/// The model of groups being built.
pub open spec fn groups_view(g: Seq<(String, String, Vec<String>)>) -> Seq<UserCommentsV> {
    g.map_values(
        |x: (String, String, Vec<String>)|
            UserCommentsV { uid: x.0@, nick: x.1@, comments: x.2@.map_values(|t: String| t@) },
    )
}

fn parts_of(c: &Json) -> (r: Option<(String, String, String)>)
    ensures
        match r {
            Some(p) => comment_parts(c@) == Some((p.0@, p.1@, p.2@)),
            None => comment_parts(c@).is_none(),
        },
{
    let uid = match c.get("user_id") {
        Some(Json::Number(t)) => Some(t.clone()),
        Some(Json::Str(t)) => Some(t.clone()),
        _ => None,
    };
    match (uid, crate::chat::str_field(c, "content"), crate::chat::str_field(c, "nickname")) {
        (Some(u), Some(t), Some(n)) => Some((u, t, n)),
        _ => None,
    }
}

fn find_group(gs: &Vec<(String, String, Vec<String>)>, u: &str) -> (r: Option<usize>)
    ensures
        match r {
            Some(i) => crate::search::first_index(groups_view(gs@), commenter_is(u@)) == Some(i as int),
            None => crate::search::first_index(groups_view(gs@), commenter_is(u@)) is None,
        },
        r matches Some(i) ==> i < gs@.len(),
{
    let ghost gv = groups_view(gs@);
    let mut i: usize = 0;
    while i < gs.len()
        invariant
            i <= gs@.len(),
            gv == groups_view(gs@),
            forall|k: int| 0 <= k < i ==> !commenter_is(u@)(#[trigger] gv[k]),
        decreases gs@.len() - i,
    {
        if str_eq(gs[i].0.as_str(), u) {
            proof {
                crate::search::lemma_first_index_at(gv, commenter_is(u@), i as int);
            }
            return Some(i);
        }
        assert(!commenter_is(u@)(gv[i as int]));
        i = i + 1;
    }
    proof {
        crate::search::lemma_first_index_none(gv, commenter_is(u@));
    }
    None
}

fn count_slot_of(s: &Vec<(String, String, Vec<String>)>, n: usize) -> (r: usize)
    ensures
        r <= s@.len(),
        r == count_slot(groups_view(s@), n as nat),
{
    let ghost sv = groups_view(s@);
    let mut p: usize = s.len();
    assert(sv.take(p as int) =~= sv);
    while p > 0 && s[p - 1].2.len() < n
        invariant
            p <= s@.len(),
            sv == groups_view(s@),
            count_slot(sv, n as nat) == count_slot(sv.take(p as int), n as nat),
        decreases p,
    {
        assert(sv.take(p as int).drop_last() =~= sv.take(p - 1));
        assert(sv.take(p as int).last() == sv[p - 1]);
        assert(sv[p - 1].comments.len() == s@[p - 1].2@.len());
        p = p - 1;
    }
    if p > 0 {
        assert(sv.take(p as int).last() == sv[p - 1]);
        assert(sv[p - 1].comments.len() == s@[p - 1].2@.len());
    }
    p
}

fn texts_json(ts: &Vec<String>) -> (r: Json)
    ensures
        r@ == JsonV::Array(ts@.map_values(|t: String| t@).map_values(|t: Seq<char>| JsonV::Str(t))),
{
    let mut out: Vec<Json> = Vec::new();
    let mut i: usize = 0;
    while i < ts.len()
        invariant
            i <= ts@.len(),
            view_items(out@) == ts@.map_values(|t: String| t@).map_values(|t: Seq<char>| JsonV::Str(t)).take(
                i as int,
            ),
        decreases ts@.len() - i,
    {
        let ghost before = out@;
        out.push(Json::Str(own(ts[i].as_str())));
        proof {
            crate::json::lemma_view_items_push(before, out@.last());
        }
        assert(view_items(out@) =~= ts@.map_values(|t: String| t@).map_values(|t: Seq<char>| JsonV::Str(t)).take(
            i + 1,
        ));
        i = i + 1;
    }
    assert(ts@.map_values(|t: String| t@).map_values(|t: Seq<char>| JsonV::Str(t)).take(ts@.len() as int)
        =~= ts@.map_values(|t: String| t@).map_values(|t: Seq<char>| JsonV::Str(t)));
    Json::Array(out)
}

/// The comments of new works gathered by commenter: the comments of every
/// work in the order given, grouped by user ([`group_comments`]), the users
/// by number of comments, most first ([`sort_by_count`]), each as
/// [`commenter_json`].
pub fn aggregate_user_comments(comments: &Vec<Json>) -> (r: Vec<Json>)
    requires
        comments@.len() <= i32::MAX,
    ensures
        view_items(r@) == sort_by_count(group_comments(view_items(comments@))).map_values(
            |g: UserCommentsV| commenter_json(g),
        ),
{
    let ghost cv = view_items(comments@);
    proof {
        lemma_view_items(comments@);
    }
    let mut groups: Vec<(String, String, Vec<String>)> = Vec::new();
    assert(cv.take(0) =~= Seq::<JsonV>::empty());
    assert(groups_view(groups@) =~= Seq::<UserCommentsV>::empty());
    let mut i: usize = 0;
    while i < comments.len()
        invariant
            i <= comments@.len(),
            cv == view_items(comments@),
            cv.len() == comments@.len(),
            forall|k: int| 0 <= k < comments@.len() ==> #[trigger] cv[k] == comments@[k]@,
            groups_view(groups@) == group_comments(cv.take(i as int)),
        decreases comments@.len() - i,
    {
        assert(cv.take(i + 1).drop_last() =~= cv.take(i as int));
        assert(cv.take(i + 1).last() == comments@[i as int]@);
        let ghost gv = groups_view(groups@);
        match parts_of(&comments[i]) {
            Some((u, t, n)) => {
                match find_group(&groups, u.as_str()) {
                    Some(j) => {
                        proof {
                            crate::search::lemma_first_index(gv, commenter_is(u@));
                        }
                        assert(gv == groups_view(groups@));
                        let ghost tv = t@;
                        let (gu, gn, mut gc) = groups.remove(j);
                        let ghost old_c = gc@;
                        gc.push(t);
                        groups.insert(j, (gu, gn, gc));
                        assert(gc@.map_values(|x: String| x@) =~= old_c.map_values(|x: String| x@).push(tv));
                        assert(groups_view(groups@) =~= gv.update(
                            j as int,
                            UserCommentsV { comments: gv[j as int].comments.push(tv), ..gv[j as int] },
                        ));
                        assert(comment_parts(cv.take(i + 1).last()) == Some((u@, tv, n@)));
                        assert(group_comments(cv.take(i + 1)) == gv.update(
                            j as int,
                            UserCommentsV { comments: gv[j as int].comments.push(tv), ..gv[j as int] },
                        ));
                    },
                    None => {
                        let ghost (uv, tv, nv) = (u@, t@, n@);
                        let cs = vec![t];
                        assert(cs@.map_values(|x: String| x@) =~= seq![tv]);
                        groups.push((u, n, cs));
                        assert(groups_view(groups@) =~= gv.push(UserCommentsV { uid: uv, nick: nv, comments: seq![tv] }));
                        assert(group_comments(cv.take(i + 1)) == gv.push(UserCommentsV { uid: uv, nick: nv, comments: seq![tv] }));
                    },
                }
            },
            None => {
                assert(group_comments(cv.take(i + 1)) == gv);
            },
        }
        i = i + 1;
    }
    assert(cv.take(comments@.len() as int) =~= cv);
    let ghost all = groups_view(groups@);
    let mut sorted: Vec<(String, String, Vec<String>)> = Vec::new();
    assert(all.take(0) =~= Seq::<UserCommentsV>::empty());
    assert(groups_view(sorted@) =~= Seq::<UserCommentsV>::empty());
    let mut k: usize = 0;
    let n_groups = groups.len();
    while k < n_groups
        invariant
            k <= n_groups,
            n_groups == all.len(),
            groups_view(groups@) == all.skip(k as int),
            groups@.len() == n_groups - k,
            groups_view(sorted@) == sort_by_count(all.take(k as int)),
        decreases n_groups - k,
    {
        let ghost gv0 = groups_view(groups@);
        let ghost g0 = groups@[0];
        assert(gv0[0] == UserCommentsV { uid: g0.0@, nick: g0.1@, comments: g0.2@.map_values(|t: String| t@) });
        let g = groups.remove(0);
        let ghost x = UserCommentsV { uid: g.0@, nick: g.1@, comments: g.2@.map_values(|t: String| t@) };
        assert(all.skip(k as int)[0] == all[k as int]);
        assert(all[k as int] == x);
        let ghost before = groups_view(sorted@);
        let p = count_slot_of(&sorted, g.2.len());
        sorted.insert(p, g);
        assert(groups_view(sorted@) =~= before.insert(p as int, x));
        assert(all.take(k + 1).drop_last() =~= all.take(k as int));
        assert(all.take(k + 1).last() == x);
        assert(groups_view(groups@) =~= gv0.skip(1));
        assert(gv0.skip(1) =~= all.skip(k + 1));
        k = k + 1;
    }
    assert(all.take(n_groups as int) =~= all);
    let mut out: Vec<Json> = Vec::new();
    let ghost sv = groups_view(sorted@);
    let mut m: usize = 0;
    while m < sorted.len()
        invariant
            m <= sorted@.len(),
            sv == groups_view(sorted@),
            view_items(out@) == sv.map_values(|g: UserCommentsV| commenter_json(g)).take(m as int),
        decreases sorted@.len() - m,
    {
        let g = &sorted[m];
        let mut es: Vec<(String, Json)> = Vec::new();
        es.push((own("user_id"), Json::Str(own(g.0.as_str()))));
        es.push((own("nickname"), Json::Str(own(g.1.as_str()))));
        es.push((own("comments"), texts_json(&g.2)));
        es.push((own("comment_count"), Json::from_u64(g.2.len() as u64)));
        proof {
            lemma_view_entries(es@);
        }
        assert(view_entries(es@) =~= commenter_json(sv[m as int])->Object_0);
        let ghost before = out@;
        out.push(Json::Object(es));
        proof {
            crate::json::lemma_view_items_push(before, out@.last());
        }
        assert(view_items(out@) =~= sv.map_values(|g: UserCommentsV| commenter_json(g)).take(m + 1));
        m = m + 1;
    }
    assert(sv.map_values(|g: UserCommentsV| commenter_json(g)).take(sorted@.len() as int) =~= sv.map_values(
        |g: UserCommentsV| commenter_json(g),
    ));
    out
}

/// Where [`count_slot`] puts a group among groups already ordered by count,
/// most first: after every group with at least `n` comments, before every
/// group with fewer.
proof fn lemma_count_slot(t: Seq<UserCommentsV>, n: nat)
    requires
        forall|i: int, j: int|
            0 <= i < j < t.len() ==> (#[trigger] t[i]).comments.len() >= (#[trigger] t[j]).comments.len(),
    ensures
        count_slot(t, n) <= t.len(),
        forall|j: int| 0 <= j < count_slot(t, n) ==> (#[trigger] t[j]).comments.len() >= n,
        forall|j: int| count_slot(t, n) <= j < t.len() ==> (#[trigger] t[j]).comments.len() < n,
    decreases t.len(),
{
    if t.len() > 0 {
        if t.last().comments.len() >= n {
            assert forall|j: int| 0 <= j < t.len() implies (#[trigger] t[j]).comments.len() >= n by {
                if j < t.len() - 1 {
                    assert(t[j].comments.len() >= t[t.len() - 1].comments.len());
                }
            }
        } else {
            let t0 = t.drop_last();
            assert forall|i: int, j: int| 0 <= i < j < t0.len() implies (#[trigger] t0[i]).comments.len() >= (
            #[trigger] t0[j]).comments.len() by {
                assert(t0[i] == t[i] && t0[j] == t[j]);
            }
            lemma_count_slot(t0, n);
            assert forall|j: int| 0 <= j < count_slot(t, n) implies (#[trigger] t[j]).comments.len() >= n by {
                assert(t[j] == t0[j]);
            }
            assert forall|j: int| count_slot(t, n) <= j < t.len() implies (#[trigger] t[j]).comments.len() < n by {
                if j < t.len() - 1 {
                    assert(t[j] == t0[j]);
                }
            }
        }
    }
}

/// Commenters come out by number of comments, most first, and none is lost
/// or added: the result is a reordering of the groups.
pub proof fn law_sort_by_count(s: Seq<UserCommentsV>)
    ensures
        sort_by_count(s).to_multiset() == s.to_multiset(),
        forall|i: int, j: int|
            0 <= i < j < sort_by_count(s).len() ==> (#[trigger] sort_by_count(s)[i]).comments.len() >= (
            #[trigger] sort_by_count(s)[j]).comments.len(),
    decreases s.len(),
{
    if s.len() == 0 {
        assert(s =~= Seq::<UserCommentsV>::empty());
    } else {
        let s0 = s.drop_last();
        law_sort_by_count(s0);
        let t = sort_by_count(s0);
        let x = s.last();
        let n = x.comments.len();
        lemma_count_slot(t, n);
        let k = count_slot(t, n) as int;
        let r = t.insert(k, x);
        assert(r == sort_by_count(s));
        vstd::seq_lib::to_multiset_insert(t, k, x);
        vstd::seq_lib::to_multiset_build(s0, x);
        assert(s0.push(x) =~= s);
        assert forall|i: int, j: int| 0 <= i < j < r.len() implies (#[trigger] r[i]).comments.len() >= (
        #[trigger] r[j]).comments.len() by {
            if j < k {
                assert(r[i] == t[i] && r[j] == t[j]);
            } else if j == k {
                assert(r[i] == t[i]);
            } else if i < k {
                assert(r[i] == t[i] && r[j] == t[j - 1]);
            } else if i == k {
                assert(r[j] == t[j - 1]);
            } else {
                assert(r[i] == t[i - 1] && r[j] == t[j - 1]);
            }
        }
    }
}

/// The texts of the well-formed comments by user `u`, in order.
pub open spec fn user_texts(cs: Seq<JsonV>, u: Seq<char>) -> Seq<Seq<char>>
    decreases cs.len(),
{
    if cs.len() == 0 {
        Seq::empty()
    } else {
        let rest = user_texts(cs.drop_last(), u);
        match comment_parts(cs.last()) {
            Some((u2, t, _)) => if u2 == u {
                rest.push(t)
            } else {
                rest
            },
            None => rest,
        }
    }
}

/// Comments are gathered exactly by user: each group holds every text its
/// user wrote, in order, no user has two groups, and every user with a
/// comment has a group.
pub proof fn law_group_comments_by_user(cs: Seq<JsonV>)
    ensures
        forall|k: int|
            0 <= k < group_comments(cs).len() ==> (#[trigger] group_comments(cs)[k]).comments == user_texts(
                cs,
                group_comments(cs)[k].uid,
            ),
        forall|k: int, m: int|
            0 <= k < m < group_comments(cs).len() ==> (#[trigger] group_comments(cs)[k]).uid != (
            #[trigger] group_comments(cs)[m]).uid,
        forall|u: Seq<char>|
            #![trigger user_texts(cs, u)]
            user_texts(cs, u).len() > 0 ==> exists|k: int|
                0 <= k < group_comments(cs).len() && (#[trigger] group_comments(cs)[k]).uid == u,
    decreases cs.len(),
{
    if cs.len() > 0 {
        let c0 = cs.drop_last();
        law_group_comments_by_user(c0);
        let g = group_comments(c0);
        let g2 = group_comments(cs);
        match comment_parts(cs.last()) {
            None => {
                assert forall|u: Seq<char>| #![trigger user_texts(cs, u)] true implies user_texts(cs, u)
                    == user_texts(c0, u) by {}
            },
            Some((u, t, n)) => {
                crate::search::lemma_first_index(g, commenter_is(u));
                match crate::search::first_index(g, commenter_is(u)) {
                    Some(k0) => {
                        assert(g[k0].uid == u);
                        assert forall|k: int| 0 <= k < g2.len() implies (#[trigger] g2[k]).comments == user_texts(
                            cs,
                            g2[k].uid,
                        ) by {
                            if k != k0 {
                                assert(g2[k] == g[k]);
                                assert(g[k].uid != g[k0].uid);
                            }
                        }
                        assert forall|k: int, m: int| 0 <= k < m < g2.len() implies (#[trigger] g2[k]).uid != (
                        #[trigger] g2[m]).uid by {
                            assert(g2[k].uid == g[k].uid);
                            assert(g2[m].uid == g[m].uid);
                        }
                        assert forall|u2: Seq<char>|
                            #![trigger user_texts(cs, u2)]
                            user_texts(cs, u2).len() > 0 implies exists|k: int|
                                0 <= k < g2.len() && (#[trigger] g2[k]).uid == u2 by {
                            if u2 == u {
                                assert(g2[k0].uid == u2);
                            } else {
                                assert(user_texts(cs, u2) == user_texts(c0, u2));
                                let k = choose|k: int| 0 <= k < g.len() && (#[trigger] g[k]).uid == u2;
                                assert(g2[k].uid == u2);
                            }
                        }
                    },
                    None => {
                        assert(user_texts(c0, u).len() == 0) by {
                            if user_texts(c0, u).len() > 0 {
                                let k = choose|k: int| 0 <= k < g.len() && (#[trigger] g[k]).uid == u;
                                assert(commenter_is(u)(g[k]));
                            }
                        }
                        assert(user_texts(c0, u).push(t) =~= seq![t]);
                        assert forall|k: int| 0 <= k < g2.len() implies (#[trigger] g2[k]).comments == user_texts(
                            cs,
                            g2[k].uid,
                        ) by {
                            if k < g.len() {
                                assert(g2[k] == g[k]);
                                assert(!commenter_is(u)(g[k]));
                            }
                        }
                        assert forall|k: int, m: int| 0 <= k < m < g2.len() implies (#[trigger] g2[k]).uid != (
                        #[trigger] g2[m]).uid by {
                            if m == g.len() {
                                assert(!commenter_is(u)(g[k]));
                            } else {
                                assert(g2[k] == g[k] && g2[m] == g[m]);
                            }
                        }
                        assert forall|u2: Seq<char>|
                            #![trigger user_texts(cs, u2)]
                            user_texts(cs, u2).len() > 0 implies exists|k: int|
                                0 <= k < g2.len() && (#[trigger] g2[k]).uid == u2 by {
                            if u2 == u {
                                assert(g2[g.len() as int].uid == u2);
                            } else {
                                assert(user_texts(cs, u2) == user_texts(c0, u2));
                                let k = choose|k: int| 0 <= k < g.len() && (#[trigger] g[k]).uid == u2;
                                assert(g2[k].uid == u2);
                            }
                        }
                    },
                }
            },
        }
    }
}

} // verus!
