//! The decisions of the report executor: remembered batch actions and
//! handled records, violation identifiers, the reading of report and reply
//! records, and the account list.

use vstd::prelude::*;

use crate::json::{jget, jint, jstr, view_items, Json, JsonV};
use crate::registry::{Resolution, SourceConfig};
use crate::search::{first_index, lemma_first_index, lemma_first_index_at, lemma_first_index_none};
use crate::text::{dec_int, own, parse_i32_spec, push_char, push_i64, push_str, str_eq};

verus! {

/// Batch actions chosen for groups of reports, and the records already
/// handled.
#[derive(Debug, Clone, PartialEq, Eq)]
pub struct BatchActionManager {
    /// The action chosen for each (group type, group key).
    pub batch_actions: Vec<((String, String), String)>,
    pub processed_records: Vec<String>,
}

pub open spec fn group_is(t: Seq<char>, k: Seq<char>) -> spec_fn(((String, String), String)) -> bool {
    |e: ((String, String), String)| e.0.0@ == t && e.0.1@ == k
}

impl BatchActionManager {
    /// The action saved for a group.
    pub open spec fn action_for(self, t: Seq<char>, k: Seq<char>) -> Option<Seq<char>> {
        match first_index(self.batch_actions@, group_is(t, k)) {
            Some(i) => Some(self.batch_actions@[i].1@),
            None => None,
        }
    }

    /// Whether a record was handled.
    pub open spec fn processed(self, id: Seq<char>) -> bool {
        exists|i: int| 0 <= i < self.processed_records@.len() && (#[trigger] self.processed_records@[i])@ == id
    }

    /// Nothing saved, nothing handled.
    pub fn new() -> (r: BatchActionManager)
        ensures
            forall|t: Seq<char>, k: Seq<char>| #[trigger] r.action_for(t, k).is_none(),
            forall|id: Seq<char>| !#[trigger] r.processed(id),
    {
        BatchActionManager { batch_actions: Vec::new(), processed_records: Vec::new() }
    }

    fn find(&self, t: &str, k: &str) -> (r: Option<usize>)
        ensures
            match r {
                Some(i) => first_index(self.batch_actions@, group_is(t@, k@)) == Some(i as int),
                None => first_index(self.batch_actions@, group_is(t@, k@)).is_none(),
            },
    {
        let mut i: usize = 0;
        while i < self.batch_actions.len()
            invariant
                i <= self.batch_actions@.len(),
                forall|j: int| 0 <= j < i ==> !(group_is(t@, k@))(#[trigger] self.batch_actions@[j]),
            decreases self.batch_actions@.len() - i,
        {
            if str_eq(self.batch_actions[i].0.0.as_str(), t) && str_eq(
                self.batch_actions[i].0.1.as_str(),
                k,
            ) {
                proof {
                    lemma_first_index_at(self.batch_actions@, group_is(t@, k@), i as int);
                }
                return Some(i);
            }
            i = i + 1;
        }
        proof {
            lemma_first_index_none(self.batch_actions@, group_is(t@, k@));
        }
        None
    }

    /// Saves the action chosen for a group, replacing an earlier one.
    pub fn save_batch_action(&mut self, group_type: &str, group_key: &str, action: &str)
        ensures
            final(self).action_for(group_type@, group_key@) == Some(action@),
            forall|t: Seq<char>, k: Seq<char>|
                !(t == group_type@ && k == group_key@) ==> #[trigger] final(self).action_for(t, k)
                    == old(self).action_for(t, k),
            final(self).processed_records == old(self).processed_records,
    {
        let entry = ((own(group_type), own(group_key)), own(action));
        let ghost before = self.batch_actions@;
        match self.find(group_type, group_key) {
            Some(i) => {
                proof {
                    lemma_first_index(before, group_is(group_type@, group_key@));
                }
                self.batch_actions.set(i, entry);
                proof {
                    lemma_first_index_at(self.batch_actions@, group_is(group_type@, group_key@), i as int);
                    assert forall|t: Seq<char>, k: Seq<char>|
                        !(t == group_type@ && k == group_key@) implies #[trigger] self.action_for(t, k)
                        == old(self).action_for(t, k) by {
                        lemma_first_index(before, group_is(t, k));
                        match first_index(before, group_is(t, k)) {
                            Some(m) => {
                                assert(m != i);
                                assert forall|j: int| 0 <= j < m implies !(group_is(t, k))(
                                    #[trigger] self.batch_actions@[j],
                                ) by {
                                    if j != i {
                                        assert(self.batch_actions@[j] == before[j]);
                                    }
                                }
                                lemma_first_index_at(self.batch_actions@, group_is(t, k), m);
                            },
                            None => {
                                assert forall|j: int| 0 <= j < self.batch_actions@.len() implies !(
                                group_is(t, k))(#[trigger] self.batch_actions@[j]) by {
                                    if j != i {
                                        assert(self.batch_actions@[j] == before[j]);
                                    }
                                }
                                lemma_first_index_none(self.batch_actions@, group_is(t, k));
                            },
                        }
                    }
                }
            },
            None => {
                proof {
                    lemma_first_index(before, group_is(group_type@, group_key@));
                }
                self.batch_actions.push(entry);
                proof {
                    let n = before.len() as int;
                    assert forall|j: int| 0 <= j < n implies !(group_is(group_type@, group_key@))(
                        #[trigger] self.batch_actions@[j],
                    ) by {
                        assert(self.batch_actions@[j] == before[j]);
                    }
                    lemma_first_index_at(self.batch_actions@, group_is(group_type@, group_key@), n);
                    assert forall|t: Seq<char>, k: Seq<char>|
                        !(t == group_type@ && k == group_key@) implies #[trigger] self.action_for(t, k)
                        == old(self).action_for(t, k) by {
                        lemma_first_index(before, group_is(t, k));
                        match first_index(before, group_is(t, k)) {
                            Some(m) => {
                                assert forall|j: int| 0 <= j < m implies !(group_is(t, k))(
                                    #[trigger] self.batch_actions@[j],
                                ) by {
                                    assert(self.batch_actions@[j] == before[j]);
                                }
                                assert(self.batch_actions@[m] == before[m]);
                                lemma_first_index_at(self.batch_actions@, group_is(t, k), m);
                            },
                            None => {
                                assert forall|j: int| 0 <= j < self.batch_actions@.len() implies !(
                                group_is(t, k))(#[trigger] self.batch_actions@[j]) by {
                                    if j < n {
                                        assert(self.batch_actions@[j] == before[j]);
                                    }
                                }
                                lemma_first_index_none(self.batch_actions@, group_is(t, k));
                            },
                        }
                    }
                }
            },
        }
    }

    /// The action saved for a group.
    pub fn get_batch_action(&self, group_type: &str, group_key: &str) -> (r: Option<String>)
        ensures
            match r {
                Some(a) => self.action_for(group_type@, group_key@) == Some(a@),
                None => self.action_for(group_type@, group_key@).is_none(),
            },
    {
        match self.find(group_type, group_key) {
            Some(i) => {
                proof {
                    lemma_first_index(self.batch_actions@, group_is(group_type@, group_key@));
                }
                Some(self.batch_actions[i].1.clone())
            },
            None => None,
        }
    }

    /// Notes that a record was handled.
    pub fn mark_record_processed(&mut self, record_id: &str)
        ensures
            forall|id: Seq<char>| #[trigger] final(self).processed(id) == (old(self).processed(id) || id
                == record_id@),
            final(self).batch_actions == old(self).batch_actions,
    {
        if self.is_record_processed(record_id) {
            return ;
        }
        let ghost before = self.processed_records@;
        self.processed_records.push(own(record_id));
        assert forall|id: Seq<char>| #[trigger] self.processed(id) == (old(self).processed(id) || id
            == record_id@) by {
            if self.processed(id) {
                let k = choose|k: int| 0 <= k < self.processed_records@.len() && (
                #[trigger] self.processed_records@[k])@ == id;
                if k < before.len() {
                    assert(before[k]@ == id);
                }
            }
            if old(self).processed(id) {
                let k = choose|k: int| 0 <= k < before.len() && (#[trigger] before[k])@ == id;
                assert(self.processed_records@[k] == before[k]);
            }
            if id == record_id@ {
                assert(self.processed_records@[before.len() as int]@ == id);
            }
        }
    }

    /// Whether a record was handled.
    pub fn is_record_processed(&self, record_id: &str) -> (r: bool)
        ensures
            r == self.processed(record_id@),
    {
        let mut i: usize = 0;
        while i < self.processed_records.len()
            invariant
                i <= self.processed_records@.len(),
                forall|j: int| 0 <= j < i ==> (#[trigger] self.processed_records@[j])@ != record_id@,
            decreases self.processed_records@.len() - i,
        {
            if str_eq(self.processed_records[i].as_str(), record_id) {
                return true;
            }
            i = i + 1;
        }
        false
    }

    /// Forgets the handled records.
    pub fn clear_processed_records(&mut self)
        ensures
            forall|id: Seq<char>| !#[trigger] final(self).processed(id),
            final(self).batch_actions == old(self).batch_actions,
    {
        self.processed_records = Vec::new();
    }
}


/// A link with a zero-width space and a zero-width joiner after each of its
/// characters, so that it is not turned into a link where it is shown.
pub open spec fn protect_spec(s: Seq<char>) -> Seq<char>
    decreases s.len(),
{
    if s.len() == 0 {
        Seq::empty()
    } else {
        protect_spec(s.drop_last()) + seq![s.last(), '\u{200b}', '\u{200d}']
    }
}

/// The replies to messages: their text, their targets and the reply
/// chosen for them.
pub struct ReplyProcessor;

impl ReplyProcessor {
    /// Marks a link so that it is not turned into a link.
    pub fn protect_cdn_link(link: &str) -> (r: String)
        ensures
            r@ == protect_spec(link@),
            r@.len() == 3 * link@.len(),
    {
        let cs = crate::text::chars_of(link);
        let mut out = String::new();
        let mut i: usize = 0;
        while i < cs.len()
            invariant
                cs@ == link@,
                i <= cs@.len(),
                out@ == protect_spec(cs@.subrange(0, i as int)),
                out@.len() == 3 * i,
            decreases cs@.len() - i,
        {
            let ghost before = out@;
            push_char(&mut out, cs[i]);
            push_char(&mut out, '\u{200b}');
            push_char(&mut out, '\u{200d}');
            let ghost sub = cs@.subrange(0, i + 1);
            assert(sub.drop_last() =~= cs@.subrange(0, i as int));
            assert(out@ =~= before + seq![cs@[i as int], '\u{200b}', '\u{200d}']);
            i = i + 1;
        }
        assert(cs@.subrange(0, cs@.len() as int) =~= cs@);
        out
    }
}

/// The accounts used in turn, and the kind of identity they log in as.
#[derive(Debug, Clone, PartialEq, Eq)]
pub struct MultiAccount<I> {
    pub accounts: Vec<(String, String)>,
    pub identity_type: I,
}

impl<I> MultiAccount<I> {
    /// No accounts yet.
    pub fn new(identity_type: I) -> (r: MultiAccount<I>)
        ensures
            r.accounts@.len() == 0,
            r.identity_type == identity_type,
    {
        MultiAccount { accounts: Vec::new(), identity_type }
    }
}

/// How many accounts a run uses: all, or at most the limit.
pub fn accounts_to_use(count: usize, limit: Option<usize>) -> (r: usize)
    ensures
        r == (match limit {
            Some(l) => if l < count {
                l
            } else {
                count
            },
            None => count,
        }),
{
    match limit {
        Some(l) => if l < count {
            l
        } else {
            count
        },
        None => count,
    }
}

/// A title shortened for a log line: empty when empty, else its first 10
/// characters (the whole title when shorter) in square brackets.
pub fn title_preview_str(title: &str) -> (r: String)
    ensures
        r@ == (if title@.len() == 0 {
            Seq::<char>::empty()
        } else {
            seq!['['] + title@.take(if title@.len() < 10 { title@.len() as int } else { 10 }) + seq![']']
        }),
{
    let n = title.unicode_len();
    if n == 0 {
        return String::new();
    }
    let k: usize = if n < 10 {
        n
    } else {
        10
    };
    let head = title.substring_char(0, k);
    let mut out = own("[");
    push_str(&mut out, head);
    push_str(&mut out, "]");
    proof {
        reveal_strlit("[");
        reveal_strlit("]");
    }
    assert(out@ =~= seq!['['] + title@.take(k as int) + seq![']']);
    out
}

/// The identifier of a violation: `source:item:kind:parent:content`, where
/// the kind is `reply` or `comment`, the parent is the reply's `parent_id`
/// (0 for a comment or when missing) and the content is the record's `id`
/// (0 when missing).
pub open spec fn identifier_spec(source_type: Seq<char>, item_id: i64, data: JsonV, is_reply: bool) -> Seq<
    char,
> {
    let content_id = match jint(jget(data, "id"@)) {
        Some(n) => n as int,
        None => 0,
    };
    let parent_id = if is_reply {
        match jint(jget(data, "parent_id"@)) {
            Some(n) => n as int,
            None => 0,
        }
    } else {
        0
    };
    source_type + seq![':'] + dec_int(item_id as int) + seq![':'] + (if is_reply {
        "reply"@
    } else {
        "comment"@
    }) + seq![':'] + dec_int(parent_id) + seq![':'] + dec_int(content_id)
}

fn int_field(v: &Json, key: &str) -> (r: i64)
    ensures
        r == (match jint(jget(v@, key@)) {
            Some(n) => n,
            None => 0,
        }),
{
    match v.get(key) {
        Some(x) => match x.as_i64() {
            Some(n) => n,
            None => 0,
        },
        None => 0,
    }
}

/// Builds the identifier of a violation.
pub fn build_identifier(source_type: &str, item_id: i64, data: &Json, is_reply: bool) -> (r: String)
    ensures
        r@ == identifier_spec(source_type@, item_id, data@, is_reply),
{
    let content_id = int_field(data, "id");
    let parent_id = if is_reply {
        int_field(data, "parent_id")
    } else {
        0
    };
    let mut out = own(source_type);
    push_char(&mut out, ':');
    push_i64(&mut out, item_id);
    push_char(&mut out, ':');
    if is_reply {
        push_str(&mut out, "reply");
    } else {
        push_str(&mut out, "comment");
    }
    push_char(&mut out, ':');
    push_i64(&mut out, parent_id);
    push_char(&mut out, ':');
    push_i64(&mut out, content_id);
    assert(out@ =~= identifier_spec(source_type@, item_id, data@, is_reply));
    out
}

/// The decision of a decision name, or an error naming it.
pub open spec fn parse_resolution_spec(s: Seq<char>) -> Option<Resolution> {
    if s == "DELETE"@ {
        Some(Resolution::Delete)
    } else if s == "MUTE_SEVEN_DAYS"@ {
        Some(Resolution::MuteSevenDays)
    } else if s == "MUTE_THREE_MONTHS"@ {
        Some(Resolution::MuteThreeMonths)
    } else if s == "PASS"@ {
        Some(Resolution::Pass)
    } else if s == "UNLOAD"@ {
        Some(Resolution::Unload)
    } else {
        None
    }
}

/// Reads a decision name; an unknown one is refused with `未知状态: ` and the
/// name.
pub fn parse_resolution(s: &str) -> (r: Result<Resolution, String>)
    ensures
        match parse_resolution_spec(s@) {
            Some(x) => r == Ok::<Resolution, String>(x),
            None => r matches Err(m) && m@ == "未知状态: "@ + s@,
        },
{
    if str_eq(s, "DELETE") {
        Ok(Resolution::Delete)
    } else if str_eq(s, "MUTE_SEVEN_DAYS") {
        Ok(Resolution::MuteSevenDays)
    } else if str_eq(s, "MUTE_THREE_MONTHS") {
        Ok(Resolution::MuteThreeMonths)
    } else if str_eq(s, "PASS") {
        Ok(Resolution::Pass)
    } else if str_eq(s, "UNLOAD") {
        Ok(Resolution::Unload)
    } else {
        let mut m = own("未知状态: ");
        push_str(&mut m, s);
        Err(m)
    }
}

/// The official accounts, whose content passes without review.
pub open spec fn official_ids() -> Seq<i64> {
    seq![128963, 629055, 203577, 859722, 148883, 2191000, 7492052, 387963, 3649031]
}

/// Whether a user is an official account.
pub fn is_official(user_id: i64) -> (r: bool)
    ensures
        r == official_ids().contains(user_id),
{
    let ids: [i64; 9] = [128963, 629055, 203577, 859722, 148883, 2191000, 7492052, 387963, 3649031];
    let mut i: usize = 0;
    while i < 9
        invariant
            i <= 9,
            ids@ == official_ids(),
            forall|j: int| 0 <= j < i ==> official_ids()[j] != user_id,
        decreases 9 - i,
    {
        if ids[i] == user_id {
            assert(official_ids()[i as int] == user_id);
            return true;
        }
        i = i + 1;
    }
    false
}

/// The report id of a record: the text under the configuration's report id
/// field read as an `i32`, else 0.
pub open spec fn report_id_spec(field: Seq<char>, item: JsonV) -> i32 {
    match jstr(jget(item, field)) {
        Some(s) => match parse_i32_spec(s) {
            Some(n) => n,
            None => 0,
        },
        None => 0,
    }
}

/// The report id of a record.
pub fn get_report_id(config: &SourceConfig, item: &Json) -> (r: i32)
    ensures
        r == report_id_spec(config.report_id_field@, item@),
{
    match crate::chat::str_field(item, config.report_id_field.as_str()) {
        Some(s) => match crate::text::parse_i32(s.as_str()) {
            Some(n) => n,
            None => 0,
        },
        None => 0,
    }
}


/// Whether a reply type names a comment (it ends with `_COMMENT`).
pub open spec fn is_comment_type(t: Seq<char>) -> bool {
    t.len() >= 8 && t.subrange(t.len() - 8, t.len() as int) == "_COMMENT"@
}

fn ends_with_comment(t: &str) -> (r: bool)
    ensures
        r == is_comment_type(t@),
{
    proof {
        reveal_strlit("_COMMENT");
    }
    let n = t.unicode_len();
    if n < 8 {
        return false;
    }
    let tail = t.substring_char(n - 8, n);
    str_eq(tail, "_COMMENT")
}

/// The text of a comment or reply notification: `comment` for a comment,
/// `reply` otherwise; empty when missing.
pub open spec fn comment_text_spec(reply_type: Seq<char>, info: JsonV) -> Seq<char> {
    crate::chat::text_or_empty(
        jstr(
            jget(
                info,
                if is_comment_type(reply_type) {
                    "comment"@
                } else {
                    "reply"@
                },
            ),
        ),
    )
}

impl ReplyProcessor {
    /// The text of a notification.
    pub fn extract_comment_text(reply_type: &str, message_info: &Json) -> (r: String)
        ensures
            r@ == comment_text_spec(reply_type@, message_info@),
    {
        let key = if ends_with_comment(reply_type) {
            "comment"
        } else {
            "reply"
        };
        match crate::chat::str_field(message_info, key) {
            Some(s) => s,
            None => String::new(),
        }
    }
}

/// The target and parent of an answer to a notification: for a comment, the
/// notification's `reference_id` and no parent; for a reply, the `reply_id`
/// text of the message read as an `i32` and the `reference_id` as parent.
/// Missing numbers count as 0; a `reference_id` keeps its low 32 bits.
pub open spec fn target_ids_spec(reply_type: Seq<char>, reply: JsonV, info: JsonV) -> (i32, i32) {
    let reference = match jint(jget(reply, "reference_id"@)) {
        Some(n) => n as i32,
        None => 0i32,
    };
    if is_comment_type(reply_type) {
        (reference, 0)
    } else {
        let target = match jstr(jget(info, "reply_id"@)) {
            Some(t) => match parse_i32_spec(t) {
                Some(n) => n,
                None => 0,
            },
            None => 0,
        };
        (target, reference)
    }
}

impl ReplyProcessor {
    /// The target and parent of an answer to a notification.
    pub fn extract_target_and_parent_ids(reply_type: &str, reply: &Json, message_info: &Json) -> (r: (
        i32,
        i32,
    ))
        ensures
            r == target_ids_spec(reply_type@, reply@, message_info@),
    {
        let reference: i32 = match reply.get("reference_id") {
            Some(x) => match x.as_i64() {
                Some(n) => n as i32,
                None => 0,
            },
            None => 0,
        };
        if ends_with_comment(reply_type) {
            (reference, 0)
        } else {
            let target = match crate::chat::str_field(message_info, "reply_id") {
                Some(t) => match crate::text::parse_i32(t.as_str()) {
                    Some(n) => n,
                    None => 0,
                },
                None => 0,
            };
            (target, reference)
        }
    }
}

/// The parts of a text between the separators `c` (`str::split` on a
/// character): one more part than there are separators.
pub open spec fn split_char(s: Seq<char>, c: char) -> Seq<Seq<char>>
    decreases s.len(),
{
    if s.len() == 0 {
        seq![Seq::empty()]
    } else {
        let parts = split_char(s.drop_last(), c);
        if s.last() == c {
            parts.push(Seq::empty())
        } else {
            parts.update(parts.len() - 1, parts.last().push(s.last()))
        }
    }
}

/// `str::split` on the character `c`.
pub fn split_on(s: &str, c: char) -> (r: Vec<String>)
    ensures
        crate::retrieve::view_texts(r@) == split_char(s@, c),
{
    let cs = crate::text::chars_of(s);
    let mut parts: Vec<String> = vec![String::new()];
    let mut i: usize = 0;
    assert(crate::retrieve::view_texts(parts@) =~= split_char(cs@.subrange(0, 0), c));
    while i < cs.len()
        invariant
            cs@ == s@,
            i <= cs@.len(),
            parts@.len() >= 1,
            crate::retrieve::view_texts(parts@) == split_char(cs@.subrange(0, i as int), c),
        decreases cs@.len() - i,
    {
        let ghost sub = cs@.subrange(0, i + 1);
        assert(sub.drop_last() =~= cs@.subrange(0, i as int));
        assert(sub.last() == cs@[i as int]);
        let ghost before = crate::retrieve::view_texts(parts@);
        if cs[i] == c {
            parts.push(String::new());
            assert(crate::retrieve::view_texts(parts@) =~= before.push(Seq::empty()));
        } else {
            let last = parts.len() - 1;
            let mut t = parts[last].clone();
            push_char(&mut t, cs[i]);
            parts.set(last, t);
            assert(crate::retrieve::view_texts(parts@) =~= before.update(
                before.len() - 1,
                before.last().push(cs@[i as int]),
            ));
        }
        i = i + 1;
    }
    assert(cs@.subrange(0, cs@.len() as int) =~= cs@);
    parts
}

/// The parts of a violation identifier: source, source id, kind, parent id
/// and content id; `None` unless there are exactly five parts and the three
/// numbers read as an `i64` and two `i32`.
pub open spec fn parse_violation_spec(v: Seq<char>) -> Option<(Seq<char>, i64, Seq<char>, i32, i32)> {
    let p = split_char(v, ':');
    if p.len() != 5 {
        None
    } else {
        match (crate::text::parse_i64_spec(p[1]), parse_i32_spec(p[3]), parse_i32_spec(p[4])) {
            (Some(a), Some(b), Some(c)) => Some((p[0], a, p[2], b, c)),
            _ => None,
        }
    }
}

/// Reads a violation identifier.
pub fn parse_violation(violation: &str) -> (r: Option<(String, i64, String, i32, i32)>)
    ensures
        match parse_violation_spec(violation@) {
            Some((a, b, c, d, e)) => r matches Some(x) && x.0@ == a && x.1 == b && x.2@ == c && x.3
                == d && x.4 == e,
            None => r.is_none(),
        },
{
    let parts = split_on(violation, ':');
    if parts.len() != 5 {
        return None;
    }
    let source_id = match crate::text::parse_i64(parts[1].as_str()) {
        Some(n) => n,
        None => return None,
    };
    let parent_id = match crate::text::parse_i32(parts[3].as_str()) {
        Some(n) => n,
        None => return None,
    };
    let content_id = match crate::text::parse_i32(parts[4].as_str()) {
        Some(n) => n,
        None => return None,
    };
    Some((parts[0].clone(), source_id, parts[2].clone(), parent_id, content_id))
}

/// What a violation identifier asks to be reported.
#[derive(Debug, Clone, Copy, PartialEq, Eq, Structural)]
pub enum ReportTarget {
    /// A forum post, by id.
    ForumPost(i32),
    /// A work, by id.
    Work(i32),
    /// A work comment: the work and the comment.
    WorkComment(i32, i32),
    /// A forum comment or reply.
    ForumItem(i32, bool),
    /// A workshop comment, with its parent when it is a reply.
    ShopComment(i32, Option<i32>),
}

/// What to report for a parsed identifier, or why it cannot be.
pub open spec fn report_target_spec(source: Seq<char>, source_id: i64, kind: Seq<char>, parent_id: i32, content_id: i32) -> Result<
    ReportTarget,
    Seq<char>,
> {
    if kind == "post"@ {
        if source != "forum"@ {
            Err("不能在非论坛举报帖子"@)
        } else {
            Ok(ReportTarget::ForumPost(content_id))
        }
    } else if kind == "work"@ {
        Ok(ReportTarget::Work(content_id))
    } else if kind == "comment"@ || kind == "reply"@ {
        let is_reply = kind == "reply"@;
        if source == "work"@ {
            Ok(ReportTarget::WorkComment(source_id as i32, content_id))
        } else if source == "forum"@ {
            Ok(ReportTarget::ForumItem(content_id, is_reply))
        } else if source == "shop"@ {
            Ok(ReportTarget::ShopComment(content_id, if is_reply { Some(parent_id) } else { None }))
        } else {
            Err("不支持的来源"@)
        }
    } else {
        Err("未知违规类型: "@ + kind)
    }
}

/// What to report for a parsed identifier.
pub fn report_target(source: &str, source_id: i64, kind: &str, parent_id: i32, content_id: i32) -> (r: Result<
    ReportTarget,
    String,
>)
    ensures
        match report_target_spec(source@, source_id, kind@, parent_id, content_id) {
            Ok(t) => r == Ok::<ReportTarget, String>(t),
            Err(m) => r matches Err(x) && x@ == m,
        },
{
    if str_eq(kind, "post") {
        if !str_eq(source, "forum") {
            Err(own("不能在非论坛举报帖子"))
        } else {
            Ok(ReportTarget::ForumPost(content_id))
        }
    } else if str_eq(kind, "work") {
        Ok(ReportTarget::Work(content_id))
    } else if str_eq(kind, "comment") || str_eq(kind, "reply") {
        let is_reply = str_eq(kind, "reply");
        if str_eq(source, "work") {
            Ok(ReportTarget::WorkComment(source_id as i32, content_id))
        } else if str_eq(source, "forum") {
            Ok(ReportTarget::ForumItem(content_id, is_reply))
        } else if str_eq(source, "shop") {
            Ok(
                ReportTarget::ShopComment(
                    content_id,
                    if is_reply {
                        Some(parent_id)
                    } else {
                        None
                    },
                ),
            )
        } else {
            Err(own("不支持的来源"))
        }
    } else {
        let mut m = own("未知违规类型: ");
        push_str(&mut m, kind);
        Err(m)
    }
}


/// The report type of a record: its `_report_type` mark, else what its
/// fields show.
pub open spec fn infer_report_type_spec(item: JsonV) -> Option<Seq<char>> {
    match jstr(jget(item, "_report_type"@)) {
        Some(t) => Some(t),
        None => if jget(item, "comment_content"@).is_some() || jget(item, "comment_id"@).is_some() {
            Some("shop_comment"@)
        } else if jget(item, "work_name"@).is_some() {
            Some("work_work"@)
        } else if jget(item, "discussion_content"@).is_some() || jget(item, "discussion_id"@).is_some() {
            Some("forum_discussion"@)
        } else if jget(item, "post_title"@).is_some() && jget(item, "board_name"@).is_some() {
            Some("forum_post"@)
        } else {
            None
        },
    }
}

/// The report type of a record.
pub fn infer_report_type(item: &Json) -> (r: Option<String>)
    ensures
        match r {
            Some(t) => infer_report_type_spec(item@) == Some(t@),
            None => infer_report_type_spec(item@).is_none(),
        },
{
    match crate::chat::str_field(item, "_report_type") {
        Some(t) => return Some(t),
        None => {},
    }
    if item.get("comment_content").is_some() || item.get("comment_id").is_some() {
        Some(own("shop_comment"))
    } else if item.get("work_name").is_some() {
        Some(own("work_work"))
    } else if item.get("discussion_content").is_some() || item.get("discussion_id").is_some() {
        Some(own("forum_discussion"))
    } else if item.get("post_title").is_some() && item.get("board_name").is_some() {
        Some(own("forum_post"))
    } else {
        None
    }
}

/// Where violations of a report type are looked for: the workshop for
/// workshop comments, the forum for posts and discussions, works otherwise.
pub open spec fn violation_source_spec(report_type: Seq<char>) -> Seq<char> {
    if report_type == "shop_comment"@ {
        "shop"@
    } else if report_type == "forum_post"@ || report_type == "forum_discussion"@ {
        "forum"@
    } else {
        "work"@
    }
}

/// Where violations of a report type are looked for.
pub fn violation_source(report_type: &str) -> (r: &'static str)
    ensures
        r@ == violation_source_spec(report_type@),
{
    if str_eq(report_type, "shop_comment") {
        "shop"
    } else if str_eq(report_type, "forum_post") || str_eq(report_type, "forum_discussion") {
        "forum"
    } else {
        "work"
    }
}

/// The comments and replies that are checked, in order: every comment that
/// is not pinned (`is_top` true), each followed by the array of its
/// `replies`, with a flag telling replies apart.
pub open spec fn comment_entries_spec(comments: Seq<JsonV>) -> Seq<(JsonV, bool)>
    decreases comments.len(),
{
    if comments.len() == 0 {
        Seq::empty()
    } else {
        let rest = comment_entries_spec(comments.drop_last());
        let c = comments.last();
        if crate::json::jbool(jget(c, "is_top"@)) == Some(true) {
            rest
        } else {
            rest + seq![(c, false)] + match crate::json::jarr(jget(c, "replies"@)) {
                Some(rs) => rs.map_values(|x: JsonV| (x, true)),
                None => Seq::empty(),
            }
        }
    }
}

pub open spec fn view_entries_flagged(s: Seq<(Json, bool)>) -> Seq<(JsonV, bool)> {
    s.map_values(|e: (Json, bool)| (e.0@, e.1))
}

/// The comments and replies that are checked.
pub fn comment_entries(comments: &Vec<Json>) -> (r: Vec<(Json, bool)>)
    ensures
        view_entries_flagged(r@) == comment_entries_spec(view_items(comments@)),
{
    proof {
        crate::json::lemma_view_items(comments@);
    }
    let mut out: Vec<(Json, bool)> = Vec::new();
    let mut i: usize = 0;
    while i < comments.len()
        invariant
            i <= comments@.len(),
            view_items(comments@).len() == comments@.len(),
            forall|j: int| 0 <= j < comments@.len() ==> #[trigger] view_items(comments@)[j] == comments@[j]@,
            view_entries_flagged(out@) == comment_entries_spec(view_items(comments@).subrange(0, i as int)),
        decreases comments@.len() - i,
    {
        let ghost sub = view_items(comments@).subrange(0, i + 1);
        assert(sub.drop_last() =~= view_items(comments@).subrange(0, i as int));
        assert(sub.last() == comments@[i as int]@);
        let c = &comments[i];
        let top = match c.get("is_top") {
            Some(x) => x.as_bool() == Some(true),
            None => false,
        };
        if !top {
            let ghost before = view_entries_flagged(out@);
            out.push((c.deep_clone(), false));
            let ghost mid = view_entries_flagged(out@);
            assert(mid =~= before + seq![(c@, false)]);
            match c.get("replies") {
                Some(rv) => match rv.as_array() {
                    Some(rs) => {
                        proof {
                            crate::json::lemma_view_items(rs@);
                        }
                        let mut k: usize = 0;
                        while k < rs.len()
                            invariant
                                k <= rs@.len(),
                                view_items(rs@).len() == rs@.len(),
                                forall|j: int| 0 <= j < rs@.len() ==> #[trigger] view_items(rs@)[j] == rs@[j]@,
                                view_entries_flagged(out@) == mid + view_items(rs@).subrange(0, k as int).map_values(
                                    |x: JsonV| (x, true),
                                ),
                            decreases rs@.len() - k,
                        {
                            let ghost b2 = view_entries_flagged(out@);
                            out.push((rs[k].deep_clone(), true));
                            assert(view_entries_flagged(out@) =~= b2.push((rs@[k as int]@, true)));
                            assert(view_items(rs@).subrange(0, k + 1).map_values(|x: JsonV| (x, true))
                                =~= view_items(rs@).subrange(0, k as int).map_values(|x: JsonV| (x, true)).push(
                                (rs@[k as int]@, true),
                            ));
                            k = k + 1;
                        }
                        assert(view_items(rs@).subrange(0, rs@.len() as int) =~= view_items(rs@));
                    },
                    None => {
                        assert(view_entries_flagged(out@) =~= mid + Seq::empty());
                    },
                },
                None => {
                    assert(view_entries_flagged(out@) =~= mid + Seq::empty());
                },
            }
        }
        i = i + 1;
    }
    assert(view_items(comments@).subrange(0, comments@.len() as int) =~= view_items(comments@));
    out
}


/// The lower-cased texts of the string elements of an array parameter.
pub open spec fn lowered_strings(v: Option<JsonV>) -> Seq<Seq<char>> {
    match crate::json::jarr(v) {
        Some(items) => lowered_items(items),
        None => Seq::empty(),
    }
}

pub open spec fn lowered_items(items: Seq<JsonV>) -> Seq<Seq<char>>
    decreases items.len(),
{
    if items.len() == 0 {
        Seq::empty()
    } else {
        let rest = lowered_items(items.drop_last());
        match items.last() {
            JsonV::Str(s) => rest.push(crate::text::lowercase(s)),
            _ => rest,
        }
    }
}

fn lowered_param(params: &Json, key: &str) -> (r: Vec<String>)
    ensures
        crate::retrieve::view_texts(r@) == lowered_strings(jget(params@, key@)),
{
    let mut out: Vec<String> = Vec::new();
    match params.get(key) {
        Some(v) => match v.as_array() {
            Some(items) => {
                proof {
                    crate::json::lemma_view_items(items@);
                }
                let mut i: usize = 0;
                while i < items.len()
                    invariant
                        i <= items@.len(),
                        view_items(items@).len() == items@.len(),
                        forall|j: int| 0 <= j < items@.len() ==> #[trigger] view_items(items@)[j] == items@[j]@,
                        crate::retrieve::view_texts(out@) == lowered_items(view_items(items@).subrange(0, i as int)),
                    decreases items@.len() - i,
                {
                    let ghost sub = view_items(items@).subrange(0, i + 1);
                    assert(sub.drop_last() =~= view_items(items@).subrange(0, i as int));
                    assert(sub.last() == items@[i as int]@);
                    match &items[i] {
                        Json::Str(t) => {
                            let ghost before = out@;
                            out.push(crate::text::to_lowercase(t.as_str()));
                            assert(crate::retrieve::view_texts(out@) =~= crate::retrieve::view_texts(before).push(
                                crate::text::lowercase(t@),
                            ));
                        },
                        _ => {},
                    }
                    i = i + 1;
                }
                assert(view_items(items@).subrange(0, items@.len() as int) =~= view_items(items@));
            },
            None => {
                assert(crate::retrieve::view_texts(out@) =~= Seq::empty());
            },
        },
        None => {
            assert(crate::retrieve::view_texts(out@) =~= Seq::empty());
        },
    }
    out
}

/// The advertising hits among the entries: the identifier of every entry
/// whose lower-cased text holds one of the keywords, in order; nothing when
/// there are no keywords.
pub open spec fn ads_hits(entries: Seq<(JsonV, bool)>, item_id: i64, source_type: Seq<char>, keywords: Seq<Seq<char>>) -> Seq<Seq<char>>
    decreases entries.len(),
{
    if entries.len() == 0 || keywords.len() == 0 {
        Seq::empty()
    } else {
        let rest = ads_hits(entries.drop_last(), item_id, source_type, keywords);
        let (data, is_reply) = entries.last();
        let content = crate::text::lowercase(crate::chat::text_or_empty(jstr(jget(data, "content"@))));
        if crate::pipeline::has_keyword(content, keywords) {
            rest.push(identifier_spec(source_type, item_id, data, is_reply))
        } else {
            rest
        }
    }
}

/// The advertising strategy: the identifiers of the comments and replies of
/// an item whose text holds one of the `ads` keywords of `params`.
pub fn ads_strategy(comments: &Vec<Json>, item_id: i64, params: &Json, source_type: &str) -> (r: Vec<String>)
    ensures
        crate::retrieve::view_texts(r@) == ads_hits(
            comment_entries_spec(view_items(comments@)),
            item_id,
            source_type@,
            lowered_strings(jget(params@, "ads"@)),
        ),
{
    let keywords = lowered_param(params, "ads");
    let ghost kw = crate::retrieve::view_texts(keywords@);
    let entries = comment_entries(comments);
    let ghost es = view_entries_flagged(entries@);
    let mut out: Vec<String> = Vec::new();
    if keywords.len() == 0 {
        assert(crate::retrieve::view_texts(out@) =~= Seq::empty());
        return out;
    }
    let mut i: usize = 0;
    assert(crate::retrieve::view_texts(out@) =~= ads_hits(es.subrange(0, 0), item_id, source_type@, kw));
    while i < entries.len()
        invariant
            i <= entries@.len(),
            es == view_entries_flagged(entries@),
            kw == crate::retrieve::view_texts(keywords@),
            kw.len() > 0,
            crate::retrieve::view_texts(out@) == ads_hits(es.subrange(0, i as int), item_id, source_type@, kw),
        decreases entries@.len() - i,
    {
        let ghost sub = es.subrange(0, i + 1);
        assert(sub.drop_last() =~= es.subrange(0, i as int));
        assert(sub.last() == (entries@[i as int].0@, entries@[i as int].1));
        let data = &entries[i].0;
        let raw = match crate::chat::str_field(data, "content") {
            Some(t) => t,
            None => String::new(),
        };
        let content = crate::text::to_lowercase(raw.as_str());
        if crate::pipeline::any_keyword(content.as_str(), &keywords) {
            let ghost before = out@;
            out.push(build_identifier(source_type, item_id, data, entries[i].1));
            assert(crate::retrieve::view_texts(out@) =~= crate::retrieve::view_texts(before).push(
                identifier_spec(source_type@, item_id, data@, entries@[i as int].1),
            ));
        }
        i = i + 1;
    }
    assert(es.subrange(0, entries@.len() as int) =~= es);
    out
}

/// The texts of the elements of an array parameter, as
/// [`crate::types::value_to_string`] reads them.
pub open spec fn string_items(v: Option<JsonV>) -> Seq<Seq<char>> {
    match crate::json::jarr(v) {
        Some(items) => items.map_values(|x: JsonV| crate::types::value_to_string_spec(x)),
        None => Seq::empty(),
    }
}

/// The blacklist hits among the entries: the identifier of every entry whose
/// `user_id`, read as text (empty when missing), is on the list, in order;
/// nothing when the list is empty.
pub open spec fn blacklist_hits(entries: Seq<(JsonV, bool)>, item_id: i64, source_type: Seq<char>, list: Seq<Seq<char>>) -> Seq<Seq<char>>
    decreases entries.len(),
{
    if entries.len() == 0 || list.len() == 0 {
        Seq::empty()
    } else {
        let rest = blacklist_hits(entries.drop_last(), item_id, source_type, list);
        let (data, is_reply) = entries.last();
        let uid = match jget(data, "user_id"@) {
            Some(u) => crate::types::value_to_string_spec(u),
            None => Seq::empty(),
        };
        if list.contains(uid) {
            rest.push(identifier_spec(source_type, item_id, data, is_reply))
        } else {
            rest
        }
    }
}

fn text_in(list: &Vec<String>, t: &str) -> (r: bool)
    ensures
        r == crate::retrieve::view_texts(list@).contains(t@),
{
    let mut i: usize = 0;
    while i < list.len()
        invariant
            i <= list@.len(),
            forall|j: int| 0 <= j < i ==> crate::retrieve::view_texts(list@)[j] != t@,
        decreases list@.len() - i,
    {
        if str_eq(list[i].as_str(), t) {
            assert(crate::retrieve::view_texts(list@)[i as int] == t@);
            return true;
        }
        i = i + 1;
    }
    false
}

/// The blacklist strategy: the identifiers of the comments and replies of
/// an item written by a user on the `blacklist` of `params`.
pub fn blacklist_strategy(comments: &Vec<Json>, item_id: i64, params: &Json, source_type: &str) -> (r: Vec<String>)
    ensures
        crate::retrieve::view_texts(r@) == blacklist_hits(
            comment_entries_spec(view_items(comments@)),
            item_id,
            source_type@,
            string_items(jget(params@, "blacklist"@)),
        ),
{
    let mut list: Vec<String> = Vec::new();
    match params.get("blacklist") {
        Some(v) => match v.as_array() {
            Some(items) => {
                proof {
                    crate::json::lemma_view_items(items@);
                }
                let mut k: usize = 0;
                while k < items.len()
                    invariant
                        k <= items@.len(),
                        view_items(items@).len() == items@.len(),
                        forall|j: int| 0 <= j < items@.len() ==> #[trigger] view_items(items@)[j] == items@[j]@,
                        crate::retrieve::view_texts(list@) == view_items(items@).subrange(0, k as int).map_values(
                            |x: JsonV| crate::types::value_to_string_spec(x),
                        ),
                    decreases items@.len() - k,
                {
                    let ghost before = list@;
                    list.push(crate::types::value_to_string(&items[k]));
                    assert(crate::retrieve::view_texts(list@) =~= crate::retrieve::view_texts(before).push(
                        crate::types::value_to_string_spec(items@[k as int]@),
                    ));
                    assert(view_items(items@).subrange(0, k + 1).map_values(|x: JsonV| crate::types::value_to_string_spec(x))
                        =~= view_items(items@).subrange(0, k as int).map_values(|x: JsonV| crate::types::value_to_string_spec(x)).push(
                        crate::types::value_to_string_spec(items@[k as int]@),
                    ));
                    k = k + 1;
                }
                assert(view_items(items@).subrange(0, items@.len() as int) =~= view_items(items@));
            },
            None => {},
        },
        None => {},
    }
    let ghost lv = crate::retrieve::view_texts(list@);
    assert(lv == string_items(jget(params@, "blacklist"@)));
    let entries = comment_entries(comments);
    let ghost es = view_entries_flagged(entries@);
    let mut out: Vec<String> = Vec::new();
    if list.len() == 0 {
        assert(crate::retrieve::view_texts(out@) =~= Seq::empty());
        return out;
    }
    let mut i: usize = 0;
    assert(crate::retrieve::view_texts(out@) =~= blacklist_hits(es.subrange(0, 0), item_id, source_type@, lv));
    while i < entries.len()
        invariant
            i <= entries@.len(),
            es == view_entries_flagged(entries@),
            lv == crate::retrieve::view_texts(list@),
            lv.len() > 0,
            crate::retrieve::view_texts(out@) == blacklist_hits(es.subrange(0, i as int), item_id, source_type@, lv),
        decreases entries@.len() - i,
    {
        let ghost sub = es.subrange(0, i + 1);
        assert(sub.drop_last() =~= es.subrange(0, i as int));
        assert(sub.last() == (entries@[i as int].0@, entries@[i as int].1));
        let data = &entries[i].0;
        let uid = match data.get("user_id") {
            Some(u) => crate::types::value_to_string(u),
            None => String::new(),
        };
        if text_in(&list, uid.as_str()) {
            let ghost before = out@;
            out.push(build_identifier(source_type, item_id, data, entries[i].1));
            assert(crate::retrieve::view_texts(out@) =~= crate::retrieve::view_texts(before).push(
                identifier_spec(source_type@, item_id, data@, entries@[i as int].1),
            ));
        }
        i = i + 1;
    }
    assert(es.subrange(0, entries@.len() as int) =~= es);
    out
}


/// The repeated-posting candidates among the entries: every entry with a
/// user id text and a lower-cased text, both non-empty.
pub open spec fn duplicate_candidates(entries: Seq<(JsonV, bool)>, item_id: i64, source_type: Seq<char>) -> Seq<crate::pipeline::ViolationKindV>
    decreases entries.len(),
{
    if entries.len() == 0 {
        Seq::empty()
    } else {
        let rest = duplicate_candidates(entries.drop_last(), item_id, source_type);
        let (data, is_reply) = entries.last();
        let uid = match jget(data, "user_id"@) {
            Some(u) => crate::types::value_to_string_spec(u),
            None => Seq::empty(),
        };
        let content = crate::text::lowercase(crate::chat::text_or_empty(jstr(jget(data, "content"@))));
        if uid.len() == 0 || content.len() == 0 {
            rest
        } else {
            rest.push(crate::pipeline::ViolationKindV::Duplicate(uid, content, identifier_spec(source_type, item_id, data, is_reply)))
        }
    }
}

/// The repeat threshold of `params`: its `duplicates` integer (a negative one
/// wraps around as a size), 3 when absent.
pub open spec fn duplicate_threshold(params: JsonV) -> usize {
    match jint(jget(params, "duplicates"@)) {
        Some(t) => t as usize,
        None => 3,
    }
}

/// The repeated-posting strategy: the identifiers of every (user, text)
/// posted at least the threshold number of times under an item, group by
/// group in the order the pairs first appear.
pub fn duplicates_strategy(comments: &Vec<Json>, item_id: i64, params: &Json, source_type: &str) -> (r: Vec<String>)
    ensures
        crate::retrieve::view_texts(r@) == crate::pipeline::spam_ids(
            crate::pipeline::dup_groups(duplicate_candidates(comment_entries_spec(view_items(comments@)), item_id, source_type@)),
            duplicate_threshold(params@) as nat,
        ),
{
    let threshold: usize = match params.get("duplicates") {
        Some(v) => match v.as_i64() {
            Some(t) => t as usize,
            None => 3,
        },
        None => 3,
    };
    let entries = comment_entries(comments);
    let ghost es = view_entries_flagged(entries@);
    let mut cands: Vec<crate::pipeline::ViolationKind> = Vec::new();
    let mut i: usize = 0;
    assert(crate::pipeline::view_kinds(cands@) =~= duplicate_candidates(es.subrange(0, 0), item_id, source_type@));
    while i < entries.len()
        invariant
            i <= entries@.len(),
            es == view_entries_flagged(entries@),
            crate::pipeline::view_kinds(cands@) == duplicate_candidates(es.subrange(0, i as int), item_id, source_type@),
            forall|j: int| 0 <= j < cands@.len() ==> (#[trigger] cands@[j]) is Duplicate,
        decreases entries@.len() - i,
    {
        let ghost sub = es.subrange(0, i + 1);
        assert(sub.drop_last() =~= es.subrange(0, i as int));
        assert(sub.last() == (entries@[i as int].0@, entries@[i as int].1));
        let data = &entries[i].0;
        let uid = match data.get("user_id") {
            Some(u) => crate::types::value_to_string(u),
            None => String::new(),
        };
        let raw = match crate::chat::str_field(data, "content") {
            Some(t) => t,
            None => String::new(),
        };
        let content = crate::text::to_lowercase(raw.as_str());
        if uid.as_str().unicode_len() > 0 && content.as_str().unicode_len() > 0 {
            let ident = build_identifier(source_type, item_id, data, entries[i].1);
            let ghost before = crate::pipeline::view_kinds(cands@);
            cands.push(crate::pipeline::ViolationKind::Duplicate(uid, content, ident));
            assert(crate::pipeline::view_kinds(cands@) =~= before.push(cands@.last()@));
        }
        i = i + 1;
    }
    assert(es.subrange(0, entries@.len() as int) =~= es);
    let ghost cv = crate::pipeline::view_kinds(cands@);
    let r = crate::pipeline::classify_violations(&cands, threshold);
    proof {
        assert forall|j: int| 0 <= j < cv.len() implies (#[trigger] cv[j]) is Duplicate by {
            assert(cands@[j] is Duplicate);
        }
        lemma_no_ads(cv);
        assert(crate::pipeline::ad_ids(cv) + crate::pipeline::spam_ids(crate::pipeline::dup_groups(cv), threshold as nat)
            =~= crate::pipeline::spam_ids(crate::pipeline::dup_groups(cv), threshold as nat));
    }
    r
}

/// Candidates that are all repeated-posting ones hold no advertising.
proof fn lemma_no_ads(s: Seq<crate::pipeline::ViolationKindV>)
    requires
        forall|i: int| 0 <= i < s.len() ==> (#[trigger] s[i]) is Duplicate,
    ensures
        crate::pipeline::ad_ids(s) == Seq::<Seq<char>>::empty(),
    decreases s.len(),
{
    if s.len() > 0 {
        lemma_no_ads(s.drop_last());
        assert(s.last() == s[s.len() - 1]);
    }
}

/// What is known of a report while it is handled.
#[derive(Debug)]
pub struct ProcessingContext {
    pub record_id: String,
    pub report_type: String,
    pub item: Json,
    pub admin_id: i32,
    pub processed: bool,
    pub action: Option<String>,
    pub skip_reason: Option<String>,
    pub messages: Vec<String>,
    pub is_batch_mode: bool,
    pub is_reprocess_mode: bool,
    pub config: Option<SourceConfig>,
    pub user_id: Option<i64>,
}

impl ProcessingContext {
    /// A context for a report that nothing has been decided of yet.
    pub fn new(record_id: String, report_type: String, item: Json, admin_id: i32) -> (r: Self)
        ensures
            r.record_id == record_id,
            r.report_type == report_type,
            r.item == item,
            r.admin_id == admin_id,
            !r.processed,
            r.action.is_none(),
            r.skip_reason.is_none(),
            r.messages@.len() == 0,
            !r.is_batch_mode,
            !r.is_reprocess_mode,
            r.config.is_none(),
            r.user_id.is_none(),
    {
        ProcessingContext {
            record_id,
            report_type,
            item,
            admin_id,
            processed: false,
            action: None,
            skip_reason: None,
            messages: Vec::new(),
            is_batch_mode: false,
            is_reprocess_mode: false,
            config: None,
            user_id: None,
        }
    }
}

/// A resolution to apply to a report through its handling method.
#[derive(Debug, Clone, PartialEq, Eq)]
pub struct ApplyAction {
    pub handle_method: String,
    pub report_id: i32,
    pub admin_id: i32,
    pub resolution: String,
}

/// The user id of a record: the configured field read as an integer.
pub open spec fn record_user_id(config: SourceConfig, item: JsonV) -> Option<i64> {
    match jget(item, config.user_id_field@) {
        Some(v) => crate::types::value_to_i64_spec(v),
        None => None,
    }
}

/// Whether two contexts agree on everything but the decision fields.
pub open spec fn same_record(a: ProcessingContext, b: ProcessingContext) -> bool {
    &&& a.record_id == b.record_id
    &&& a.report_type == b.report_type
    &&& a.item == b.item
    &&& a.admin_id == b.admin_id
    &&& a.is_batch_mode == b.is_batch_mode
    &&& a.is_reprocess_mode == b.is_reprocess_mode
    &&& a.config == b.config
}

fn user_id_of(config: &SourceConfig, item: &Json) -> (r: Option<i64>)
    ensures
        r == record_user_id(*config, item@),
{
    match item.get(config.user_id_field.as_str()) {
        Some(v) => crate::types::value_to_i64(v),
        None => None,
    }
}

/// Passes the reports of official accounts without asking.
pub struct OfficialCheckProcessor;

impl OfficialCheckProcessor {
    /// The official-account check: a report on content of an official account
    /// passes at once. Where the record's user id can be read it is kept; for an
    /// official account the action becomes `P`, the report counts as processed,
    /// two messages are added, and the pass to apply comes back. Without a
    /// configuration nothing changes.
    pub fn process(&self, context: &mut ProcessingContext) -> (r: Option<ApplyAction>)
        ensures
            same_record(*final(context), *old(context)),
            final(context).skip_reason == old(context).skip_reason,
            match old(context).config {
                None => *final(context) == *old(context) && r.is_none(),
                Some(c) => match record_user_id(c, old(context).item@) {
                    None => *final(context) == *old(context) && r.is_none(),
                    Some(u) => final(context).user_id == Some(u) && if official_ids().contains(u) {
                        &&& final(context).action matches Some(a) && a@ == "P"@
                        &&& final(context).processed
                        &&& final(context).messages@.map_values(|m: String| m@) == old(
                            context,
                        ).messages@.map_values(|m: String| m@).push("官方内容，自动通过"@).push(
                            "已自动通过官方内容"@,
                        )
                        &&& r matches Some(x) && x.handle_method == c.handle_method && x.report_id
                            == report_id_spec(c.report_id_field@, old(context).item@) && x.admin_id
                            == old(context).admin_id && x.resolution@ == "PASS"@
                    } else {
                        &&& final(context).action == old(context).action
                        &&& final(context).processed == old(context).processed
                        &&& final(context).messages == old(context).messages
                        &&& r.is_none()
                    },
                },
            },
    {
        let uid = match &context.config {
            Some(c) => user_id_of(c, &context.item),
            None => {
                return None;
            },
        };
        match uid {
            Some(u) => {
                context.user_id = Some(u);
                if is_official(u) {
                    let ghost before = context.messages@;
                    context.messages.push(own("官方内容，自动通过"));
                    context.action = Some(own("P"));
                    context.processed = true;
                    let act = match &context.config {
                        Some(c) => ApplyAction {
                            handle_method: c.handle_method.clone(),
                            report_id: get_report_id(c, &context.item),
                            admin_id: context.admin_id,
                            resolution: own("PASS"),
                        },
                        None => {
                            return None;
                        },
                    };
                    context.messages.push(own("已自动通过官方内容"));
                    assert(context.messages@.map_values(|m: String| m@) =~= before.map_values(
                        |m: String| m@,
                    ).push("官方内容，自动通过"@).push("已自动通过官方内容"@));
                    Some(act)
                } else {
                    None
                }
            },
            None => None,
        }
    }
}

/// What the handler does after the operator picks an action key.
#[derive(Debug, Clone, PartialEq, Eq)]
pub enum ChoiceOutcome {
    /// An executing action: the report is processed; the resolution to
    /// apply comes with it where the report type is configured.
    Apply(Option<ApplyAction>),
    /// Look for violations with these parameters (source id, source kind,
    /// board name, user id), then ask again.
    CheckViolation(i64, String, String, Option<i64>),
    /// The report type does not support the violation check: ask again.
    Unsupported,
    /// The report is skipped.
    Skipped,
}

/// Whether a key is one of the action keys that a prompt offers.
pub open spec fn is_action_key(k: Seq<char>) -> bool {
    k == "D"@ || k == "S"@ || k == "T"@ || k == "P"@ || k == "U"@ || k == "F"@ || k == "J"@
}

/// The source id of a record for the violation check: the configured field
/// as an `i64`, else 0.
pub open spec fn check_source_id(config: SourceConfig, item: JsonV) -> i64 {
    match jint(jget(item, config.source_id_field@)) {
        Some(n) => n,
        None => 0,
    }
}

/// The board name of a record for the violation check: the configured
/// field's text, else empty.
pub open spec fn check_board_name(config: SourceConfig, item: JsonV) -> Seq<char> {
    match config.board_name_field {
        Some(f) => match jstr(jget(item, f@)) {
            Some(s) => s,
            None => Seq::empty(),
        },
        None => Seq::empty(),
    }
}

/// Applies the operator's choice of an action key to a report: `D`, `S`,
/// `T`, `P` and `U` set the action and process the report with the status
/// of the key; `F` asks for the violation check where the configuration's
/// special check accepts the record; `J` skips the report.
pub fn apply_choice(context: &mut ProcessingContext, choice: &str) -> (r: ChoiceOutcome)
    requires
        is_action_key(choice@),
    ensures
        same_record(*final(context), *old(context)),
        final(context).user_id == old(context).user_id,
        final(context).messages == old(context).messages,
        if choice@ == "F"@ {
            *final(context) == *old(context) && match old(context).config {
                Some(c) => match c.special_check {
                    Some(sc) => if crate::registry::special_check_spec(sc, old(context).item@) {
                        r matches ChoiceOutcome::CheckViolation(sid, st, board, uid) && sid
                            == check_source_id(c, old(context).item@) && st@ == violation_source_spec(
                            old(context).report_type@,
                        ) && board@ == check_board_name(c, old(context).item@) && uid
                            == record_user_id(c, old(context).item@)
                    } else {
                        r == ChoiceOutcome::Unsupported
                    },
                    None => r == ChoiceOutcome::Unsupported,
                },
                None => r == ChoiceOutcome::Unsupported,
            }
        } else if choice@ == "J"@ {
            &&& final(context).skip_reason matches Some(s) && s@ == "用户选择跳过"@
            &&& final(context).processed
            &&& final(context).action == old(context).action
            &&& r == ChoiceOutcome::Skipped
        } else {
            &&& final(context).action matches Some(a) && a@ == choice@
            &&& final(context).processed
            &&& final(context).skip_reason == old(context).skip_reason
            &&& match old(context).config {
                Some(c) => r matches ChoiceOutcome::Apply(Some(x)) && x.handle_method
                    == c.handle_method && x.report_id == report_id_spec(
                    c.report_id_field@,
                    old(context).item@,
                ) && x.admin_id == old(context).admin_id && x.resolution@
                    == crate::types::action_table(choice@).1,
                None => r == ChoiceOutcome::Apply(None),
            }
        },
{
    if str_eq(choice, "F") {
        match &context.config {
            Some(c) => match &c.special_check {
                Some(sc) => {
                    if sc.applies(&context.item) {
                        let sid = match context.item.get(c.source_id_field.as_str()) {
                            Some(v) => match v.as_i64() {
                                Some(n) => n,
                                None => 0,
                            },
                            None => 0,
                        };
                        let board = match &c.board_name_field {
                            Some(f) => match crate::chat::str_field(&context.item, f.as_str()) {
                                Some(t) => t,
                                None => String::new(),
                            },
                            None => String::new(),
                        };
                        let st = own(violation_source(context.report_type.as_str()));
                        let uid = user_id_of(c, &context.item);
                        return ChoiceOutcome::CheckViolation(sid, st, board, uid);
                    }
                    ChoiceOutcome::Unsupported
                },
                None => ChoiceOutcome::Unsupported,
            },
            None => ChoiceOutcome::Unsupported,
        }
    } else if str_eq(choice, "J") {
        context.skip_reason = Some(own("用户选择跳过"));
        context.processed = true;
        ChoiceOutcome::Skipped
    } else {
        proof {
            reveal_strlit("D");
            reveal_strlit("S");
            reveal_strlit("T");
            reveal_strlit("P");
            reveal_strlit("U");
            reveal_strlit("F");
            reveal_strlit("J");
        }
        context.action = Some(own(choice));
        let outcome = match &context.config {
            Some(c) => {
                let res = crate::types::ActionConfig::simple(choice);
                ChoiceOutcome::Apply(
                    Some(
                        ApplyAction {
                            handle_method: c.handle_method.clone(),
                            report_id: get_report_id(c, &context.item),
                            admin_id: context.admin_id,
                            resolution: res.status,
                        },
                    ),
                )
            },
            None => ChoiceOutcome::Apply(None),
        };
        context.processed = true;
        outcome
    }
}

/// The account that a line of an account file names: `user:password`,
/// each part trimmed, on a line that is neither blank nor a `#` comment.
pub open spec fn account_of(line: Seq<char>) -> Option<(Seq<char>, Seq<char>)> {
    let t = crate::text::trim_spec(line);
    if t.len() == 0 || t[0] == '#' {
        None
    } else {
        match crate::decoders::first_pos(t, ':') {
            Some(p) => Some((crate::text::trim_spec(t.take(p)), crate::text::trim_spec(t.skip(p + 1)))),
            None => None,
        }
    }
}

/// The accounts of the lines, in order.
pub open spec fn accounts_of(lines: Seq<Seq<char>>) -> Seq<(Seq<char>, Seq<char>)>
    decreases lines.len(),
{
    if lines.len() == 0 {
        Seq::empty()
    } else {
        let rest = accounts_of(lines.drop_last());
        match account_of(lines.last()) {
            Some(a) => rest.push(a),
            None => rest,
        }
    }
}

/// The accounts as text pairs.
pub open spec fn view_accounts(a: Seq<(String, String)>) -> Seq<(Seq<char>, Seq<char>)> {
    a.map_values(|x: (String, String)| (x.0@, x.1@))
}

#[verifier::loop_isolation(false)]
fn account_from(line: &str) -> (r: Option<(String, String)>)
    ensures
        match r {
            Some(a) => account_of(line@) == Some((a.0@, a.1@)),
            None => account_of(line@).is_none(),
        },
{
    let t = crate::text::trim(line);
    let ts = t.as_str();
    let n = ts.unicode_len();
    if n == 0 || ts.get_char(0) == '#' {
        return None;
    }
    proof {
        crate::decoders::lemma_first_pos(ts@, ':');
    }
    let mut i: usize = 0;
    while i < n
        invariant
            n == ts@.len(),
            ts@ == t@,
            i <= n,
            forall|j: int| 0 <= j < i ==> ts@[j] != ':',
        decreases n - i,
    {
        if ts.get_char(i) == ':' {
            proof {
                match crate::decoders::first_pos(ts@, ':') {
                    Some(k) => {
                        if k < i {
                            assert(ts@[k] == ':');
                        } else if k > i {
                            assert(ts@[i as int] == ':');
                        }
                    },
                    None => {
                        assert(ts@[i as int] == ':');
                    },
                }
            }
            let user = crate::text::trim(ts.substring_char(0, i));
            let pass = crate::text::trim(ts.substring_char(i + 1, n));
            assert(ts@.take(i as int) == ts@.subrange(0, i as int));
            assert(ts@.skip(i + 1) == ts@.subrange(i + 1, n as int));
            return Some((user, pass));
        }
        i = i + 1;
    }
    proof {
        match crate::decoders::first_pos(ts@, ':') {
            Some(k) => {
                assert(ts@[k] == ':');
            },
            None => {},
        }
    }
    None
}

impl<I> MultiAccount<I> {
    /// Replaces the accounts with those of the text of an account file
    /// ([`accounts_of`] of its lines).
    pub fn load_from_text(&mut self, content: &str)
        ensures
            view_accounts(final(self).accounts@) == accounts_of(split_char(content@, '\n')),
            final(self).identity_type == old(self).identity_type,
    {
        let lines = split_on(content, '\n');
        let ghost lv = crate::retrieve::view_texts(lines@);
        self.accounts.clear();
        assert(view_accounts(self.accounts@) =~= Seq::<(Seq<char>, Seq<char>)>::empty());
        let mut i: usize = 0;
        while i < lines.len()
            invariant
                i <= lines@.len(),
                lv == crate::retrieve::view_texts(lines@),
                lv == split_char(content@, '\n'),
                self.identity_type == old(self).identity_type,
                view_accounts(self.accounts@) == accounts_of(lv.subrange(0, i as int)),
            decreases lines@.len() - i,
        {
            let ghost sub = lv.subrange(0, i + 1);
            assert(sub.drop_last() == lv.subrange(0, i as int));
            assert(sub.last() == lines@[i as int]@);
            match account_from(lines[i].as_str()) {
                Some(a) => {
                    let ghost before = self.accounts@;
                    self.accounts.push(a);
                    assert(view_accounts(self.accounts@) =~= view_accounts(before).push((
                        self.accounts@.last().0@,
                        self.accounts@.last().1@,
                    )));
                },
                None => {},
            }
            i = i + 1;
        }
        assert(lv.subrange(0, lines@.len() as int) == lv);
    }
}


/// The index of the first keyword that occurs in `text`.
pub open spec fn first_keyword(text: Seq<char>, keys: Seq<(Seq<char>, JsonV)>) -> Option<int>
    decreases keys.len(),
{
    if keys.len() == 0 {
        None
    } else {
        match first_keyword(text, keys.drop_last()) {
            Some(i) => Some(i),
            None => if crate::text::contains_text(text, keys.last().0) {
                Some(keys.len() - 1)
            } else {
                None
            },
        }
    }
}

/// How many replies there are to choose from: the items of the matched
/// keyword's answer when it is an array (none otherwise), or the general
/// replies when no keyword matches.
pub open spec fn reply_choices(
    text: Seq<char>,
    answers: Seq<(Seq<char>, JsonV)>,
    replies: Seq<Seq<char>>,
) -> nat {
    match first_keyword(text, answers) {
        Some(i) => match answers[i].1 {
            JsonV::Array(a) => a.len(),
            _ => 0,
        },
        None => replies.len(),
    }
}

/// The reply chosen for a comment with choice `pick`, and the keyword that
/// matched: the first keyword found in the text answers with its text, or
/// with item `pick` of its array (a non-text item answers with nothing);
/// without a match, general reply `pick` answers. Empty where there is
/// nothing to choose from.
pub open spec fn keyword_reply_spec(
    text: Seq<char>,
    answers: Seq<(Seq<char>, JsonV)>,
    replies: Seq<Seq<char>>,
    pick: int,
) -> (Seq<char>, Option<Seq<char>>) {
    match first_keyword(text, answers) {
        Some(i) => (
            match answers[i].1 {
                JsonV::Array(a) => if a.len() == 0 {
                    Seq::empty()
                } else {
                    match a[pick] {
                        JsonV::Str(t) => t,
                        _ => Seq::empty(),
                    }
                },
                JsonV::Str(t) => t,
                _ => Seq::empty(),
            },
            Some(answers[i].0),
        ),
        None => (
            if replies.len() == 0 {
                Seq::empty()
            } else {
                replies[pick]
            },
            None,
        ),
    }
}

fn keyword_index(text: &str, answers: &Vec<(String, Json)>) -> (r: Option<usize>)
    ensures
        match r {
            Some(i) => i < answers@.len() && first_keyword(text@, crate::json::view_entries(answers@))
                == Some(i as int),
            None => first_keyword(text@, crate::json::view_entries(answers@)).is_none(),
        },
{
    let ghost es = crate::json::view_entries(answers@);
    proof {
        crate::json::lemma_view_entries(answers@);
    }
    let mut i: usize = 0;
    while i < answers.len()
        invariant
            i <= answers@.len(),
            es == crate::json::view_entries(answers@),
            es.len() == answers@.len(),
            forall|k: int| 0 <= k < answers@.len() ==> #[trigger] es[k] == (answers@[k].0@, answers@[k].1@),
            first_keyword(text@, es.take(i as int)).is_none(),
        decreases answers@.len() - i,
    {
        let found = crate::text::contains_str(text, answers[i].0.as_str());
        assert(es.take(i + 1).drop_last() == es.take(i as int));
        assert(es.take(i + 1).last() == es[i as int]);
        if found {
            proof {
                lemma_first_keyword_prefix(text@, es, i + 1);
            }
            return Some(i);
        }
        i = i + 1;
    }
    assert(es.take(i as int) == es);
    None
}

proof fn lemma_first_keyword_prefix(text: Seq<char>, es: Seq<(Seq<char>, JsonV)>, n: int)
    requires
        0 <= n <= es.len(),
        first_keyword(text, es.take(n)) is Some,
    ensures
        first_keyword(text, es) == first_keyword(text, es.take(n)),
    decreases es.len() - n,
{
    if n < es.len() {
        assert(es.take(n + 1).drop_last() == es.take(n));
        lemma_first_keyword_prefix(text, es, n + 1);
    } else {
        assert(es.take(n) == es);
    }
}

/// The reply for a comment with choice `pick` made
/// ([`keyword_reply_spec`]).
pub fn keyword_reply(
    comment_text: &str,
    formatted_answers: &Vec<(String, Json)>,
    formatted_replies: &Vec<String>,
    pick: usize,
) -> (r: (String, Option<String>))
    requires
        pick < reply_choices(
            comment_text@,
            crate::json::view_entries(formatted_answers@),
            crate::retrieve::view_texts(formatted_replies@),
        ) || reply_choices(
            comment_text@,
            crate::json::view_entries(formatted_answers@),
            crate::retrieve::view_texts(formatted_replies@),
        ) == 0,
    ensures
        (r.0@, match r.1 {
            Some(k) => Some(k@),
            None => None,
        }) == keyword_reply_spec(
            comment_text@,
            crate::json::view_entries(formatted_answers@),
            crate::retrieve::view_texts(formatted_replies@),
            pick as int,
        ),
{
    proof {
        crate::json::lemma_view_entries(formatted_answers@);
    }
    match keyword_index(comment_text, formatted_answers) {
        Some(i) => {
            let chosen = match &formatted_answers[i].1 {
                Json::Array(arr) => {
                    proof {
                        crate::json::lemma_view_items(arr@);
                    }
                    if arr.len() == 0 {
                        String::new()
                    } else {
                        match &arr[pick] {
                            Json::Str(t) => t.clone(),
                            _ => String::new(),
                        }
                    }
                },
                Json::Str(t) => t.clone(),
                _ => String::new(),
            };
            (chosen, Some(formatted_answers[i].0.clone()))
        },
        None => {
            let chosen = if formatted_replies.len() == 0 {
                String::new()
            } else {
                formatted_replies[pick].clone()
            };
            (chosen, None)
        },
    }
}

impl ReplyProcessor {
    /// Picks the reply for a comment: the first keyword (in the order given)
    /// that occurs in the text answers, with one of its replies chosen at
    /// random where it has several; without a match a general reply is chosen
    /// at random. Which one comes out depends on the random choice; it is
    /// [`keyword_reply_spec`] for some choice among [`reply_choices`].
    pub fn match_keyword(
        comment_text: &str,
        formatted_answers: &Vec<(String, Json)>,
        formatted_replies: &Vec<String>,
    ) -> (r: (String, Option<String>))
        ensures
            exists|pick: int|
                (pick == 0 || 0 <= pick < reply_choices(
                    comment_text@,
                    crate::json::view_entries(formatted_answers@),
                    crate::retrieve::view_texts(formatted_replies@),
                )) && (r.0@, match r.1 {
                    Some(k) => Some(k@),
                    None => None,
                }) == #[trigger] keyword_reply_spec(
                    comment_text@,
                    crate::json::view_entries(formatted_answers@),
                    crate::retrieve::view_texts(formatted_replies@),
                    pick,
                ),
    {
        proof {
            crate::json::lemma_view_entries(formatted_answers@);
        }
        let n: usize = match keyword_index(comment_text, formatted_answers) {
            Some(i) => match &formatted_answers[i].1 {
                Json::Array(arr) => {
                    proof {
                        crate::json::lemma_view_items(arr@);
                    }
                    arr.len()
                },
                _ => 0,
            },
            None => formatted_replies.len(),
        };
        let pick: usize = if n == 0 {
            0
        } else {
            crate::deepseek::random_index(n)
        };
        keyword_reply(comment_text, formatted_answers, formatted_replies, pick)
    }
}


/// An entry is reported as advertising exactly when its lower-cased text
/// holds any one of the keywords, wherever that keyword stands in the list:
/// adding an entry adds its identifier to the hits just then, after the
/// hits of the entries before it.
pub proof fn law_ads_any_keyword(
    entries: Seq<(JsonV, bool)>,
    e: (JsonV, bool),
    item_id: i64,
    source_type: Seq<char>,
    keywords: Seq<Seq<char>>,
)
    requires
        keywords.len() > 0,
    ensures
        ({
            let content = crate::text::lowercase(crate::chat::text_or_empty(jstr(jget(e.0, "content"@))));
            ads_hits(entries.push(e), item_id, source_type, keywords) == ads_hits(
                entries,
                item_id,
                source_type,
                keywords,
            ) + if exists|j: int| 0 <= j < keywords.len() && crate::text::contains_text(content, keywords[j]) {
                seq![identifier_spec(source_type, item_id, e.0, e.1)]
            } else {
                Seq::empty()
            }
        }),
        ads_hits(entries, item_id, source_type, Seq::empty()) == Seq::<Seq<char>>::empty(),
{
    assert(entries.push(e).drop_last() =~= entries);
    let content = crate::text::lowercase(crate::chat::text_or_empty(jstr(jget(e.0, "content"@))));
    let rest = ads_hits(entries, item_id, source_type, keywords);
    assert(rest.push(identifier_spec(source_type, item_id, e.0, e.1)) =~= rest + seq![
        identifier_spec(source_type, item_id, e.0, e.1),
    ]);
    assert(rest + Seq::<Seq<char>>::empty() =~= rest);
}


/// An entry is reported by the blacklist exactly when the text of its
/// `user_id` (empty when it has none) equals some entry of the list: adding
/// an entry adds its identifier to the hits just then.
pub proof fn law_blacklist_member(
    entries: Seq<(JsonV, bool)>,
    e: (JsonV, bool),
    item_id: i64,
    source_type: Seq<char>,
    list: Seq<Seq<char>>,
)
    requires
        list.len() > 0,
    ensures
        ({
            let uid = match jget(e.0, "user_id"@) {
                Some(u) => crate::types::value_to_string_spec(u),
                None => Seq::empty(),
            };
            blacklist_hits(entries.push(e), item_id, source_type, list) == blacklist_hits(
                entries,
                item_id,
                source_type,
                list,
            ) + if exists|j: int| 0 <= j < list.len() && list[j] == uid {
                seq![identifier_spec(source_type, item_id, e.0, e.1)]
            } else {
                Seq::empty()
            }
        }),
{
    assert(entries.push(e).drop_last() =~= entries);
    let uid = match jget(e.0, "user_id"@) {
        Some(u) => crate::types::value_to_string_spec(u),
        None => Seq::empty(),
    };
    let rest = blacklist_hits(entries, item_id, source_type, list);
    assert(rest.push(identifier_spec(source_type, item_id, e.0, e.1)) =~= rest + seq![
        identifier_spec(source_type, item_id, e.0, e.1),
    ]);
    assert(rest + Seq::<Seq<char>>::empty() =~= rest);
    if exists|j: int| 0 <= j < list.len() && list[j] == uid {
        let j = choose|j: int| 0 <= j < list.len() && list[j] == uid;
        assert(list.contains(uid));
    }
}


proof fn lemma_split_no_sep(s: Seq<char>, t: Seq<char>, c: char)
    requires
        forall|i: int| 0 <= i < t.len() ==> t[i] != c,
    ensures
        split_char(s + t, c) == split_char(s, c).update(
            split_char(s, c).len() - 1,
            split_char(s, c).last() + t,
        ),
        split_char(s, c).len() >= 1,
        split_char(s + t, c).len() == split_char(s, c).len(),
    decreases t.len(),
{
    lemma_split_len(s, c);
    if t.len() == 0 {
        assert(s + t =~= s);
        assert(split_char(s, c).last() + t =~= split_char(s, c).last());
        assert(split_char(s, c).update(split_char(s, c).len() - 1, split_char(s, c).last())
            =~= split_char(s, c));
    } else {
        let t0 = t.drop_last();
        lemma_split_no_sep(s, t0, c);
        assert((s + t).drop_last() =~= s + t0);
        assert((s + t).last() == t.last());
        assert(t.last() == t[t.len() - 1]);
        let p = split_char(s, c);
        assert(p.last() + t0 + seq![t.last()] =~= p.last() + t);
        assert((p.last() + t0).push(t.last()) =~= p.last() + t);
        lemma_split_len(s + t0, c);
        assert(split_char(s + t, c) =~= p.update(p.len() - 1, p.last() + t));
    }
}

proof fn lemma_split_len(s: Seq<char>, c: char)
    ensures
        split_char(s, c).len() >= 1,
    decreases s.len(),
{
    if s.len() > 0 {
        lemma_split_len(s.drop_last(), c);
    }
}

proof fn lemma_split_sep(s: Seq<char>, t: Seq<char>, c: char)
    requires
        forall|i: int| 0 <= i < t.len() ==> t[i] != c,
    ensures
        split_char(s + seq![c] + t, c) == split_char(s, c).push(t),
{
    let s1 = s + seq![c];
    assert(s1.drop_last() =~= s);
    assert(s1.last() == c);
    assert(split_char(s1, c) == split_char(s, c).push(Seq::empty()));
    lemma_split_no_sep(s1, t, c);
    let p = split_char(s, c).push(Seq::<char>::empty());
    assert(p.last() + t =~= t);
    assert(p.update(p.len() - 1, t) =~= split_char(s, c).push(t));
}

proof fn lemma_no_colon_dec(n: int)
    ensures
        forall|i: int| 0 <= i < dec_int(n).len() ==> dec_int(n)[i] != ':',
{
    if n < 0 {
        crate::text::lemma_dec_nat((-n) as nat);
        assert forall|i: int| 0 <= i < dec_int(n).len() implies dec_int(n)[i] != ':' by {
            if i > 0 {
                assert(dec_int(n)[i] == crate::text::dec_nat((-n) as nat)[i - 1]);
                assert(crate::text::is_digit(crate::text::dec_nat((-n) as nat)[i - 1]));
            }
        }
    } else {
        crate::text::lemma_dec_nat(n as nat);
        assert forall|i: int| 0 <= i < dec_int(n).len() implies dec_int(n)[i] != ':' by {
            assert(crate::text::is_digit(crate::text::dec_nat(n as nat)[i]));
        }
    }
}

/// A violation identifier reads back as what it was built from: the source,
/// the item id, the kind (`reply` or `comment`), the parent id (0 for a
/// comment or when missing) and the content id (0 when missing), given a
/// source without `:` and ids that fit the 32-bit fields of the reader.
pub proof fn law_identifier_roundtrip(source_type: Seq<char>, item_id: i64, data: JsonV, is_reply: bool)
    requires
        forall|i: int| 0 <= i < source_type.len() ==> source_type[i] != ':',
        ({
            let content_id = match jint(jget(data, "id"@)) {
                Some(n) => n as int,
                None => 0,
            };
            let parent_id = if is_reply {
                match jint(jget(data, "parent_id"@)) {
                    Some(n) => n as int,
                    None => 0,
                }
            } else {
                0
            };
            i32::MIN <= content_id <= i32::MAX && i32::MIN <= parent_id <= i32::MAX
        }),
    ensures
        ({
            let content_id = match jint(jget(data, "id"@)) {
                Some(n) => n as int,
                None => 0,
            };
            let parent_id = if is_reply {
                match jint(jget(data, "parent_id"@)) {
                    Some(n) => n as int,
                    None => 0,
                }
            } else {
                0
            };
            parse_violation_spec(identifier_spec(source_type, item_id, data, is_reply)) == Some(
                (
                    source_type,
                    item_id,
                    if is_reply {
                        "reply"@
                    } else {
                        "comment"@
                    },
                    parent_id as i32,
                    content_id as i32,
                ),
            )
        }),
{
    reveal_strlit("reply");
    reveal_strlit("comment");
    let content_id = match jint(jget(data, "id"@)) {
        Some(n) => n as int,
        None => 0,
    };
    let parent_id = if is_reply {
        match jint(jget(data, "parent_id"@)) {
            Some(n) => n as int,
            None => 0,
        }
    } else {
        0
    };
    let kind = if is_reply {
        "reply"@
    } else {
        "comment"@
    };
    assert(forall|i: int| 0 <= i < kind.len() ==> kind[i] != ':');
    lemma_no_colon_dec(item_id as int);
    lemma_no_colon_dec(parent_id);
    lemma_no_colon_dec(content_id);
    crate::text::lemma_dec_int_roundtrip(item_id as int);
    crate::text::lemma_dec_int_roundtrip(parent_id);
    crate::text::lemma_dec_int_roundtrip(content_id);
    let a = dec_int(item_id as int);
    let b = dec_int(parent_id);
    let d = dec_int(content_id);
    let c = ':';
    lemma_split_no_sep(Seq::empty(), source_type, c);
    assert(Seq::<char>::empty() + source_type =~= source_type);
    assert(split_char(Seq::empty(), c) =~= seq![Seq::<char>::empty()]);
    assert(split_char(source_type, c) =~= seq![source_type]);
    let s1 = source_type + seq![c] + a;
    lemma_split_sep(source_type, a, c);
    let s2 = s1 + seq![c] + kind;
    lemma_split_sep(s1, kind, c);
    let s3 = s2 + seq![c] + b;
    lemma_split_sep(s2, b, c);
    let s4 = s3 + seq![c] + d;
    lemma_split_sep(s3, d, c);
    assert(identifier_spec(source_type, item_id, data, is_reply) =~= s4);
    assert(split_char(s4, c) =~= seq![source_type, a, kind, b, d]);
}

/// The keyword that answers is the earliest listed one found in the text:
/// it occurs in the text and no keyword listed before it does; with no
/// match, no keyword occurs in the text.
pub proof fn law_first_keyword_wins(text: Seq<char>, keys: Seq<(Seq<char>, JsonV)>)
    ensures
        match first_keyword(text, keys) {
            Some(i) => {
                &&& 0 <= i < keys.len()
                &&& crate::text::contains_text(text, keys[i].0)
                &&& forall|j: int| 0 <= j < i ==> !crate::text::contains_text(text, #[trigger] keys[j].0)
            },
            None => forall|j: int| 0 <= j < keys.len() ==> !crate::text::contains_text(text, #[trigger] keys[j].0),
        },
    decreases keys.len(),
{
    if keys.len() > 0 {
        let k0 = keys.drop_last();
        law_first_keyword_wins(text, k0);
        match first_keyword(text, k0) {
            Some(i) => {
                assert forall|j: int| 0 <= j < i implies !crate::text::contains_text(text, #[trigger] keys[j].0) by {
                    assert(keys[j] == k0[j]);
                }
                assert(keys[i] == k0[i]);
            },
            None => {
                assert forall|j: int| 0 <= j < keys.len() - 1 implies !crate::text::contains_text(
                    text,
                    #[trigger] keys[j].0,
                ) by {
                    assert(keys[j] == k0[j]);
                }
            },
        }
    }
}

/// Whether a comment is pinned (`is_top` true).
pub open spec fn is_pinned(c: JsonV) -> bool {
    crate::json::jbool(jget(c, "is_top"@)) == Some(true)
}

/// The replies of a comment (none unless `replies` is an array).
pub open spec fn replies_of(c: JsonV) -> Seq<JsonV> {
    match crate::json::jarr(jget(c, "replies"@)) {
        Some(rs) => rs,
        None => Seq::empty(),
    }
}

/// Pinned comments are left alone, and everything else is checked: every
/// entry marked as a comment is an unpinned comment, every entry marked as a
/// reply is a reply to an unpinned comment, and every unpinned comment and
/// each of its replies is checked, with the right mark.
pub proof fn law_unpinned_checked(comments: Seq<JsonV>)
    ensures
        forall|i: int|
            0 <= i < comment_entries_spec(comments).len() && !(#[trigger] comment_entries_spec(comments)[i]).1
                ==> exists|j: int|
                0 <= j < comments.len() && #[trigger] comments[j] == comment_entries_spec(comments)[i].0
                    && !is_pinned(comments[j]),
        forall|i: int|
            0 <= i < comment_entries_spec(comments).len() && (#[trigger] comment_entries_spec(comments)[i]).1
                ==> exists|j: int|
                0 <= j < comments.len() && !is_pinned(#[trigger] comments[j]) && replies_of(comments[j]).contains(
                    comment_entries_spec(comments)[i].0,
                ),
        forall|j: int|
            0 <= j < comments.len() && !is_pinned(#[trigger] comments[j]) ==> comment_entries_spec(
                comments,
            ).contains((comments[j], false)),
        forall|j: int, r: int|
            0 <= j < comments.len() && !is_pinned(comments[j]) && 0 <= r < replies_of(comments[j]).len()
                ==> comment_entries_spec(comments).contains((#[trigger] replies_of(comments[j])[r], true)),
    decreases comments.len(),
{
    if comments.len() > 0 {
        let c0 = comments.drop_last();
        law_unpinned_checked(c0);
        let rest = comment_entries_spec(c0);
        let c = comments.last();
        let e = comment_entries_spec(comments);
        let last = comments.len() - 1;
        assert(comments[last] == c);
        assert forall|j: int| 0 <= j < c0.len() implies #[trigger] comments[j] == c0[j] by {}
        if is_pinned(c) {
            assert(e == rest);
            assert forall|i: int| 0 <= i < e.len() && !(#[trigger] e[i]).1 implies exists|j: int|
                0 <= j < comments.len() && #[trigger] comments[j] == e[i].0 && !is_pinned(comments[j]) by {
                let j = choose|j: int| 0 <= j < c0.len() && #[trigger] c0[j] == rest[i].0 && !is_pinned(c0[j]);
                assert(comments[j] == c0[j]);
            }
            assert forall|i: int| 0 <= i < e.len() && (#[trigger] e[i]).1 implies exists|j: int|
                0 <= j < comments.len() && !is_pinned(#[trigger] comments[j]) && replies_of(comments[j]).contains(
                    e[i].0,
                ) by {
                let j = choose|j: int|
                    0 <= j < c0.len() && !is_pinned(#[trigger] c0[j]) && replies_of(c0[j]).contains(rest[i].0);
                assert(comments[j] == c0[j]);
            }
            assert forall|j: int| 0 <= j < comments.len() && !is_pinned(#[trigger] comments[j]) implies e.contains(
                (comments[j], false),
            ) by {
                assert(j < c0.len());
                assert(comments[j] == c0[j]);
            }
            assert forall|j: int, r: int|
                0 <= j < comments.len() && !is_pinned(comments[j]) && 0 <= r < replies_of(comments[j]).len()
                    implies e.contains((#[trigger] replies_of(comments[j])[r], true)) by {
                assert(j < c0.len());
                assert(comments[j] == c0[j]);
                assert(replies_of(c0[j])[r] == replies_of(comments[j])[r]);
            }
        } else {
            let rs = replies_of(c);
            let tail = rs.map_values(|x: JsonV| (x, true));
            assert(e == rest + seq![(c, false)] + tail);
            let n0 = rest.len() as int;
            assert forall|i: int| 0 <= i < n0 implies #[trigger] e[i] == rest[i] by {}
            assert(e[n0] == (c, false));
            assert forall|k: int| 0 <= k < rs.len() implies #[trigger] e[n0 + 1 + k] == (rs[k], true) by {}
            assert forall|i: int| 0 <= i < e.len() && !(#[trigger] e[i]).1 implies exists|j: int|
                0 <= j < comments.len() && #[trigger] comments[j] == e[i].0 && !is_pinned(comments[j]) by {
                if i < n0 {
                    assert(e[i] == rest[i]);
                    let j = choose|j: int| 0 <= j < c0.len() && #[trigger] c0[j] == rest[i].0 && !is_pinned(c0[j]);
                    assert(comments[j] == c0[j]);
                } else if i == n0 {
                    assert(comments[last] == e[i].0);
                } else {
                    assert(e[n0 + 1 + (i - n0 - 1)] == (rs[i - n0 - 1], true));
                }
            }
            assert forall|i: int| 0 <= i < e.len() && (#[trigger] e[i]).1 implies exists|j: int|
                0 <= j < comments.len() && !is_pinned(#[trigger] comments[j]) && replies_of(comments[j]).contains(
                    e[i].0,
                ) by {
                if i < n0 {
                    assert(e[i] == rest[i]);
                    let j = choose|j: int|
                        0 <= j < c0.len() && !is_pinned(#[trigger] c0[j]) && replies_of(c0[j]).contains(rest[i].0);
                    assert(comments[j] == c0[j]);
                } else if i == n0 {
                } else {
                    let k = i - n0 - 1;
                    assert(e[n0 + 1 + k] == (rs[k], true));
                    assert(rs[k] == e[i].0);
                    assert(rs.contains(e[i].0));
                    assert(!is_pinned(comments[last]));
                }
            }
            assert forall|j: int| 0 <= j < comments.len() && !is_pinned(#[trigger] comments[j]) implies e.contains(
                (comments[j], false),
            ) by {
                if j < c0.len() {
                    assert(comments[j] == c0[j]);
                    assert(rest.contains((c0[j], false)));
                    let i = choose|i: int| 0 <= i < rest.len() && rest[i] == (c0[j], false);
                    assert(e[i] == rest[i]);
                } else {
                    assert(e[n0] == (comments[j], false));
                }
            }
            assert forall|j: int, r: int|
                0 <= j < comments.len() && !is_pinned(comments[j]) && 0 <= r < replies_of(comments[j]).len()
                    implies e.contains((#[trigger] replies_of(comments[j])[r], true)) by {
                if j < c0.len() {
                    assert(comments[j] == c0[j]);
                    assert(replies_of(c0[j])[r] == replies_of(comments[j])[r]);
                    assert(rest.contains((replies_of(c0[j])[r], true)));
                    let i = choose|i: int| 0 <= i < rest.len() && rest[i] == (replies_of(c0[j])[r], true);
                    assert(e[i] == rest[i]);
                } else {
                    assert(e[n0 + 1 + r] == (rs[r], true));
                }
            }
        }
    }
}

} // verus!
