//! The report service's reading of records: when a record was made, how
//! records are gathered into batch groups across chunks, and which type
//! filter a record meets.

use vstd::prelude::*;

use crate::json::{jget, jint, view_items, Json, JsonV};
use crate::registry::ReportTypeRegistry;
use crate::text::{dec_int, dec_nat, own, push_char, push_str, push_u64, str_eq};
use crate::types::value_to_string_spec;

verus! {

/// The civil date of a day count since 1970-01-01, as the days-to-civil
/// conversion of the proleptic Gregorian calendar computes it: (year, month,
/// day).
pub open spec fn civil_from_days(days: int) -> (int, int, int) {
    let z = days + 719468;
    let era = z / 146097;
    let doe = z % 146097;
    let yoe = (doe - doe / 1460 + doe / 36524 - doe / 146096) / 365;
    let y = yoe + era * 400;
    let doy = doe - (365 * yoe + yoe / 4 - yoe / 100);
    let mp = (5 * doy + 2) / 153;
    let day = doy - (153 * mp + 2) / 5 + 1;
    let month = if mp < 10 {
        mp + 3
    } else {
        mp - 9
    };
    (if month <= 2 {
        y + 1
    } else {
        y
    }, month, day)
}

/// A number printed with at least `w` digits, zeros in front.
pub open spec fn padded(n: nat, w: nat) -> Seq<char> {
    let d = dec_nat(n);
    if d.len() < w {
        Seq::new((w - d.len()) as nat, |i: int| '0') + d
    } else {
        d
    }
}

/// The seconds of a timestamp given in seconds or, above 10^11, in
/// milliseconds.
pub open spec fn timestamp_secs(n: i64) -> int {
    if n > 100_000_000_000 {
        n / 1000
    } else {
        n as int
    }
}

/// A timestamp printed as the UTC time `YYYY-MM-DD HH:MM`; empty for a
/// value that is not an integer or not after 1970.
pub open spec fn format_timestamp_spec(v: JsonV) -> Seq<char> {
    match jint(Some(v)) {
        None => Seq::empty(),
        Some(n) => {
            let secs = timestamp_secs(n);
            if secs <= 0 {
                Seq::empty()
            } else {
                let days = secs / 86400;
                let rem = secs % 86400;
                let (y, m, d) = civil_from_days(days);
                padded(y as nat, 4) + seq!['-'] + padded(m as nat, 2) + seq!['-'] + padded(d as nat, 2)
                    + seq![' '] + padded((rem / 3600) as nat, 2) + seq![':'] + padded(
                    ((rem % 3600) / 60) as nat,
                    2,
                )
            }
        },
    }
}

fn push_padded(out: &mut String, n: u64, w: usize)
    requires
        w <= 4,
    ensures
        final(out)@ == old(out)@ + padded(n as nat, w as nat),
{
    let digits = crate::text::fmt_u64(n);
    let len = digits.as_str().unicode_len();
    let ghost before = out@;
    if len < w {
        let mut k: usize = 0;
        while k < w - len
            invariant
                k <= w - len,
                len < w,
                out@ == before + Seq::new(k as nat, |i: int| '0'),
            decreases w - len - k,
        {
            push_char(out, '0');
            assert(out@ =~= before + Seq::new((k + 1) as nat, |i: int| '0'));
            k = k + 1;
        }
    }
    push_str(out, digits.as_str());
    assert(out@ =~= before + padded(n as nat, w as nat));
}

/// The ranges of the civil conversion for a day count from 1970 on.
pub proof fn lemma_civil_ranges(days: int)
    requires
        days >= 0,
    ensures
        civil_from_days(days).0 >= 1970,
        1 <= civil_from_days(days).1 <= 12,
        1 <= civil_from_days(days).2 <= 31,
{
    let z = days + 719468;
    let era = z / 146097;
    let doe = z % 146097;
    assert(0 <= doe < 146097);
    assert(era >= 4) by (nonlinear_arith)
        requires
            z >= 719468,
            era == z / 146097,
    ;
    let yoe = (doe - doe / 1460 + doe / 36524 - doe / 146096) / 365;
    assert(0 <= yoe <= 399) by (nonlinear_arith)
        requires
            0 <= doe < 146097,
            yoe == (doe - doe / 1460 + doe / 36524 - doe / 146096) / 365,
    ;
    let doy = doe - (365 * yoe + yoe / 4 - yoe / 100);
    assert(0 <= doy <= 365) by (nonlinear_arith)
        requires
            0 <= doe < 146097,
            yoe == (doe - doe / 1460 + doe / 36524 - doe / 146096) / 365,
            doy == doe - (365 * yoe + yoe / 4 - yoe / 100),
    ;
    let mp = (5 * doy + 2) / 153;
    assert(0 <= mp <= 11);
    let day = doy - (153 * mp + 2) / 5 + 1;
    assert(1 <= day <= 31) by (nonlinear_arith)
        requires
            0 <= doy <= 365,
            mp == (5 * doy + 2) / 153,
            day == doy - (153 * mp + 2) / 5 + 1,
    ;
}

fn civil(days: i64) -> (r: (i64, i64, i64))
    requires
        0 <= days <= 106_751_991_167_300,
    ensures
        (r.0 as int, r.1 as int, r.2 as int) == civil_from_days(days as int),
        r.0 >= 1970,
        1 <= r.1 <= 12,
        1 <= r.2 <= 31,
{
    proof {
        lemma_civil_ranges(days as int);
    }
    let z = days + 719468;
    let era = z / 146097;
    let doe = z % 146097;
    let yoe = (doe - doe / 1460 + doe / 36524 - doe / 146096) / 365;
    assert(0 <= yoe <= 399) by (nonlinear_arith)
        requires
            0 <= doe < 146097,
            yoe == (doe - doe / 1460 + doe / 36524 - doe / 146096) / 365,
    ;
    let y = yoe + era * 400;
    let doy = doe - (365 * yoe + yoe / 4 - yoe / 100);
    let mp = (5 * doy + 2) / 153;
    let day = doy - (153 * mp + 2) / 5 + 1;
    let month = if mp < 10 {
        mp + 3
    } else {
        mp - 9
    };
    let year = if month <= 2 {
        y + 1
    } else {
        y
    };
    (year, month, day)
}

/// Prints a timestamp as a UTC time.
pub fn format_timestamp(v: &Json) -> (r: String)
    ensures
        r@ == format_timestamp_spec(v@),
{
    let n = match v.as_i64() {
        Some(n) => n,
        None => return String::new(),
    };
    let secs: i64 = if n > 100_000_000_000 {
        n / 1000
    } else {
        n
    };
    if secs <= 0 {
        return String::new();
    }
    let days = secs / 86400;
    let rem = secs % 86400;
    let hour = rem / 3600;
    let minute = (rem % 3600) / 60;
    let (year, month, day) = civil(days);
    let mut out = String::new();
    push_padded(&mut out, year as u64, 4);
    push_char(&mut out, '-');
    push_padded(&mut out, month as u64, 2);
    push_char(&mut out, '-');
    push_padded(&mut out, day as u64, 2);
    push_char(&mut out, ' ');
    push_padded(&mut out, hour as u64, 2);
    push_char(&mut out, ':');
    push_padded(&mut out, minute as u64, 2);
    assert(out@ =~= format_timestamp_spec(v@));
    out
}


/// The batch key of a report record: none for a record whose type or
/// configuration is unknown or whose record id is missing or empty; else
/// (`item_id`, the item id) when the item id is not empty, and otherwise
/// (`content`, `content:type:source`).
pub open spec fn group_key_spec(reg: ReportTypeRegistry, item: JsonV) -> Option<(Seq<char>, Seq<char>)> {
    match crate::executer::infer_report_type_spec(item) {
        None => None,
        Some(rt) => match reg.config_of(rt) {
            None => None,
            Some(cfg) => match jget(item, cfg.report_id_field@) {
                None => None,
                Some(rid) => if value_to_string_spec(rid).len() == 0 {
                    None
                } else {
                    let item_id = field_text(item, cfg.item_id_field@);
                    if item_id.len() > 0 {
                        Some(("item_id"@, item_id))
                    } else {
                        Some(
                            (
                                "content"@,
                                field_text(item, cfg.content_field@) + seq![':'] + rt + seq![':']
                                    + field_text(item, cfg.source_id_field@),
                            ),
                        )
                    }
                },
            },
        },
    }
}

/// A field read as text, empty when missing.
pub open spec fn field_text(item: JsonV, field: Seq<char>) -> Seq<char> {
    match jget(item, field) {
        Some(v) => value_to_string_spec(v),
        None => Seq::empty(),
    }
}

fn field_text_of(item: &Json, field: &str) -> (r: String)
    ensures
        r@ == field_text(item@, field@),
{
    match item.get(field) {
        Some(v) => crate::types::value_to_string(v),
        None => String::new(),
    }
}

/// The batch key of a report record.
pub fn extract_group_key(reg: &ReportTypeRegistry, item: &Json) -> (r: Option<(String, String)>)
    ensures
        match r {
            Some(k) => group_key_spec(*reg, item@) == Some((k.0@, k.1@)),
            None => group_key_spec(*reg, item@).is_none(),
        },
{
    let rt = match crate::executer::infer_report_type(item) {
        Some(t) => t,
        None => return None,
    };
    let cfg = match reg.get_config(rt.as_str()) {
        Some(c) => c,
        None => return None,
    };
    let rid = match item.get(cfg.report_id_field.as_str()) {
        Some(v) => crate::types::value_to_string(v),
        None => return None,
    };
    if rid.as_str().unicode_len() == 0 {
        return None;
    }
    let item_id = field_text_of(item, cfg.item_id_field.as_str());
    if item_id.as_str().unicode_len() > 0 {
        Some((own("item_id"), item_id))
    } else {
        let mut key = field_text_of(item, cfg.content_field.as_str());
        push_char(&mut key, ':');
        push_str(&mut key, rt.as_str());
        push_char(&mut key, ':');
        let src = field_text_of(item, cfg.source_id_field.as_str());
        push_str(&mut key, src.as_str());
        assert(key@ =~= field_text(item@, cfg.content_field@) + seq![':'] + rt@ + seq![':'] + field_text(
            item@,
            cfg.source_id_field@,
        ));
        Some((own("content"), key))
    }
}

/// Reports gathered under one batch key.
#[derive(Debug, PartialEq)]
pub struct BatchGroup {
    pub group_type: String,
    pub group_key: String,
    pub items: Vec<Json>,
}

/// Members of batch groups kept across chunks until a group is complete.
#[derive(Debug, PartialEq)]
pub struct GroupTracker {
    pub pending: Vec<((String, String), Vec<Json>)>,
    /// Members needed for a group keyed by item id.
    pub item_id_threshold: usize,
    /// Members needed for a group keyed by content.
    pub content_threshold: usize,
}

pub open spec fn pending_view(p: Seq<((String, String), Vec<Json>)>) -> Seq<((Seq<char>, Seq<char>), Seq<JsonV>)> {
    p.map_values(|e: ((String, String), Vec<Json>)| ((e.0.0@, e.0.1@), view_items(e.1@)))
}

pub open spec fn pending_key_is(k: (Seq<char>, Seq<char>)) -> spec_fn(((Seq<char>, Seq<char>), Seq<JsonV>)) -> bool {
    |e: ((Seq<char>, Seq<char>), Seq<JsonV>)| e.0 == k
}

/// What adding a member does: it joins the members kept under its key;
/// when they reach the key's threshold they leave as a complete group
/// (`Some`), else they stay.
pub open spec fn add_member_spec(
    pending: Seq<((Seq<char>, Seq<char>), Seq<JsonV>)>,
    key: (Seq<char>, Seq<char>),
    item: JsonV,
    threshold: nat,
) -> (Seq<((Seq<char>, Seq<char>), Seq<JsonV>)>, Option<Seq<JsonV>>) {
    let members = match crate::search::first_index(pending, pending_key_is(key)) {
        Some(i) => pending[i].1.push(item),
        None => seq![item],
    };
    let rest = match crate::search::first_index(pending, pending_key_is(key)) {
        Some(i) => pending.remove(i),
        None => pending,
    };
    if members.len() >= threshold {
        (rest, Some(members))
    } else {
        (rest.push((key, members)), None)
    }
}

/// The threshold of a key: the item-id one for `item_id` keys, the content
/// one otherwise.
pub open spec fn threshold_of(t: GroupTracker, key: (Seq<char>, Seq<char>)) -> nat {
    if key.0 == "item_id"@ {
        t.item_id_threshold as nat
    } else {
        t.content_threshold as nat
    }
}

fn find_pending(p: &Vec<((String, String), Vec<Json>)>, t: &str, k: &str) -> (r: Option<usize>)
    ensures
        match r {
            Some(i) => crate::search::first_index(pending_view(p@), pending_key_is((t@, k@))) == Some(i as int),
            None => crate::search::first_index(pending_view(p@), pending_key_is((t@, k@))).is_none(),
        },
{
    let ghost pv = pending_view(p@);
    let mut i: usize = 0;
    while i < p.len()
        invariant
            i <= p@.len(),
            pv == pending_view(p@),
            forall|j: int| 0 <= j < i ==> !(pending_key_is((t@, k@)))(#[trigger] pv[j]),
        decreases p@.len() - i,
    {
        if str_eq(p[i].0.0.as_str(), t) && str_eq(p[i].0.1.as_str(), k) {
            proof {
                assert((pending_key_is((t@, k@)))(pv[i as int]));
                crate::search::lemma_first_index_at(pv, pending_key_is((t@, k@)), i as int);
            }
            return Some(i);
        }
        assert(!(pending_key_is((t@, k@)))(pv[i as int]));
        i = i + 1;
    }
    proof {
        crate::search::lemma_first_index_none(pv, pending_key_is((t@, k@)));
    }
    None
}

impl GroupTracker {
    /// Nothing kept; groups complete at `item_id_threshold` members keyed by
    /// item id and at `content_threshold` keyed by content.
    pub fn new(item_id_threshold: usize, content_threshold: usize) -> (r: GroupTracker)
        ensures
            r.pending@.len() == 0,
            r.item_id_threshold == item_id_threshold,
            r.content_threshold == content_threshold,
    {
        GroupTracker { pending: Vec::new(), item_id_threshold, content_threshold }
    }

    /// Adds a member under `key`; returns the group when it is complete.
    pub fn add(&mut self, key: (String, String), item: Json) -> (r: Option<BatchGroup>)
        ensures
            final(self).item_id_threshold == old(self).item_id_threshold,
            final(self).content_threshold == old(self).content_threshold,
            ({
                let (p, done) = add_member_spec(
                    pending_view(old(self).pending@),
                    (key.0@, key.1@),
                    item@,
                    threshold_of(*old(self), (key.0@, key.1@)),
                );
                &&& pending_view(final(self).pending@) == p
                &&& match r {
                    Some(g) => done == Some(view_items(g.items@)) && g.group_type@ == key.0@ && g.group_key@ == key.1@,
                    None => done.is_none(),
                }
            }),
    {
        let ghost pv = pending_view(self.pending@);
        let ghost kv = (key.0@, key.1@);
        let ghost iv = item@;
        let threshold = if str_eq(key.0.as_str(), "item_id") {
            self.item_id_threshold
        } else {
            self.content_threshold
        };
        let found = find_pending(&self.pending, key.0.as_str(), key.1.as_str());
        proof {
            crate::search::lemma_first_index(pv, pending_key_is(kv));
        }
        let mut members: Vec<Json> = match found {
            Some(k) => {
                let (_, m) = self.pending.remove(k);
                m
            },
            None => Vec::new(),
        };
        let ghost rest = pending_view(self.pending@);
        proof {
            match found {
                Some(k) => {
                    assert(rest =~= pv.remove(k as int));
                },
                None => {
                    assert(rest =~= pv);
                },
            }
        }
        let ghost mb = members@;
        members.push(item);
        proof {
            crate::json::lemma_view_items_push(mb, members@.last());
            match found {
                Some(k) => {
                    assert(view_items(mb) == pv[k as int].1);
                },
                None => {
                    assert(view_items(mb) =~= Seq::<JsonV>::empty());
                    assert(view_items(members@) =~= seq![iv]);
                },
            }
        }
        proof {
            crate::json::lemma_view_items(members@);
        }
        if members.len() >= threshold {
            Some(BatchGroup { group_type: key.0, group_key: key.1, items: members })
        } else {
            let ghost mv = view_items(members@);
            self.pending.push((key, members));
            assert(pending_view(self.pending@) =~= rest.push((kv, mv)));
            None
        }
    }
}

/// The number of members kept over all keys.
pub open spec fn kept_members(p: Seq<((Seq<char>, Seq<char>), Seq<JsonV>)>) -> nat
    decreases p.len(),
{
    if p.len() == 0 {
        0
    } else {
        kept_members(p.drop_last()) + p.last().1.len()
    }
}

proof fn lemma_kept_remove(p: Seq<((Seq<char>, Seq<char>), Seq<JsonV>)>, i: int)
    requires
        0 <= i < p.len(),
    ensures
        kept_members(p.remove(i)) + p[i].1.len() == kept_members(p),
    decreases p.len(),
{
    if i < p.len() - 1 {
        lemma_kept_remove(p.drop_last(), i);
        assert(p.remove(i).drop_last() == p.drop_last().remove(i));
        assert(p.remove(i).last() == p.last());
    } else {
        assert(p.remove(i) == p.drop_last());
    }
}

/// Adding a member loses none and makes none up: the members kept after,
/// with those of a group that is complete, are those kept before and the
/// new one.
pub proof fn law_members_conserved(
    pending: Seq<((Seq<char>, Seq<char>), Seq<JsonV>)>,
    key: (Seq<char>, Seq<char>),
    item: JsonV,
    threshold: nat,
)
    ensures
        ({
            let (p, done) = add_member_spec(pending, key, item, threshold);
            kept_members(p) + (match done {
                Some(g) => g.len(),
                None => 0,
            }) == kept_members(pending) + 1
        }),
{
    crate::search::lemma_first_index(pending, pending_key_is(key));
    let (p, done) = add_member_spec(pending, key, item, threshold);
    match crate::search::first_index(pending, pending_key_is(key)) {
        Some(i) => {
            lemma_kept_remove(pending, i);
            let rest = pending.remove(i);
            let members = pending[i].1.push(item);
            if members.len() < threshold {
                assert(rest.push((key, members)).drop_last() == rest);
            }
        },
        None => {
            let members = seq![item];
            if members.len() < threshold {
                assert(pending.push((key, members)).drop_last() == pending);
            }
        },
    }
}

} // verus!
