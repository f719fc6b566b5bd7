//! Small helpers of the report tools: reading record fields as text or
//! numbers, cleaning HTML, printing sizes, and the action table.

use vstd::prelude::*;

use crate::json::{jint, json_text, Json, JsonV};
use crate::text::{
    dec_int, dec_nat, digit_char, digit_char_of, fmt_i64, own, parse_i64, parse_i64_spec, push_char,
    push_str, push_u64, replace_all, replace_spec, str_eq,
};

verus! {

/// A field read as text: a string as it is, a number as its decimal text,
/// anything else as the empty text.
pub open spec fn value_to_string_spec(v: JsonV) -> Seq<char> {
    match v {
        JsonV::Str(s) => s,
        JsonV::Number(t) => t,
        _ => Seq::empty(),
    }
}

/// Reads a field as text.
pub fn value_to_string(v: &Json) -> (r: String)
    ensures
        r@ == value_to_string_spec(v@),
{
    match v {
        Json::Str(s) => s.clone(),
        Json::Number(t) => t.clone(),
        _ => String::new(),
    }
}

/// A field read as an integer: a number within `i64`, or a string that
/// parses as one.
pub open spec fn value_to_i64_spec(v: JsonV) -> Option<i64> {
    match v {
        JsonV::Number(_) => jint(Some(v)),
        JsonV::Str(s) => parse_i64_spec(s),
        _ => None,
    }
}

/// Reads a field as an integer.
pub fn value_to_i64(v: &Json) -> (r: Option<i64>)
    ensures
        r == value_to_i64_spec(v@),
{
    match v {
        Json::Number(_) => v.as_i64(),
        Json::Str(s) => parse_i64(s.as_str()),
        _ => None,
    }
}

/// A timestamp for display: a positive integer as its decimal text, any
/// other value as its JSON text.
pub open spec fn timestamp_to_string_spec(v: JsonV) -> Seq<char> {
    match jint(Some(v)) {
        Some(secs) => if secs > 0 {
            dec_int(secs as int)
        } else {
            json_text(v)
        },
        None => json_text(v),
    }
}

/// Prints a timestamp.
pub fn timestamp_to_string(v: &Json) -> (r: String)
    ensures
        r@ == timestamp_to_string_spec(v@),
{
    match v.as_i64() {
        Some(secs) => if secs > 0 {
            fmt_i64(secs)
        } else {
            v.to_text()
        },
        None => v.to_text(),
    }
}

/// HTML turned into plain text: line breaks and paragraph ends become new
/// lines, paragraph starts vanish, and the entities for space, `<`, `>` and
/// `&` are decoded, in that order.
pub open spec fn html_to_text_spec(h: Seq<char>) -> Seq<char> {
    let a = replace_spec(h, "<br>"@, "\n"@);
    let b = replace_spec(a, "<br/>"@, "\n"@);
    let c = replace_spec(b, "<br />"@, "\n"@);
    let d = replace_spec(c, "<p>"@, ""@);
    let e = replace_spec(d, "</p>"@, "\n"@);
    let f = replace_spec(e, "&nbsp;"@, " "@);
    let g = replace_spec(f, "&lt;"@, "<"@);
    let i = replace_spec(g, "&gt;"@, ">"@);
    replace_spec(i, "&amp;"@, "&"@)
}

/// Turns HTML into plain text.
pub fn html_to_text(html: &str) -> (r: String)
    ensures
        r@ == html_to_text_spec(html@),
{
    proof {
        reveal_strlit("<br>");
        reveal_strlit("<br/>");
        reveal_strlit("<br />");
        reveal_strlit("<p>");
        reveal_strlit("</p>");
        reveal_strlit("&nbsp;");
        reveal_strlit("&lt;");
        reveal_strlit("&gt;");
        reveal_strlit("&amp;");
    }
    let a = replace_all(html, "<br>", "\n");
    let b = replace_all(a.as_str(), "<br/>", "\n");
    let c = replace_all(b.as_str(), "<br />", "\n");
    let d = replace_all(c.as_str(), "<p>", "");
    let e = replace_all(d.as_str(), "</p>", "\n");
    let f = replace_all(e.as_str(), "&nbsp;", " ");
    let g = replace_all(f.as_str(), "&lt;", "<");
    let i = replace_all(g.as_str(), "&gt;", ">");
    replace_all(i.as_str(), "&amp;", "&")
}

/// The power of two by which `b` is divided to leave at most 53 significant
/// bits, searched upwards from `d`.
pub open spec fn unit_from(b: nat, d: nat) -> nat
    decreases b - d,
{
    if d == 0 || b / d < 0x20_0000_0000_0000 {
        d
    } else {
        proof {
            assert(b >= 2 * d) by (nonlinear_arith)
                requires
                    d > 0,
                    b / d >= 0x20_0000_0000_0000,
            ;
        }
        unit_from(b, 2 * d)
    }
}

/// `q` rounded by the remainder `r` of a division by `d`: up when more than
/// half, and at exactly half up only when `q` is odd.
pub open spec fn round_half_even(q: nat, r: nat, d: nat) -> nat {
    if 2 * r > d || (2 * r == d && q % 2 == 1) {
        q + 1
    } else {
        q
    }
}

/// The value of `b as f64`: `b` rounded to 53 significant bits, ties to
/// even.
pub open spec fn f64_value(b: nat) -> nat {
    let u = unit_from(b, 1);
    round_half_even(b / u, b % u, u) * u
}

/// `v / scale` in hundredths, rounded as a two-place decimal print of the
/// exact quotient rounds it.
pub open spec fn hundredths(v: nat, scale: nat) -> nat {
    round_half_even(v * 100 / scale, (v * 100) % scale, scale)
}

/// A number of hundredths printed with two places.
pub open spec fn two_places(h: nat) -> Seq<char> {
    dec_nat(h / 100) + seq!['.', digit_char((h % 100) / 10), digit_char(h % 10)]
}

/// A size in bytes printed in MB from 1 MiB on, else in KB, with two places.
pub open spec fn bytes_to_human_spec(b: nat) -> Seq<char> {
    if b >= 1048576 {
        two_places(hundredths(f64_value(b), 1048576)) + " MB"@
    } else {
        two_places(hundredths(f64_value(b), 1024)) + " KB"@
    }
}


fn f64_unit(b: u64) -> (u: u64)
    ensures
        u == unit_from(b as nat, 1),
        0 < u <= 0x1000,
        (b as nat) / (u as nat) < 0x20_0000_0000_0000,
{
    let mut d: u64 = 1;
    while b / d >= 0x20_0000_0000_0000
        invariant
            0 < d <= 0x1000,
            unit_from(b as nat, d as nat) == unit_from(b as nat, 1),
        decreases 0x2000 - d,
    {
        assert(d * (b / d) <= b) by (nonlinear_arith)
            requires
                d > 0,
        ;
        assert(d * 0x20_0000_0000_0000 <= d * (b / d)) by (nonlinear_arith)
            requires
                d > 0,
                b / d >= 0x20_0000_0000_0000,
        ;
        d = d * 2;
    }
    d
}

fn round_even(q: u128, r: u128, d: u128) -> (x: u128)
    requires
        q < 0x1_0000_0000_0000_0000_0000,
        r < d,
        d <= 0x10_0000,
    ensures
        x == round_half_even(q as nat, r as nat, d as nat),
{
    if 2 * r > d || (2 * r == d && q % 2 == 1) {
        q + 1
    } else {
        q
    }
}

/// The value of `b as f64`.
fn f64_of(b: u64) -> (v: u128)
    ensures
        v == f64_value(b as nat),
        v <= 0x1_0000_0000_0000_1000,
{
    let u = f64_unit(b);
    let q = (b / u) as u128;
    let r = (b % u) as u128;
    let x = round_even(q, r, u as u128);
    assert((b / u) * u <= b) by (nonlinear_arith)
        requires
            u > 0,
    ;
    assert(x * (u as u128) <= (q + 1) * (u as u128)) by (nonlinear_arith)
        requires
            x <= q + 1,
    ;
    assert((q + 1) * (u as u128) == q * (u as u128) + u) by (nonlinear_arith);
    x * (u as u128)
}

fn push_two_places(out: &mut String, h: u128)
    requires
        h < 0x1_0000_0000_0000_0000,
    ensures
        final(out)@ == old(out)@ + two_places(h as nat),
{
    let whole = (h / 100) as u64;
    let frac = (h % 100) as u64;
    push_u64(out, whole);
    push_char(out, '.');
    push_char(out, digit_char_of(frac / 10));
    push_char(out, digit_char_of(frac % 10));
}

/// Prints a size in bytes: in MB from 1 MiB on, else in KB, with two
/// decimal places, as the size converted to `f64` prints.
pub fn bytes_to_human(size_bytes: u64) -> (r: String)
    ensures
        r@ == bytes_to_human_spec(size_bytes as nat),
{
    let v = f64_of(size_bytes);
    let scale: u128 = if size_bytes >= 1048576 {
        1048576
    } else {
        1024
    };
    let t = v * 100;
    let x = round_even(t / scale, t % scale, scale);
    assert(x < 0x1_0000_0000_0000_0000) by (nonlinear_arith)
        requires
            x <= t / scale + 1,
            t == v * 100,
            v <= 0x1_0000_0000_0000_1000,
            scale >= 1024,
    ;
    let mut out = String::new();
    push_two_places(&mut out, x);
    if size_bytes >= 1048576 {
        push_str(&mut out, " MB");
    } else {
        push_str(&mut out, " KB");
    }
    assert(Seq::<char>::empty() + two_places(x as nat) == two_places(x as nat));
    out
}


/// An action offered for a report.
#[derive(Debug, Clone, PartialEq, Eq)]
pub struct ActionConfig {
    pub key: String,
    pub name: String,
    pub description: String,
    pub status: String,
    pub enabled: bool,
}

/// The name and status that an action key stands for; an unknown key
/// stands for itself.
pub open spec fn action_table(key: Seq<char>) -> (Seq<char>, Seq<char>) {
    if key == "D"@ {
        ("删除"@, "DELETE"@)
    } else if key == "S"@ {
        ("禁言7天"@, "MUTE_SEVEN_DAYS"@)
    } else if key == "T"@ {
        ("禁言3月"@, "MUTE_THREE_MONTHS"@)
    } else if key == "U"@ {
        ("取消发布"@, "UNLOAD"@)
    } else if key == "P"@ {
        ("通过"@, "PASS"@)
    } else if key == "F"@ {
        ("检查违规"@, "CHECK_VIOLATION"@)
    } else if key == "J"@ {
        ("跳过"@, "SKIP"@)
    } else {
        (key, key)
    }
}

impl ActionConfig {
    /// The enabled action with key `key`, named from the built-in table.
    pub fn simple(key: &str) -> (r: ActionConfig)
        ensures
            r.key@ == key@,
            (r.name@, r.status@) == action_table(key@),
            r.description@.len() == 0,
            r.enabled,
    {
        let (name, status) = if str_eq(key, "D") {
            ("删除", "DELETE")
        } else if str_eq(key, "S") {
            ("禁言7天", "MUTE_SEVEN_DAYS")
        } else if str_eq(key, "T") {
            ("禁言3月", "MUTE_THREE_MONTHS")
        } else if str_eq(key, "U") {
            ("取消发布", "UNLOAD")
        } else if str_eq(key, "P") {
            ("通过", "PASS")
        } else if str_eq(key, "F") {
            ("检查违规", "CHECK_VIOLATION")
        } else if str_eq(key, "J") {
            ("跳过", "SKIP")
        } else {
            (key, key)
        };
        ActionConfig {
            key: own(key),
            name: own(name),
            description: String::new(),
            status: own(status),
            enabled: true,
        }
    }
}

/// The actions for a list of keys, in order.
pub fn actions(keys: &[&str]) -> (r: Vec<ActionConfig>)
    ensures
        r@.len() == keys@.len(),
        forall|i: int|
            0 <= i < keys@.len() ==> (#[trigger] r@[i]).key@ == keys@[i]@ && (r@[i].name@, r@[i].status@)
                == action_table(keys@[i]@) && r@[i].enabled,
{
    let mut out: Vec<ActionConfig> = Vec::new();
    let mut i: usize = 0;
    while i < keys.len()
        invariant
            i <= keys@.len(),
            out@.len() == i,
            forall|j: int|
                0 <= j < i ==> (#[trigger] out@[j]).key@ == keys@[j]@ && (out@[j].name@, out@[j].status@)
                    == action_table(keys@[j]@) && out@[j].enabled,
        decreases keys@.len() - i,
    {
        out.push(ActionConfig::simple(keys[i]));
        i = i + 1;
    }
    out
}

/// The status that each executing action sets.
pub fn status_mapping() -> (r: Vec<(&'static str, &'static str)>)
    ensures
        r@.len() == 5,
        r@[0].0@ == "D"@ && r@[0].1@ == "DELETE"@,
        r@[1].0@ == "S"@ && r@[1].1@ == "MUTE_SEVEN_DAYS"@,
        r@[2].0@ == "T"@ && r@[2].1@ == "MUTE_THREE_MONTHS"@,
        r@[3].0@ == "P"@ && r@[3].1@ == "PASS"@,
        r@[4].0@ == "U"@ && r@[4].1@ == "UNLOAD"@,
{
    vec![
        ("D", "DELETE"),
        ("S", "MUTE_SEVEN_DAYS"),
        ("T", "MUTE_THREE_MONTHS"),
        ("P", "PASS"),
        ("U", "UNLOAD"),
    ]
}

} // verus!
