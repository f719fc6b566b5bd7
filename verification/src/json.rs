//! A JSON document model: the values that messages and report records carry.
//!
//! Numbers keep their decimal text exactly as a JSON serializer prints them, so
//! integer and non-integer numbers are told apart by their text alone.

use vstd::prelude::*;

use crate::text::{
    chars_of, dec_int, digit_char, digit_char_of, fmt_i64, fmt_u64, own, parse_i64, parse_i64_spec, parse_u64,
    parse_u64_spec, push_char, push_str, str_eq,
};

verus! {

/// A JSON value. Object entries keep the order in which the document lists them.
#[derive(Debug, PartialEq)]
pub enum Json {
    Null,
    Bool(bool),
    Number(String),
    Str(String),
    Array(Vec<Json>),
    Object(Vec<(String, Json)>),
}

/// The mathematical model of a [`Json`] value.
pub enum JsonV {
    Null,
    Bool(bool),
    Number(Seq<char>),
    Str(Seq<char>),
    Array(Seq<JsonV>),
    Object(Seq<(Seq<char>, JsonV)>),
}

pub open spec fn view_items(s: Seq<Json>) -> Seq<JsonV>
    decreases s,
{
    if s.len() == 0 {
        Seq::empty()
    } else {
        view_items(s.subrange(0, s.len() - 1)).push(view_json(s[s.len() - 1]))
    }
}

pub open spec fn view_entries(s: Seq<(String, Json)>) -> Seq<(Seq<char>, JsonV)>
    decreases s,
{
    if s.len() == 0 {
        Seq::empty()
    } else {
        view_entries(s.subrange(0, s.len() - 1)).push((s[s.len() - 1].0@, view_json(s[s.len() - 1].1)))
    }
}

pub open spec fn view_json(j: Json) -> JsonV
    decreases j,
{
    match j {
        Json::Null => JsonV::Null,
        Json::Bool(b) => JsonV::Bool(b),
        Json::Number(n) => JsonV::Number(n@),
        Json::Str(s) => JsonV::Str(s@),
        Json::Array(v) => JsonV::Array(view_items(v@)),
        Json::Object(m) => JsonV::Object(view_entries(m@)),
    }
}

impl View for Json {
    type V = JsonV;

    open spec fn view(&self) -> JsonV {
        view_json(*self)
    }
}

pub proof fn lemma_view_items(s: Seq<Json>)
    ensures
        view_items(s).len() == s.len(),
        forall|i: int| 0 <= i < s.len() ==> #[trigger] view_items(s)[i] == view_json(s[i]),
    decreases s.len(),
{
    if s.len() > 0 {
        lemma_view_items(s.subrange(0, s.len() - 1));
    }
}

pub proof fn lemma_view_entries(s: Seq<(String, Json)>)
    ensures
        view_entries(s).len() == s.len(),
        forall|i: int|
            0 <= i < s.len() ==> #[trigger] view_entries(s)[i] == (s[i].0@, view_json(s[i].1)),
    decreases s.len(),
{
    if s.len() > 0 {
        lemma_view_entries(s.subrange(0, s.len() - 1));
    }
}

pub proof fn lemma_view_items_push(s: Seq<Json>, j: Json)
    ensures
        view_items(s.push(j)) == view_items(s).push(view_json(j)),
{
    assert(s.push(j).subrange(0, s.len() as int) == s);
}

pub proof fn lemma_view_entries_push(s: Seq<(String, Json)>, e: (String, Json))
    ensures
        view_entries(s.push(e)) == view_entries(s).push((e.0@, view_json(e.1))),
{
    assert(s.push(e).subrange(0, s.len() as int) == s);
}

/// The index of the first entry with key `k`.
pub open spec fn find_key(es: Seq<(Seq<char>, JsonV)>, k: Seq<char>) -> Option<int>
    decreases es.len(),
{
    if es.len() == 0 {
        None
    } else {
        match find_key(es.drop_last(), k) {
            Some(i) => Some(i),
            None => if es.last().0 == k {
                Some(es.len() - 1)
            } else {
                None
            },
        }
    }
}

pub proof fn lemma_find_key(es: Seq<(Seq<char>, JsonV)>, k: Seq<char>)
    ensures
        match find_key(es, k) {
            Some(i) => 0 <= i < es.len() && es[i].0 == k && forall|j: int|
                0 <= j < i ==> #[trigger] es[j].0 != k,
            None => forall|j: int| 0 <= j < es.len() ==> #[trigger] es[j].0 != k,
        },
    decreases es.len(),
{
    if es.len() > 0 {
        lemma_find_key(es.drop_last(), k);
        match find_key(es.drop_last(), k) {
            Some(i) => {
                assert forall|j: int| 0 <= j < i implies #[trigger] es[j].0 != k by {
                    assert(es[j] == es.drop_last()[j]);
                }
            },
            None => {
                assert forall|j: int| 0 <= j < es.len() - 1 implies #[trigger] es[j].0 != k by {
                    assert(es[j] == es.drop_last()[j]);
                }
            },
        }
    }
}

pub proof fn lemma_find_key1(a: (Seq<char>, JsonV), k: Seq<char>)
    ensures
        find_key(seq![a], k) == (if a.0 == k {
            Some(0int)
        } else {
            None
        }),
{
    assert(seq![a].drop_last() =~= Seq::<(Seq<char>, JsonV)>::empty());
    assert(find_key(Seq::<(Seq<char>, JsonV)>::empty(), k).is_none());
    assert(seq![a].last() == a);
}

pub proof fn lemma_find_key2(a: (Seq<char>, JsonV), b: (Seq<char>, JsonV), k: Seq<char>)
    ensures
        find_key(seq![a, b], k) == (if a.0 == k {
            Some(0int)
        } else if b.0 == k {
            Some(1int)
        } else {
            None
        }),
{
    lemma_find_key1(a, k);
    assert(seq![a, b].drop_last() =~= seq![a]);
    assert(seq![a, b].last() == b);
}

pub proof fn lemma_find_key3(
    a: (Seq<char>, JsonV),
    b: (Seq<char>, JsonV),
    c: (Seq<char>, JsonV),
    k: Seq<char>,
)
    ensures
        find_key(seq![a, b, c], k) == (if a.0 == k {
            Some(0int)
        } else if b.0 == k {
            Some(1int)
        } else if c.0 == k {
            Some(2int)
        } else {
            None
        }),
{
    lemma_find_key2(a, b, k);
    assert(seq![a, b, c].drop_last() =~= seq![a, b]);
    assert(seq![a, b, c].last() == c);
}

/// The value stored under key `k` in an object (the first such entry); `None`
/// for a missing key or a value that is not an object (`Value::get`).
pub open spec fn jget(v: JsonV, k: Seq<char>) -> Option<JsonV> {
    match v {
        JsonV::Object(es) => match find_key(es, k) {
            Some(i) => Some(es[i].1),
            None => None,
        },
        _ => None,
    }
}

/// `jget` on an optional value.
pub open spec fn jget_opt(v: Option<JsonV>, k: Seq<char>) -> Option<JsonV> {
    match v {
        Some(x) => jget(x, k),
        None => None,
    }
}

/// The text of a string value (`Value::as_str`).
pub open spec fn jstr(v: Option<JsonV>) -> Option<Seq<char>> {
    match v {
        Some(JsonV::Str(s)) => Some(s),
        _ => None,
    }
}

/// A number's value when its text is an integer within `i64` (`Value::as_i64`).
/// Number texts are those that a JSON serializer prints: an integer as plain
/// decimal digits with a leading `-` when negative, any other number with a
/// `.` or an exponent.
pub open spec fn jint(v: Option<JsonV>) -> Option<i64> {
    match v {
        Some(JsonV::Number(t)) => if t.len() > 0 && t[0] != '+' {
            parse_i64_spec(t)
        } else {
            None
        },
        _ => None,
    }
}

/// A number's value when its text is a non-negative integer within `u64`
/// (`Value::as_u64`).
pub open spec fn juint(v: Option<JsonV>) -> Option<u64> {
    match v {
        Some(JsonV::Number(t)) => if t.len() > 0 && t[0] != '+' {
            parse_u64_spec(t)
        } else {
            None
        },
        _ => None,
    }
}

/// The value of a boolean (`Value::as_bool`).
pub open spec fn jbool(v: Option<JsonV>) -> Option<bool> {
    match v {
        Some(JsonV::Bool(b)) => Some(b),
        _ => None,
    }
}

/// The elements of an array (`Value::as_array`).
pub open spec fn jarr(v: Option<JsonV>) -> Option<Seq<JsonV>> {
    match v {
        Some(JsonV::Array(a)) => Some(a),
        _ => None,
    }
}

/// The entries of an object (`Value::as_object`).
pub open spec fn jobj(v: Option<JsonV>) -> Option<Seq<(Seq<char>, JsonV)>> {
    match v {
        Some(JsonV::Object(es)) => Some(es),
        _ => None,
    }
}

/// The number value of an integer.
pub open spec fn jnum(n: int) -> JsonV {
    JsonV::Number(dec_int(n))
}

impl Json {
    /// A copy with the same model (`Clone` of the whole tree).
    pub fn deep_clone(&self) -> (r: Json)
        ensures
            r@ == self@,
        decreases self,
    {
        match self {
            Json::Null => Json::Null,
            Json::Bool(b) => Json::Bool(*b),
            Json::Number(t) => Json::Number(t.clone()),
            Json::Str(t) => Json::Str(t.clone()),
            Json::Array(items) => {
                let mut out: Vec<Json> = Vec::new();
                let mut i: usize = 0;
                while i < items.len()
                    invariant
                        i <= items@.len(),
                        *self == Json::Array(*items),
                        view_items(out@) == view_items(items@.subrange(0, i as int)),
                    decreases items@.len() - i,
                {
                    assert(decreases_to!(*self => (*self)->Array_0));
                    assert(decreases_to!(*items => items@));
                    assert(decreases_to!(items@ => items@[i as int]));
                    let c = items[i].deep_clone();
                    proof {
                        lemma_view_items_push(out@, c);
                        lemma_view_items_push(items@.subrange(0, i as int), items@[i as int]);
                        assert(items@.subrange(0, i + 1) == items@.subrange(0, i as int).push(
                            items@[i as int],
                        ));
                    }
                    out.push(c);
                    i = i + 1;
                }
                assert(items@.subrange(0, items@.len() as int) == items@);
                Json::Array(out)
            },
            Json::Object(entries) => {
                let mut out: Vec<(String, Json)> = Vec::new();
                let mut i: usize = 0;
                while i < entries.len()
                    invariant
                        i <= entries@.len(),
                        *self == Json::Object(*entries),
                        view_entries(out@) == view_entries(entries@.subrange(0, i as int)),
                    decreases entries@.len() - i,
                {
                    assert(decreases_to!(*self => (*self)->Object_0));
                    assert(decreases_to!(*entries => entries@));
                    assert(decreases_to!(entries@ => entries@[i as int]));
                    assert(decreases_to!(entries@[i as int] => entries@[i as int].1));
                    let k = entries[i].0.clone();
                    let c = entries[i].1.deep_clone();
                    proof {
                        lemma_view_entries_push(out@, (k, c));
                        lemma_view_entries_push(
                            entries@.subrange(0, i as int),
                            entries@[i as int],
                        );
                        assert(entries@.subrange(0, i + 1) == entries@.subrange(0, i as int).push(
                            entries@[i as int],
                        ));
                    }
                    out.push((k, c));
                    i = i + 1;
                }
                assert(entries@.subrange(0, entries@.len() as int) == entries@);
                Json::Object(out)
            },
        }
    }

    /// `Value::get` with a string key.
    pub fn get(&self, key: &str) -> (r: Option<&Json>)
        ensures
            match r {
                Some(x) => jget(self@, key@) == Some(x@),
                None => jget(self@, key@).is_none(),
            },
    {
        match self {
            Json::Object(entries) => {
                proof {
                    lemma_view_entries(entries@);
                }
                let mut i: usize = 0;
                while i < entries.len()
                    invariant
                        i <= entries@.len(),
                        *self == Json::Object(*entries),
                        view_entries(entries@).len() == entries@.len(),
                        forall|j: int|
                            0 <= j < entries@.len() ==> #[trigger] view_entries(entries@)[j] == (
                            entries@[j].0@, view_json(entries@[j].1)),
                        forall|j: int|
                            0 <= j < i ==> #[trigger] view_entries(entries@)[j].0 != key@,
                    decreases entries@.len() - i,
                {
                    if str_eq(entries[i].0.as_str(), key) {
                        proof {
                            lemma_find_key(view_entries(entries@), key@);
                            assert(*self == Json::Object(*entries));
                            assert(view_json(Json::Object(*entries)) == JsonV::Object(view_entries(entries@)));
                            assert(self@ == JsonV::Object(view_entries(entries@)));
                            assert(view_entries(entries@)[i as int].0 == key@);
                            match find_key(view_entries(entries@), key@) {
                                Some(k) => {
                                    if k < i {
                                        assert(view_entries(entries@)[k].0 != key@);
                                    }
                                    assert(k == i);
                                },
                                None => {
                                    assert(view_entries(entries@)[i as int].0 != key@);
                                },
                            }
                        }
                        return Some(&entries[i].1);
                    }
                    i = i + 1;
                }
                proof {
                    lemma_find_key(view_entries(entries@), key@);
                }
                None
            },
            _ => None,
        }
    }

    /// `Value::as_str`.
    pub fn as_str(&self) -> (r: Option<&str>)
        ensures
            match r {
                Some(s) => jstr(Some(self@)) == Some(s@),
                None => jstr(Some(self@)).is_none(),
            },
    {
        match self {
            Json::Str(s) => Some(s.as_str()),
            _ => None,
        }
    }

    /// `Value::as_i64`.
    pub fn as_i64(&self) -> (r: Option<i64>)
        ensures
            r == jint(Some(self@)),
    {
        match self {
            Json::Number(t) => {
                let s = t.as_str();
                if s.unicode_len() > 0 && s.get_char(0) != '+' {
                    parse_i64(s)
                } else {
                    None
                }
            },
            _ => None,
        }
    }

    /// `Value::as_u64`.
    pub fn as_u64(&self) -> (r: Option<u64>)
        ensures
            r == juint(Some(self@)),
    {
        match self {
            Json::Number(t) => {
                let s = t.as_str();
                if s.unicode_len() > 0 && s.get_char(0) != '+' {
                    parse_u64(s)
                } else {
                    None
                }
            },
            _ => None,
        }
    }

    /// `Value::as_bool`.
    pub fn as_bool(&self) -> (r: Option<bool>)
        ensures
            r == jbool(Some(self@)),
    {
        match self {
            Json::Bool(b) => Some(*b),
            _ => None,
        }
    }

    /// `Value::as_array`.
    pub fn as_array(&self) -> (r: Option<&Vec<Json>>)
        ensures
            match r {
                Some(a) => jarr(Some(self@)) == Some(view_items(a@)),
                None => jarr(Some(self@)).is_none(),
            },
    {
        match self {
            Json::Array(a) => Some(a),
            _ => None,
        }
    }

    /// `Value::as_object`.
    pub fn as_object(&self) -> (r: Option<&Vec<(String, Json)>>)
        ensures
            match r {
                Some(es) => jobj(Some(self@)) == Some(view_entries(es@)),
                None => jobj(Some(self@)).is_none(),
            },
    {
        match self {
            Json::Object(es) => Some(es),
            _ => None,
        }
    }

    /// `Value::is_string`.
    pub fn is_string(&self) -> (r: bool)
        ensures
            r == (self@ is Str),
    {
        match self {
            Json::Str(_) => true,
            _ => false,
        }
    }

    /// `Value::is_number`.
    pub fn is_number(&self) -> (r: bool)
        ensures
            r == (self@ is Number),
    {
        match self {
            Json::Number(_) => true,
            _ => false,
        }
    }

    /// The number value of an integer, printed in decimal.
    pub fn from_i64(n: i64) -> (r: Json)
        ensures
            r@ == jnum(n as int),
    {
        Json::Number(fmt_i64(n))
    }

    /// The number value of an unsigned integer, printed in decimal.
    pub fn from_u64(n: u64) -> (r: Json)
        ensures
            r@ == jnum(n as int),
    {
        Json::Number(fmt_u64(n))
    }

    /// A string value.
    pub fn from_str(s: &str) -> (r: Json)
        ensures
            r@ == JsonV::Str(s@),
    {
        Json::Str(own(s))
    }
}


/// The hexadecimal digit for `d < 16`, lower case.
pub open spec fn hex_char(d: nat) -> char {
    if d < 10 {
        digit_char(d)
    } else if d == 10 {
        'a'
    } else if d == 11 {
        'b'
    } else if d == 12 {
        'c'
    } else if d == 13 {
        'd'
    } else if d == 14 {
        'e'
    } else {
        'f'
    }
}

/// How one character of a string is written inside quotes: `"` and `\` behind
/// a backslash, the usual short escapes for backspace, tab, line feed, form
/// feed and carriage return, `\u00XX` for the other control characters, and
/// every other character as itself.
pub open spec fn escape_char(c: char) -> Seq<char> {
    if c == '"' {
        seq!['\\', '"']
    } else if c == '\\' {
        seq!['\\', '\\']
    } else if c == '\x08' {
        seq!['\\', 'b']
    } else if c == '\t' {
        seq!['\\', 't']
    } else if c == '\n' {
        seq!['\\', 'n']
    } else if c == '\x0c' {
        seq!['\\', 'f']
    } else if c == '\r' {
        seq!['\\', 'r']
    } else if (c as u32) < 0x20 {
        seq!['\\', 'u', '0', '0', hex_char((c as u32 / 16) as nat), hex_char((c as u32 % 16) as nat)]
    } else {
        seq![c]
    }
}

pub open spec fn escape_str(s: Seq<char>) -> Seq<char>
    decreases s.len(),
{
    if s.len() == 0 {
        Seq::empty()
    } else {
        escape_str(s.drop_last()) + escape_char(s.last())
    }
}

/// A quoted string.
pub open spec fn quoted(s: Seq<char>) -> Seq<char> {
    seq!['"'] + escape_str(s) + seq!['"']
}

/// The compact text of a value: no spaces, object entries in their order.
pub open spec fn json_text(v: JsonV) -> Seq<char>
    decreases v,
{
    match v {
        JsonV::Null => seq!['n', 'u', 'l', 'l'],
        JsonV::Bool(b) => if b {
            seq!['t', 'r', 'u', 'e']
        } else {
            seq!['f', 'a', 'l', 's', 'e']
        },
        JsonV::Number(t) => t,
        JsonV::Str(s) => quoted(s),
        JsonV::Array(a) => seq!['['] + items_text(a) + seq![']'],
        JsonV::Object(es) => seq!['{'] + entries_text(es) + seq!['}'],
    }
}

pub open spec fn items_text(a: Seq<JsonV>) -> Seq<char>
    decreases a,
{
    if a.len() == 0 {
        Seq::empty()
    } else if a.len() == 1 {
        json_text(a[0])
    } else {
        items_text(a.drop_last()) + seq![','] + json_text(a.last())
    }
}

pub open spec fn entries_text(es: Seq<(Seq<char>, JsonV)>) -> Seq<char>
    decreases es,
{
    if es.len() == 0 {
        Seq::empty()
    } else if es.len() == 1 {
        quoted(es[0].0) + seq![':'] + json_text(es[0].1)
    } else {
        entries_text(es.drop_last()) + seq![','] + quoted(es.last().0) + seq![':'] + json_text(
            es.last().1,
        )
    }
}

fn hex_digit(d: u32) -> (c: char)
    requires
        d < 16,
    ensures
        c == hex_char(d as nat),
{
    if d < 10 {
        digit_char_of(d as u64)
    } else if d == 10 {
        'a'
    } else if d == 11 {
        'b'
    } else if d == 12 {
        'c'
    } else if d == 13 {
        'd'
    } else if d == 14 {
        'e'
    } else {
        'f'
    }
}

fn push_escaped_char(out: &mut String, c: char)
    ensures
        final(out)@ == old(out)@ + escape_char(c),
{
    let ghost o = old(out)@;
    if c == '"' {
        push_char(out, '\\');
        push_char(out, '"');
    } else if c == '\\' {
        push_char(out, '\\');
        push_char(out, '\\');
    } else if c == '\x08' {
        push_char(out, '\\');
        push_char(out, 'b');
    } else if c == '\t' {
        push_char(out, '\\');
        push_char(out, 't');
    } else if c == '\n' {
        push_char(out, '\\');
        push_char(out, 'n');
    } else if c == '\x0c' {
        push_char(out, '\\');
        push_char(out, 'f');
    } else if c == '\r' {
        push_char(out, '\\');
        push_char(out, 'r');
    } else if (c as u32) < 0x20 {
        let n = c as u32;
        push_char(out, '\\');
        push_char(out, 'u');
        push_char(out, '0');
        push_char(out, '0');
        push_char(out, hex_digit(n / 16));
        push_char(out, hex_digit(n % 16));
    } else {
        push_char(out, c);
    }
    assert(out@ == o + escape_char(c));
}

fn push_quoted(out: &mut String, s: &str)
    ensures
        final(out)@ == old(out)@ + quoted(s@),
{
    let ghost o = old(out)@;
    let cs = chars_of(s);
    push_char(out, '"');
    let mut i: usize = 0;
    while i < cs.len()
        invariant
            i <= cs@.len(),
            cs@ == s@,
            out@ == o.push('"') + escape_str(cs@.subrange(0, i as int)),
        decreases cs@.len() - i,
    {
        push_escaped_char(out, cs[i]);
        proof {
            let t = cs@.subrange(0, i + 1);
            assert(t.drop_last() == cs@.subrange(0, i as int));
            assert(t.last() == cs@[i as int]);
        }
        i = i + 1;
    }
    push_char(out, '"');
    assert(cs@.subrange(0, cs@.len() as int) == s@);
    assert(out@ == o + quoted(s@));
}

/// Appends the compact text of `v` to `out`.
pub fn push_json(out: &mut String, v: &Json)
    ensures
        final(out)@ == old(out)@ + json_text(v@),
    decreases v,
{
    let ghost o = old(out)@;
    match v {
        Json::Null => {
            push_str(out, "null");
            proof {
                reveal_strlit("null");
            }
        },
        Json::Bool(b) => {
            if *b {
                push_str(out, "true");
                proof {
                    reveal_strlit("true");
                }
            } else {
                push_str(out, "false");
                proof {
                    reveal_strlit("false");
                }
            }
        },
        Json::Number(t) => {
            push_str(out, t.as_str());
        },
        Json::Str(s) => {
            push_quoted(out, s.as_str());
        },
        Json::Array(items) => {
            push_char(out, '[');
            let mut i: usize = 0;
            proof {
                lemma_view_items(items@);
            }
            while i < items.len()
                invariant
                    i <= items@.len(),
                    *v == Json::Array(*items),
                    view_items(items@).len() == items@.len(),
                    forall|j: int|
                        0 <= j < items@.len() ==> #[trigger] view_items(items@)[j] == view_json(
                            items@[j],
                        ),
                    out@ == o.push('[') + items_text(view_items(items@).subrange(0, i as int)),
                decreases items@.len() - i,
            {
                assert(decreases_to!(*v => (*v)->Array_0));
                assert(decreases_to!(*items => items@));
                assert(decreases_to!(items@ => items@[i as int]));
                let ghost before = out@;
                if i > 0 {
                    push_char(out, ',');
                }
                push_json(out, &items[i]);
                proof {
                    let a = view_items(items@);
                    let t = a.subrange(0, i + 1);
                    assert(t.drop_last() == a.subrange(0, i as int));
                    assert(t.last() == a[i as int]);
                    if i == 0 {
                        assert(t.len() == 1);
                        assert(t[0] == a[0]);
                        assert(a.subrange(0, 0).len() == 0);
                    }
                }
                i = i + 1;
            }
            push_char(out, ']');
            assert(view_items(items@).subrange(0, items@.len() as int) == view_items(items@));
            assert(v@ == JsonV::Array(view_items(items@)));
        },
        Json::Object(entries) => {
            push_char(out, '{');
            let mut i: usize = 0;
            proof {
                lemma_view_entries(entries@);
            }
            while i < entries.len()
                invariant
                    i <= entries@.len(),
                    *v == Json::Object(*entries),
                    view_entries(entries@).len() == entries@.len(),
                    forall|j: int|
                        0 <= j < entries@.len() ==> #[trigger] view_entries(entries@)[j] == (
                        entries@[j].0@, view_json(entries@[j].1)),
                    out@ == o.push('{') + entries_text(
                        view_entries(entries@).subrange(0, i as int),
                    ),
                decreases entries@.len() - i,
            {
                assert(decreases_to!(*v => (*v)->Object_0));
                assert(decreases_to!(*entries => entries@));
                assert(decreases_to!(entries@ => entries@[i as int]));
                assert(decreases_to!(entries@[i as int] => entries@[i as int].1));
                if i > 0 {
                    push_char(out, ',');
                }
                push_quoted(out, entries[i].0.as_str());
                push_char(out, ':');
                push_json(out, &entries[i].1);
                proof {
                    let a = view_entries(entries@);
                    let t = a.subrange(0, i + 1);
                    assert(t.drop_last() == a.subrange(0, i as int));
                    assert(t.last() == a[i as int]);
                    if i == 0 {
                        assert(t.len() == 1);
                        assert(t[0] == a[0]);
                        assert(a.subrange(0, 0).len() == 0);
                    }
                }
                i = i + 1;
            }
            push_char(out, '}');
            assert(view_entries(entries@).subrange(0, entries@.len() as int) == view_entries(
                entries@,
            ));
            assert(v@ == JsonV::Object(view_entries(entries@)));
        },
    }
}

impl Json {
    /// The compact text of the value.
    pub fn to_text(&self) -> (r: String)
        ensures
            r@ == json_text(self@),
    {
        let mut s = String::new();
        push_json(&mut s, self);
        assert(Seq::<char>::empty() + json_text(self@) == json_text(self@));
        s
    }
}


/// The first index with key `k` is the index that `find_key` gives.
pub proof fn lemma_find_key_is(es: Seq<(Seq<char>, JsonV)>, k: Seq<char>, i: int)
    requires
        0 <= i < es.len(),
        es[i].0 == k,
        forall|j: int| 0 <= j < i ==> #[trigger] es[j].0 != k,
    ensures
        find_key(es, k) == Some(i),
{
    lemma_find_key(es, k);
    match find_key(es, k) {
        Some(m) => {
            if m < i {
                assert(es[m].0 != k);
            }
            if i < m {
                assert(es[i].0 != k);
            }
        },
        None => {
            assert(es[i].0 != k);
        },
    }
}

/// No entry has key `k`, so `find_key` gives nothing.
pub proof fn lemma_find_key_none(es: Seq<(Seq<char>, JsonV)>, k: Seq<char>)
    requires
        forall|j: int| 0 <= j < es.len() ==> #[trigger] es[j].0 != k,
    ensures
        find_key(es, k).is_none(),
{
    lemma_find_key(es, k);
    if let Some(m) = find_key(es, k) {
        assert(es[m].0 != k);
    }
}

/// The entries after `map.insert(k, v)`: the value under an existing key is
/// replaced in place, a new key is added at the end.
pub open spec fn entries_put(es: Seq<(Seq<char>, JsonV)>, k: Seq<char>, v: JsonV) -> Seq<
    (Seq<char>, JsonV),
> {
    match find_key(es, k) {
        Some(i) => es.update(i, (k, v)),
        None => es.push((k, v)),
    }
}

/// The entries after inserting every entry of `data` in order.
pub open spec fn entries_extend(es: Seq<(Seq<char>, JsonV)>, data: Seq<(Seq<char>, JsonV)>) -> Seq<
    (Seq<char>, JsonV),
>
    decreases data.len(),
{
    if data.len() == 0 {
        es
    } else {
        let last = data.last();
        entries_put(entries_extend(es, data.drop_last()), last.0, last.1)
    }
}

/// After an insert, the key reads back the value inserted, and every other key
/// reads what it read before.
pub proof fn lemma_entries_put_get(es: Seq<(Seq<char>, JsonV)>, k: Seq<char>, v: JsonV, k2: Seq<char>)
    ensures
        jget(JsonV::Object(entries_put(es, k, v)), k2) == (if k2 == k {
            Some(v)
        } else {
            jget(JsonV::Object(es), k2)
        }),
{
    let p = entries_put(es, k, v);
    lemma_find_key(es, k);
    lemma_find_key(es, k2);
    match find_key(es, k) {
        Some(i) => {
            assert(forall|j: int| 0 <= j < es.len() && j != i ==> #[trigger] p[j] == es[j]);
            if k2 == k {
                lemma_find_key_is(p, k2, i);
            } else {
                match find_key(es, k2) {
                    Some(m) => {
                        assert(m != i);
                        assert forall|j: int| 0 <= j < m implies #[trigger] p[j].0 != k2 by {
                            if j != i {
                                assert(p[j] == es[j]);
                            }
                        }
                        lemma_find_key_is(p, k2, m);
                    },
                    None => {
                        assert forall|j: int| 0 <= j < p.len() implies #[trigger] p[j].0 != k2 by {
                            if j != i {
                                assert(p[j] == es[j]);
                            }
                        }
                        lemma_find_key_none(p, k2);
                    },
                }
            }
        },
        None => {
            assert(forall|j: int| 0 <= j < es.len() ==> #[trigger] p[j] == es[j]);
            if k2 == k {
                lemma_find_key_is(p, k2, es.len() as int);
            } else {
                match find_key(es, k2) {
                    Some(m) => {
                        assert forall|j: int| 0 <= j < m implies #[trigger] p[j].0 != k2 by {
                            assert(p[j] == es[j]);
                        }
                        lemma_find_key_is(p, k2, m);
                    },
                    None => {
                        assert forall|j: int| 0 <= j < p.len() implies #[trigger] p[j].0 != k2 by {
                            if j < es.len() {
                                assert(p[j] == es[j]);
                            }
                        }
                        lemma_find_key_none(p, k2);
                    },
                }
            }
        },
    }
}

/// The index of the first entry with key `k`.
pub fn find_entry(es: &Vec<(String, Json)>, k: &str) -> (r: Option<usize>)
    ensures
        match r {
            Some(i) => find_key(view_entries(es@), k@) == Some(i as int),
            None => find_key(view_entries(es@), k@).is_none(),
        },
{
    proof {
        lemma_view_entries(es@);
    }
    let mut i: usize = 0;
    while i < es.len()
        invariant
            i <= es@.len(),
            view_entries(es@).len() == es@.len(),
            forall|j: int|
                0 <= j < es@.len() ==> #[trigger] view_entries(es@)[j] == (es@[j].0@, view_json(
                    es@[j].1,
                )),
            forall|j: int| 0 <= j < i ==> #[trigger] view_entries(es@)[j].0 != k@,
        decreases es@.len() - i,
    {
        if str_eq(es[i].0.as_str(), k) {
            proof {
                lemma_find_key_is(view_entries(es@), k@, i as int);
            }
            return Some(i);
        }
        i = i + 1;
    }
    proof {
        lemma_find_key_none(view_entries(es@), k@);
    }
    None
}

/// `map.insert(k, v)` on entries kept in a vector.
pub fn put_entry(es: &mut Vec<(String, Json)>, k: String, v: Json)
    ensures
        view_entries(final(es)@) == entries_put(view_entries(old(es)@), k@, v@),
{
    proof {
        lemma_view_entries(es@);
    }
    let ghost kv = (k@, v@);
    match find_entry(es, k.as_str()) {
        Some(i) => {
            proof {
                lemma_find_key(view_entries(es@), k@);
            }
            es.set(i, (k, v));
            proof {
                lemma_view_entries(es@);
            }
            assert(view_entries(es@) =~= view_entries(old(es)@).update(i as int, kv));
        },
        None => {
            es.push((k, v));
            proof {
                lemma_view_entries(es@);
            }
            assert(view_entries(es@) =~= view_entries(old(es)@).push(kv));
        },
    }
}

/// `map.extend(data)`: every entry of `data` inserted in order.
pub fn extend_entries(es: &mut Vec<(String, Json)>, data: &Vec<(String, Json)>)
    ensures
        view_entries(final(es)@) == entries_extend(view_entries(old(es)@), view_entries(data@)),
{
    proof {
        lemma_view_entries(data@);
    }
    let mut i: usize = 0;
    while i < data.len()
        invariant
            i <= data@.len(),
            view_entries(data@).len() == data@.len(),
            view_entries(es@) == entries_extend(
                view_entries(old(es)@),
                view_entries(data@).subrange(0, i as int),
            ),
        decreases data@.len() - i,
    {
        let ghost before = view_entries(es@);
        let k = data[i].0.clone();
        let v = data[i].1.deep_clone();
        put_entry(es, k, v);
        proof {
            let d = view_entries(data@);
            let sub = d.subrange(0, i + 1);
            assert(sub.drop_last() =~= d.subrange(0, i as int));
            lemma_view_entries(data@);
            assert(sub.last() == d[i as int]);
        }
        i = i + 1;
    }
    assert(view_entries(data@).subrange(0, data@.len() as int) =~= view_entries(data@));
}

/// The entries after `map.remove(k)`: the first entry with key `k` is gone,
/// the others keep their order.
pub open spec fn entries_del(es: Seq<(Seq<char>, JsonV)>, k: Seq<char>) -> Seq<(Seq<char>, JsonV)> {
    match find_key(es, k) {
        Some(i) => es.remove(i),
        None => es,
    }
}

/// The value under key `k` (the first such entry).
pub open spec fn entry_val(es: Seq<(Seq<char>, JsonV)>, k: Seq<char>) -> Option<JsonV> {
    match find_key(es, k) {
        Some(i) => Some(es[i].1),
        None => None,
    }
}

/// `map.remove(k)` on entries kept in a vector: the value that was under `k`
/// comes back.
pub fn take_entry(es: &mut Vec<(String, Json)>, k: &str) -> (r: Option<Json>)
    ensures
        view_entries(final(es)@) == entries_del(view_entries(old(es)@), k@),
        match r {
            Some(v) => entry_val(view_entries(old(es)@), k@) == Some(v@),
            None => entry_val(view_entries(old(es)@), k@).is_none(),
        },
{
    proof {
        lemma_view_entries(es@);
    }
    match find_entry(es, k) {
        Some(i) => {
            proof {
                lemma_find_key(view_entries(es@), k@);
            }
            let ghost before = view_entries(es@);
            let e = es.remove(i);
            proof {
                lemma_view_entries(es@);
            }
            assert(view_entries(es@) =~= before.remove(i as int));
            Some(e.1)
        },
        None => None,
    }
}

} // verus!
