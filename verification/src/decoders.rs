//! Rendering of compiled block trees as Blockly XML, and the lookups that the
//! work decompilers share: which blocks are referenced by others (so that the
//! rest are roots), and the file name at the end of a resource URL.

use vstd::prelude::*;

use crate::json::{
    entries_del, entries_put, entry_val, find_entry, find_key, jget, jnum, jstr, lemma_find_key,
    lemma_view_entries, lemma_view_entries_push, lemma_view_items, take_entry, view_entries,
    view_items, view_json, Json, JsonV,
};
use crate::text::{chars_of, dec_nat, push_char, push_str, push_u64, str_eq};

verus! {

/// How one character is written in XML text: the five markup characters as
/// entities, every other character as itself.
pub open spec fn xml_escape_char(c: char) -> Seq<char> {
    if c == '&' {
        seq!['&', 'a', 'm', 'p', ';']
    } else if c == '<' {
        seq!['&', 'l', 't', ';']
    } else if c == '>' {
        seq!['&', 'g', 't', ';']
    } else if c == '"' {
        seq!['&', 'q', 'u', 'o', 't', ';']
    } else if c == '\'' {
        seq!['&', 'a', 'p', 'o', 's', ';']
    } else {
        seq![c]
    }
}

/// The XML-escaped text of `s`.
pub open spec fn xml_escape(s: Seq<char>) -> Seq<char>
    decreases s.len(),
{
    if s.len() == 0 {
        Seq::empty()
    } else {
        xml_escape(s.drop_last()) + xml_escape_char(s.last())
    }
}

/// Appends the XML-escaped text of `s` to `out`.
pub fn push_xml_escaped(out: &mut String, s: &str)
    ensures
        final(out)@ == old(out)@ + xml_escape(s@),
{
    let ghost o = old(out)@;
    let cs = chars_of(s);
    let mut i: usize = 0;
    while i < cs.len()
        invariant
            i <= cs@.len(),
            cs@ == s@,
            out@ == o + xml_escape(cs@.subrange(0, i as int)),
        decreases cs@.len() - i,
    {
        let c = cs[i];
        let ghost before = out@;
        if c == '&' {
            push_str(out, "&amp;");
            proof {
                reveal_strlit("&amp;");
            }
        } else if c == '<' {
            push_str(out, "&lt;");
            proof {
                reveal_strlit("&lt;");
            }
        } else if c == '>' {
            push_str(out, "&gt;");
            proof {
                reveal_strlit("&gt;");
            }
        } else if c == '"' {
            push_str(out, "&quot;");
            proof {
                reveal_strlit("&quot;");
            }
        } else if c == '\'' {
            push_str(out, "&apos;");
            proof {
                reveal_strlit("&apos;");
            }
        } else {
            push_char(out, c);
        }
        proof {
            let t = cs@.subrange(0, i + 1);
            assert(t.drop_last() == cs@.subrange(0, i as int));
            assert(t.last() == c);
            assert(out@ == before + xml_escape_char(c));
        }
        i = i + 1;
    }
    assert(cs@.subrange(0, cs@.len() as int) == s@);
}

/// The text that a scalar parameter contributes inside a `<field>`: a string
/// or the text of a number, escaped; `true` or `false`; nothing for `null`
/// and for containers.
pub open spec fn value_text(v: JsonV) -> Seq<char> {
    match v {
        JsonV::Str(s) => xml_escape(s),
        JsonV::Number(t) => xml_escape(t),
        JsonV::Bool(b) => if b {
            "true"@
        } else {
            "false"@
        },
        _ => Seq::empty(),
    }
}

/// Appends [`value_text`] of `v` to `out`.
pub fn push_value_text(out: &mut String, v: &Json)
    ensures
        final(out)@ == old(out)@ + value_text(v@),
{
    match v {
        Json::Str(s) => push_xml_escaped(out, s.as_str()),
        Json::Number(t) => push_xml_escaped(out, t.as_str()),
        Json::Bool(b) => {
            if *b {
                push_str(out, "true");
            } else {
                push_str(out, "false");
            }
        },
        _ => {
            assert(out@ == old(out)@ + Seq::<char>::empty());
        },
    }
}

/// Whether a value is neither an object nor an array.
pub open spec fn is_scalar(v: JsonV) -> bool {
    !(v is Object) && !(v is Array)
}

/// The `<field>` element of one parameter, empty for a container value.
pub open spec fn field_xml(p: (Seq<char>, JsonV)) -> Seq<char> {
    if is_scalar(p.1) {
        "<field name=\""@ + p.0 + "\">"@ + value_text(p.1) + "</field>"@
    } else {
        Seq::empty()
    }
}

/// The `<field>` elements of the scalar parameters, in their order.
pub open spec fn fields_xml(ps: Seq<(Seq<char>, JsonV)>) -> Seq<char>
    decreases ps.len(),
{
    if ps.len() == 0 {
        Seq::empty()
    } else {
        fields_xml(ps.drop_last()) + field_xml(ps.last())
    }
}

/// Appends [`fields_xml`] of the entries to `out`.
pub fn push_fields(out: &mut String, ps: &Vec<(String, Json)>)
    ensures
        final(out)@ == old(out)@ + fields_xml(view_entries(ps@)),
{
    let ghost o = old(out)@;
    proof {
        lemma_view_entries(ps@);
    }
    let ghost es = view_entries(ps@);
    let mut i: usize = 0;
    while i < ps.len()
        invariant
            i <= ps@.len(),
            es == view_entries(ps@),
            es.len() == ps@.len(),
            forall|j: int| 0 <= j < ps@.len() ==> #[trigger] es[j] == (ps@[j].0@, view_json(ps@[j].1)),
            out@ == o + fields_xml(es.subrange(0, i as int)),
        decreases ps@.len() - i,
    {
        let ghost before = out@;
        let scalar = match &ps[i].1 {
            Json::Object(_) => false,
            Json::Array(_) => false,
            _ => true,
        };
        if scalar {
            push_str(out, "<field name=\"");
            push_str(out, ps[i].0.as_str());
            push_str(out, "\">");
            push_value_text(out, &ps[i].1);
            push_str(out, "</field>");
        }
        proof {
            let t = es.subrange(0, i + 1);
            assert(t.drop_last() == es.subrange(0, i as int));
            assert(t.last() == es[i as int]);
            assert(out@ == before + field_xml(es[i as int]));
        }
        i = i + 1;
    }
    assert(es.subrange(0, ps@.len() as int) == es);
}


/// The text of a string field of an object, empty where the field is missing
/// or not a string.
pub open spec fn str_or_empty(v: JsonV, k: Seq<char>) -> Seq<char> {
    match jstr(jget(v, k)) {
        Some(s) => s,
        None => Seq::empty(),
    }
}

/// The entries of the `params` object of a block, empty where there is none.
pub open spec fn params_of(v: JsonV) -> Seq<(Seq<char>, JsonV)> {
    match jget(v, "params"@) {
        Some(JsonV::Object(ps)) => ps,
        _ => Seq::empty(),
    }
}

/// The number of entries of the `conditions` array of a block, 0 where
/// there is none.
pub open spec fn n_conditions(v: JsonV) -> nat {
    match jget(v, "conditions"@) {
        Some(JsonV::Array(cs)) => cs.len(),
        _ => 0,
    }
}

/// The strings of a vector, as character sequences.
pub open spec fn strs_view(s: Seq<String>) -> Seq<Seq<char>> {
    s.map_values(|x: String| x@)
}

/// The name of the statement slot that holds child `i` of a block of type
/// `bt` with `n` conditions: `DO{i}` for the branches of an `if` and `ELSE`
/// after them, `STACK` for a function body, `DO` otherwise.
pub open spec fn statement_name(bt: Seq<char>, i: nat, n: nat) -> Seq<char> {
    if bt == "controls_if"@ || bt == "controls_if_no_else"@ {
        if i < n {
            "DO"@ + dec_nat(i)
        } else {
            "ELSE"@
        }
    } else if bt == "procedures_2_defnoreturn"@ {
        "STACK"@
    } else {
        "DO"@
    }
}

/// The opening tag of a block; a root block also carries its position.
pub open spec fn block_open(bt: Seq<char>, bid: Seq<char>, is_root: bool, y: nat) -> Seq<char> {
    if is_root {
        "<block type=\""@ + bt + "\" id=\""@ + bid + "\" inline=\"true\" visible=\"visible\" x=\"0\" y=\""@
            + dec_nat(y) + "\">"@
    } else {
        "<block type=\""@ + bt + "\" id=\""@ + bid + "\" inline=\"true\" visible=\"visible\">"@
    }
}

/// The Blockly XML of a compiled block: its opening tag, a `<field>` for each
/// scalar parameter, a `<value>` for each object parameter, a `<value>` named
/// `IF{i}` for each condition object, a `<statement>` for each child object,
/// the `<next>` block where there is one, and the closing tag. `sh` lists the
/// block types that are rendered as shadows inside value slots.
pub open spec fn block_xml(v: JsonV, is_root: bool, y: nat, sh: Seq<Seq<char>>) -> Seq<char>
    decreases v, 0int,
{
    match v {
        JsonV::Object(es) => {
            let bt = str_or_empty(v, "type"@);
            block_open(bt, str_or_empty(v, "id"@), is_root, y) + fields_xml(params_of(v))
                + params_values(es, sh) + conds_part(es, sh) + children_part(
                es,
                bt,
                n_conditions(v),
                sh,
            ) + next_part(es, sh) + "</block>"@
        },
        _ => block_open(Seq::empty(), Seq::empty(), is_root, y) + "</block>"@,
    }
}

/// The content of a value slot: a `<shadow>` with the scalar fields for a
/// shadow type, the block itself otherwise.
pub open spec fn value_xml(v: JsonV, sh: Seq<Seq<char>>) -> Seq<char>
    decreases v, 1int,
{
    let vt = str_or_empty(v, "type"@);
    if sh.contains(vt) {
        "<shadow type=\""@ + vt + "\" id=\""@ + str_or_empty(v, "id"@) + "\" visible=\"visible\">"@
            + fields_xml(params_of(v)) + "</shadow>"@
    } else {
        block_xml(v, false, 0, sh)
    }
}

/// The value slots of the object parameters of a block with entries `es`.
pub open spec fn params_values(es: Seq<(Seq<char>, JsonV)>, sh: Seq<Seq<char>>) -> Seq<char>
    decreases es, 0int,
{
    match find_key(es, "params"@) {
        Some(i) => if 0 <= i < es.len() {
            match es[i].1 {
                JsonV::Object(ps) => {
                    proof {
                        assert(decreases_to!(es => es[i]));
                    }
                    values_xml(ps, sh)
                },
                _ => Seq::empty(),
            }
        } else {
            Seq::empty()
        },
        None => Seq::empty(),
    }
}

/// A `<value>` element for each object among the parameters `ps`.
pub open spec fn values_xml(ps: Seq<(Seq<char>, JsonV)>, sh: Seq<Seq<char>>) -> Seq<char>
    decreases ps, 0int,
{
    if ps.len() == 0 {
        Seq::empty()
    } else {
        let p = ps[ps.len() - 1];
        values_xml(ps.drop_last(), sh) + match p.1 {
            JsonV::Object(_) => "<value name=\""@ + p.0 + "\">"@ + value_xml(p.1, sh) + "</value>"@,
            _ => Seq::empty(),
        }
    }
}

/// The condition slots of a block with entries `es`.
pub open spec fn conds_part(es: Seq<(Seq<char>, JsonV)>, sh: Seq<Seq<char>>) -> Seq<char>
    decreases es, 0int,
{
    match find_key(es, "conditions"@) {
        Some(i) => if 0 <= i < es.len() {
            match es[i].1 {
                JsonV::Array(cs) => {
                    proof {
                        assert(decreases_to!(es => es[i]));
                    }
                    conds_xml(cs, sh)
                },
                _ => Seq::empty(),
            }
        } else {
            Seq::empty()
        },
        None => Seq::empty(),
    }
}

/// A `<value>` named `IF{i}` for each object condition, `i` its position.
pub open spec fn conds_xml(cs: Seq<JsonV>, sh: Seq<Seq<char>>) -> Seq<char>
    decreases cs, 0int,
{
    if cs.len() == 0 {
        Seq::empty()
    } else {
        let c = cs[cs.len() - 1];
        conds_xml(cs.drop_last(), sh) + match c {
            JsonV::Object(_) => "<value name=\"IF"@ + dec_nat((cs.len() - 1) as nat) + "\">"@
                + value_xml(c, sh) + "</value>"@,
            _ => Seq::empty(),
        }
    }
}

/// The statement slots of a block with entries `es`, type `bt` and `n`
/// conditions.
pub open spec fn children_part(
    es: Seq<(Seq<char>, JsonV)>,
    bt: Seq<char>,
    n: nat,
    sh: Seq<Seq<char>>,
) -> Seq<char>
    decreases es, 0int,
{
    match find_key(es, "child_block"@) {
        Some(i) => if 0 <= i < es.len() {
            match es[i].1 {
                JsonV::Array(cs) => {
                    proof {
                        assert(decreases_to!(es => es[i]));
                    }
                    children_xml(cs, bt, n, sh)
                },
                _ => Seq::empty(),
            }
        } else {
            Seq::empty()
        },
        None => Seq::empty(),
    }
}

/// A `<statement>` for each object child, named by [`statement_name`].
pub open spec fn children_xml(cs: Seq<JsonV>, bt: Seq<char>, n: nat, sh: Seq<Seq<char>>) -> Seq<char>
    decreases cs, 0int,
{
    if cs.len() == 0 {
        Seq::empty()
    } else {
        let c = cs[cs.len() - 1];
        children_xml(cs.drop_last(), bt, n, sh) + match c {
            JsonV::Object(_) => "<statement name=\""@ + statement_name(bt, (cs.len() - 1) as nat, n)
                + "\">"@ + block_xml(c, false, 0, sh) + "</statement>"@,
            _ => Seq::empty(),
        }
    }
}

/// The `<next>` element of a block with entries `es` whose `next_block` is
/// an object.
pub open spec fn next_part(es: Seq<(Seq<char>, JsonV)>, sh: Seq<Seq<char>>) -> Seq<char>
    decreases es, 0int,
{
    match find_key(es, "next_block"@) {
        Some(i) => if 0 <= i < es.len() {
            match es[i].1 {
                JsonV::Object(_) => {
                    proof {
                        assert(decreases_to!(es => es[i]));
                    }
                    "<next>"@ + block_xml(es[i].1, false, 0, sh) + "</next>"@
                },
                _ => Seq::empty(),
            }
        } else {
            Seq::empty()
        },
        None => Seq::empty(),
    }
}

/// Appends the decimal text of `n` to `out`.
fn push_u128(out: &mut String, n: u128)
    ensures
        final(out)@ == old(out)@ + dec_nat(n as nat),
    decreases n,
{
    if n < 10 {
        push_u64(out, n as u64);
    } else {
        push_u128(out, n / 10);
        push_u64(out, (n % 10) as u64);
        assert(dec_nat((n % 10) as nat) == seq![crate::text::digit_char((n % 10) as nat)]);
        assert(old(out)@ + dec_nat(n as nat) == old(out)@ + dec_nat((n / 10) as nat) + seq![
            crate::text::digit_char((n % 10) as nat),
        ]);
    }
}

/// The text of a string field of `v`, empty where there is none.
fn str_field<'a>(v: &'a Json, k: &str) -> (r: &'a str)
    ensures
        r@ == str_or_empty(v@, k@),
{
    proof {
        reveal_strlit("");
    }
    match v.get(k) {
        Some(x) => match x.as_str() {
            Some(t) => t,
            None => "",
        },
        None => "",
    }
}

/// Whether `t` is one of the strings of `sh`.
fn contains_text(sh: &Vec<String>, t: &str) -> (r: bool)
    ensures
        r == strs_view(sh@).contains(t@),
{
    let mut i: usize = 0;
    while i < sh.len()
        invariant
            i <= sh@.len(),
            forall|j: int| 0 <= j < i ==> sh@[j]@ != t@,
        decreases sh@.len() - i,
    {
        if str_eq(sh[i].as_str(), t) {
            assert(strs_view(sh@)[i as int] == t@);
            return true;
        }
        i = i + 1;
    }
    proof {
        if strs_view(sh@).contains(t@) {
            let j = choose|j: int| 0 <= j < strs_view(sh@).len() && strs_view(sh@)[j] == t@;
            assert(sh@[j]@ == t@);
        }
    }
    false
}

/// The index of the entry `k` of the object `v` (the first one), with its
/// place in the model.
proof fn lemma_entry_at(es: &Vec<(String, Json)>, k: Seq<char>, i: usize)
    requires
        find_key(view_entries(es@), k) == Some(i as int),
    ensures
        i < es@.len(),
        view_entries(es@)[i as int] == (es@[i as int].0@, view_json(es@[i as int].1)),
        view_entries(es@).len() == es@.len(),
{
    lemma_find_key(view_entries(es@), k);
    lemma_view_entries(es@);
}

/// Appends [`fields_xml`] of the parameters of `v`.
fn push_params_fields(out: &mut String, v: &Json)
    ensures
        final(out)@ == old(out)@ + fields_xml(params_of(v@)),
{
    proof {
        reveal_strlit("params");
    }
    match v {
        Json::Object(es) => {
            match find_entry(es, "params") {
                Some(i) => {
                    proof {
                        lemma_entry_at(es, "params"@, i);
                    }
                    match &es[i].1 {
                        Json::Object(ps) => {
                            push_fields(out, ps);
                        },
                        _ => {
                            assert(out@ == old(out)@ + Seq::<char>::empty());
                        },
                    }
                },
                None => {
                    assert(out@ == old(out)@ + Seq::<char>::empty());
                },
            }
        },
        _ => {
            assert(out@ == old(out)@ + Seq::<char>::empty());
        },
    }
}

/// Appends [`statement_name`] of child `i`.
fn push_statement_name(out: &mut String, bt: &str, i: usize, n: usize)
    ensures
        final(out)@ == old(out)@ + statement_name(bt@, i as nat, n as nat),
{
    if str_eq(bt, "controls_if") || str_eq(bt, "controls_if_no_else") {
        if i < n {
            push_str(out, "DO");
            push_u64(out, i as u64);
        } else {
            push_str(out, "ELSE");
        }
    } else if str_eq(bt, "procedures_2_defnoreturn") {
        push_str(out, "STACK");
    } else {
        push_str(out, "DO");
    }
}

/// Appends [`block_xml`] of `v`.
#[verifier::spinoff_prover]
#[verifier::rlimit(40)]
pub fn push_block_xml(out: &mut String, v: &Json, is_root: bool, y: u128, sh: &Vec<String>)
    ensures
        final(out)@ == old(out)@ + block_xml(v@, is_root, y as nat, strs_view(sh@)),
    decreases v, 0int,
{
    let ghost o = old(out)@;
    let ghost shv = strs_view(sh@);
    let bt = str_field(v, "type");
    let bid = str_field(v, "id");
    push_str(out, "<block type=\"");
    push_str(out, bt);
    push_str(out, "\" id=\"");
    push_str(out, bid);
    if is_root {
        push_str(out, "\" inline=\"true\" visible=\"visible\" x=\"0\" y=\"");
        push_u128(out, y);
        push_str(out, "\">");
    } else {
        push_str(out, "\" inline=\"true\" visible=\"visible\">");
    }
    let ghost head = out@;
    let ghost p0 = block_open(bt@, bid@, is_root, y as nat);
    assert(head == o + p0);
    match v {
        Json::Object(es) => {
            let ghost ev = view_entries(es@);
            assert(v@ == JsonV::Object(ev));
            assert(decreases_to!(*v => (*v)->Object_0));
            push_params_fields(out, v);
            let ghost p1 = fields_xml(params_of(v@));
            push_params_values(out, es, sh);
            let ghost p2 = params_values(ev, shv);
            let n = push_conds_part(out, es, sh);
            let ghost p3 = conds_part(ev, shv);
            push_children_part(out, es, bt, n, sh);
            let ghost p4 = children_part(ev, bt@, n as nat, shv);
            push_next_part(out, es, sh);
            let ghost p5 = next_part(ev, shv);
            push_str(out, "</block>");
            proof {
                reveal_strlit("</block>");
                assert(out@ == o + p0 + p1 + p2 + p3 + p4 + p5 + "</block>"@);
                assert(block_xml(v@, is_root, y as nat, shv) == p0 + p1 + p2 + p3 + p4 + p5
                    + "</block>"@);
            }
        },
        _ => {
            proof {
                reveal_strlit("");
            }
            assert(bt@ == Seq::<char>::empty());
            assert(bid@ == Seq::<char>::empty());
            push_str(out, "</block>");
        },
    }
}

/// Appends [`params_values`] of the entries `es`.
fn push_params_values(out: &mut String, es: &Vec<(String, Json)>, sh: &Vec<String>)
    ensures
        final(out)@ == old(out)@ + params_values(view_entries(es@), strs_view(sh@)),
    decreases *es, 0int,
{
    match find_entry(es, "params") {
        Some(i) => {
            proof {
                lemma_entry_at(es, "params"@, i);
            }
            match &es[i].1 {
                Json::Object(ps) => {
                    assert(decreases_to!(*es => es@));
                    assert(decreases_to!(es@ => es@[i as int]));
                    assert(decreases_to!(es@[i as int] => es@[i as int].1));
                    assert(decreases_to!(es@[i as int].1 => (es@[i as int].1)->Object_0));
                    push_values(out, ps, sh);
                },
                _ => {
                    assert(out@ == old(out)@ + Seq::<char>::empty());
                },
            }
        },
        None => {
            assert(out@ == old(out)@ + Seq::<char>::empty());
        },
    }
}

/// Appends [`conds_part`] of the entries `es`; the number of conditions
/// comes back.
fn push_conds_part(out: &mut String, es: &Vec<(String, Json)>, sh: &Vec<String>) -> (n: usize)
    ensures
        final(out)@ == old(out)@ + conds_part(view_entries(es@), strs_view(sh@)),
        n as nat == n_conditions(JsonV::Object(view_entries(es@))),
    decreases *es, 0int,
{
    match find_entry(es, "conditions") {
        Some(i) => {
            proof {
                lemma_entry_at(es, "conditions"@, i);
            }
            match &es[i].1 {
                Json::Array(cs) => {
                    assert(decreases_to!(*es => es@));
                    assert(decreases_to!(es@ => es@[i as int]));
                    assert(decreases_to!(es@[i as int] => es@[i as int].1));
                    assert(decreases_to!(es@[i as int].1 => (es@[i as int].1)->Array_0));
                    proof {
                        lemma_view_items(cs@);
                    }
                    push_conds(out, cs, sh);
                    cs.len()
                },
                _ => {
                    assert(out@ == old(out)@ + Seq::<char>::empty());
                    0
                },
            }
        },
        None => {
            assert(out@ == old(out)@ + Seq::<char>::empty());
            0
        },
    }
}

/// Appends [`children_part`] of the entries `es`.
fn push_children_part(out: &mut String, es: &Vec<(String, Json)>, bt: &str, n: usize, sh: &Vec<String>)
    ensures
        final(out)@ == old(out)@ + children_part(view_entries(es@), bt@, n as nat, strs_view(sh@)),
    decreases *es, 0int,
{
    match find_entry(es, "child_block") {
        Some(i) => {
            proof {
                lemma_entry_at(es, "child_block"@, i);
            }
            match &es[i].1 {
                Json::Array(cs) => {
                    assert(decreases_to!(*es => es@));
                    assert(decreases_to!(es@ => es@[i as int]));
                    assert(decreases_to!(es@[i as int] => es@[i as int].1));
                    assert(decreases_to!(es@[i as int].1 => (es@[i as int].1)->Array_0));
                    push_children(out, cs, bt, n, sh);
                },
                _ => {
                    assert(out@ == old(out)@ + Seq::<char>::empty());
                },
            }
        },
        None => {
            assert(out@ == old(out)@ + Seq::<char>::empty());
        },
    }
}

/// Appends [`next_part`] of the entries `es`.
fn push_next_part(out: &mut String, es: &Vec<(String, Json)>, sh: &Vec<String>)
    ensures
        final(out)@ == old(out)@ + next_part(view_entries(es@), strs_view(sh@)),
    decreases *es, 0int,
{
    match find_entry(es, "next_block") {
        Some(i) => {
            proof {
                lemma_entry_at(es, "next_block"@, i);
            }
            match &es[i].1 {
                Json::Object(_) => {
                    assert(decreases_to!(*es => es@));
                    assert(decreases_to!(es@ => es@[i as int]));
                    assert(decreases_to!(es@[i as int] => es@[i as int].1));
                    push_str(out, "<next>");
                    push_block_xml(out, &es[i].1, false, 0, sh);
                    push_str(out, "</next>");
                },
                _ => {
                    assert(out@ == old(out)@ + Seq::<char>::empty());
                },
            }
        },
        None => {
            assert(out@ == old(out)@ + Seq::<char>::empty());
        },
    }
}

/// Appends [`value_xml`] of `v`.
pub fn push_value_xml(out: &mut String, v: &Json, sh: &Vec<String>)
    ensures
        final(out)@ == old(out)@ + value_xml(v@, strs_view(sh@)),
    decreases v, 1int,
{
    let vt = str_field(v, "type");
    if contains_text(sh, vt) {
        let vid = str_field(v, "id");
        push_str(out, "<shadow type=\"");
        push_str(out, vt);
        push_str(out, "\" id=\"");
        push_str(out, vid);
        push_str(out, "\" visible=\"visible\">");
        push_params_fields(out, v);
        push_str(out, "</shadow>");
    } else {
        push_block_xml(out, v, false, 0, sh);
    }
}

/// Appends [`values_xml`] of the parameters `ps`.
fn push_values(out: &mut String, ps: &Vec<(String, Json)>, sh: &Vec<String>)
    ensures
        final(out)@ == old(out)@ + values_xml(view_entries(ps@), strs_view(sh@)),
    decreases *ps, 0int,
{
    let ghost o = old(out)@;
    let ghost shv = strs_view(sh@);
    proof {
        lemma_view_entries(ps@);
    }
    let ghost es = view_entries(ps@);
    let mut i: usize = 0;
    while i < ps.len()
        invariant
            i <= ps@.len(),
            es == view_entries(ps@),
            shv == strs_view(sh@),
            es.len() == ps@.len(),
            forall|j: int| 0 <= j < ps@.len() ==> #[trigger] es[j] == (ps@[j].0@, view_json(ps@[j].1)),
            out@ == o + values_xml(es.subrange(0, i as int), shv),
        decreases ps@.len() - i,
    {
        let ghost before = out@;
        match &ps[i].1 {
            Json::Object(_) => {
                assert(decreases_to!(*ps => ps@));
                assert(decreases_to!(ps@ => ps@[i as int]));
                assert(decreases_to!(ps@[i as int] => ps@[i as int].1));
                push_str(out, "<value name=\"");
                push_str(out, ps[i].0.as_str());
                push_str(out, "\">");
                push_value_xml(out, &ps[i].1, sh);
                push_str(out, "</value>");
            },
            _ => {},
        }
        proof {
            let t = es.subrange(0, i + 1);
            assert(t.drop_last() == es.subrange(0, i as int));
            assert(t[t.len() - 1] == es[i as int]);
        }
        i = i + 1;
    }
    assert(es.subrange(0, ps@.len() as int) == es);
}

/// Appends [`conds_xml`] of the conditions `cs`.
fn push_conds(out: &mut String, cs: &Vec<Json>, sh: &Vec<String>)
    ensures
        final(out)@ == old(out)@ + conds_xml(view_items(cs@), strs_view(sh@)),
    decreases *cs, 0int,
{
    let ghost o = old(out)@;
    let ghost shv = strs_view(sh@);
    proof {
        lemma_view_items(cs@);
    }
    let ghost a = view_items(cs@);
    let mut i: usize = 0;
    while i < cs.len()
        invariant
            i <= cs@.len(),
            a == view_items(cs@),
            shv == strs_view(sh@),
            a.len() == cs@.len(),
            forall|j: int| 0 <= j < cs@.len() ==> #[trigger] a[j] == view_json(cs@[j]),
            out@ == o + conds_xml(a.subrange(0, i as int), shv),
        decreases cs@.len() - i,
    {
        match &cs[i] {
            Json::Object(_) => {
                assert(decreases_to!(*cs => cs@));
                assert(decreases_to!(cs@ => cs@[i as int]));
                push_str(out, "<value name=\"IF");
                push_u64(out, i as u64);
                push_str(out, "\">");
                push_value_xml(out, &cs[i], sh);
                push_str(out, "</value>");
            },
            _ => {},
        }
        proof {
            let t = a.subrange(0, i + 1);
            assert(t.drop_last() == a.subrange(0, i as int));
            assert(t[t.len() - 1] == a[i as int]);
        }
        i = i + 1;
    }
    assert(a.subrange(0, cs@.len() as int) == a);
}

/// Appends [`children_xml`] of the children `cs`.
#[verifier::spinoff_prover]
#[verifier::rlimit(30)]
fn push_children(out: &mut String, cs: &Vec<Json>, bt: &str, n: usize, sh: &Vec<String>)
    ensures
        final(out)@ == old(out)@ + children_xml(view_items(cs@), bt@, n as nat, strs_view(sh@)),
    decreases *cs, 0int,
{
    let ghost o = old(out)@;
    let ghost shv = strs_view(sh@);
    proof {
        lemma_view_items(cs@);
    }
    let ghost a = view_items(cs@);
    let mut i: usize = 0;
    while i < cs.len()
        invariant
            i <= cs@.len(),
            a == view_items(cs@),
            shv == strs_view(sh@),
            a.len() == cs@.len(),
            forall|j: int| 0 <= j < cs@.len() ==> #[trigger] a[j] == view_json(cs@[j]),
            out@ == o + children_xml(a.subrange(0, i as int), bt@, n as nat, shv),
        decreases cs@.len() - i,
    {
        match &cs[i] {
            Json::Object(_) => {
                assert(decreases_to!(*cs => cs@));
                assert(decreases_to!(cs@ => cs@[i as int]));
                push_str(out, "<statement name=\"");
                push_statement_name(out, bt, i, n);
                push_str(out, "\">");
                push_block_xml(out, &cs[i], false, 0, sh);
                push_str(out, "</statement>");
            },
            _ => {},
        }
        proof {
            let t = a.subrange(0, i + 1);
            assert(t.drop_last() == a.subrange(0, i as int));
            assert(t[t.len() - 1] == a[i as int]);
        }
        i = i + 1;
    }
    assert(a.subrange(0, cs@.len() as int) == a);
}

/// The id that an entry of a block names: the `id` string of an object, and,
/// where `allow_str` holds, a string itself.
pub open spec fn ref_of(v: JsonV, allow_str: bool) -> Option<Seq<char>> {
    match v {
        JsonV::Str(s) => if allow_str {
            Some(s)
        } else {
            None
        },
        _ => jstr(jget(v, "id"@)),
    }
}

/// The sequence holding `o`'s value, empty for `None`.
pub open spec fn opt_seq(o: Option<Seq<char>>) -> Seq<Seq<char>> {
    match o {
        Some(s) => seq![s],
        None => Seq::empty(),
    }
}

/// The ids named by the items of an array, in their order.
pub open spec fn item_refs(a: Seq<JsonV>, allow_str: bool) -> Seq<Seq<char>>
    decreases a.len(),
{
    if a.len() == 0 {
        Seq::empty()
    } else {
        item_refs(a.drop_last(), allow_str) + opt_seq(ref_of(a.last(), allow_str))
    }
}

/// The ids named by the object values among parameters, in their order.
pub open spec fn param_refs(ps: Seq<(Seq<char>, JsonV)>) -> Seq<Seq<char>>
    decreases ps.len(),
{
    if ps.len() == 0 {
        Seq::empty()
    } else {
        param_refs(ps.drop_last()) + opt_seq(ref_of(ps.last().1, false))
    }
}

/// The ids of the blocks that block `b` refers to: its next block, its
/// children, its conditions and its object parameters.
pub open spec fn block_refs(b: JsonV, allow_str: bool) -> Seq<Seq<char>> {
    (match jget(b, "next_block"@) {
        Some(nb) => opt_seq(ref_of(nb, allow_str)),
        None => Seq::empty(),
    }) + (match jget(b, "child_block"@) {
        Some(JsonV::Array(cs)) => item_refs(cs, allow_str),
        _ => Seq::empty(),
    }) + (match jget(b, "conditions"@) {
        Some(JsonV::Array(cs)) => item_refs(cs, allow_str),
        _ => Seq::empty(),
    }) + param_refs(params_of(b))
}

/// The ids referred to by the blocks of a block map, block after block.
pub open spec fn all_refs(es: Seq<(Seq<char>, JsonV)>, allow_str: bool) -> Seq<Seq<char>>
    decreases es.len(),
{
    if es.len() == 0 {
        Seq::empty()
    } else {
        all_refs(es.drop_last(), allow_str) + block_refs(es.last().1, allow_str)
    }
}

proof fn lemma_strs_view_push(s: Seq<String>, x: String)
    ensures
        strs_view(s.push(x)) == strs_view(s).push(x@),
{
    assert(strs_view(s.push(x)) =~= strs_view(s).push(x@));
}

/// Appends the id that `v` names, if any.
fn push_ref(r: &mut Vec<String>, v: &Json, allow_str: bool)
    ensures
        strs_view(final(r)@) == strs_view(old(r)@) + opt_seq(ref_of(v@, allow_str)),
{
    match v {
        Json::Str(t) => {
            if allow_str {
                proof {
                    lemma_strs_view_push(r@, *t);
                }
                r.push(t.clone());
            } else {
                assert(strs_view(r@) == strs_view(r@) + Seq::<Seq<char>>::empty());
            }
        },
        _ => {
            match v.get("id") {
                Some(x) => match x.as_str() {
                    Some(t) => {
                        let ghost before = r@;
                        r.push(crate::text::own(t));
                        proof {
                            lemma_strs_view_push(before, r@[before.len() as int]);
                            assert(opt_seq(ref_of(v@, allow_str)) == seq![t@]);
                        }
                    },
                    None => {
                        assert(strs_view(r@) == strs_view(r@) + Seq::<Seq<char>>::empty());
                    },
                },
                None => {
                    assert(strs_view(r@) == strs_view(r@) + Seq::<Seq<char>>::empty());
                },
            }
        },
    }
}

/// Appends the ids named by the items of `a`.
fn push_item_refs(r: &mut Vec<String>, a: &Vec<Json>, allow_str: bool)
    ensures
        strs_view(final(r)@) == strs_view(old(r)@) + item_refs(view_items(a@), allow_str),
{
    let ghost o = strs_view(old(r)@);
    proof {
        lemma_view_items(a@);
    }
    let ghost av = view_items(a@);
    let mut i: usize = 0;
    while i < a.len()
        invariant
            i <= a@.len(),
            av == view_items(a@),
            av.len() == a@.len(),
            forall|j: int| 0 <= j < a@.len() ==> #[trigger] av[j] == view_json(a@[j]),
            strs_view(r@) == o + item_refs(av.subrange(0, i as int), allow_str),
        decreases a@.len() - i,
    {
        push_ref(r, &a[i], allow_str);
        proof {
            let t = av.subrange(0, i + 1);
            assert(t.drop_last() == av.subrange(0, i as int));
            assert(t.last() == av[i as int]);
        }
        i = i + 1;
    }
    assert(av.subrange(0, a@.len() as int) == av);
}

/// Appends the ids named by the object values among the parameters `ps`.
fn push_param_refs(r: &mut Vec<String>, ps: &Vec<(String, Json)>)
    ensures
        strs_view(final(r)@) == strs_view(old(r)@) + param_refs(view_entries(ps@)),
{
    let ghost o = strs_view(old(r)@);
    proof {
        lemma_view_entries(ps@);
    }
    let ghost es = view_entries(ps@);
    let mut i: usize = 0;
    while i < ps.len()
        invariant
            i <= ps@.len(),
            es == view_entries(ps@),
            es.len() == ps@.len(),
            forall|j: int| 0 <= j < ps@.len() ==> #[trigger] es[j] == (ps@[j].0@, view_json(ps@[j].1)),
            strs_view(r@) == o + param_refs(es.subrange(0, i as int)),
        decreases ps@.len() - i,
    {
        push_ref(r, &ps[i].1, false);
        proof {
            let t = es.subrange(0, i + 1);
            assert(t.drop_last() == es.subrange(0, i as int));
            assert(t.last() == es[i as int]);
        }
        i = i + 1;
    }
    assert(es.subrange(0, ps@.len() as int) == es);
}

/// Appends [`block_refs`] of `b`.
fn push_block_refs(r: &mut Vec<String>, b: &Json, allow_str: bool)
    ensures
        strs_view(final(r)@) == strs_view(old(r)@) + block_refs(b@, allow_str),
{
    let ghost o = strs_view(old(r)@);
    let ghost q1 = match jget(b@, "next_block"@) {
        Some(nb) => opt_seq(ref_of(nb, allow_str)),
        None => Seq::empty(),
    };
    let ghost q2 = match jget(b@, "child_block"@) {
        Some(JsonV::Array(cs)) => item_refs(cs, allow_str),
        _ => Seq::empty(),
    };
    let ghost q3 = match jget(b@, "conditions"@) {
        Some(JsonV::Array(cs)) => item_refs(cs, allow_str),
        _ => Seq::empty(),
    };
    let ghost q4 = param_refs(params_of(b@));
    assert(block_refs(b@, allow_str) == q1 + q2 + q3 + q4);
    push_next_ref(r, b, allow_str);
    assert(strs_view(r@) == o + q1);
    push_items_field_refs(r, b, "child_block", allow_str);
    assert(strs_view(r@) == o + q1 + q2);
    push_items_field_refs(r, b, "conditions", allow_str);
    assert(strs_view(r@) == o + q1 + q2 + q3);
    push_params_refs(r, b);
    assert(strs_view(r@) == o + q1 + q2 + q3 + q4);
}

fn push_next_ref(r: &mut Vec<String>, b: &Json, allow_str: bool)
    ensures
        strs_view(final(r)@) == strs_view(old(r)@) + match jget(b@, "next_block"@) {
            Some(nb) => opt_seq(ref_of(nb, allow_str)),
            None => Seq::empty(),
        },
{
    match b.get("next_block") {
        Some(nb) => push_ref(r, nb, allow_str),
        None => {
            assert(strs_view(r@) == strs_view(r@) + Seq::<Seq<char>>::empty());
        },
    }
}

fn push_items_field_refs(r: &mut Vec<String>, b: &Json, k: &str, allow_str: bool)
    ensures
        strs_view(final(r)@) == strs_view(old(r)@) + match jget(b@, k@) {
            Some(JsonV::Array(cs)) => item_refs(cs, allow_str),
            _ => Seq::empty(),
        },
{
    match b.get(k) {
        Some(Json::Array(cs)) => push_item_refs(r, cs, allow_str),
        _ => {
            assert(strs_view(r@) == strs_view(r@) + Seq::<Seq<char>>::empty());
        },
    }
}

fn push_params_refs(r: &mut Vec<String>, b: &Json)
    ensures
        strs_view(final(r)@) == strs_view(old(r)@) + param_refs(params_of(b@)),
{
    proof {
        reveal_strlit("params");
    }
    match b.get("params") {
        Some(Json::Object(ps)) => push_param_refs(r, ps),
        _ => {
            assert(strs_view(r@) == strs_view(r@) + Seq::<Seq<char>>::empty());
        },
    }
}

/// The ids referred to by the blocks of a block map ([`all_refs`]), with
/// repetitions.
fn collect_refs(es: &Vec<(String, Json)>, allow_str: bool) -> (r: Vec<String>)
    ensures
        strs_view(r@) == all_refs(view_entries(es@), allow_str),
{
    proof {
        lemma_view_entries(es@);
    }
    let ghost ev = view_entries(es@);
    let mut r: Vec<String> = Vec::new();
    let mut i: usize = 0;
    assert(strs_view(r@) == Seq::<Seq<char>>::empty());
    while i < es.len()
        invariant
            i <= es@.len(),
            ev == view_entries(es@),
            ev.len() == es@.len(),
            forall|j: int| 0 <= j < es@.len() ==> #[trigger] ev[j] == (es@[j].0@, view_json(es@[j].1)),
            strs_view(r@) == all_refs(ev.subrange(0, i as int), allow_str),
        decreases es@.len() - i,
    {
        push_block_refs(&mut r, &es[i].1, allow_str);
        proof {
            let t = ev.subrange(0, i + 1);
            assert(t.drop_last() == ev.subrange(0, i as int));
            assert(t.last() == ev[i as int]);
        }
        i = i + 1;
    }
    assert(ev.subrange(0, es@.len() as int) == ev);
    r
}

/// The ids that the blocks of a block map refer to by `next_block`,
/// `child_block`, `conditions` (a string there, or an object's `id`) and
/// `params` (an object's `id`), each once. The blocks not in it are the roots.
pub fn collect_referenced_ids(blocks: &Vec<(String, Json)>) -> (r: Vec<String>)
    ensures
        strs_view(r@).no_duplicates(),
        strs_view(r@).to_set() == all_refs(view_entries(blocks@), true).to_set(),
{
    let all = collect_refs(blocks, true);
    let ghost av = strs_view(all@);
    let mut r: Vec<String> = Vec::new();
    let mut i: usize = 0;
    assert(strs_view(r@) == Seq::<Seq<char>>::empty());
    while i < all.len()
        invariant
            i <= all@.len(),
            av == strs_view(all@),
            strs_view(r@).no_duplicates(),
            strs_view(r@).to_set() == av.subrange(0, i as int).to_set(),
        decreases all@.len() - i,
    {
        let ghost before = strs_view(r@);
        assert(av[i as int] == all@[i as int]@);
        if !contains_text(&r, all[i].as_str()) {
            proof {
                lemma_strs_view_push(r@, all@[i as int]);
            }
            r.push(all[i].clone());
            assert(strs_view(r@) == before.push(av[i as int]));
        }
        proof {
            assert(av.subrange(0, i + 1) == av.subrange(0, i as int).push(av[i as int]));
            av.subrange(0, i as int).lemma_push_to_set_commute(av[i as int]);
            before.lemma_push_to_set_commute(av[i as int]);
            if before.contains(av[i as int]) {
                assert(before.to_set().contains(av[i as int]));
            }
            assert(strs_view(r@).to_set() =~= av.subrange(0, i + 1).to_set());
        }
        i = i + 1;
    }
    assert(av.subrange(0, all@.len() as int) == av);
    r
}

/// The number of blocks among `es` whose id is not in `refs`.
pub open spec fn n_roots(es: Seq<(Seq<char>, JsonV)>, refs: Seq<Seq<char>>) -> nat
    decreases es.len(),
{
    if es.len() == 0 {
        0
    } else {
        n_roots(es.drop_last(), refs) + if refs.contains(es.last().0) {
            0nat
        } else {
            1nat
        }
    }
}

/// The XML of the root blocks among `es` (those whose id is not in `refs`),
/// in their order, each placed 220 below the one before.
pub open spec fn roots_xml(es: Seq<(Seq<char>, JsonV)>, refs: Seq<Seq<char>>, sh: Seq<Seq<char>>) -> Seq<char>
    decreases es.len(),
{
    if es.len() == 0 {
        Seq::empty()
    } else {
        roots_xml(es.drop_last(), refs, sh) + if refs.contains(es.last().0) {
            Seq::empty()
        } else {
            block_xml(es.last().1, true, 220 * n_roots(es.drop_last(), refs), sh)
        }
    }
}

/// The `blocksXML` of an actor or scene: an empty `<variables>` element, then
/// the root blocks of its `compiled_block_map`, where it has one.
pub open spec fn blocks_xml(actor: JsonV, sh: Seq<Seq<char>>) -> Seq<char> {
    "<variables></variables>"@ + match jget(actor, "compiled_block_map"@) {
        Some(JsonV::Object(es)) => roots_xml(es, all_refs(es, false), sh),
        _ => Seq::empty(),
    }
}

/// Renders the compiled blocks of an actor or scene as Blockly XML
/// ([`blocks_xml`]); `shadow_types` lists the block types that value slots
/// show as shadows.
pub fn write_blocks(actor_compiled: &Json, shadow_types: &Vec<String>) -> (r: String)
    ensures
        r@ == blocks_xml(actor_compiled@, strs_view(shadow_types@)),
{
    let ghost shv = strs_view(shadow_types@);
    let mut xml = String::new();
    push_str(&mut xml, "<variables></variables>");
    let ghost head = xml@;
    match actor_compiled.get("compiled_block_map") {
        Some(Json::Object(blocks)) => {
            let refs = collect_refs(blocks, false);
            let ghost rv = strs_view(refs@);
            proof {
                lemma_view_entries(blocks@);
            }
            let ghost ev = view_entries(blocks@);
            let mut y: u128 = 0;
            let mut i: usize = 0;
            while i < blocks.len()
                invariant
                    i <= blocks@.len(),
                    ev == view_entries(blocks@),
                    rv == strs_view(refs@),
                    shv == strs_view(shadow_types@),
                    ev.len() == blocks@.len(),
                    forall|j: int|
                        0 <= j < blocks@.len() ==> #[trigger] ev[j] == (blocks@[j].0@, view_json(
                            blocks@[j].1,
                        )),
                    y as nat == 220 * n_roots(ev.subrange(0, i as int), rv),
                    n_roots(ev.subrange(0, i as int), rv) <= i,
                    xml@ == head + roots_xml(ev.subrange(0, i as int), rv, shv),
                decreases blocks@.len() - i,
            {
                let ghost t = ev.subrange(0, i + 1);
                assert(t.drop_last() == ev.subrange(0, i as int));
                assert(t.last() == ev[i as int]);
                if !contains_text(&refs, blocks[i].0.as_str()) {
                    push_block_xml(&mut xml, &blocks[i].1, true, y, shadow_types);
                    y = y + 220;
                }
                i = i + 1;
            }
            assert(ev.subrange(0, blocks@.len() as int) == ev);
        },
        _ => {
            assert(xml@ == head + Seq::<char>::empty());
        },
    }
    proof {
        reveal_strlit("compiled_block_map");
    }
    xml
}

/// The position of the first `c` in `s`.
pub open spec fn first_pos(s: Seq<char>, c: char) -> Option<int>
    decreases s.len(),
{
    if s.len() == 0 {
        None
    } else {
        match first_pos(s.drop_last(), c) {
            Some(i) => Some(i),
            None => if s.last() == c {
                Some(s.len() - 1)
            } else {
                None
            },
        }
    }
}

/// The position of the last `c` in `s`.
pub open spec fn last_pos(s: Seq<char>, c: char) -> Option<int>
    decreases s.len(),
{
    if s.len() == 0 {
        None
    } else if s.last() == c {
        Some(s.len() - 1)
    } else {
        last_pos(s.drop_last(), c)
    }
}

pub proof fn lemma_first_pos(s: Seq<char>, c: char)
    ensures
        match first_pos(s, c) {
            Some(i) => 0 <= i < s.len() && s[i] == c && forall|j: int| 0 <= j < i ==> s[j] != c,
            None => forall|j: int| 0 <= j < s.len() ==> s[j] != c,
        },
    decreases s.len(),
{
    if s.len() > 0 {
        lemma_first_pos(s.drop_last(), c);
        assert forall|j: int| 0 <= j < s.len() - 1 implies s[j] == s.drop_last()[j] by {}
    }
}

proof fn lemma_last_pos(s: Seq<char>, c: char)
    ensures
        match last_pos(s, c) {
            Some(i) => 0 <= i < s.len() && s[i] == c && forall|j: int| i < j < s.len() ==> s[j] != c,
            None => forall|j: int| 0 <= j < s.len() ==> s[j] != c,
        },
    decreases s.len(),
{
    if s.len() > 0 {
        lemma_last_pos(s.drop_last(), c);
        assert forall|j: int| 0 <= j < s.len() - 1 implies s[j] == s.drop_last()[j] by {}
    }
}

/// The file name at the end of a URL: what follows the last `/`, cut before
/// the first `?`, or else before the first `#`; empty for a URL without `/`.
pub open spec fn url_file_name(url: Seq<char>) -> Seq<char> {
    match last_pos(url, '/') {
        Some(i) => {
            let part = url.subrange(i + 1, url.len() as int);
            match first_pos(part, '?') {
                Some(q) => part.take(q),
                None => match first_pos(part, '#') {
                    Some(h) => part.take(h),
                    None => part,
                },
            }
        },
        None => Seq::empty(),
    }
}

/// The characters `cs[a..b]` as a string.
fn text_range(cs: &Vec<char>, a: usize, b: usize) -> (r: String)
    requires
        a <= b <= cs@.len(),
    ensures
        r@ == cs@.subrange(a as int, b as int),
{
    let mut out = String::new();
    let mut i: usize = a;
    while i < b
        invariant
            a <= i <= b <= cs@.len(),
            out@ == cs@.subrange(a as int, i as int),
        decreases b - i,
    {
        push_char(&mut out, cs[i]);
        assert(cs@.subrange(a as int, i + 1) == cs@.subrange(a as int, i as int).push(cs@[i as int]));
        i = i + 1;
    }
    out
}

/// The position of the first `c` in `cs` at or after `from`, as an offset
/// from `from`.
#[verifier::loop_isolation(false)]
fn find_from(cs: &Vec<char>, from: usize, c: char) -> (r: Option<usize>)
    requires
        from <= cs@.len(),
    ensures
        match r {
            Some(k) => first_pos(cs@.subrange(from as int, cs@.len() as int), c) == Some(k as int),
            None => first_pos(cs@.subrange(from as int, cs@.len() as int), c).is_none(),
        },
{
    let ghost part = cs@.subrange(from as int, cs@.len() as int);
    proof {
        lemma_first_pos(part, c);
    }
    let mut i: usize = from;
    while i < cs.len()
        invariant
            from <= i <= cs@.len(),
            part == cs@.subrange(from as int, cs@.len() as int),
            forall|j: int| from <= j < i ==> cs@[j] != c,
        decreases cs@.len() - i,
    {
        if cs[i] == c {
            proof {
                match first_pos(part, c) {
                    Some(k) => {
                        if k < i - from {
                            assert(part[k] == cs@[from + k]);
                        } else if k > i - from {
                            assert(part[i - from] == cs@[i as int]);
                        }
                    },
                    None => {
                        assert(part[i - from] == cs@[i as int]);
                    },
                }
            }
            return Some(i - from);
        }
        i = i + 1;
    }
    proof {
        match first_pos(part, c) {
            Some(k) => {
                assert(part[k] == cs@[from + k]);
            },
            None => {},
        }
    }
    None
}

/// The file name at the end of a resource URL ([`url_file_name`]).
#[verifier::loop_isolation(false)]
pub fn extract_filename_from_url(url: &str) -> (r: String)
    ensures
        r@ == url_file_name(url@),
{
    let cs = chars_of(url);
    proof {
        lemma_last_pos(cs@, '/');
    }
    let mut i: usize = cs.len();
    while i > 0
        invariant
            i <= cs@.len(),
            cs@ == url@,
            forall|j: int| i <= j < cs@.len() ==> cs@[j] != '/',
        decreases i,
    {
        if cs[i - 1] == '/' {
            let start = i;
            proof {
                match last_pos(cs@, '/') {
                    Some(k) => {
                        if k < i - 1 {
                            assert(cs@[i - 1] == '/');
                        } else if k > i - 1 {
                            assert(cs@[k] == '/');
                        }
                    },
                    None => {
                        assert(cs@[i - 1] == '/');
                    },
                }
                assert(last_pos(cs@, '/') == Some(i - 1));
            }
            let ghost part = cs@.subrange(start as int, cs@.len() as int);
            match find_from(&cs, start, '?') {
                Some(q) => {
                    proof {
                        lemma_first_pos(part, '?');
                    }
                    let r = text_range(&cs, start, start + q);
                    assert(r@ == part.take(q as int));
                    return r;
                },
                None => {},
            }
            match find_from(&cs, start, '#') {
                Some(h) => {
                    proof {
                        lemma_first_pos(part, '#');
                    }
                    let r = text_range(&cs, start, start + h);
                    assert(r@ == part.take(h as int));
                    return r;
                },
                None => {},
            }
            return text_range(&cs, start, cs.len());
        }
        i = i - 1;
    }
    proof {
        match last_pos(cs@, '/') {
            Some(k) => {
                assert(cs@[k] == '/');
            },
            None => {},
        }
    }
    String::new()
}

/// Escaped text holds none of the markup characters `<`, `>`, `"` and `'`,
/// so that it cannot end or open an element or an attribute.
pub proof fn law_escaped_has_no_markup(s: Seq<char>)
    ensures
        forall|i: int|
            0 <= i < xml_escape(s).len() ==> #[trigger] xml_escape(s)[i] != '<' && xml_escape(s)[i]
                != '>' && xml_escape(s)[i] != '"' && xml_escape(s)[i] != '\'',
    decreases s.len(),
{
    if s.len() > 0 {
        law_escaped_has_no_markup(s.drop_last());
        let a = xml_escape(s.drop_last());
        let b = xml_escape_char(s.last());
        assert(xml_escape(s) == a + b);
        assert forall|i: int| 0 <= i < (a + b).len() implies #[trigger] (a + b)[i] != '<' && (a + b)[i]
            != '>' && (a + b)[i] != '"' && (a + b)[i] != '\'' by {
            if i < a.len() {
                assert((a + b)[i] == a[i]);
            } else {
                assert((a + b)[i] == b[i - a.len()]);
            }
        }
    }
}

/// The file name taken from a URL holds no `/` and no `?`: it lies within
/// the last path segment and ends before the query.
pub proof fn law_file_name_is_one_segment(url: Seq<char>)
    ensures
        forall|i: int|
            0 <= i < url_file_name(url).len() ==> #[trigger] url_file_name(url)[i] != '/'
                && url_file_name(url)[i] != '?',
{
    lemma_last_pos(url, '/');
    match last_pos(url, '/') {
        Some(p) => {
            let part = url.subrange(p + 1, url.len() as int);
            assert forall|j: int| 0 <= j < part.len() implies part[j] != '/' by {
                assert(part[j] == url[p + 1 + j]);
            }
            lemma_first_pos(part, '?');
            lemma_first_pos(part, '#');
            match first_pos(part, '?') {
                Some(q) => {
                    assert forall|j: int| 0 <= j < part.take(q).len() implies part.take(q)[j] != '/'
                        && part.take(q)[j] != '?' by {
                        assert(part.take(q)[j] == part[j]);
                    }
                },
                None => match first_pos(part, '#') {
                    Some(h) => {
                        assert forall|j: int| 0 <= j < part.take(h).len() implies part.take(h)[j] != '/'
                            && part.take(h)[j] != '?' by {
                            assert(part.take(h)[j] == part[j]);
                        }
                    },
                    None => {},
                },
            }
        },
        None => {},
    }
}

/// The shadow block type that a parameter slot gets: by the parameter's name
/// where it names a known slot, else by the kind of its value (text,
/// boolean, or number for anything else).
pub open spec fn shadow_type_spec(name: Seq<char>, v: JsonV) -> Seq<char> {
    if name == "condition"@ || name == "BOOL"@ {
        "logic_empty"@
    } else if name == "message"@ || name == "MESSAGE"@ {
        "broadcast_input"@
    } else if name == "sound_id"@ || name == "SOUND"@ {
        "get_audios"@
    } else if name == "whole_sound"@ || name == "all_sounds"@ {
        "get_whole_audios"@
    } else if name == "style_id"@ || name == "costume"@ || name == "COSTUME"@ {
        "get_current_costume"@
    } else if name == "scene"@ || name == "SCENE"@ || name == "scene_id"@ {
        "get_current_scene"@
    } else if name == "list"@ || name == "LIST"@ {
        "lists_get"@
    } else {
        match v {
            JsonV::Str(_) => "text"@,
            JsonV::Bool(_) => "logic_boolean"@,
            _ => "math_number"@,
        }
    }
}

/// The shadow block type of a parameter slot ([`shadow_type_spec`]).
pub fn infer_shadow_type(param_name: &str, value: &Json) -> (r: &'static str)
    ensures
        r@ == shadow_type_spec(param_name@, value@),
{
    if str_eq(param_name, "condition") || str_eq(param_name, "BOOL") {
        "logic_empty"
    } else if str_eq(param_name, "message") || str_eq(param_name, "MESSAGE") {
        "broadcast_input"
    } else if str_eq(param_name, "sound_id") || str_eq(param_name, "SOUND") {
        "get_audios"
    } else if str_eq(param_name, "whole_sound") || str_eq(param_name, "all_sounds") {
        "get_whole_audios"
    } else if str_eq(param_name, "style_id") || str_eq(param_name, "costume") || str_eq(param_name, "COSTUME") {
        "get_current_costume"
    } else if str_eq(param_name, "scene") || str_eq(param_name, "SCENE") || str_eq(param_name, "scene_id") {
        "get_current_scene"
    } else if str_eq(param_name, "list") || str_eq(param_name, "LIST") {
        "lists_get"
    } else {
        match value {
            Json::Str(_) => "text",
            Json::Bool(_) => "logic_boolean",
            _ => "math_number",
        }
    }
}

/// The actor that stands in for one the work does not describe: a visible
/// sprite at the origin, named `未知角色_` and the first 8 characters of its
/// id.
pub open spec fn default_actor(id: Seq<char>) -> JsonV {
    JsonV::Object(
        seq![
            ("direction"@, jnum(90)),
            ("draggable"@, JsonV::Bool(false)),
            ("id"@, JsonV::Str(id)),
            ("name"@, JsonV::Str("未知角色_"@ + (if id.len() <= 8 { id } else { id.take(8) }))),
            ("rotation_style"@, JsonV::Str("all around"@)),
            ("size"@, jnum(100)),
            ("type"@, JsonV::Str("sprite"@)),
            ("visible"@, JsonV::Bool(true)),
            ("x"@, jnum(0)),
            ("y"@, jnum(0)),
        ],
    )
}

fn push_entry(es: &mut Vec<(String, Json)>, k: &str, v: Json)
    ensures
        view_entries(final(es)@) == view_entries(old(es)@).push((k@, v@)),
{
    let e = (crate::text::own(k), v);
    proof {
        lemma_view_entries_push(es@, e);
    }
    es.push(e);
}

/// Builds [`default_actor`].
fn make_default_actor(id: &str) -> (r: Json)
    ensures
        r@ == default_actor(id@),
{
    let n = id.unicode_len();
    let short = if n <= 8 {
        id
    } else {
        id.substring_char(0, 8)
    };
    let mut name = crate::text::own("未知角色_");
    push_str(&mut name, short);
    let mut es: Vec<(String, Json)> = Vec::new();
    assert(view_entries(es@) == Seq::<(Seq<char>, JsonV)>::empty());
    push_entry(&mut es, "direction", Json::from_u64(90));
    push_entry(&mut es, "draggable", Json::Bool(false));
    push_entry(&mut es, "id", Json::from_str(id));
    push_entry(&mut es, "name", Json::Str(name));
    push_entry(&mut es, "rotation_style", Json::from_str("all around"));
    push_entry(&mut es, "size", Json::from_u64(100));
    push_entry(&mut es, "type", Json::from_str("sprite"));
    push_entry(&mut es, "visible", Json::Bool(true));
    push_entry(&mut es, "x", Json::from_u64(0));
    push_entry(&mut es, "y", Json::from_u64(0));
    assert(view_entries(es@) =~= default_actor(id@)->Object_0);
    Json::Object(es)
}

/// The entries after the value `id` is taken out of the object under `k`,
/// and the value taken; `None` where there is no such object or value.
pub open spec fn take_nested(es: Seq<(Seq<char>, JsonV)>, k: Seq<char>, id: Seq<char>) -> Option<
    (Seq<(Seq<char>, JsonV)>, JsonV),
> {
    match entry_val(es, k) {
        Some(JsonV::Object(m)) => match entry_val(m, id) {
            Some(a) => Some((entries_put(es, k, JsonV::Object(entries_del(m, id))), a)),
            None => None,
        },
        _ => None,
    }
}

/// Takes the value `id` out of the object under `k` ([`take_nested`]).
fn take_from(es: &mut Vec<(String, Json)>, k: &str, id: &str) -> (r: Option<Json>)
    ensures
        match take_nested(view_entries(old(es)@), k@, id@) {
            Some((e2, a)) => view_entries(final(es)@) == e2 && (r matches Some(x) && x@ == a),
            None => view_entries(final(es)@) == view_entries(old(es)@) && r.is_none(),
        },
{
    let ghost ev = view_entries(es@);
    proof {
        lemma_view_entries(es@);
    }
    match find_entry(es, k) {
        Some(i) => {
            proof {
                lemma_find_key(ev, k@);
            }
            let (key, val) = es.remove(i);
            match val {
                Json::Object(mut m) => {
                    let ghost mv = view_entries(m@);
                    let got = take_entry(&mut m, id);
                    let ghost nv = view_entries(m@);
                    es.insert(i, (key, Json::Object(m)));
                    proof {
                        lemma_view_entries(es@);
                    }
                    match got {
                        Some(a) => {
                            assert(view_entries(es@) =~= ev.update(i as int, (k@, JsonV::Object(nv))));
                            Some(a)
                        },
                        None => {
                            assert(view_entries(es@) =~= ev);
                            None
                        },
                    }
                },
                other => {
                    let ghost ov = other@;
                    es.insert(i, (key, other));
                    proof {
                        lemma_view_entries(es@);
                    }
                    assert(view_entries(es@) =~= ev);
                    None
                },
            }
        },
        None => None,
    }
}

/// The work after its actor or scene `id` is taken out, and what was taken:
/// from `theatre.actors`, else from `theatre.scenes`; where neither holds
/// it, the work is unchanged and [`default_actor`] stands in.
pub open spec fn take_actor_spec(work: JsonV, id: Seq<char>) -> (JsonV, JsonV) {
    match work {
        JsonV::Object(ws) => match entry_val(ws, "theatre"@) {
            Some(JsonV::Object(ts)) => match take_nested(ts, "actors"@, id) {
                Some((ts2, a)) => (JsonV::Object(entries_put(ws, "theatre"@, JsonV::Object(ts2))), a),
                None => match take_nested(ts, "scenes"@, id) {
                    Some((ts2, a)) => (JsonV::Object(entries_put(ws, "theatre"@, JsonV::Object(ts2))), a),
                    None => (work, default_actor(id)),
                },
            },
            _ => (work, default_actor(id)),
        },
        _ => (work, default_actor(id)),
    }
}

/// Takes the description of actor or scene `actor_id` out of a work
/// ([`take_actor_spec`]).
pub fn take_actor_info(work: &mut Json, actor_id: &str) -> (r: Json)
    ensures
        (final(work)@, r@) == take_actor_spec(old(work)@, actor_id@),
{
    let mut w = Json::Null;
    std::mem::swap(&mut w, work);
    match w {
        Json::Object(mut ws) => {
            let ghost ev = view_entries(ws@);
            proof {
                lemma_view_entries(ws@);
            }
            match find_entry(&ws, "theatre") {
                Some(i) => {
                    proof {
                        lemma_find_key(ev, "theatre"@);
                    }
                    let (tk, tv) = ws.remove(i);
                    match tv {
                        Json::Object(mut ts) => {
                            let got = match take_from(&mut ts, "actors", actor_id) {
                                Some(a) => Some(a),
                                None => take_from(&mut ts, "scenes", actor_id),
                            };
                            let ghost tsv = view_entries(ts@);
                            ws.insert(i, (tk, Json::Object(ts)));
                            proof {
                                lemma_view_entries(ws@);
                            }
                            assert(view_entries(ws@) =~= ev.update(i as int, ("theatre"@, JsonV::Object(tsv))));
                            *work = Json::Object(ws);
                            match got {
                                Some(a) => a,
                                None => {
                                    assert(view_entries(ws@) =~= ev);
                                    make_default_actor(actor_id)
                                },
                            }
                        },
                        other => {
                            ws.insert(i, (tk, other));
                            proof {
                                lemma_view_entries(ws@);
                            }
                            assert(view_entries(ws@) =~= ev);
                            *work = Json::Object(ws);
                            make_default_actor(actor_id)
                        },
                    }
                },
                None => {
                    *work = Json::Object(ws);
                    make_default_actor(actor_id)
                },
            }
        },
        other => {
            *work = other;
            make_default_actor(actor_id)
        },
    }
}

/// Why a work document could not be processed.
#[derive(Debug, Clone, Copy, PartialEq, Eq, Structural)]
pub enum WorkError {
    /// The work document is not an object.
    NotObject,
    /// The work has no array of compiled actors (`compile_result`).
    MissingCompileResult,
}

/// The build products that a decompiled work drops.
pub open spec fn build_keys() -> Seq<Seq<char>> {
    seq!["compile_result"@, "preview"@, "author_nickname"@]
}

/// The run-time fields of a compiled theatre.
pub open spec fn runtime_keys() -> Seq<Seq<char>> {
    seq!["current_entity"@, "current_scene"@, "style_collections"@]
}

/// A work without its build products, and, unless it is an edition that
/// keeps them (`keeps_runtime`), without the run-time fields of its theatre.
pub open spec fn clean_spec(work: JsonV, keeps_runtime: bool) -> Result<JsonV, WorkError> {
    match work {
        JsonV::Object(ws) => {
            let w1 = crate::coco::del_all(ws, build_keys());
            if keeps_runtime {
                Ok(JsonV::Object(w1))
            } else {
                match entry_val(w1, "theatre"@) {
                    Some(JsonV::Object(ts)) => Ok(
                        JsonV::Object(
                            entries_put(w1, "theatre"@, JsonV::Object(crate::coco::del_all(ts, runtime_keys()))),
                        ),
                    ),
                    _ => Ok(JsonV::Object(w1)),
                }
            }
        },
        _ => Err(WorkError::NotObject),
    }
}

fn del_key(es: &mut Vec<(String, Json)>, k: &str)
    ensures
        view_entries(final(es)@) == entries_del(view_entries(old(es)@), k@),
{
    let _ = take_entry(es, k);
}

/// Cleans a decompiled work ([`clean_spec`]); a work that is not an object
/// is refused and left as it was.
pub fn clean_work_data(work: &mut Json, keeps_runtime: bool) -> (r: Result<(), WorkError>)
    ensures
        match clean_spec(old(work)@, keeps_runtime) {
            Ok(w) => r is Ok && final(work)@ == w,
            Err(e) => r == Err::<(), WorkError>(e) && final(work)@ == old(work)@,
        },
{
    let mut w = Json::Null;
    std::mem::swap(&mut w, work);
    match w {
        Json::Object(mut ws) => {
            let ghost w0 = view_entries(ws@);
            del_key(&mut ws, "compile_result");
            del_key(&mut ws, "preview");
            del_key(&mut ws, "author_nickname");
            proof {
                reveal_with_fuel(crate::coco::del_all, 4);
            }
            let ghost w1 = view_entries(ws@);
            assert(w1 == crate::coco::del_all(w0, build_keys()));
            if !keeps_runtime {
                proof {
                    lemma_view_entries(ws@);
                }
                match find_entry(&ws, "theatre") {
                    Some(i) => {
                        proof {
                            lemma_find_key(w1, "theatre"@);
                        }
                        let (tk, tv) = ws.remove(i);
                        match tv {
                            Json::Object(mut ts) => {
                                let ghost t0 = view_entries(ts@);
                                del_key(&mut ts, "current_entity");
                                del_key(&mut ts, "current_scene");
                                del_key(&mut ts, "style_collections");
                                let ghost t1 = view_entries(ts@);
                                assert(t1 == crate::coco::del_all(t0, runtime_keys()));
                                ws.insert(i, (tk, Json::Object(ts)));
                                proof {
                                    lemma_view_entries(ws@);
                                }
                                assert(view_entries(ws@) =~= w1.update(i as int, ("theatre"@, JsonV::Object(t1))));
                            },
                            other => {
                                ws.insert(i, (tk, other));
                                proof {
                                    lemma_view_entries(ws@);
                                }
                                assert(view_entries(ws@) =~= w1);
                            },
                        }
                    },
                    None => {},
                }
            }
            *work = Json::Object(ws);
            Ok(())
        },
        other => {
            *work = other;
            Err(WorkError::NotObject)
        },
    }
}

/// The first string of the `work_urls` array, empty where there is none.
pub open spec fn first_work_url(info: JsonV) -> Seq<char> {
    match jget(info, "work_urls"@) {
        Some(JsonV::Array(a)) => if a.len() > 0 {
            match a[0] {
                JsonV::Str(u) => u,
                _ => Seq::empty(),
            }
        } else {
            Seq::empty()
        },
        _ => Seq::empty(),
    }
}

/// The `.meta` document of a Nemo work: its name, first URL, format version
/// and preview from the work's information, the id it was fetched by, and
/// the fixed fields of a work that was never published from this copy.
pub open spec fn metadata_spec(info: JsonV, work_id: i64) -> JsonV {
    JsonV::Object(
        seq![
            ("bcm_count"@, JsonV::Object(seq![
                ("block_cnt"@, JsonV::Number("0.0"@)),
                ("block_cnt_without_invisible"@, JsonV::Number("0.0"@)),
                ("entity_cnt"@, JsonV::Number("1.0"@)),
            ])),
            ("bcm_name"@, JsonV::Str(str_or_empty(info, "name"@))),
            ("bcm_url"@, JsonV::Str(first_work_url(info))),
            ("bcm_version"@, JsonV::Str(str_or_empty(info, "bcm_version"@))),
            ("download_fail"@, JsonV::Bool(false)),
            ("extra_data"@, JsonV::Object(Seq::empty())),
            ("have_published_status"@, JsonV::Bool(false)),
            ("have_remote_resources"@, JsonV::Bool(false)),
            ("is_landscape"@, JsonV::Bool(false)),
            ("is_micro_bit"@, JsonV::Bool(false)),
            ("is_valid"@, JsonV::Bool(false)),
            ("mcloud_variable"@, JsonV::Array(Seq::empty())),
            ("publish_preview"@, JsonV::Str(str_or_empty(info, "preview"@))),
            ("publish_status"@, jnum(0)),
            ("review_state"@, jnum(0)),
            ("template_id"@, jnum(0)),
            ("term_id"@, jnum(0)),
            ("type"@, jnum(0)),
            ("upload_status"@, JsonV::Object(seq![("have_uploaded"@, jnum(2)), ("work_id"@, jnum(work_id as int))])),
        ],
    )
}

fn first_url_of(info: &Json) -> (r: String)
    ensures
        r@ == first_work_url(info@),
{
    match info.get("work_urls") {
        Some(Json::Array(a)) => {
            proof {
                lemma_view_items(a@);
            }
            if a.len() > 0 {
                match &a[0] {
                    Json::Str(u) => u.clone(),
                    _ => String::new(),
                }
            } else {
                String::new()
            }
        },
        _ => String::new(),
    }
}

/// Builds the `.meta` document of a Nemo work ([`metadata_spec`]).
pub fn build_metadata(source_info: &Json, work_id: i64) -> (r: Json)
    ensures
        r@ == metadata_spec(source_info@, work_id),
{
    let mut count: Vec<(String, Json)> = Vec::new();
    assert(view_entries(count@) == Seq::<(Seq<char>, JsonV)>::empty());
    push_entry(&mut count, "block_cnt", Json::Number(crate::text::own("0.0")));
    push_entry(&mut count, "block_cnt_without_invisible", Json::Number(crate::text::own("0.0")));
    push_entry(&mut count, "entity_cnt", Json::Number(crate::text::own("1.0")));
    assert(view_entries(count@) =~= seq![
        ("block_cnt"@, JsonV::Number("0.0"@)),
        ("block_cnt_without_invisible"@, JsonV::Number("0.0"@)),
        ("entity_cnt"@, JsonV::Number("1.0"@)),
    ]);
    let mut up: Vec<(String, Json)> = Vec::new();
    assert(view_entries(up@) == Seq::<(Seq<char>, JsonV)>::empty());
    push_entry(&mut up, "have_uploaded", Json::from_u64(2));
    push_entry(&mut up, "work_id", Json::from_i64(work_id));
    assert(view_entries(up@) =~= seq![("have_uploaded"@, jnum(2)), ("work_id"@, jnum(work_id as int))]);
    let empty_obj: Vec<(String, Json)> = Vec::new();
    let empty_arr: Vec<Json> = Vec::new();
    assert(view_entries(empty_obj@) == Seq::<(Seq<char>, JsonV)>::empty());
    assert(view_items(empty_arr@) == Seq::<JsonV>::empty());
    let mut es: Vec<(String, Json)> = Vec::new();
    assert(view_entries(es@) == Seq::<(Seq<char>, JsonV)>::empty());
    push_entry(&mut es, "bcm_count", Json::Object(count));
    push_entry(&mut es, "bcm_name", Json::from_str(str_field(source_info, "name")));
    push_entry(&mut es, "bcm_url", Json::Str(first_url_of(source_info)));
    push_entry(&mut es, "bcm_version", Json::from_str(str_field(source_info, "bcm_version")));
    push_entry(&mut es, "download_fail", Json::Bool(false));
    push_entry(&mut es, "extra_data", Json::Object(empty_obj));
    push_entry(&mut es, "have_published_status", Json::Bool(false));
    push_entry(&mut es, "have_remote_resources", Json::Bool(false));
    push_entry(&mut es, "is_landscape", Json::Bool(false));
    push_entry(&mut es, "is_micro_bit", Json::Bool(false));
    push_entry(&mut es, "is_valid", Json::Bool(false));
    push_entry(&mut es, "mcloud_variable", Json::Array(empty_arr));
    push_entry(&mut es, "publish_preview", Json::from_str(str_field(source_info, "preview")));
    push_entry(&mut es, "publish_status", Json::from_u64(0));
    push_entry(&mut es, "review_state", Json::from_u64(0));
    push_entry(&mut es, "template_id", Json::from_u64(0));
    push_entry(&mut es, "term_id", Json::from_u64(0));
    push_entry(&mut es, "type", Json::from_u64(0));
    push_entry(&mut es, "upload_status", Json::Object(up));
    let r = Json::Object(es);
    assert(view_entries(es@) =~= metadata_spec(source_info@, work_id)->Object_0);
    r
}

/// The feature fields of a work that its editor settings must not lose.
pub open spec fn feature_keys() -> Seq<Seq<char>> {
    seq!["physics2"@, "cloud_variable"@, "cloud_list"@, "ai_lab"@, "camera"@, "video"@, "midimusic"@]
}

/// The feature fields present among the entries, in the order of
/// [`feature_keys`], each with its value.
pub open spec fn present_features(es: Seq<(Seq<char>, JsonV)>, ks: Seq<Seq<char>>) -> Seq<(Seq<char>, JsonV)>
    decreases ks.len(),
{
    if ks.len() == 0 {
        Seq::empty()
    } else {
        let rest = present_features(es, ks.drop_last());
        match entry_val(es, ks.last()) {
            Some(v) => rest.push((ks.last(), v)),
            None => rest,
        }
    }
}

/// The strings as an array value.
pub open spec fn str_array(ts: Seq<Seq<char>>) -> JsonV {
    JsonV::Array(ts.map_values(|t: Seq<char>| JsonV::Str(t)))
}

/// The editor settings of a decompiled Kitten work: an empty hidden toolbox,
/// the source label (6 for a Kitten2/3 edition, which also gets
/// `work_business`; 1 otherwise, with the sample, value and device fields),
/// the project name, the toolbox order (also as the last order outside
/// Kitten2/3), and the feature fields as they were.
pub open spec fn work_info_spec(
    work: JsonV,
    is_k3: bool,
    work_id: i64,
    name: Seq<char>,
    toolbox: Seq<Seq<char>>,
) -> Result<JsonV, WorkError> {
    match work {
        JsonV::Object(w0) => {
            let feats = present_features(w0, feature_keys());
            let w1 = entries_put(
                w0,
                "hidden_toolbox"@,
                JsonV::Object(seq![("toolbox"@, JsonV::Array(Seq::empty())), ("blocks"@, JsonV::Array(Seq::empty()))]),
            );
            let w2 = entries_put(w1, "work_source_label"@, jnum(if is_k3 { 6 } else { 1 }));
            let w3 = if is_k3 {
                entries_put(w2, "work_business"@, jnum(0))
            } else {
                entries_put(
                    entries_put(
                        entries_put(w2, "sample_id"@, JsonV::Str(Seq::empty())),
                        "codemao_value"@,
                        JsonV::Str(crate::text::dec_int(work_id as int)),
                    ),
                    "device_widget_type"@,
                    JsonV::Null,
                )
            };
            let w4 = entries_put(entries_put(w3, "project_name"@, JsonV::Str(name)), "toolbox_order"@, str_array(toolbox));
            let w5 = if is_k3 {
                w4
            } else {
                entries_put(w4, "last_toolbox_order"@, str_array(toolbox))
            };
            Ok(JsonV::Object(crate::json::entries_extend(w5, feats)))
        },
        _ => Err(WorkError::NotObject),
    }
}

fn features_of(es: &Vec<(String, Json)>) -> (r: Vec<(String, Json)>)
    ensures
        view_entries(r@) == present_features(view_entries(es@), feature_keys()),
{
    let keys = ["physics2", "cloud_variable", "cloud_list", "ai_lab", "camera", "video", "midimusic"];
    let ghost ks = feature_keys();
    assert(keys@.map_values(|k: &str| k@) =~= ks);
    let mut out: Vec<(String, Json)> = Vec::new();
    assert(view_entries(out@) == Seq::<(Seq<char>, JsonV)>::empty());
    let mut i: usize = 0;
    while i < 7
        invariant
            i <= 7,
            keys@.len() == 7,
            keys@.map_values(|k: &str| k@) == ks,
            ks == feature_keys(),
            view_entries(out@) == present_features(view_entries(es@), ks.subrange(0, i as int)),
        decreases 7 - i,
    {
        let ghost sub = ks.subrange(0, i + 1);
        assert(sub.drop_last() == ks.subrange(0, i as int));
        assert(sub.last() == keys@[i as int]@);
        match find_entry(es, keys[i]) {
            Some(j) => {
                proof {
                    lemma_find_key(view_entries(es@), keys@[i as int]@);
                    lemma_view_entries(es@);
                }
                let e = (crate::text::own(keys[i]), es[j].1.deep_clone());
                proof {
                    lemma_view_entries_push(out@, e);
                }
                out.push(e);
            },
            None => {},
        }
        i = i + 1;
    }
    assert(ks.subrange(0, 7) == ks);
    out
}

fn strings_json(ts: &Vec<String>) -> (r: Json)
    ensures
        r@ == str_array(view_texts_of(ts@)),
{
    let mut items: Vec<Json> = Vec::new();
    let mut i: usize = 0;
    assert(view_items(items@) == Seq::<JsonV>::empty());
    while i < ts.len()
        invariant
            i <= ts@.len(),
            view_items(items@) == view_texts_of(ts@).subrange(0, i as int).map_values(|t: Seq<char>| JsonV::Str(t)),
        decreases ts@.len() - i,
    {
        let x = Json::Str(ts[i].clone());
        proof {
            crate::json::lemma_view_items_push(items@, x);
        }
        items.push(x);
        assert(view_texts_of(ts@).subrange(0, i + 1).map_values(|t: Seq<char>| JsonV::Str(t)) =~= view_texts_of(
            ts@,
        ).subrange(0, i as int).map_values(|t: Seq<char>| JsonV::Str(t)).push(JsonV::Str(ts@[i as int]@)));
        i = i + 1;
    }
    assert(view_texts_of(ts@).subrange(0, ts@.len() as int) == view_texts_of(ts@));
    Json::Array(items)
}

/// The texts of strings.
pub open spec fn view_texts_of(ts: Seq<String>) -> Seq<Seq<char>> {
    ts.map_values(|t: String| t@)
}

fn put_key(es: &mut Vec<(String, Json)>, k: &str, v: Json)
    ensures
        view_entries(final(es)@) == entries_put(view_entries(old(es)@), k@, v@),
{
    crate::json::put_entry(es, crate::text::own(k), v);
}

/// Gives a decompiled Kitten work its editor settings ([`work_info_spec`]);
/// a work that is not an object is refused and left as it was.
pub fn update_work_info(
    work: &mut Json,
    is_k3: bool,
    work_id: i64,
    name: &str,
    toolbox: &Vec<String>,
) -> (r: Result<(), WorkError>)
    ensures
        match work_info_spec(old(work)@, is_k3, work_id, name@, view_texts_of(toolbox@)) {
            Ok(w) => r is Ok && final(work)@ == w,
            Err(e) => r == Err::<(), WorkError>(e) && final(work)@ == old(work)@,
        },
{
    let mut w = Json::Null;
    std::mem::swap(&mut w, work);
    match w {
        Json::Object(mut ws) => {
            let feats = features_of(&ws);
            let mut hidden: Vec<(String, Json)> = Vec::new();
            assert(view_entries(hidden@) == Seq::<(Seq<char>, JsonV)>::empty());
            let e1: Vec<Json> = Vec::new();
            let e2: Vec<Json> = Vec::new();
            assert(view_items(e1@) == Seq::<JsonV>::empty());
            assert(view_items(e2@) == Seq::<JsonV>::empty());
            push_entry(&mut hidden, "toolbox", Json::Array(e1));
            push_entry(&mut hidden, "blocks", Json::Array(e2));
            assert(view_entries(hidden@) =~= seq![
                ("toolbox"@, JsonV::Array(Seq::empty())),
                ("blocks"@, JsonV::Array(Seq::empty())),
            ]);
            put_key(&mut ws, "hidden_toolbox", Json::Object(hidden));
            put_key(&mut ws, "work_source_label", Json::from_u64(if is_k3 { 6 } else { 1 }));
            if is_k3 {
                put_key(&mut ws, "work_business", Json::from_u64(0));
            } else {
                put_key(&mut ws, "sample_id", Json::Str(String::new()));
                put_key(&mut ws, "codemao_value", Json::Str(crate::text::fmt_i64(work_id)));
                put_key(&mut ws, "device_widget_type", Json::Null);
            }
            put_key(&mut ws, "project_name", Json::from_str(name));
            put_key(&mut ws, "toolbox_order", strings_json(toolbox));
            if !is_k3 {
                put_key(&mut ws, "last_toolbox_order", strings_json(toolbox));
            }
            crate::json::extend_entries(&mut ws, &feats);
            *work = Json::Object(ws);
            Ok(())
        },
        other => {
            *work = other;
            Err(WorkError::NotObject)
        },
    }
}

/// A work with saved global fields put back, and the saved theatre groups
/// put back into its theatre where that is an object. Writing a field into
/// `null` makes it an object.
pub open spec fn restore_spec(work: JsonV, fields: Seq<(Seq<char>, JsonV)>, groups: Option<JsonV>) -> JsonV {
    let w1 = if fields.len() == 0 {
        work
    } else {
        match work {
            JsonV::Object(ws) => JsonV::Object(crate::json::entries_extend(ws, fields)),
            _ => JsonV::Object(crate::json::entries_extend(Seq::empty(), fields)),
        }
    };
    match (groups, w1) {
        (Some(g), JsonV::Object(ws)) => match entry_val(ws, "theatre"@) {
            Some(JsonV::Object(ts)) => JsonV::Object(
                entries_put(ws, "theatre"@, JsonV::Object(entries_put(ts, "groups"@, g))),
            ),
            _ => w1,
        },
        _ => w1,
    }
}

/// Puts saved global fields and theatre groups back into a decompiled work
/// ([`restore_spec`]). Fields can only be written into an object or `null`.
#[verifier::spinoff_prover]
#[verifier::rlimit(40)]
pub fn restore_global_fields(work: &mut Json, fields: &Vec<(String, Json)>, groups: Option<&Json>)
    requires
        fields@.len() > 0 ==> (old(work)@ is Object || old(work)@ is Null),
    ensures
        final(work)@ == restore_spec(
            old(work)@,
            view_entries(fields@),
            match groups {
                Some(g) => Some(g@),
                None => None,
            },
        ),
{
    let mut w = Json::Null;
    std::mem::swap(&mut w, work);
    let w1 = if fields.len() == 0 {
        w
    } else {
        match w {
            Json::Object(mut ws) => {
                crate::json::extend_entries(&mut ws, fields);
                Json::Object(ws)
            },
            _ => {
                let mut ws: Vec<(String, Json)> = Vec::new();
                assert(view_entries(ws@) == Seq::<(Seq<char>, JsonV)>::empty());
                crate::json::extend_entries(&mut ws, fields);
                Json::Object(ws)
            },
        }
    };
    match groups {
        Some(g) => {
            match w1 {
                Json::Object(mut ws) => {
                    let ghost ev = view_entries(ws@);
                    proof {
                        lemma_view_entries(ws@);
                    }
                    match find_entry(&ws, "theatre") {
                        Some(i) => {
                            proof {
                                lemma_find_key(ev, "theatre"@);
                            }
                            let (tk, tv) = ws.remove(i);
                            match tv {
                                Json::Object(mut ts) => {
                                    put_key(&mut ts, "groups", g.deep_clone());
                                    let ghost tsv = view_entries(ts@);
                                    ws.insert(i, (tk, Json::Object(ts)));
                                    proof {
                                        lemma_view_entries(ws@);
                                    }
                                    assert(view_entries(ws@) =~= ev.update(i as int, ("theatre"@, JsonV::Object(tsv))));
                                },
                                other => {
                                    ws.insert(i, (tk, other));
                                    proof {
                                        lemma_view_entries(ws@);
                                    }
                                    assert(view_entries(ws@) =~= ev);
                                },
                            }
                        },
                        None => {},
                    }
                    *work = Json::Object(ws);
                },
                other => {
                    *work = other;
                },
            }
        },
        None => {
            *work = w1;
        },
    }
}


/// The comments kept for an actor or a scene after its blocks are rebuilt:
/// those of the compiled data (an empty object where it has none), unless
/// they are not a non-empty object and the block data already present has
/// comments, which are then kept instead.
pub open spec fn comments_spec(compiled: JsonV, info: JsonV) -> JsonV {
    let c = match jget(compiled, "comments"@) {
        Some(v) => v,
        None => JsonV::Object(Seq::empty()),
    };
    let has_own = match c {
        JsonV::Object(es) => es.len() > 0,
        _ => false,
    };
    match crate::json::jget_opt(jget(info, "block_data_json"@), "comments"@) {
        Some(e) => if has_own {
            c
        } else {
            e
        },
        None => c,
    }
}

/// Chooses the comments of an actor or a scene ([`comments_spec`]) from its
/// compiled data and its current information.
pub fn choose_comments(compiled: &Json, info: &Json) -> (r: Json)
    ensures
        r@ == comments_spec(compiled@, info@),
{
    let c = match compiled.get("comments") {
        Some(v) => v.deep_clone(),
        None => Json::Object(Vec::new()),
    };
    proof {
        crate::json::lemma_view_entries(Seq::<(String, Json)>::empty());
    }
    let has_own = match &c {
        Json::Object(es) => {
            proof {
                crate::json::lemma_view_entries(es@);
            }
            es.len() > 0
        },
        _ => false,
    };
    let existing = match info.get("block_data_json") {
        Some(b) => b.get("comments"),
        None => None,
    };
    match existing {
        Some(e) => if has_own {
            c
        } else {
            e.deep_clone()
        },
        None => c,
    }
}


/// An actor or a scene with its rebuilt block data: `block_data_json` set to
/// the blocks, their connections and the comments; a value that is not an
/// object stays as it is.
pub open spec fn with_block_data_spec(info: JsonV, blocks: JsonV, connections: JsonV, comments: JsonV) -> JsonV {
    match info {
        JsonV::Object(es) => JsonV::Object(
            crate::json::entries_put(
                es,
                "block_data_json"@,
                JsonV::Object(
                    seq![("blocks"@, blocks), ("connections"@, connections), ("comments"@, comments)],
                ),
            ),
        ),
        other => other,
    }
}

/// Stores the rebuilt block data of an actor or a scene
/// ([`with_block_data_spec`]).
pub fn attach_block_data(info: &mut Json, blocks: Json, connections: Json, comments: Json)
    ensures
        final(info)@ == with_block_data_spec(old(info)@, blocks@, connections@, comments@),
{
    let ghost bv = (blocks@, connections@, comments@);
    let mut w = Json::Null;
    std::mem::swap(&mut w, info);
    match w {
        Json::Object(mut es) => {
            let mut data: Vec<(String, Json)> = Vec::new();
            assert(view_entries(data@) == Seq::<(Seq<char>, JsonV)>::empty());
            push_entry(&mut data, "blocks", blocks);
            push_entry(&mut data, "connections", connections);
            push_entry(&mut data, "comments", comments);
            assert(view_entries(data@) =~= seq![
                ("blocks"@, bv.0),
                ("connections"@, bv.1),
                ("comments"@, bv.2),
            ]);
            put_key(&mut es, "block_data_json", Json::Object(data));
            *info = Json::Object(es);
        },
        other => {
            *info = other;
        },
    }
}


/// The top-level fields that a decompiled Kitten work keeps from its input.
pub open spec fn global_keys() -> Seq<Seq<char>> {
    seq![
        "variables"@,
        "lists"@,
        "broadcasts"@,
        "audio"@,
        "matrix"@,
        "models"@,
        "physics2"@,
        "cloud_variable"@,
        "cloud_list"@,
        "ai_lab"@,
        "camera"@,
        "video"@,
        "midimusic"@,
    ]
}

/// The entries of `ws` under `keys` that it has, in the order of `keys`.
pub open spec fn saved_fields(ws: Seq<(Seq<char>, JsonV)>, keys: Seq<Seq<char>>) -> Seq<(Seq<char>, JsonV)>
    decreases keys.len(),
{
    if keys.len() == 0 {
        Seq::empty()
    } else {
        let rest = saved_fields(ws, keys.drop_last());
        match crate::json::entry_val(ws, keys.last()) {
            Some(v) => rest.push((keys.last(), v)),
            None => rest,
        }
    }
}

/// An object with `blocksXML` set to `xml`; any other value stays.
pub open spec fn with_xml(v: JsonV, xml: Seq<char>) -> JsonV {
    match v {
        JsonV::Object(es) => JsonV::Object(entries_put(es, "blocksXML"@, JsonV::Str(xml))),
        _ => v,
    }
}

/// The entries with `blocksXML` set in the object under key `id`.
pub open spec fn xml_in_entries(es: Seq<(Seq<char>, JsonV)>, id: Seq<char>, xml: Seq<char>) -> Seq<
    (Seq<char>, JsonV),
> {
    match find_key(es, id) {
        Some(i) => es.update(i, (es[i].0, with_xml(es[i].1, xml))),
        None => es,
    }
}

/// The value with `xml_in_entries` applied inside it, when it is an object.
pub open spec fn xml_in_object(v: JsonV, id: Seq<char>, xml: Seq<char>) -> JsonV {
    match v {
        JsonV::Object(es) => JsonV::Object(xml_in_entries(es, id, xml)),
        _ => v,
    }
}

/// The entries with `f` applied to the value under key `k` (the first such
/// entry), written out for the one change used here.
pub open spec fn xml_under(es: Seq<(Seq<char>, JsonV)>, k: Seq<char>, id: Seq<char>, xml: Seq<char>) -> Seq<
    (Seq<char>, JsonV),
> {
    match find_key(es, k) {
        Some(i) => es.update(i, (es[i].0, xml_in_object(es[i].1, id, xml))),
        None => es,
    }
}

/// Whether `id` names a scene of the theatre.
pub open spec fn is_scene(ts: Seq<(Seq<char>, JsonV)>, id: Seq<char>) -> bool {
    match entry_val(ts, "scenes"@) {
        Some(JsonV::Object(ss)) => find_key(ss, id) is Some,
        _ => false,
    }
}

/// A theatre after the blocks XML of the actor or scene `id` is stored: in
/// the scene of that id when there is one, else in the actor of that id.
pub open spec fn theatre_xml(ts: Seq<(Seq<char>, JsonV)>, id: Seq<char>, xml: Seq<char>) -> Seq<
    (Seq<char>, JsonV),
> {
    if is_scene(ts, id) {
        xml_under(ts, "scenes"@, id, xml)
    } else {
        xml_under(ts, "actors"@, id, xml)
    }
}

/// A work after the blocks XML of one compiled actor is stored.
pub open spec fn work_xml_step(w: JsonV, actor: JsonV, sh: Seq<Seq<char>>) -> JsonV {
    match w {
        JsonV::Object(ws) => match find_key(ws, "theatre"@) {
            Some(t) => match ws[t].1 {
                JsonV::Object(ts) => JsonV::Object(
                    ws.update(
                        t,
                        (ws[t].0, JsonV::Object(theatre_xml(ts, str_or_empty(actor, "id"@), blocks_xml(actor, sh)))),
                    ),
                ),
                _ => w,
            },
            None => w,
        },
        _ => w,
    }
}

/// A work after the blocks XML of each compiled actor, in order.
pub open spec fn work_xml_steps(w: JsonV, actors: Seq<JsonV>, sh: Seq<Seq<char>>) -> JsonV
    decreases actors.len(),
{
    if actors.len() == 0 {
        w
    } else {
        work_xml_step(work_xml_steps(w, actors.drop_last(), sh), actors.last(), sh)
    }
}

/// The decompilation of a Kitten work into its editor form with blocks XML
/// (the Kitten2/3 form): each compiled actor's blocks become the
/// `blocksXML` of its scene or actor, the editor settings are written, the
/// build products are dropped, and the global fields and theatre groups of
/// the input are put back. Refused when the work has no array of compiled
/// actors.
pub open spec fn kitten_xml_spec(
    work: JsonV,
    work_id: i64,
    name: Seq<char>,
    toolbox: Seq<Seq<char>>,
    sh: Seq<Seq<char>>,
) -> Result<JsonV, WorkError> {
    match work {
        JsonV::Object(ws) => match entry_val(ws, "compile_result"@) {
            Some(JsonV::Array(actors)) => {
                let w1 = JsonV::Object(entries_put(ws, "compile_result"@, JsonV::Array(Seq::empty())));
                let w2 = work_xml_steps(w1, actors, sh);
                match work_info_spec(w2, true, work_id, name, toolbox) {
                    Ok(w3) => match clean_spec(w3, true) {
                        Ok(w4) => Ok(
                            restore_spec(
                                w4,
                                saved_fields(ws, global_keys()),
                                crate::json::jget_opt(entry_val(ws, "theatre"@), "groups"@),
                            ),
                        ),
                        Err(e) => Err(e),
                    },
                    Err(e) => Err(e),
                }
            },
            _ => Err(WorkError::MissingCompileResult),
        },
        _ => Err(WorkError::MissingCompileResult),
    }
}

proof fn lemma_view_entries_update(s: Seq<(String, Json)>, i: int, e: (String, Json))
    requires
        0 <= i < s.len(),
    ensures
        view_entries(s.update(i, e)) == view_entries(s).update(i, (e.0@, e.1@)),
{
    lemma_view_entries(s);
    lemma_view_entries(s.update(i, e));
    assert(view_entries(s.update(i, e)) =~= view_entries(s).update(i, (e.0@, e.1@)));
}

/// Puts `v` in place of the value of entry `i` and gives the old value back.
fn swap_value(es: &mut Vec<(String, Json)>, i: usize, v: Json) -> (r: Json)
    requires
        i < old(es)@.len(),
    ensures
        view_entries(final(es)@) == view_entries(old(es)@).update(
            i as int,
            (view_entries(old(es)@)[i as int].0, v@),
        ),
        r@ == view_entries(old(es)@)[i as int].1,
        final(es)@.len() == old(es)@.len(),
{
    proof {
        lemma_view_entries(es@);
    }
    let (k, ov) = es.remove(i);
    let ghost kv = k@;
    es.insert(i, (k, v));
    proof {
        assert(es@ =~= old(es)@.update(i as int, (old(es)@[i as int].0, v)));
        lemma_view_entries_update(old(es)@, i as int, (old(es)@[i as int].0, v));
    }
    ov
}

fn put_xml(v: Json, xml: &str) -> (r: Json)
    ensures
        r@ == with_xml(v@, xml@),
{
    match v {
        Json::Object(mut es) => {
            put_key(&mut es, "blocksXML", Json::Str(crate::text::own(xml)));
            Json::Object(es)
        },
        other => other,
    }
}

fn put_xml_in_entries(es: &mut Vec<(String, Json)>, id: &str, xml: &str)
    ensures
        view_entries(final(es)@) == xml_in_entries(view_entries(old(es)@), id@, xml@),
{
    match find_entry(es, id) {
        Some(i) => {
            proof {
                lemma_find_key(view_entries(es@), id@);
                lemma_view_entries(es@);
            }
            let v = swap_value(es, i, Json::Null);
            let v2 = put_xml(v, xml);
            swap_value(es, i, v2);
        },
        None => {},
    }
}

fn put_xml_under(es: &mut Vec<(String, Json)>, k: &str, id: &str, xml: &str)
    ensures
        view_entries(final(es)@) == xml_under(view_entries(old(es)@), k@, id@, xml@),
{
    match find_entry(es, k) {
        Some(i) => {
            proof {
                lemma_find_key(view_entries(es@), k@);
                lemma_view_entries(es@);
            }
            let v = swap_value(es, i, Json::Null);
            let v2 = match v {
                Json::Object(mut xs) => {
                    put_xml_in_entries(&mut xs, id, xml);
                    Json::Object(xs)
                },
                other => other,
            };
            swap_value(es, i, v2);
        },
        None => {},
    }
}

fn scene_named(ts: &Vec<(String, Json)>, id: &str) -> (r: bool)
    ensures
        r == is_scene(view_entries(ts@), id@),
{
    match find_entry(ts, "scenes") {
        Some(i) => {
            proof {
                lemma_find_key(view_entries(ts@), "scenes"@);
                lemma_view_entries(ts@);
            }
            match &ts[i].1 {
                Json::Object(ss) => find_entry(ss, id).is_some(),
                _ => false,
            }
        },
        None => false,
    }
}

fn store_actor_xml(work: &mut Json, actor: &Json, shadow_types: &Vec<String>)
    ensures
        final(work)@ == work_xml_step(old(work)@, actor@, strs_view(shadow_types@)),
{
    let mut w = Json::Null;
    std::mem::swap(&mut w, work);
    match w {
        Json::Object(mut ws) => {
            match find_entry(&ws, "theatre") {
                Some(t) => {
                    proof {
                        lemma_find_key(view_entries(ws@), "theatre"@);
                        lemma_view_entries(ws@);
                    }
                    let ghost e0 = view_entries(ws@);
                    let th = swap_value(&mut ws, t, Json::Null);
                    let ghost e1 = view_entries(ws@);
                    let th2 = match th {
                        Json::Object(mut ts) => {
                            let id = str_field(actor, "id");
                            let xml = write_blocks(actor, shadow_types);
                            if scene_named(&ts, id) {
                                put_xml_under(&mut ts, "scenes", id, xml.as_str());
                            } else {
                                put_xml_under(&mut ts, "actors", id, xml.as_str());
                            }
                            Json::Object(ts)
                        },
                        other => other,
                    };
                    let ghost t2 = th2@;
                    proof {
                        if !(e0[t as int].1 is Object) {
                            assert(t2 == e0[t as int].1);
                            assert(e0.update(t as int, (e0[t as int].0, t2)) =~= e0);
                        }
                    }
                    swap_value(&mut ws, t, th2);
                    assert(view_entries(ws@) =~= e0.update(t as int, (e0[t as int].0, t2)));
                    *work = Json::Object(ws);
                },
                None => {
                    *work = Json::Object(ws);
                },
            }
        },
        other => {
            *work = other;
        },
    }
}

fn save_global_fields(ws: &Vec<(String, Json)>) -> (r: Vec<(String, Json)>)
    ensures
        view_entries(r@) == saved_fields(view_entries(ws@), global_keys()),
{
    let keys: Vec<&str> = vec![
        "variables",
        "lists",
        "broadcasts",
        "audio",
        "matrix",
        "models",
        "physics2",
        "cloud_variable",
        "cloud_list",
        "ai_lab",
        "camera",
        "video",
        "midimusic",
    ];
    let ghost kv = keys@.map_values(|k: &str| k@);
    assert(kv =~= global_keys());
    let mut out: Vec<(String, Json)> = Vec::new();
    assert(view_entries(out@) =~= saved_fields(view_entries(ws@), kv.subrange(0, 0)));
    let mut i: usize = 0;
    while i < keys.len()
        invariant
            i <= keys@.len(),
            kv == keys@.map_values(|k: &str| k@),
            kv.len() == keys@.len(),
            view_entries(out@) == saved_fields(view_entries(ws@), kv.subrange(0, i as int)),
        decreases keys@.len() - i,
    {
        let ghost sub = kv.subrange(0, i + 1);
        assert(sub.drop_last() =~= kv.subrange(0, i as int));
        assert(sub.last() == keys@[i as int]@);
        match find_entry(ws, keys[i]) {
            Some(j) => {
                proof {
                    lemma_find_key(view_entries(ws@), keys@[i as int]@);
                    lemma_view_entries(ws@);
                }
                let e = (crate::text::own(keys[i]), ws[j].1.deep_clone());
                proof {
                    lemma_view_entries_push(out@, e);
                }
                out.push(e);
            },
            None => {},
        }
        i = i + 1;
    }
    assert(kv.subrange(0, keys@.len() as int) =~= kv);
    out
}

/// Decompiles a Kitten2/3 work into its editor form with blocks XML
/// ([`kitten_xml_spec`]), with the editor settings and clean-up of those
/// editions.
pub fn decompile_kitten_xml(
    work: Json,
    work_id: i64,
    name: &str,
    toolbox: &Vec<String>,
    shadow_types: &Vec<String>,
) -> (r: Result<Json, WorkError>)
    ensures
        match kitten_xml_spec(work@, work_id, name@, strs_view(toolbox@), strs_view(shadow_types@)) {
            Ok(w) => r matches Ok(x) && x@ == w,
            Err(e) => r == Err::<Json, WorkError>(e),
        },
{
    let ghost w0 = work@;
    let mut ws = match work {
        Json::Object(ws) => ws,
        _ => return Err(WorkError::MissingCompileResult),
    };
    let ghost es0 = view_entries(ws@);
    let fields = save_global_fields(&ws);
    let groups: Option<Json> = match find_entry(&ws, "theatre") {
        Some(t) => {
            proof {
                lemma_find_key(view_entries(ws@), "theatre"@);
                lemma_view_entries(ws@);
            }
            match ws[t].1.get("groups") {
                Some(g) => Some(g.deep_clone()),
                None => None,
            }
        },
        None => None,
    };
    let c = match find_entry(&ws, "compile_result") {
        Some(c) => c,
        None => return Err(WorkError::MissingCompileResult),
    };
    proof {
        lemma_find_key(view_entries(ws@), "compile_result"@);
        lemma_view_entries(ws@);
    }
    let cr = swap_value(&mut ws, c, Json::Array(Vec::new()));
    let actors = match cr {
        Json::Array(a) => a,
        _ => return Err(WorkError::MissingCompileResult),
    };
    let ghost av = view_items(actors@);
    proof {
        lemma_view_items(actors@);
        assert(view_items(Seq::<Json>::empty()) =~= Seq::<JsonV>::empty());
        assert(view_entries(ws@) == entries_put(es0, "compile_result"@, JsonV::Array(Seq::empty())));
    }
    let mut w = Json::Object(ws);
    let ghost w1 = w@;
    let ghost sh = strs_view(shadow_types@);
    assert(av.subrange(0, 0) =~= Seq::<JsonV>::empty());
    let mut i: usize = 0;
    while i < actors.len()
        invariant
            i <= actors@.len(),
            av == view_items(actors@),
            av.len() == actors@.len(),
            forall|j: int| 0 <= j < actors@.len() ==> #[trigger] av[j] == actors@[j]@,
            sh == strs_view(shadow_types@),
            w@ == work_xml_steps(w1, av.subrange(0, i as int), sh),
        decreases actors@.len() - i,
    {
        let ghost sub = av.subrange(0, i + 1);
        assert(sub.drop_last() =~= av.subrange(0, i as int));
        assert(sub.last() == actors@[i as int]@);
        store_actor_xml(&mut w, &actors[i], shadow_types);
        i = i + 1;
    }
    assert(av.subrange(0, actors@.len() as int) =~= av);
    match update_work_info(&mut w, true, work_id, name, toolbox) {
        Ok(()) => {},
        Err(e) => return Err(e),
    }
    match clean_work_data(&mut w, true) {
        Ok(()) => {},
        Err(e) => return Err(e),
    }
    let g = match &groups {
        Some(g) => Some(g),
        None => None,
    };
    restore_global_fields(&mut w, &fields, g);
    Ok(w)
}


proof fn lemma_saved_fields(ws: Seq<(Seq<char>, JsonV)>, keys: Seq<Seq<char>>, k: Seq<char>)
    ensures
        forall|j: int|
            0 <= j < saved_fields(ws, keys).len() ==> entry_val(ws, #[trigger] saved_fields(ws, keys)[j].0)
                == Some(saved_fields(ws, keys)[j].1),
        keys.contains(k) && entry_val(ws, k) is Some ==> saved_fields(ws, keys).contains(
            (k, entry_val(ws, k)->Some_0),
        ),
    decreases keys.len(),
{
    if keys.len() > 0 {
        lemma_saved_fields(ws, keys.drop_last(), k);
        let rest = saved_fields(ws, keys.drop_last());
        if keys.contains(k) && entry_val(ws, k) is Some {
            if keys.last() != k {
                let j = choose|j: int| 0 <= j < keys.len() && keys[j] == k;
                assert(keys.drop_last()[j] == k);
                let e = (k, entry_val(ws, k)->Some_0);
                let m = choose|m: int| 0 <= m < rest.len() && rest[m] == e;
                match entry_val(ws, keys.last()) {
                    Some(v) => {
                        assert(rest.push((keys.last(), v))[m] == e);
                    },
                    None => {},
                }
            } else {
                let e = (k, entry_val(ws, k)->Some_0);
                assert(rest.push(e)[rest.len() as int] == e);
            }
        }
    }
}

proof fn lemma_extend_reads(es: Seq<(Seq<char>, JsonV)>, data: Seq<(Seq<char>, JsonV)>, k: Seq<char>, v: JsonV)
    requires
        data.contains((k, v)),
        forall|j: int| 0 <= j < data.len() && (#[trigger] data[j]).0 == k ==> data[j].1 == v,
    ensures
        jget(JsonV::Object(crate::json::entries_extend(es, data)), k) == Some(v),
    decreases data.len(),
{
    let last = data.last();
    crate::json::lemma_entries_put_get(crate::json::entries_extend(es, data.drop_last()), last.0, last.1, k);
    if last.0 != k {
        let m = choose|m: int| 0 <= m < data.len() && data[m] == (k, v);
        assert(m != data.len() - 1);
        assert(data.drop_last()[m] == (k, v));
        assert forall|j: int| 0 <= j < data.drop_last().len() && (#[trigger] data.drop_last()[j]).0 == k implies data.drop_last()[j].1 == v by {
            assert(data.drop_last()[j] == data[j]);
        }
        lemma_extend_reads(es, data.drop_last(), k, v);
    } else {
        assert(data[data.len() - 1] == last);
    }
}

proof fn lemma_restore_reads(w4: JsonV, fields: Seq<(Seq<char>, JsonV)>, groups: Option<JsonV>, k: Seq<char>, v: JsonV)
    requires
        w4 is Object,
        fields.contains((k, v)),
        forall|j: int| 0 <= j < fields.len() && (#[trigger] fields[j]).0 == k ==> fields[j].1 == v,
        k != "theatre"@,
    ensures
        jget(restore_spec(w4, fields, groups), k) == Some(v),
{
    let ws4 = w4->Object_0;
    let x = crate::json::entries_extend(ws4, fields);
    lemma_extend_reads(ws4, fields, k, v);
    assert(fields.len() > 0);
    match groups {
        Some(g) => match entry_val(x, "theatre"@) {
            Some(JsonV::Object(ts)) => {
                crate::json::lemma_entries_put_get(x, "theatre"@, JsonV::Object(entries_put(ts, "groups"@, g)), k);
            },
            _ => {},
        },
        None => {},
    }
}

proof fn lemma_global_key_not_theatre(k: Seq<char>)
    requires
        global_keys().contains(k),
    ensures
        k != "theatre"@,
{
    reveal_strlit("theatre");
    reveal_strlit("variables");
    reveal_strlit("lists");
    reveal_strlit("broadcasts");
    reveal_strlit("audio");
    reveal_strlit("matrix");
    reveal_strlit("models");
    reveal_strlit("physics2");
    reveal_strlit("cloud_variable");
    reveal_strlit("cloud_list");
    reveal_strlit("ai_lab");
    reveal_strlit("camera");
    reveal_strlit("video");
    reveal_strlit("midimusic");
    let j = choose|j: int| 0 <= j < global_keys().len() && global_keys()[j] == k;
    assert(k.len() != 7);
}

/// The global fields of a Kitten work survive its decompilation: every
/// field of [`global_keys`] that the input has reads back from the
/// decompiled work with the value it had in the input.
pub proof fn law_kitten_globals_kept(
    work: JsonV,
    work_id: i64,
    name: Seq<char>,
    toolbox: Seq<Seq<char>>,
    sh: Seq<Seq<char>>,
    k: Seq<char>,
)
    requires
        kitten_xml_spec(work, work_id, name, toolbox, sh) is Ok,
        global_keys().contains(k),
        jget(work, k) is Some,
    ensures
        jget(kitten_xml_spec(work, work_id, name, toolbox, sh)->Ok_0, k) == jget(work, k),
{
    let ws = work->Object_0;
    let v = entry_val(ws, k)->Some_0;
    let fields = saved_fields(ws, global_keys());
    lemma_saved_fields(ws, global_keys(), k);
    assert forall|j: int| 0 <= j < fields.len() && (#[trigger] fields[j]).0 == k implies fields[j].1 == v by {
        assert(entry_val(ws, fields[j].0) == Some(fields[j].1));
    }
    lemma_global_key_not_theatre(k);
    let actors = entry_val(ws, "compile_result"@)->Some_0->Array_0;
    let w1 = JsonV::Object(entries_put(ws, "compile_result"@, JsonV::Array(Seq::empty())));
    let w2 = work_xml_steps(w1, actors, sh);
    let w3 = work_info_spec(w2, true, work_id, name, toolbox)->Ok_0;
    let w4 = clean_spec(w3, true)->Ok_0;
    assert(w4 is Object);
    lemma_restore_reads(w4, fields, crate::json::jget_opt(entry_val(ws, "theatre"@), "groups"@), k, v);
}


/// The branches of an `if` block get slots of their own: with `n`
/// conditions, child `i < n` goes into `DO` followed by the decimal digits of
/// `i` (so two branches never share a slot), and every later child goes into
/// `ELSE`.
pub proof fn law_if_branch_slots(bt: Seq<char>, i: nat, j: nat, n: nat)
    requires
        bt == "controls_if"@ || bt == "controls_if_no_else"@,
    ensures
        i < n ==> statement_name(bt, i, n).take(2) == "DO"@,
        i < n ==> crate::text::all_digits(statement_name(bt, i, n).skip(2)),
        i < n ==> crate::text::digits_value(statement_name(bt, i, n).skip(2)) == i,
        i < n && j < n && i != j ==> statement_name(bt, i, n) != statement_name(bt, j, n),
        i >= n ==> statement_name(bt, i, n) == "ELSE"@,
{
    reveal_strlit("DO");
    crate::text::lemma_dec_nat(i);
    crate::text::lemma_dec_nat(j);
    assert(("DO"@ + dec_nat(i)).take(2) =~= "DO"@);
    assert(("DO"@ + dec_nat(i)).skip(2) =~= dec_nat(i));
    assert(("DO"@ + dec_nat(j)).skip(2) =~= dec_nat(j));
    if i < n && j < n && i != j && statement_name(bt, i, n) == statement_name(bt, j, n) {
        assert(dec_nat(i) == dec_nat(j));
    }
}

/// Slots are numbered by position: appending an object child adds one
/// statement slot, named for the child's position, after the slots of the
/// earlier children; appending an object condition adds one value slot named
/// `IF` and the condition's position. Anything else adds nothing.
pub proof fn law_slots_follow_positions(cs: Seq<JsonV>, c: JsonV, bt: Seq<char>, n: nat, sh: Seq<Seq<char>>)
    ensures
        c is Object ==> children_xml(cs.push(c), bt, n, sh) == children_xml(cs, bt, n, sh) + "<statement name=\""@
            + statement_name(bt, cs.len(), n) + "\">"@ + block_xml(c, false, 0, sh) + "</statement>"@,
        c is Object ==> conds_xml(cs.push(c), sh) == conds_xml(cs, sh) + "<value name=\"IF"@ + dec_nat(cs.len())
            + "\">"@ + value_xml(c, sh) + "</value>"@,
        !(c is Object) ==> children_xml(cs.push(c), bt, n, sh) == children_xml(cs, bt, n, sh),
        !(c is Object) ==> conds_xml(cs.push(c), sh) == conds_xml(cs, sh),
{
    let cs2 = cs.push(c);
    assert(cs2.drop_last() =~= cs);
    assert(cs2[cs2.len() - 1] == c);
    assert(Seq::<char>::empty() + children_xml(cs, bt, n, sh) =~= children_xml(cs, bt, n, sh));
    assert(children_xml(cs, bt, n, sh) + Seq::<char>::empty() =~= children_xml(cs, bt, n, sh));
    assert(conds_xml(cs, sh) + Seq::<char>::empty() =~= conds_xml(cs, sh));
}

/// Removing a list of keys from entries with unique keys: the keys listed are
/// gone, every other key reads what it read before, and keys stay unique.
proof fn lemma_del_all(w: Seq<(Seq<char>, JsonV)>, ks: Seq<Seq<char>>, k: Seq<char>)
    requires
        crate::coco::keys_unique(w),
    ensures
        crate::coco::keys_unique(crate::coco::del_all(w, ks)),
        ks.contains(k) ==> entry_val(crate::coco::del_all(w, ks), k).is_none(),
        !ks.contains(k) ==> entry_val(crate::coco::del_all(w, ks), k) == entry_val(w, k),
    decreases ks.len(),
{
    if ks.len() > 0 {
        let k0 = ks.drop_last();
        lemma_del_all(w, k0, k);
        let d0 = crate::coco::del_all(w, k0);
        crate::coco::lemma_del(d0, ks.last(), k);
        if ks.contains(k) && !k0.contains(k) {
            let j = choose|j: int| 0 <= j < ks.len() && ks[j] == k;
            if j < ks.len() - 1 {
                assert(k0[j] == k);
            }
        }
        if k0.contains(k) {
            let j = choose|j: int| 0 <= j < k0.len() && k0[j] == k;
            assert(ks[j] == k);
            lemma_del_all(w, k0, ks.last());
        }
        if !ks.contains(k) {
            assert(ks[ks.len() - 1] != k);
            if k0.contains(k) {
                let j = choose|j: int| 0 <= j < k0.len() && k0[j] == k;
                assert(ks[j] == k);
            }
        }
    }
}

/// Cleaning a work (with unique keys) drops exactly its build products; the
/// theatre loses its run-time fields unless the edition keeps them, and keeps
/// everything else.
pub proof fn law_clean_drops_build_keys(ws: Seq<(Seq<char>, JsonV)>, keeps_runtime: bool, k: Seq<char>)
    requires
        crate::coco::keys_unique(ws),
        entry_val(ws, "theatre"@) matches Some(JsonV::Object(ts)) ==> crate::coco::keys_unique(ts),
    ensures
        match clean_spec(JsonV::Object(ws), keeps_runtime) {
            Ok(JsonV::Object(w)) => {
                &&& build_keys().contains(k) ==> entry_val(w, k).is_none()
                &&& !build_keys().contains(k) && k != "theatre"@ ==> entry_val(w, k) == entry_val(ws, k)
                &&& keeps_runtime ==> entry_val(w, "theatre"@) == entry_val(ws, "theatre"@)
                &&& !keeps_runtime ==> match entry_val(ws, "theatre"@) {
                    Some(JsonV::Object(ts)) => match entry_val(w, "theatre"@) {
                        Some(JsonV::Object(ts2)) => {
                            &&& runtime_keys().contains(k) ==> entry_val(ts2, k).is_none()
                            &&& !runtime_keys().contains(k) ==> entry_val(ts2, k) == entry_val(ts, k)
                        },
                        _ => false,
                    },
                    _ => entry_val(w, "theatre"@) == entry_val(ws, "theatre"@),
                }
            },
            _ => false,
        },
{
    reveal_strlit("theatre");
    reveal_strlit("compile_result");
    reveal_strlit("preview");
    reveal_strlit("author_nickname");
    let w1 = crate::coco::del_all(ws, build_keys());
    lemma_del_all(ws, build_keys(), k);
    lemma_del_all(ws, build_keys(), "theatre"@);
    assert(!build_keys().contains("theatre"@)) by {
        assert forall|j: int| 0 <= j < build_keys().len() implies build_keys()[j] != "theatre"@ by {
            assert(build_keys()[j].len() != "theatre"@.len() || build_keys()[j][0] != 't');
        }
    }
    if !keeps_runtime {
        match entry_val(w1, "theatre"@) {
            Some(JsonV::Object(ts)) => {
                let w2 = entries_put(w1, "theatre"@, JsonV::Object(crate::coco::del_all(ts, runtime_keys())));
                crate::json::lemma_entries_put_get(w1, "theatre"@, JsonV::Object(crate::coco::del_all(ts, runtime_keys())), k);
                crate::json::lemma_entries_put_get(w1, "theatre"@, JsonV::Object(crate::coco::del_all(ts, runtime_keys())), "theatre"@);
                lemma_del_all(ts, runtime_keys(), k);
            },
            _ => {},
        }
    }
}

} // verus!
