//! Character-level string utilities shared by the other modules: comparison,
//! prefixes, decimal numbers and truncation.

use vstd::prelude::*;

verus! {

/// Appends one character to a string (`String::push`).
#[verifier::external_body]
pub(crate) fn push_char(s: &mut String, c: char)
    ensures
        final(s)@ == old(s)@.push(c),
{
    s.push(c);
}

/// The characters of `s`, in order.
pub fn chars_of(s: &str) -> (r: Vec<char>)
    ensures
        r@ == s@,
{
    let n = s.unicode_len();
    let mut out: Vec<char> = Vec::new();
    let mut i: usize = 0;
    while i < n
        invariant
            n == s@.len(),
            i <= n,
            out@ == s@.subrange(0, i as int),
        decreases n - i,
    {
        out.push(s.get_char(i));
        i = i + 1;
    }
    out
}

/// Builds a string from a sequence of characters.
pub fn string_of(cs: &[char]) -> (r: String)
    ensures
        r@ == cs@,
{
    let mut out = String::new();
    let mut i: usize = 0;
    while i < cs.len()
        invariant
            i <= cs@.len(),
            out@ == cs@.subrange(0, i as int),
        decreases cs@.len() - i,
    {
        push_char(&mut out, cs[i]);
        i = i + 1;
    }
    out
}

/// A fresh string holding the characters of `s`.
pub fn own(s: &str) -> (r: String)
    ensures
        r@ == s@,
{
    s.to_owned()
}

/// Appends all characters of `t` to `s`.
pub fn push_str(s: &mut String, t: &str)
    ensures
        final(s)@ == old(s)@ + t@,
{
    s.append(t);
}

/// Character-wise equality of two strings.
pub fn str_eq(a: &str, b: &str) -> (r: bool)
    ensures
        r == (a@ == b@),
{
    let n = a.unicode_len();
    if n != b.unicode_len() {
        return false;
    }
    let mut i: usize = 0;
    while i < n
        invariant
            n == a@.len(),
            n == b@.len(),
            i <= n,
            a@.subrange(0, i as int) == b@.subrange(0, i as int),
        decreases n - i,
    {
        if a.get_char(i) != b.get_char(i) {
            return false;
        }
        assert(a@.subrange(0, i + 1) == a@.subrange(0, i as int).push(a@[i as int]));
        assert(b@.subrange(0, i + 1) == b@.subrange(0, i as int).push(b@[i as int]));
        i = i + 1;
    }
    assert(a@ == a@.subrange(0, n as int));
    assert(b@ == b@.subrange(0, n as int));
    true
}

/// Whether `p` is a prefix of `s`.
pub open spec fn has_prefix(s: Seq<char>, p: Seq<char>) -> bool {
    p.len() <= s.len() && s.subrange(0, p.len() as int) == p
}

/// Whether `s` starts with `p` (`str::starts_with`).
pub fn starts_with(s: &str, p: &str) -> (r: bool)
    ensures
        r == has_prefix(s@, p@),
{
    let n = p.unicode_len();
    if n > s.unicode_len() {
        return false;
    }
    let mut i: usize = 0;
    while i < n
        invariant
            n == p@.len(),
            n <= s@.len(),
            i <= n,
            s@.subrange(0, i as int) == p@.subrange(0, i as int),
        decreases n - i,
    {
        if s.get_char(i) != p.get_char(i) {
            assert(s@.subrange(0, n as int)[i as int] == s@[i as int]);
            return false;
        }
        assert(s@.subrange(0, i + 1) == s@.subrange(0, i as int).push(s@[i as int]));
        assert(p@.subrange(0, i + 1) == p@.subrange(0, i as int).push(p@[i as int]));
        i = i + 1;
    }
    assert(p@ == p@.subrange(0, n as int));
    true
}

/// The characters of `s` from position `from` on.
pub fn suffix_from(s: &str, from: usize) -> (r: String)
    requires
        from <= s@.len(),
    ensures
        r@ == s@.subrange(from as int, s@.len() as int),
{
    let n = s.unicode_len();
    own(s.substring_char(from, n))
}

/// Whether `c` is an ASCII decimal digit.
pub open spec fn is_digit(c: char) -> bool {
    '0' <= c && c <= '9'
}

pub open spec fn digit_value(c: char) -> nat {
    (c as int - '0' as int) as nat
}

pub open spec fn all_digits(s: Seq<char>) -> bool {
    forall|i: int| 0 <= i < s.len() ==> is_digit(#[trigger] s[i])
}

/// The number that a string of decimal digits denotes.
pub open spec fn digits_value(s: Seq<char>) -> nat
    decreases s.len(),
{
    if s.len() == 0 {
        0
    } else {
        digits_value(s.drop_last()) * 10 + digit_value(s.last())
    }
}

/// The integer that `s` denotes as Rust's integer `FromStr` reads it: an
/// optional `+` or `-` sign followed by one or more decimal digits.
pub open spec fn int_text_value(s: Seq<char>) -> Option<int> {
    if s.len() >= 2 && s[0] == '-' && all_digits(s.skip(1)) {
        Some(-(digits_value(s.skip(1)) as int))
    } else if s.len() >= 2 && s[0] == '+' && all_digits(s.skip(1)) {
        Some(digits_value(s.skip(1)) as int)
    } else if s.len() >= 1 && all_digits(s) {
        Some(digits_value(s) as int)
    } else {
        None
    }
}

/// The result of `str::parse::<i64>`.
pub open spec fn parse_i64_spec(s: Seq<char>) -> Option<i64> {
    match int_text_value(s) {
        Some(v) => if i64::MIN <= v <= i64::MAX {
            Some(v as i64)
        } else {
            None
        },
        None => None,
    }
}

/// The result of `str::parse::<i32>`.
pub open spec fn parse_i32_spec(s: Seq<char>) -> Option<i32> {
    match int_text_value(s) {
        Some(v) => if i32::MIN <= v <= i32::MAX {
            Some(v as i32)
        } else {
            None
        },
        None => None,
    }
}

/// The result of `str::parse::<u64>`: no `-` sign is accepted.
pub open spec fn parse_u64_spec(s: Seq<char>) -> Option<u64> {
    match int_text_value(s) {
        Some(v) => if 0 <= v <= u64::MAX && !(s.len() > 0 && s[0] == '-') {
            Some(v as u64)
        } else {
            None
        },
        None => None,
    }
}

/// The result of `str::parse::<usize>`.
pub open spec fn parse_usize_spec(s: Seq<char>) -> Option<usize> {
    match int_text_value(s) {
        Some(v) => if 0 <= v <= usize::MAX && !(s.len() > 0 && s[0] == '-') {
            Some(v as usize)
        } else {
            None
        },
        None => None,
    }
}

proof fn lemma_digits_value_prefix(s: Seq<char>, i: int)
    requires
        0 <= i <= s.len(),
        all_digits(s),
    ensures
        digits_value(s.subrange(0, i)) <= digits_value(s),
    decreases s.len() - i,
{
    if i < s.len() {
        lemma_digits_value_prefix(s, i + 1);
        let t = s.subrange(0, i + 1);
        assert(t.drop_last() == s.subrange(0, i));
    } else {
        assert(s.subrange(0, i) == s);
    }
}

/// Reads the decimal digits `s[from..]` as a number, or `None` when they are
/// not all digits, there are none, or the number exceeds `u64::MAX`.
fn digits_to_u64(s: &Vec<char>, from: usize) -> (r: Option<u64>)
    requires
        from <= s@.len(),
    ensures
        r.is_some() <==> (from < s@.len() && all_digits(s@.skip(from as int)) && digits_value(
            s@.skip(from as int),
        ) <= u64::MAX),
        r.is_some() ==> r.unwrap() == digits_value(s@.skip(from as int)),
{
    let ghost t = s@.skip(from as int);
    if from >= s.len() {
        return None;
    }
    let mut i: usize = from;
    let mut acc: u64 = 0;
    while i < s.len()
        invariant
            from <= i <= s@.len(),
            t == s@.skip(from as int),
            all_digits(s@.subrange(from as int, i as int)),
            acc == digits_value(s@.subrange(from as int, i as int)),
        decreases s@.len() - i,
    {
        let c = s[i];
        if !('0' <= c && c <= '9') {
            assert(t[i - from] == c);
            return None;
        }
        let d: u64 = ((c as u32) - ('0' as u32)) as u64;
        let ghost next = s@.subrange(from as int, i + 1);
        assert(next.drop_last() == s@.subrange(from as int, i as int));
        assert(all_digits(next)) by {
            assert forall|k: int| 0 <= k < next.len() implies is_digit(#[trigger] next[k]) by {
                if k < next.len() - 1 {
                    assert(next[k] == s@.subrange(from as int, i as int)[k]);
                }
            }
        }
        if acc > (u64::MAX - d) / 10 {
            proof {
                assert(digits_value(next) > u64::MAX) by (nonlinear_arith)
                    requires
                        acc > (u64::MAX - d) / 10,
                        digits_value(next) == acc * 10 + d,
                        d <= 9,
                ;
                // every remaining character is checked before the value matters
                if all_digits(t) {
                    assert(next == t.subrange(0, i + 1 - from));
                    lemma_digits_value_prefix(t, i + 1 - from);
                }
            }
            return None;
        }
        assert(acc * 10 + d <= u64::MAX) by (nonlinear_arith)
            requires
                acc <= (u64::MAX - d) / 10,
                d <= 9,
        ;
        acc = acc * 10 + d;
        i = i + 1;
    }
    assert(s@.subrange(from as int, s@.len() as int) == t);
    Some(acc)
}

/// `str::parse::<i64>`.
pub fn parse_i64(s: &str) -> (r: Option<i64>)
    ensures
        r == parse_i64_spec(s@),
{
    let cs = chars_of(s);
    let n = cs.len();
    if n == 0 {
        return None;
    }
    let first = cs[0];
    let (neg, from) = if first == '-' && n >= 2 {
        (true, 1usize)
    } else if first == '+' && n >= 2 {
        (false, 1usize)
    } else {
        (false, 0usize)
    };
    proof {
        if from == 0 && n >= 1 {
            assert(cs@.skip(0) == cs@);
            if s@[0] == '-' || s@[0] == '+' {
                assert(!is_digit(s@[0]));
                assert(!all_digits(s@));
            }
        }
    }
    match digits_to_u64(&cs, from) {
        None => {
            proof {
                if from == 1 && all_digits(s@.skip(1)) {
                    assert(digits_value(s@.skip(1)) > u64::MAX);
                }
            }
            None
        },
        Some(m) => {
            if neg {
                if m <= 9223372036854775808u64 {
                    if m == 9223372036854775808u64 {
                        Some(i64::MIN)
                    } else {
                        Some(-(m as i64))
                    }
                } else {
                    None
                }
            } else {
                if m <= 9223372036854775807u64 {
                    Some(m as i64)
                } else {
                    None
                }
            }
        },
    }
}

/// `str::parse::<u64>`.
pub fn parse_u64(s: &str) -> (r: Option<u64>)
    ensures
        r == parse_u64_spec(s@),
{
    let cs = chars_of(s);
    let n = cs.len();
    if n == 0 {
        return None;
    }
    let first = cs[0];
    if first == '-' {
        proof {
            assert(!is_digit(s@[0]));
        }
        return None;
    }
    let from: usize = if first == '+' && n >= 2 {
        1
    } else {
        0
    };
    proof {
        if from == 0 {
            assert(cs@.skip(0) == cs@);
            if s@[0] == '+' {
                assert(!is_digit(s@[0]));
            }
        }
    }
    digits_to_u64(&cs, from)
}

/// `str::parse::<i32>`.
pub fn parse_i32(s: &str) -> (r: Option<i32>)
    ensures
        r == parse_i32_spec(s@),
{
    match parse_i64(s) {
        Some(v) => if -2147483648 <= v && v <= 2147483647 {
            Some(v as i32)
        } else {
            None
        },
        None => {
            proof {
                match int_text_value(s@) {
                    Some(v) => {},
                    None => {},
                }
            }
            None
        },
    }
}

/// `str::parse::<usize>`.
pub fn parse_usize(s: &str) -> (r: Option<usize>)
    ensures
        r == parse_usize_spec(s@),
{
    match parse_u64(s) {
        Some(v) => if v as u128 <= usize::MAX as u128 {
            Some(v as usize)
        } else {
            None
        },
        None => None,
    }
}

/// The character of a decimal digit.
pub open spec fn digit_char(d: nat) -> char {
    if d == 0 {
        '0'
    } else if d == 1 {
        '1'
    } else if d == 2 {
        '2'
    } else if d == 3 {
        '3'
    } else if d == 4 {
        '4'
    } else if d == 5 {
        '5'
    } else if d == 6 {
        '6'
    } else if d == 7 {
        '7'
    } else if d == 8 {
        '8'
    } else {
        '9'
    }
}

/// The decimal text of a natural number, without leading zeros.
pub open spec fn dec_nat(n: nat) -> Seq<char>
    decreases n,
{
    if n < 10 {
        seq![digit_char(n)]
    } else {
        dec_nat(n / 10).push(digit_char(n % 10))
    }
}

/// The decimal text of an integer, with `-` before a negative one.
pub open spec fn dec_int(n: int) -> Seq<char> {
    if n < 0 {
        seq!['-'] + dec_nat((-n) as nat)
    } else {
        dec_nat(n as nat)
    }
}

/// The character of a decimal digit.
pub fn digit_char_of(d: u64) -> (c: char)
    requires
        d < 10,
    ensures
        c == digit_char(d as nat),
{
    if d == 0 {
        '0'
    } else if d == 1 {
        '1'
    } else if d == 2 {
        '2'
    } else if d == 3 {
        '3'
    } else if d == 4 {
        '4'
    } else if d == 5 {
        '5'
    } else if d == 6 {
        '6'
    } else if d == 7 {
        '7'
    } else if d == 8 {
        '8'
    } else {
        '9'
    }
}

/// Appends the decimal text of `n` to `out`.
pub fn push_u64(out: &mut String, n: u64)
    ensures
        final(out)@ == old(out)@ + dec_nat(n as nat),
    decreases n,
{
    if n < 10 {
        push_char(out, digit_char_of(n));
        assert(old(out)@.push(digit_char(n as nat)) == old(out)@ + dec_nat(n as nat));
    } else {
        push_u64(out, n / 10);
        push_char(out, digit_char_of(n % 10));
        assert(old(out)@ + dec_nat(n as nat) == old(out)@ + dec_nat((n / 10) as nat) + seq![
            digit_char((n % 10) as nat),
        ]);
    }
}

/// Appends the decimal text of `n` to `out`.
pub fn push_i64(out: &mut String, n: i64)
    ensures
        final(out)@ == old(out)@ + dec_int(n as int),
{
    if n < 0 {
        push_char(out, '-');
        let m: u64 = if n == i64::MIN {
            9223372036854775808u64
        } else {
            (-n) as u64
        };
        push_u64(out, m);
        assert(old(out)@ + dec_int(n as int) == old(out)@.push('-') + dec_nat(m as nat));
    } else {
        push_u64(out, n as u64);
    }
}

/// The decimal text of `n`.
pub fn fmt_u64(n: u64) -> (r: String)
    ensures
        r@ == dec_nat(n as nat),
{
    let mut s = String::new();
    push_u64(&mut s, n);
    assert(Seq::<char>::empty() + dec_nat(n as nat) == dec_nat(n as nat));
    s
}

/// The decimal text of `n`.
pub fn fmt_i64(n: i64) -> (r: String)
    ensures
        r@ == dec_int(n as int),
{
    let mut s = String::new();
    push_i64(&mut s, n);
    assert(Seq::<char>::empty() + dec_int(n as int) == dec_int(n as int));
    s
}

/// The first `n` characters of `s` followed by `...` when `s` has more than
/// `n` characters; `s` itself otherwise.
pub open spec fn truncate_chars_spec(s: Seq<char>, n: nat) -> Seq<char> {
    if s.len() <= n {
        s
    } else {
        s.take(n as int) + seq!['.', '.', '.']
    }
}

/// Cuts `s` to at most `max_chars` characters, marking a cut with `...`.
pub fn truncate_chars(s: &str, max_chars: usize) -> (r: String)
    ensures
        r@ == truncate_chars_spec(s@, max_chars as nat),
{
    let n = s.unicode_len();
    if n <= max_chars {
        own(s)
    } else {
        let mut out = own(s.substring_char(0, max_chars));
        push_str(&mut out, "...");
        proof {
            reveal_strlit("...");
        }
        out
    }
}

/// For a text longer than `max` characters: its first and last `h` characters
/// around `...`, where `h` is half of `max` minus three (at least zero);
/// the text itself otherwise.
pub open spec fn truncate_middle_spec(s: Seq<char>, max: nat) -> Seq<char> {
    if s.len() <= max {
        s
    } else {
        let h = (if max >= 3 {
            max - 3
        } else {
            0
        }) / 2;
        s.take(h as int) + seq!['.', '.', '.'] + s.skip(s.len() - h)
    }
}

/// Shortens a long text for a log line, keeping its head and its tail.
pub fn truncate_middle(text: &str, max: usize) -> (r: String)
    ensures
        r@ == truncate_middle_spec(text@, max as nat),
{
    let n = text.unicode_len();
    if n <= max {
        own(text)
    } else {
        let half: usize = (if max >= 3 {
            max - 3
        } else {
            0
        }) / 2;
        let mut out = own(text.substring_char(0, half));
        push_str(&mut out, "...");
        push_str(&mut out, text.substring_char(n - half, n));
        proof {
            reveal_strlit("...");
        }
        out
    }
}

pub proof fn lemma_digit_char(d: nat)
    requires
        d < 10,
    ensures
        is_digit(digit_char(d)),
        digit_value(digit_char(d)) == d,
{
}

/// Decimal text read back as a number gives the number.
pub proof fn lemma_dec_nat(n: nat)
    ensures
        dec_nat(n).len() >= 1,
        all_digits(dec_nat(n)),
        digits_value(dec_nat(n)) == n,
        is_digit(dec_nat(n)[0]),
    decreases n,
{
    lemma_digit_char(n % 10);
    if n >= 10 {
        lemma_dec_nat(n / 10);
        let t = dec_nat(n);
        assert(t.last() == digit_char(n % 10));
        assert(t.drop_last() == dec_nat(n / 10));
        assert(t[0] == dec_nat(n / 10)[0]);
        assert forall|i: int| 0 <= i < t.len() implies is_digit(#[trigger] t[i]) by {
            if i < t.len() - 1 {
                assert(t[i] == dec_nat(n / 10)[i]);
            }
        }
        assert(digits_value(t) == digits_value(t.drop_last()) * 10 + digit_value(t.last()));
    } else {
        let t = dec_nat(n);
        assert(t.drop_last() =~= Seq::<char>::empty());
        assert(digits_value(t.drop_last()) == 0);
        assert(digits_value(t) == digits_value(t.drop_last()) * 10 + digit_value(t.last()));
    }
}

/// `int_text_value` reads back the decimal text of any integer.
pub proof fn lemma_dec_int_roundtrip(n: int)
    ensures
        int_text_value(dec_int(n)) == Some(n),
        dec_int(n).len() >= 1,
        dec_int(n)[0] != '+',
{
    if n < 0 {
        let m = (-n) as nat;
        lemma_dec_nat(m);
        let t = dec_int(n);
        assert(t.skip(1) == dec_nat(m));
        assert(t[0] == '-');
    } else {
        lemma_dec_nat(n as nat);
        let t = dec_nat(n as nat);
        assert(!(t[0] == '-'));
        assert(!(t[0] == '+'));
    }
}


/// `s` with every occurrence of `p` replaced by `r`, scanning from the left
/// and never overlapping (`str::replace`; `p` is not empty).
pub open spec fn replace_spec(s: Seq<char>, p: Seq<char>, r: Seq<char>) -> Seq<char>
    recommends
        p.len() > 0,
    decreases s.len(),
{
    if s.len() == 0 || p.len() == 0 {
        s
    } else if has_prefix(s, p) {
        r + replace_spec(s.skip(p.len() as int), p, r)
    } else {
        seq![s[0]] + replace_spec(s.skip(1), p, r)
    }
}

/// Whether `p` occurs in `s` at position `i`.
fn occurs_at(s: &Vec<char>, p: &Vec<char>, i: usize) -> (r: bool)
    requires
        i <= s@.len(),
    ensures
        r == has_prefix(s@.skip(i as int), p@),
{
    let n = s.len();
    let m = p.len();
    if m > n - i {
        return false;
    }
    let mut k: usize = 0;
    while k < m
        invariant
            n == s@.len(),
            m == p@.len(),
            i + m <= n,
            k <= p@.len(),
            forall|j: int| 0 <= j < k ==> s@[i + j] == p@[j],
        decreases p@.len() - k,
    {
        if s[i + k] != p[k] {
            assert(s@.skip(i as int).subrange(0, p@.len() as int)[k as int] == s@[i + k]);
            return false;
        }
        k = k + 1;
    }
    assert(s@.skip(i as int).subrange(0, p@.len() as int) =~= p@);
    true
}

/// `str::replace` with a non-empty pattern.
pub fn replace_all(s: &str, p: &str, r: &str) -> (out: String)
    requires
        p@.len() > 0,
    ensures
        out@ == replace_spec(s@, p@, r@),
{
    let cs = chars_of(s);
    let ps = chars_of(p);
    let mut out = String::new();
    let mut i: usize = 0;
    assert(cs@.skip(0) =~= cs@);
    assert(out@ + replace_spec(s@, p@, r@) =~= replace_spec(s@, p@, r@));
    while i < cs.len()
        invariant
            cs@ == s@,
            ps@ == p@,
            p@.len() > 0,
            i <= cs@.len(),
            out@ + replace_spec(cs@.skip(i as int), p@, r@) == replace_spec(s@, p@, r@),
        decreases cs@.len() - i,
    {
        let ghost rest = cs@.skip(i as int);
        if occurs_at(&cs, &ps, i) {
            let ghost before = out@;
            push_str(&mut out, r);
            assert(rest.skip(p@.len() as int) =~= cs@.skip(i + p@.len()));
            assert(before + (r@ + replace_spec(cs@.skip(i + ps@.len()), p@, r@)) =~= out@
                + replace_spec(cs@.skip(i + ps@.len()), p@, r@));
            i = i + ps.len();
        } else {
            let c = cs[i];
            let ghost before = out@;
            push_char(&mut out, c);
            assert(rest.skip(1) =~= cs@.skip(i + 1));
            assert(rest[0] == c);
            assert(before + (seq![c] + replace_spec(cs@.skip(i + 1), p@, r@)) =~= out@
                + replace_spec(cs@.skip(i + 1), p@, r@));
            i = i + 1;
        }
    }
    assert(cs@.skip(cs@.len() as int) =~= Seq::<char>::empty());
    assert(out@ + Seq::<char>::empty() =~= out@);
    out
}


/// Whether `p` occurs in `s` (`str::contains` with a text pattern).
pub open spec fn contains_text(s: Seq<char>, p: Seq<char>) -> bool {
    exists|i: int| 0 <= i <= s.len() - p.len() && #[trigger] s.subrange(i, i + p.len()) == p
}

/// `str::contains` with a text pattern.
pub fn contains_str(s: &str, p: &str) -> (r: bool)
    ensures
        r == contains_text(s@, p@),
{
    let cs = chars_of(s);
    let ps = chars_of(p);
    let n = cs.len();
    let m = ps.len();
    if m > n {
        proof {
            assert forall|i: int| 0 <= i <= s@.len() - p@.len() implies #[trigger] s@.subrange(i, i + p@.len()) != p@ by {
            }
        }
        return false;
    }
    let mut i: usize = 0;
    while i <= n - m
        invariant
            cs@ == s@,
            ps@ == p@,
            n == s@.len(),
            m == p@.len(),
            m <= n,
            i <= n - m + 1,
            forall|j: int| 0 <= j < i ==> #[trigger] s@.subrange(j, j + m) != p@,
        decreases n - m + 1 - i,
    {
        if occurs_at(&cs, &ps, i) {
            assert(cs@.skip(i as int).subrange(0, m as int) =~= s@.subrange(i as int, i + m));
            return true;
        }
        assert(cs@.skip(i as int).subrange(0, m as int) =~= s@.subrange(i as int, i + m));
        if i == n - m {
            return false;
        }
        i = i + 1;
    }
    false
}

/// What `str::to_lowercase` gives for a text: a function of the text alone,
/// by the Unicode lower-case mappings.
pub uninterp spec fn lowercase(s: Seq<char>) -> Seq<char>;

/// Whether every character of a text is ASCII.
pub open spec fn is_ascii_text(s: Seq<char>) -> bool {
    forall|i: int| 0 <= i < s.len() ==> (#[trigger] s[i] as u32) < 128
}

/// `str::to_lowercase`, by the standard library; its result is named, not
/// stated, apart from what its documentation gives for ASCII text: each
/// capital becomes its small letter and every other character stays.
#[verifier::external_body]
pub(crate) fn to_lowercase(s: &str) -> (r: String)
    ensures
        r@ == lowercase(s@),
        is_ascii_text(s@) ==> r@ == s@.map_values(|c: char| ascii_lower(c)),
{
    s.to_lowercase()
}


/// Unicode white space (`char::is_whitespace`).
pub open spec fn is_ws(c: char) -> bool {
    ('\u{9}' <= c && c <= '\u{d}') || c == ' ' || c == '\u{85}' || c == '\u{a0}' || c == '\u{1680}' || (
    '\u{2000}' <= c && c <= '\u{200a}') || c == '\u{2028}' || c == '\u{2029}' || c == '\u{202f}' || c
        == '\u{205f}' || c == '\u{3000}'
}

fn ws(c: char) -> (r: bool)
    ensures
        r == is_ws(c),
{
    ('\u{9}' <= c && c <= '\u{d}') || c == ' ' || c == '\u{85}' || c == '\u{a0}' || c == '\u{1680}' || (
    '\u{2000}' <= c && c <= '\u{200a}') || c == '\u{2028}' || c == '\u{2029}' || c == '\u{202f}' || c
        == '\u{205f}' || c == '\u{3000}'
}

/// The first position from which `s` holds no leading white space.
pub open spec fn trim_start_at(s: Seq<char>, i: int) -> int
    decreases s.len() - i,
{
    if i >= s.len() || !is_ws(s[i]) {
        i
    } else {
        trim_start_at(s, i + 1)
    }
}

/// The position after the last character that is not white space, looking
/// back from `j`.
pub open spec fn trim_end_at(s: Seq<char>, lo: int, j: int) -> int
    decreases j - lo,
{
    if j <= lo || !is_ws(s[j - 1]) {
        j
    } else {
        trim_end_at(s, lo, j - 1)
    }
}

/// `s` without leading and trailing white space (`str::trim`).
pub open spec fn trim_spec(s: Seq<char>) -> Seq<char> {
    let lo = trim_start_at(s, 0);
    let hi = trim_end_at(s, lo, s.len() as int);
    s.subrange(lo, hi)
}

/// `str::trim`.
pub fn trim(s: &str) -> (r: String)
    ensures
        r@ == trim_spec(s@),
{
    let cs = chars_of(s);
    let n = cs.len();
    let mut lo: usize = 0;
    while lo < n && ws(cs[lo])
        invariant
            cs@ == s@,
            n == s@.len(),
            lo <= n,
            trim_start_at(s@, lo as int) == trim_start_at(s@, 0),
        decreases n - lo,
    {
        lo = lo + 1;
    }
    let mut hi: usize = n;
    while hi > lo && ws(cs[hi - 1])
        invariant
            cs@ == s@,
            n == s@.len(),
            lo <= hi <= n,
            lo == trim_start_at(s@, 0),
            trim_end_at(s@, lo as int, hi as int) == trim_end_at(s@, lo as int, n as int),
        decreases hi - lo,
    {
        hi = hi - 1;
    }
    let mut out = String::new();
    let mut k: usize = lo;
    while k < hi
        invariant
            cs@ == s@,
            lo <= k <= hi <= n,
            n == s@.len(),
            out@ == s@.subrange(lo as int, k as int),
        decreases hi - k,
    {
        push_char(&mut out, cs[k]);
        assert(out@ =~= s@.subrange(lo as int, k + 1));
        k = k + 1;
    }
    out
}


/// A character with the ASCII capitals made small.
pub open spec fn ascii_lower(c: char) -> char {
    if 'A' <= c && c <= 'Z' {
        ((c as u32) + 32) as char
    } else {
        c
    }
}

/// Whether two texts are equal when ASCII capitals are made small
/// (`str::eq_ignore_ascii_case`).
pub open spec fn eq_ignore_ascii_case_spec(a: Seq<char>, b: Seq<char>) -> bool {
    a.len() == b.len() && forall|i: int| 0 <= i < a.len() ==> ascii_lower(#[trigger] a[i]) == ascii_lower(b[i])
}

fn lower_char(c: char) -> (r: char)
    ensures
        r == ascii_lower(c),
{
    if 'A' <= c && c <= 'Z' {
        let u = c as u32;
        let l = (u + 32) as u8;
        l as char
    } else {
        c
    }
}

/// `str::eq_ignore_ascii_case`.
pub fn eq_ignore_ascii_case(a: &str, b: &str) -> (r: bool)
    ensures
        r == eq_ignore_ascii_case_spec(a@, b@),
{
    let xs = chars_of(a);
    let ys = chars_of(b);
    if xs.len() != ys.len() {
        return false;
    }
    let mut i: usize = 0;
    while i < xs.len()
        invariant
            xs@ == a@,
            ys@ == b@,
            xs@.len() == ys@.len(),
            i <= xs@.len(),
            forall|j: int| 0 <= j < i ==> ascii_lower(#[trigger] a@[j]) == ascii_lower(b@[j]),
        decreases xs@.len() - i,
    {
        if lower_char(xs[i]) != lower_char(ys[i]) {
            return false;
        }
        i = i + 1;
    }
    true
}

/// What `str::to_uppercase` gives for a text: a function of the text alone,
/// by the Unicode upper-case mappings.
pub uninterp spec fn uppercase(s: Seq<char>) -> Seq<char>;

/// A small ASCII letter made a capital; any other character stays.
pub open spec fn ascii_upper(c: char) -> char {
    if 'a' <= c && c <= 'z' {
        ((c as u32) - 32) as char
    } else {
        c
    }
}

/// `str::to_uppercase`, by the standard library; its result is named, not
/// stated, apart from what its documentation gives for ASCII text: each
/// small letter becomes its capital and every other character stays.
#[verifier::external_body]
pub(crate) fn to_uppercase(s: &str) -> (r: String)
    ensures
        r@ == uppercase(s@),
        is_ascii_text(s@) ==> r@ == s@.map_values(|c: char| ascii_upper(c)),
{
    s.to_uppercase()
}

/// A cut text keeps the first `n` characters of the original and ends in
/// `...`, three characters longer than the cut; a text that fits is kept
/// whole.
pub proof fn law_truncate_chars_keeps_head(s: Seq<char>, n: nat)
    ensures
        s.len() <= n ==> truncate_chars_spec(s, n) == s,
        s.len() > n ==> {
            let r = truncate_chars_spec(s, n);
            &&& r.len() == n + 3
            &&& forall|i: int| 0 <= i < n ==> #[trigger] r[i] == s[i]
            &&& r[n as int] == '.' && r[n as int + 1] == '.' && r[n as int + 2] == '.'
        },
{
}

/// A text shortened in the middle fits in `max` characters (when `max` is at
/// least three) and wastes at most one of them; it is its own first and last
/// `h` characters around `...`, with `h` the same on both sides.
pub proof fn law_truncate_middle_shape(s: Seq<char>, max: nat)
    ensures
        s.len() <= max ==> truncate_middle_spec(s, max) == s,
        s.len() > max && max >= 3 ==> {
            let r = truncate_middle_spec(s, max);
            let h = (r.len() - 3) / 2;
            &&& r.len() <= max && r.len() + 1 >= max
            &&& r.len() == 2 * h + 3
            &&& forall|i: int| 0 <= i < h ==> #[trigger] r[i] == s[i]
            &&& r[h] == '.' && r[h + 1] == '.' && r[h + 2] == '.'
            &&& forall|i: int| 0 <= i < h ==> #[trigger] r[h + 3 + i] == s[s.len() - h + i]
        },
{
    if s.len() > max && max >= 3 {
        let r = truncate_middle_spec(s, max);
        let h0: int = ((max - 3) as nat / 2) as int;
        assert(r.len() == 2 * h0 + 3);
        assert((r.len() - 3) / 2 == h0);
    }
}

} // verus!
