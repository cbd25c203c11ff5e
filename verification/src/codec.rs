//! The stable external encoding of a [Value]: a JSON object with a
//! three-way tag, `{"String":"..."}`, `{"Integer":-42}` or `{"Bool":true}`.
//!
//! The encoder escapes exactly the quote, the backslash and the control
//! characters, the five common ones by their short escapes and the rest as
//! `\u00xx` with lower-case hex digits.  The decoder accepts exactly the
//! encoder's output, so decoding is a full inverse: see
//! [`lemma_value_round_trip`].

use vstd::prelude::*;
use vstd::string::StrSliceExecFns;
use vstd::string::StringExecFns;
use crate::value::Value;
use crate::value::ValueModel;
use crate::numbers::dec_digits;
use crate::numbers::dec_val;
use crate::numbers::valid_dec;
use crate::numbers::is_digit;
use crate::numbers::lemma_dec_digits_valid;
use crate::numbers::lemma_dec_val_of_digits;
use crate::numbers::format_dec;
use crate::numbers::parse_canon_u64;
use crate::text::push_char;
use crate::text::str_to_chars;

verus! {

pub open spec fn hex_lo(d: nat) -> char {
    if d == 0 { '0' }
    else if d == 1 { '1' }
    else if d == 2 { '2' }
    else if d == 3 { '3' }
    else if d == 4 { '4' }
    else if d == 5 { '5' }
    else if d == 6 { '6' }
    else if d == 7 { '7' }
    else if d == 8 { '8' }
    else if d == 9 { '9' }
    else if d == 10 { 'a' }
    else if d == 11 { 'b' }
    else if d == 12 { 'c' }
    else if d == 13 { 'd' }
    else if d == 14 { 'e' }
    else { 'f' }
}

pub open spec fn hexv(c: char) -> nat {
    if c == '0' { 0 }
    else if c == '1' { 1 }
    else if c == '2' { 2 }
    else if c == '3' { 3 }
    else if c == '4' { 4 }
    else if c == '5' { 5 }
    else if c == '6' { 6 }
    else if c == '7' { 7 }
    else if c == '8' { 8 }
    else if c == '9' { 9 }
    else if c == 'a' { 10 }
    else if c == 'b' { 11 }
    else if c == 'c' { 12 }
    else if c == 'd' { 13 }
    else if c == 'e' { 14 }
    else if c == 'f' { 15 }
    else { 16 }
}

pub open spec fn is_hex_lo(c: char) -> bool {
    hexv(c) < 16
}

/// The escape codes that have a short two-character form.
pub open spec fn short_escape_code(n: nat) -> bool {
    n == 8 || n == 9 || n == 10 || n == 12 || n == 13
}

/// How one character is written inside an encoded string.
pub open spec fn esc_char(c: char) -> Seq<char> {
    if c == '"' { seq!['\\', '"'] }
    else if c == '\\' { seq!['\\', '\\'] }
    else if c == '\u{8}' { seq!['\\', 'b'] }
    else if c == '\u{9}' { seq!['\\', 't'] }
    else if c == '\u{a}' { seq!['\\', 'n'] }
    else if c == '\u{c}' { seq!['\\', 'f'] }
    else if c == '\u{d}' { seq!['\\', 'r'] }
    else if (c as u32) < 0x20 {
        seq!['\\', 'u', '0', '0', hex_lo((c as u32 / 16) as nat), hex_lo((c as u32 % 16) as nat)]
    } else {
        seq![c]
    }
}

pub open spec fn json_escape(s: Seq<char>) -> Seq<char>
    decreases s.len(),
{
    if s.len() == 0 {
        Seq::empty()
    } else {
        esc_char(s[0]) + json_escape(s.drop_first())
    }
}

pub open spec fn cons_opt(c: char, r: Option<Seq<char>>) -> Option<Seq<char>> {
    match r {
        Some(t) => Some(seq![c] + t),
        None => None,
    }
}

/// The strict inverse of [`json_escape`]: rejects raw quotes, raw control
/// characters, and any escape the encoder would not produce.
pub open spec fn json_unescape(s: Seq<char>) -> Option<Seq<char>>
    decreases s.len(),
{
    if s.len() == 0 {
        Some(Seq::empty())
    } else if s[0] == '"' {
        None
    } else if s[0] == '\\' {
        if s.len() < 2 {
            None
        } else {
            let e = s[1];
            if e == '"' { cons_opt('"', json_unescape(s.skip(2))) }
            else if e == '\\' { cons_opt('\\', json_unescape(s.skip(2))) }
            else if e == 'b' { cons_opt('\u{8}', json_unescape(s.skip(2))) }
            else if e == 't' { cons_opt('\u{9}', json_unescape(s.skip(2))) }
            else if e == 'n' { cons_opt('\u{a}', json_unescape(s.skip(2))) }
            else if e == 'f' { cons_opt('\u{c}', json_unescape(s.skip(2))) }
            else if e == 'r' { cons_opt('\u{d}', json_unescape(s.skip(2))) }
            else if e == 'u' {
                if s.len() < 6 {
                    None
                } else if s[2] == '0' && s[3] == '0' && is_hex_lo(s[4]) && is_hex_lo(s[5]) {
                    let code = hexv(s[4]) * 16 + hexv(s[5]);
                    if code < 0x20 && !short_escape_code(code) {
                        cons_opt(((code as u8) as char), json_unescape(s.skip(6)))
                    } else {
                        None
                    }
                } else {
                    None
                }
            } else {
                None
            }
        }
    } else if (s[0] as u32) < 0x20 {
        None
    } else {
        cons_opt(s[0], json_unescape(s.skip(1)))
    }
}

/// Decimal text of a 64-bit signed integer, with a leading minus when negative.
pub open spec fn int_chars(i: int) -> Seq<char> {
    if i >= 0 {
        dec_digits(i as nat)
    } else {
        seq!['-'] + dec_digits((-i) as nat)
    }
}

pub open spec fn str_open() -> Seq<char> {
    seq!['{', '"', 'S', 't', 'r', 'i', 'n', 'g', '"', ':', '"']
}

pub open spec fn int_open() -> Seq<char> {
    seq!['{', '"', 'I', 'n', 't', 'e', 'g', 'e', 'r', '"', ':']
}

pub open spec fn bool_true_json() -> Seq<char> {
    seq!['{', '"', 'B', 'o', 'o', 'l', '"', ':', 't', 'r', 'u', 'e', '}']
}

pub open spec fn bool_false_json() -> Seq<char> {
    seq!['{', '"', 'B', 'o', 'o', 'l', '"', ':', 'f', 'a', 'l', 's', 'e', '}']
}

/// The canonical encoding of a value.
pub open spec fn value_json(v: ValueModel) -> Seq<char> {
    match v {
        ValueModel::Str(s) => str_open() + json_escape(s) + seq!['"', '}'],
        ValueModel::Int(i) => int_open() + int_chars(i) + seq!['}'],
        ValueModel::Bool(b) => if b { bool_true_json() } else { bool_false_json() },
    }
}

/// Strict parse of the text between `{"Integer":` and `}`.
pub open spec fn int_parse(s: Seq<char>) -> Option<int> {
    if valid_dec(s) && dec_val(s) <= i64::MAX {
        Some(dec_val(s) as int)
    } else if s.len() >= 2 && s[0] == '-' && valid_dec(s.skip(1)) && 1 <= dec_val(s.skip(1))
        && dec_val(s.skip(1)) <= 0x8000_0000_0000_0000 {
        Some(-(dec_val(s.skip(1)) as int))
    } else {
        None
    }
}

/// The decoding of stored text: accepts exactly the canonical encodings.
pub open spec fn json_decode(s: Seq<char>) -> Option<ValueModel> {
    if int_open().is_prefix_of(s) && s.len() >= 12 && s[s.len() - 1] == '}' {
        match int_parse(s.subrange(11, s.len() - 1)) {
            Some(i) => Some(ValueModel::Int(i)),
            None => None,
        }
    } else if s == bool_true_json() {
        Some(ValueModel::Bool(true))
    } else if s == bool_false_json() {
        Some(ValueModel::Bool(false))
    } else if str_open().is_prefix_of(s) && s.len() >= 13 && s[s.len() - 2] == '"'
        && s[s.len() - 1] == '}' {
        match json_unescape(s.subrange(11, s.len() - 2)) {
            Some(t) => Some(ValueModel::Str(t)),
            None => None,
        }
    } else {
        None
    }
}

pub open spec fn opt_model(r: Option<Value>) -> Option<ValueModel> {
    match r {
        Some(v) => Some(v@),
        None => None,
    }
}

proof fn lemma_hex_round(d: nat)
    requires
        d < 16,
    ensures
        is_hex_lo(hex_lo(d)),
        hexv(hex_lo(d)) == d,
{
}

/// Unescaping consumes one escaped character at a time.
proof fn lemma_unescape_esc_step(c: char, tail: Seq<char>)
    ensures
        json_unescape(esc_char(c) + tail) == cons_opt(c, json_unescape(tail)),
{
    let e = esc_char(c);
    let s = e + tail;
    if c == '"' || c == '\\' || c == '\u{8}' || c == '\u{9}' || c == '\u{a}' || c == '\u{c}'
        || c == '\u{d}' {
        assert(s[0] == '\\');
        assert(s.len() >= 2);
        assert(s.skip(2) =~= tail);
    } else if (c as u32) < 0x20 {
        let cu = c as u32;
        assert(s.len() >= 6);
        assert(s[0] == '\\' && s[1] == 'u' && s[2] == '0' && s[3] == '0');
        let hi = (cu / 16) as nat;
        let lo = (cu % 16) as nat;
        assert(hi < 16 && lo < 16);
        lemma_hex_round(hi);
        lemma_hex_round(lo);
        assert(s[4] == hex_lo(hi) && s[5] == hex_lo(lo));
        let code = hexv(s[4]) * 16 + hexv(s[5]);
        assert(code == hi * 16 + lo);
        assert(hi * 16 + lo == cu) by (nonlinear_arith)
            requires
                hi == cu / 16,
                lo == cu % 16,
                cu < 0x20,
        ;
        assert(code < 0x20);
        assert(!short_escape_code(code));
        assert(((code as u8) as char) == c);
        assert(s.skip(6) =~= tail);
    } else {
        assert(s[0] == c);
        assert(c != '"' && c != '\\');
        assert(!((s[0] as u32) < 0x20));
        assert(s.skip(1) =~= tail);
    }
}

/// Unescaping inverts escaping.
pub proof fn lemma_unescape_escape(s: Seq<char>)
    ensures
        json_unescape(json_escape(s)) == Some(s),
    decreases s.len(),
{
    if s.len() == 0 {
        assert(json_escape(s) =~= Seq::<char>::empty());
    } else {
        lemma_unescape_escape(s.drop_first());
        lemma_unescape_esc_step(s[0], json_escape(s.drop_first()));
        assert(seq![s[0]] + s.drop_first() =~= s);
    }
}

/// Escaping one more character extends the escaped text at the end.
pub proof fn lemma_escape_snoc(s: Seq<char>, c: char)
    ensures
        json_escape(s.push(c)) == json_escape(s) + esc_char(c),
    decreases s.len(),
{
    if s.len() == 0 {
        assert(s.push(c)[0] == c);
        assert(s.push(c).drop_first() =~= Seq::<char>::empty());
        assert(json_escape(s.push(c)) == esc_char(c) + json_escape(Seq::<char>::empty()));
        assert(esc_char(c) + Seq::<char>::empty() =~= esc_char(c));
        assert(json_escape(s) + esc_char(c) =~= esc_char(c));
    } else {
        lemma_escape_snoc(s.drop_first(), c);
        assert(s.push(c).drop_first() =~= s.drop_first().push(c));
        assert(s.push(c)[0] == s[0]);
        assert(json_escape(s.push(c)) =~= json_escape(s) + esc_char(c));
    }
}

/// Decoding inverts encoding: the field round-trip law at the level of the
/// stored text.
pub proof fn lemma_value_round_trip(v: ValueModel)
    requires
        v.wf(),
    ensures
        json_decode(value_json(v)) == Some(v),
{
    let s = value_json(v);
    match v {
        ValueModel::Int(i) => {
            let body = int_chars(i);
            if i >= 0 {
                lemma_dec_digits_valid(i as nat);
                lemma_dec_val_of_digits(i as nat);
            } else {
                lemma_dec_digits_valid((-i) as nat);
                lemma_dec_val_of_digits((-i) as nat);
            }
            assert(body.len() >= 1);
            assert(int_open().is_prefix_of(s));
            assert(s.len() >= 12);
            assert(s[s.len() - 1] == '}');
            assert(s.subrange(11, s.len() - 1) =~= body);
            if i >= 0 {
                assert(valid_dec(body));
                assert(dec_val(body) == i);
                assert(int_parse(body) == Some(i));
            } else {
                assert(body[0] == '-');
                assert(!is_digit('-'));
                assert(!valid_dec(body));
                assert(body.skip(1) =~= dec_digits((-i) as nat));
                assert(valid_dec(body.skip(1)));
                assert(dec_val(body.skip(1)) == -i);
                assert(1 <= -i <= 0x8000_0000_0000_0000);
                assert(int_parse(body) == Some(i));
            }
        },
        ValueModel::Bool(b) => {
            if b {
                assert(s == bool_true_json());
                assert(!int_open().is_prefix_of(s));
            } else {
                assert(s == bool_false_json());
                assert(!int_open().is_prefix_of(s));
            }
        },
        ValueModel::Str(t) => {
            let esc = json_escape(t);
            assert(!int_open().is_prefix_of(s));
            assert(s.len() == 13 + esc.len());
            assert(s != bool_true_json());
            assert(s != bool_false_json());
            assert(str_open().is_prefix_of(s));
            assert(s[s.len() - 2] == '"');
            assert(s[s.len() - 1] == '}');
            assert(s.subrange(11, s.len() - 2) =~= esc);
            lemma_unescape_escape(t);
        },
    }
}

/// The canonical encoding tells well-formed values apart.
pub proof fn lemma_value_json_injective(a: ValueModel, b: ValueModel)
    requires
        a.wf(),
        b.wf(),
        value_json(a) == value_json(b),
    ensures
        a == b,
{
    lemma_value_round_trip(a);
    lemma_value_round_trip(b);
}

fn hex_lo_char(d: u64) -> (c: char)
    requires
        d < 16,
    ensures
        c == hex_lo(d as nat),
{
    if d == 0 { '0' }
    else if d == 1 { '1' }
    else if d == 2 { '2' }
    else if d == 3 { '3' }
    else if d == 4 { '4' }
    else if d == 5 { '5' }
    else if d == 6 { '6' }
    else if d == 7 { '7' }
    else if d == 8 { '8' }
    else if d == 9 { '9' }
    else if d == 10 { 'a' }
    else if d == 11 { 'b' }
    else if d == 12 { 'c' }
    else if d == 13 { 'd' }
    else if d == 14 { 'e' }
    else { 'f' }
}

fn hex_val_char(c: char) -> (r: Option<u64>)
    ensures
        match r {
            Some(d) => is_hex_lo(c) && d == hexv(c) && d < 16,
            None => !is_hex_lo(c),
        },
{
    if c == '0' { Some(0) }
    else if c == '1' { Some(1) }
    else if c == '2' { Some(2) }
    else if c == '3' { Some(3) }
    else if c == '4' { Some(4) }
    else if c == '5' { Some(5) }
    else if c == '6' { Some(6) }
    else if c == '7' { Some(7) }
    else if c == '8' { Some(8) }
    else if c == '9' { Some(9) }
    else if c == 'a' { Some(10) }
    else if c == 'b' { Some(11) }
    else if c == 'c' { Some(12) }
    else if c == 'd' { Some(13) }
    else if c == 'e' { Some(14) }
    else if c == 'f' { Some(15) }
    else { None }
}

/// Appends the escaped form of one character.
fn escape_push(out: &mut String, c: char)
    ensures
        final(out)@ == old(out)@ + esc_char(c),
{
    if c == '"' {
        push_char(out, '\\');
        push_char(out, '"');
    } else if c == '\\' {
        push_char(out, '\\');
        push_char(out, '\\');
    } else if c == '\u{8}' {
        push_char(out, '\\');
        push_char(out, 'b');
    } else if c == '\u{9}' {
        push_char(out, '\\');
        push_char(out, 't');
    } else if c == '\u{a}' {
        push_char(out, '\\');
        push_char(out, 'n');
    } else if c == '\u{c}' {
        push_char(out, '\\');
        push_char(out, 'f');
    } else if c == '\u{d}' {
        push_char(out, '\\');
        push_char(out, 'r');
    } else if (c as u32) < 0x20 {
        let code = c as u32;
        push_char(out, '\\');
        push_char(out, 'u');
        push_char(out, '0');
        push_char(out, '0');
        push_char(out, hex_lo_char((code / 16) as u64));
        push_char(out, hex_lo_char((code % 16) as u64));
    } else {
        push_char(out, c);
    }
    assert(final(out)@ =~= old(out)@ + esc_char(c));
}

/// Renders a 64-bit signed integer as decimal text.
pub fn format_i64(i: i64) -> (r: String)
    ensures
        r@ == int_chars(i as int),
{
    if i >= 0 {
        format_dec(i as u64)
    } else {
        let mag = (-(i as i128)) as u64;
        assert(mag as nat == (-(i as int)) as nat);
        let mut s = String::new();
        push_char(&mut s, '-');
        let digits = format_dec(mag);
        let out = s.concat(digits.as_str());
        assert(out@ =~= int_chars(i as int));
        out
    }
}

/// Encodes a value as its canonical stored text.
pub fn encode_value(v: &Value) -> (r: String)
    ensures
        r@ == value_json(v@),
{
    match v {
        Value::Integer(i) => {
            let mut out = String::from_str("{\"Integer\":");
            proof {
                reveal_strlit("{\"Integer\":");
                assert(out@ =~= int_open());
            }
            let digits = format_i64(*i);
            out.append(digits.as_str());
            push_char(&mut out, '}');
            assert(out@ =~= value_json(v@));
            out
        },
        Value::Bool(b) => {
            if *b {
                let out = String::from_str("{\"Bool\":true}");
                proof {
                    reveal_strlit("{\"Bool\":true}");
                    assert(out@ =~= bool_true_json());
                }
                out
            } else {
                let out = String::from_str("{\"Bool\":false}");
                proof {
                    reveal_strlit("{\"Bool\":false}");
                    assert(out@ =~= bool_false_json());
                }
                out
            }
        },
        Value::String(s) => {
            let mut out = String::from_str("{\"String\":\"");
            proof {
                reveal_strlit("{\"String\":\"");
                assert(out@ =~= str_open());
            }
            let chars = str_to_chars(s.as_str());
            let n = chars.len();
            let mut i: usize = 0;
            assert(s@.subrange(0, 0) =~= Seq::<char>::empty());
            while i < n
                invariant
                    i <= n,
                    n == chars@.len(),
                    chars@ == s@,
                    out@ == str_open() + json_escape(s@.subrange(0, i as int)),
                decreases n - i,
            {
                let ghost pre = s@.subrange(0, i as int);
                escape_push(&mut out, chars[i]);
                proof {
                    lemma_escape_snoc(pre, s@[i as int]);
                    assert(pre.push(s@[i as int]) =~= s@.subrange(0, i + 1 as int));
                }
                i = i + 1;
            }
            assert(s@.subrange(0, n as int) =~= s@);
            push_char(&mut out, '"');
            push_char(&mut out, '}');
            assert(out@ =~= value_json(v@));
            out
        },
    }
}

/// Tests whether the characters of `p` lead the vector.
fn chars_have_prefix(v: &Vec<char>, p: &str) -> (r: bool)
    ensures
        r == p@.is_prefix_of(v@),
{
    let pc = str_to_chars(p);
    let m = pc.len();
    if m > v.len() {
        assert(!p@.is_prefix_of(v@));
        return false;
    }
    let mut i: usize = 0;
    while i < m
        invariant
            i <= m,
            m == pc@.len(),
            pc@ == p@,
            m <= v@.len(),
            forall|j: int| 0 <= j < i ==> p@[j] == v@[j],
        decreases m - i,
    {
        if pc[i] != v[i] {
            assert(p@[i as int] != v@[i as int]);
            assert(!p@.is_prefix_of(v@));
            return false;
        }
        i = i + 1;
    }
    assert(p@ =~= v@.subrange(0, m as int));
    true
}

/// Undoes [`json_escape`] on `v[start..end]`.
fn unescape_range(v: &Vec<char>, start: usize, end: usize) -> (r: Option<String>)
    requires
        start <= end <= v@.len(),
    ensures
        ({
            let s = v@.subrange(start as int, end as int);
            match r {
                Some(t) => json_unescape(s) == Some(t@),
                None => json_unescape(s) is None,
            }
        }),
{
    let ghost s = v@.subrange(start as int, end as int);
    let mut out = String::new();
    let mut i: usize = start;
    while i < end
        invariant
            start <= i <= end <= v@.len(),
            s == v@.subrange(start as int, end as int),
            json_unescape(s) == match json_unescape(v@.subrange(i as int, end as int)) {
                Some(t) => Some(out@ + t),
                None => None::<Seq<char>>,
            },
        decreases end - i,
    {
        let ghost rem = v@.subrange(i as int, end as int);
        assert(rem[0] == v@[i as int]);
        let c = v[i];
        if c == '"' {
            return None;
        } else if c == '\\' {
            if i + 1 >= end {
                assert(rem.len() < 2);
                return None;
            }
            assert(rem[1] == v@[i + 1]);
            let e = v[i + 1];
            let step: char;
            if e == '"' { step = '"'; }
            else if e == '\\' { step = '\\'; }
            else if e == 'b' { step = '\u{8}'; }
            else if e == 't' { step = '\u{9}'; }
            else if e == 'n' { step = '\u{a}'; }
            else if e == 'f' { step = '\u{c}'; }
            else if e == 'r' { step = '\u{d}'; }
            else if e == 'u' {
                if end - i < 6 {
                    assert(rem.len() < 6);
                    return None;
                }
                assert(rem[2] == v@[i + 2] && rem[3] == v@[i + 3] && rem[4] == v@[i + 4]
                    && rem[5] == v@[i + 5]);
                if !(v[i + 2] == '0' && v[i + 3] == '0') {
                    return None;
                }
                let h1 = match hex_val_char(v[i + 4]) {
                    Some(h) => h,
                    None => { return None; },
                };
                let h2 = match hex_val_char(v[i + 5]) {
                    Some(h) => h,
                    None => { return None; },
                };
                let code = h1 * 16 + h2;
                if !(code < 0x20 && !(code == 8 || code == 9 || code == 10 || code == 12
                    || code == 13)) {
                    return None;
                }
                let decoded = (code as u8) as char;
                let ghost out0 = out@;
                push_char(&mut out, decoded);
                proof {
                    let next = v@.subrange(i + 6 as int, end as int);
                    assert(next =~= rem.skip(6));
                    assert(json_unescape(rem) == cons_opt(decoded, json_unescape(next)));
                    lemma_unescape_compose(out0, decoded, s, json_unescape(rem),
                        json_unescape(next));
                }
                i = i + 6;
                continue;
            } else {
                return None;
            }
            let ghost out0 = out@;
            push_char(&mut out, step);
            proof {
                let next = v@.subrange(i + 2 as int, end as int);
                assert(next =~= rem.skip(2));
                assert(json_unescape(rem) == cons_opt(step, json_unescape(next)));
                lemma_unescape_compose(out0, step, s, json_unescape(rem), json_unescape(next));
            }
            i = i + 2;
        } else if (c as u32) < 0x20 {
            return None;
        } else {
            let ghost out0 = out@;
            push_char(&mut out, c);
            proof {
                let next = v@.subrange(i + 1 as int, end as int);
                assert(next =~= rem.skip(1));
                assert(json_unescape(rem) == cons_opt(c, json_unescape(next)));
                lemma_unescape_compose(out0, c, s, json_unescape(rem), json_unescape(next));
            }
            i = i + 1;
        }
    }
    assert(v@.subrange(i as int, end as int) =~= Seq::<char>::empty());
    assert(json_unescape(s) == Some(out@)) by {
        assert(out@ + Seq::<char>::empty() =~= out@);
    }
    Some(out)
}

/// Parses the signed decimal text `v[start..end]` as a 64-bit integer.
fn parse_int_range(v: &Vec<char>, start: usize, end: usize) -> (r: Option<i64>)
    requires
        start <= end <= v@.len(),
    ensures
        ({
            let s = v@.subrange(start as int, end as int);
            match r {
                Some(i) => int_parse(s) == Some(i as int),
                None => int_parse(s) is None,
            }
        }),
{
    let ghost s = v@.subrange(start as int, end as int);
    if start == end {
        return None;
    }
    if v[start] == '-' {
        assert(s[0] == '-');
        assert(!is_digit('-'));
        assert(!valid_dec(s));
        let mag = match parse_canon_u64(v, start + 1, end) {
            Some(m) => m,
            None => {
                proof {
                    assert(s.skip(1) =~= v@.subrange(start + 1 as int, end as int));
                    if valid_dec(s.skip(1)) {
                        assert(dec_val(s.skip(1)) > u64::MAX);
                    }
                }
                return None;
            },
        };
        proof {
            assert(s.skip(1) =~= v@.subrange(start + 1 as int, end as int));
        }
        if mag == 0 {
            return None;
        }
        if mag > 0x8000_0000_0000_0000u64 {
            return None;
        }
        if mag == 0x8000_0000_0000_0000u64 {
            Some(i64::MIN)
        } else {
            Some(-(mag as i64))
        }
    } else {
        assert(s[0] != '-');
        let val = match parse_canon_u64(v, start, end) {
            Some(m) => m,
            None => {
                proof {
                    assert(s =~= v@.subrange(start as int, end as int));
                    if valid_dec(s) {
                        assert(dec_val(s) > u64::MAX);
                    }
                }
                return None;
            },
        };
        if val <= i64::MAX as u64 {
            Some(val as i64)
        } else {
            None
        }
    }
}

/// Decodes stored text back into a value, when it is a canonical encoding.
pub fn decode_value(s: &str) -> (r: Option<Value>)
    ensures
        opt_model(r) == json_decode(s@),
{
    let v = str_to_chars(s);
    let n = v.len();
    let int_pref = chars_have_prefix(&v, "{\"Integer\":");
    proof {
        reveal_strlit("{\"Integer\":");
        assert("{\"Integer\":"@ =~= int_open());
    }
    if int_pref && n >= 12 && v[n - 1] == '}' {
        assert(s@[n - 1] == '}');
        match parse_int_range(&v, 11, n - 1) {
            Some(i) => Some(Value::Integer(i)),
            None => None,
        }
    } else {
        let is_true = n == 13 && chars_have_prefix(&v, "{\"Bool\":true}");
        proof {
            reveal_strlit("{\"Bool\":true}");
            assert("{\"Bool\":true}"@ =~= bool_true_json());
            if is_true {
                assert(s@ =~= bool_true_json());
            } else {
                assert(s@ != bool_true_json());
            }
        }
        if is_true {
            return Some(Value::Bool(true));
        }
        let is_false = n == 14 && chars_have_prefix(&v, "{\"Bool\":false}");
        proof {
            reveal_strlit("{\"Bool\":false}");
            assert("{\"Bool\":false}"@ =~= bool_false_json());
            if is_false {
                assert(s@ =~= bool_false_json());
            } else {
                assert(s@ != bool_false_json());
            }
        }
        if is_false {
            return Some(Value::Bool(false));
        }
        let str_pref = chars_have_prefix(&v, "{\"String\":\"");
        proof {
            reveal_strlit("{\"String\":\"");
            assert("{\"String\":\""@ =~= str_open());
        }
        if str_pref && n >= 13 && v[n - 2] == '"' && v[n - 1] == '}' {
            match unescape_range(&v, 11, n - 2) {
                Some(t) => Some(Value::String(t)),
                None => None,
            }
        } else {
            None
        }
    }
}

/// After one unescape step, the accumulated prefix absorbs the produced
/// character.
proof fn lemma_unescape_compose(
    out0: Seq<char>,
    c: char,
    whole: Seq<char>,
    rem_r: Option<Seq<char>>,
    next_r: Option<Seq<char>>,
)
    requires
        rem_r == cons_opt(c, next_r),
        json_unescape(whole) == match rem_r {
            Some(t) => Some(out0 + t),
            None => None::<Seq<char>>,
        },
    ensures
        json_unescape(whole) == match next_r {
            Some(t) => Some(out0.push(c) + t),
            None => None::<Seq<char>>,
        },
{
    match next_r {
        Some(t) => {
            assert(out0 + (seq![c] + t) =~= out0.push(c) + t);
        },
        None => {},
    }
}

} // verus!
