//! Decimal text for object ids and counters.
//!
//! Ids and the allocation counter are persisted as decimal ASCII text, so the
//! store's contracts are stated over `dec_digits`, the canonical decimal
//! rendering of a natural number, and `dec_val`, its inverse.

use vstd::prelude::*;
use crate::text::push_char;
use crate::text::str_to_chars;

verus! {

pub open spec fn digit_char(d: nat) -> char {
    if d == 0 { '0' }
    else if d == 1 { '1' }
    else if d == 2 { '2' }
    else if d == 3 { '3' }
    else if d == 4 { '4' }
    else if d == 5 { '5' }
    else if d == 6 { '6' }
    else if d == 7 { '7' }
    else if d == 8 { '8' }
    else { '9' }
}

pub open spec fn digit_val(c: char) -> nat {
    if c == '0' { 0 }
    else if c == '1' { 1 }
    else if c == '2' { 2 }
    else if c == '3' { 3 }
    else if c == '4' { 4 }
    else if c == '5' { 5 }
    else if c == '6' { 6 }
    else if c == '7' { 7 }
    else if c == '8' { 8 }
    else if c == '9' { 9 }
    else { 10 }
}

pub open spec fn is_digit(c: char) -> bool {
    digit_val(c) < 10
}

/// The canonical decimal rendering of a natural number: no sign, no leading
/// zeros (except for the single digit of zero itself).
pub open spec fn dec_digits(n: nat) -> Seq<char>
    decreases n,
{
    if n < 10 {
        seq![digit_char(n)]
    } else {
        dec_digits(n / 10).push(digit_char(n % 10))
    }
}

/// Canonical decimal text: nonempty, digits only, no leading zero.
pub open spec fn valid_dec(s: Seq<char>) -> bool {
    &&& s.len() >= 1
    &&& forall|i: int| 0 <= i < s.len() ==> is_digit(#[trigger] s[i])
    &&& (s[0] == '0' ==> s.len() == 1)
}

/// The numeric value of a sequence of decimal digits.
pub open spec fn dec_val(s: Seq<char>) -> nat
    decreases s.len(),
{
    if s.len() == 0 {
        0
    } else {
        dec_val(s.drop_last()) * 10 + digit_val(s.last())
    }
}

pub proof fn lemma_dec_digits_valid(n: nat)
    ensures
        valid_dec(dec_digits(n)),
        n >= 1 ==> dec_digits(n)[0] != '0',
        dec_digits(n).len() >= 1,
    decreases n,
{
    if n < 10 {
    } else {
        lemma_dec_digits_valid(n / 10);
    }
}

pub proof fn lemma_dec_val_of_digits(n: nat)
    ensures
        dec_val(dec_digits(n)) == n,
    decreases n,
{
    if n < 10 {
        let s = dec_digits(n);
        assert(s =~= seq![digit_char(n)]);
        assert(s.drop_last() =~= Seq::<char>::empty());
        assert(dec_val(s.drop_last()) == 0);
        assert(dec_val(s) == digit_val(digit_char(n)));
    } else {
        lemma_dec_val_of_digits(n / 10);
        assert(dec_digits(n).drop_last() =~= dec_digits(n / 10));
    }
}

/// Two distinct naturals never share a decimal rendering.
pub proof fn lemma_dec_digits_injective(a: nat, b: nat)
    ensures
        dec_digits(a) == dec_digits(b) ==> a == b,
{
    lemma_dec_val_of_digits(a);
    lemma_dec_val_of_digits(b);
}

pub proof fn lemma_valid_dec_positive(s: Seq<char>)
    requires
        valid_dec(s),
        s[0] != '0',
    ensures
        dec_val(s) >= 1,
    decreases s.len(),
{
    if s.len() == 1 {
    } else {
        assert(s.drop_last()[0] == s[0]);
        assert(valid_dec(s.drop_last()));
        lemma_valid_dec_positive(s.drop_last());
    }
}

/// Canonical decimal text is exactly the rendering of its value.
pub proof fn lemma_valid_dec_canonical(s: Seq<char>)
    requires
        valid_dec(s),
    ensures
        dec_digits(dec_val(s)) == s,
    decreases s.len(),
{
    if s.len() == 1 {
        assert(s.drop_last() =~= Seq::<char>::empty());
        assert(dec_val(s.drop_last()) == 0);
        assert(dec_val(s) == digit_val(s[0]));
        assert(is_digit(s[0]));
        assert(digit_char(digit_val(s[0])) == s[0]);
        assert(dec_digits(dec_val(s)) =~= s);
    } else {
        let front = s.drop_last();
        assert(front[0] == s[0]);
        assert(valid_dec(front));
        lemma_valid_dec_canonical(front);
        lemma_valid_dec_positive(front);
        let v = dec_val(front);
        let d = digit_val(s.last());
        assert(dec_val(s) == v * 10 + d);
        assert(v >= 1);
        assert(v * 10 + d >= 10) by (nonlinear_arith)
            requires v >= 1, d >= 0,
        ;
        assert((v * 10 + d) / 10 == v) by (nonlinear_arith)
            requires 0 <= d < 10,
        ;
        assert((v * 10 + d) % 10 == d) by (nonlinear_arith)
            requires 0 <= d < 10,
        ;
        assert(dec_digits(dec_val(s)) == dec_digits(v).push(digit_char(d)));
        assert(digit_char(d) == s.last());
        assert(front.push(s.last()) =~= s);
    }
}

/// A digit-only prefix never exceeds the value of the whole.
pub proof fn lemma_dec_val_prefix(s: Seq<char>, i: int)
    requires
        0 <= i <= s.len(),
    ensures
        dec_val(s.subrange(0, i)) <= dec_val(s),
    decreases s.len() - i,
{
    if i == s.len() {
        assert(s.subrange(0, i) =~= s);
    } else {
        lemma_dec_val_prefix(s, i + 1);
        let p = s.subrange(0, i + 1);
        assert(p.drop_last() =~= s.subrange(0, i));
        assert(dec_val(s.subrange(0, i)) * 10 + digit_val(p.last()) >= dec_val(s.subrange(0, i)))
            by (nonlinear_arith);
    }
}

fn digit_to_char(d: u64) -> (c: char)
    requires
        d < 10,
    ensures
        c == digit_char(d as nat),
{
    if d == 0 { '0' }
    else if d == 1 { '1' }
    else if d == 2 { '2' }
    else if d == 3 { '3' }
    else if d == 4 { '4' }
    else if d == 5 { '5' }
    else if d == 6 { '6' }
    else if d == 7 { '7' }
    else if d == 8 { '8' }
    else { '9' }
}

pub fn char_to_digit(c: char) -> (r: Option<u64>)
    ensures
        match r {
            Some(d) => is_digit(c) && d == digit_val(c) && d < 10,
            None => !is_digit(c),
        },
{
    if c == '0' { Some(0) }
    else if c == '1' { Some(1) }
    else if c == '2' { Some(2) }
    else if c == '3' { Some(3) }
    else if c == '4' { Some(4) }
    else if c == '5' { Some(5) }
    else if c == '6' { Some(6) }
    else if c == '7' { Some(7) }
    else if c == '8' { Some(8) }
    else if c == '9' { Some(9) }
    else { None }
}

/// Renders a number as decimal text.
pub fn format_dec(n: u64) -> (r: String)
    ensures
        r@ == dec_digits(n as nat),
    decreases n,
{
    if n < 10 {
        let mut s = String::new();
        push_char(&mut s, digit_to_char(n));
        assert(s@ =~= dec_digits(n as nat));
        s
    } else {
        let mut s = format_dec(n / 10);
        push_char(&mut s, digit_to_char(n % 10));
        s
    }
}

/// Parses the digits `v[start..end]` as a number, if its value fits in `u64`.
pub fn parse_digits_u64(v: &Vec<char>, start: usize, end: usize) -> (r: Option<u64>)
    requires
        start <= end <= v@.len(),
        forall|j: int| start <= j < end ==> is_digit(#[trigger] v@[j]),
    ensures
        ({
            let s = v@.subrange(start as int, end as int);
            r == if dec_val(s) <= u64::MAX { Some(dec_val(s) as u64) } else { None::<u64> }
        }),
{
    let ghost s = v@.subrange(start as int, end as int);
    let mut acc: u64 = 0;
    let mut i: usize = start;
    assert(v@.subrange(start as int, start as int) =~= Seq::<char>::empty());
    while i < end
        invariant
            start <= i <= end <= v@.len(),
            forall|j: int| start <= j < end ==> is_digit(#[trigger] v@[j]),
            s == v@.subrange(start as int, end as int),
            acc as nat == dec_val(v@.subrange(start as int, i as int)),
        decreases end - i,
    {
        let ghost p = v@.subrange(start as int, i as int);
        let ghost p2 = v@.subrange(start as int, i + 1 as int);
        assert(p2.drop_last() =~= p);
        assert(p2.last() == v@[i as int]);
        let d = match char_to_digit(v[i]) {
            Some(d) => d,
            None => {
                assert(false);
                0
            },
        };
        assert(dec_val(p2) == dec_val(p) * 10 + digit_val(v@[i as int]));
        if acc > (u64::MAX - d) / 10 {
            assert(acc * 10 + d > u64::MAX) by (nonlinear_arith)
                requires
                    acc > (u64::MAX - d) / 10,
                    0 <= d < 10,
            ;
            proof {
                lemma_dec_val_prefix(s, i + 1 - start);
                assert(s.subrange(0, i + 1 - start) =~= p2);
            }
            return None;
        }
        assert(acc * 10 + d <= u64::MAX) by (nonlinear_arith)
            requires
                acc <= (u64::MAX - d) / 10,
                0 <= d < 10,
        ;
        acc = acc * 10 + d;
        i = i + 1;
    }
    assert(v@.subrange(start as int, i as int) =~= s);
    Some(acc)
}

/// Parses the canonical decimal text `v[start..end]`, if its value fits in `u64`.
pub fn parse_canon_u64(v: &Vec<char>, start: usize, end: usize) -> (r: Option<u64>)
    requires
        start <= end <= v@.len(),
    ensures
        ({
            let s = v@.subrange(start as int, end as int);
            r == if valid_dec(s) && dec_val(s) <= u64::MAX { Some(dec_val(s) as u64) } else { None::<u64> }
        }),
{
    let ghost s = v@.subrange(start as int, end as int);
    if start == end {
        return None;
    }
    let mut i: usize = start;
    while i < end
        invariant
            start <= i <= end <= v@.len(),
            s == v@.subrange(start as int, end as int),
            forall|j: int| start <= j < i ==> is_digit(#[trigger] v@[j]),
        decreases end - i,
    {
        if char_to_digit(v[i]).is_none() {
            assert(!is_digit(s[i - start]));
            return None;
        }
        i = i + 1;
    }
    assert(forall|j: int| 0 <= j < s.len() ==> is_digit(#[trigger] s[j]));
    if end - start > 1 && v[start] == '0' {
        assert(s[0] == '0' && s.len() > 1);
        return None;
    }
    assert(valid_dec(s));
    parse_digits_u64(v, start, end)
}

/// Parses canonical decimal text as a `usize` value.
pub fn parse_dec_str(s: &str) -> (r: Option<usize>)
    ensures
        r == if valid_dec(s@) && dec_val(s@) <= usize::MAX {
            Some(dec_val(s@) as usize)
        } else {
            None::<usize>
        },
{
    let v = str_to_chars(s);
    let n = v.len();
    let parsed = parse_canon_u64(&v, 0, n);
    proof {
        assert(v@.subrange(0, n as int) =~= s@);
    }
    match parsed {
        Some(val) => {
            if val <= usize::MAX as u64 {
                Some(val as usize)
            } else {
                None
            }
        },
        None => None,
    }
}

} // verus!
