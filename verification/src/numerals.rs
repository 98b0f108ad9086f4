//! Numerals: decimal output and input of unsigned integers, and the grammar of
//! the texts that denote a floating-point number.

use crate::text::{find_char, first_index, slice_chars};
use vstd::prelude::*;

verus! {

// ───────────────────────────── decimal output ─────────────────────────────

/// The character of a decimal digit.
pub open spec fn digit_char(d: nat) -> char {
    if d == 0 {
        '0'
    } else if d == 1 {
        '1'
    } else if d == 2 {
        '2'
    } else if d == 3 {
        '3'
    } else if d == 4 {
        '4'
    } else if d == 5 {
        '5'
    } else if d == 6 {
        '6'
    } else if d == 7 {
        '7'
    } else if d == 8 {
        '8'
    } else {
        '9'
    }
}

/// The decimal numeral of `n`, without leading zeros.
pub open spec fn decimal(n: nat) -> Seq<char>
    decreases n,
{
    if n < 10 {
        seq![digit_char(n)]
    } else {
        decimal(n / 10).push(digit_char(n % 10))
    }
}

fn digit(d: u64) -> (c: char)
    requires
        d < 10,
    ensures
        c == digit_char(d as nat),
{
    match d {
        0 => '0',
        1 => '1',
        2 => '2',
        3 => '3',
        4 => '4',
        5 => '5',
        6 => '6',
        7 => '7',
        8 => '8',
        _ => '9',
    }
}

/// Appends the decimal numeral of `n`.
pub fn push_decimal(s: &mut String, n: u64)
    ensures
        final(s)@ == old(s)@ + decimal(n as nat),
    decreases n,
{
    let ghost before = s@;
    if n >= 10 {
        push_decimal(s, n / 10);
    }
    s.push(digit(n % 10));
    assert(s@ =~= before + decimal(n as nat));
}

/// The decimal numeral of `n`.
pub fn decimal_string(n: u64) -> (s: String)
    ensures
        s@ == decimal(n as nat),
{
    let mut s = String::new();
    push_decimal(&mut s, n);
    assert(s@ =~= decimal(n as nat));
    s
}

// ───────────────────────────── decimal input ─────────────────────────────

/// Whether the character is one of `0` to `9`.
pub open spec fn is_digit(c: char) -> bool {
    '0' <= c <= '9'
}

/// The value of a decimal digit.
pub open spec fn digit_value(c: char) -> nat {
    (c as int - '0' as int) as nat
}

/// Whether every character is a decimal digit.
pub open spec fn all_digits(s: Seq<char>) -> bool {
    forall|i: int| 0 <= i < s.len() ==> is_digit(#[trigger] s[i])
}

/// The number that a run of decimal digits denotes.
pub open spec fn digits_value(s: Seq<char>) -> nat
    decreases s.len(),
{
    if s.len() == 0 {
        0
    } else {
        digits_value(s.drop_last()) * 10 + digit_value(s.last())
    }
}

/// A text without a leading plus sign.
pub open spec fn without_plus(s: Seq<char>) -> Seq<char> {
    if s.len() > 0 && s[0] == '+' {
        s.subrange(1, s.len() as int)
    } else {
        s
    }
}

/// The unsigned 64-bit number that a text denotes: an optional plus sign, then
/// decimal digits, with a value in range.
pub open spec fn u64_denoted(s: Seq<char>) -> Option<u64> {
    let t = without_plus(s);
    if t.len() > 0 && all_digits(t) && digits_value(t) <= u64::MAX {
        Some(digits_value(t) as u64)
    } else {
        None
    }
}

/// A longer run of digits does not denote less.
pub proof fn lemma_digits_value_grows(s: Seq<char>, k: int)
    requires
        0 <= k <= s.len(),
    ensures
        digits_value(s.subrange(0, k)) <= digits_value(s),
    decreases s.len() - k,
{
    if k == s.len() {
        assert(s.subrange(0, k) == s);
    } else {
        lemma_digits_value_grows(s, k + 1);
        assert(s.subrange(0, k + 1).drop_last() == s.subrange(0, k));
    }
}

/// Reads an unsigned 64-bit number.
pub fn parse_u64(v: &Vec<char>) -> (r: Option<u64>)
    ensures
        r == u64_denoted(v@),
{
    let from: usize = if v.len() > 0 && v[0] == '+' {
        1
    } else {
        0
    };
    let ghost t = v@.subrange(from as int, v.len() as int);
    assert(t =~= without_plus(v@));
    if from == v.len() {
        return None;
    }
    let mut n: u64 = 0;
    let mut i: usize = from;
    while i < v.len()
        invariant
            from <= i <= v.len(),
            t == v@.subrange(from as int, v.len() as int),
            t == without_plus(v@),
            n == digits_value(t.subrange(0, i - from)),
            all_digits(t.subrange(0, i - from)),
        decreases v.len() - i,
    {
        let c = v[i];
        assert(t[i - from] == c);
        if !('0' <= c && c <= '9') {
            assert(!is_digit(t[i - from]));
            return None;
        }
        let d: u64 = (c as u32 - '0' as u32) as u64;
        let ghost longer = t.subrange(0, i - from + 1);
        assert(longer.drop_last() == t.subrange(0, i - from));
        assert(longer.last() == c);
        if n > (u64::MAX - d) / 10 {
            proof {
                assert(digits_value(longer) > u64::MAX);
                lemma_digits_value_grows(t, i - from + 1);
            }
            return None;
        }
        n = n * 10 + d;
        i += 1;
        assert forall|j: int| 0 <= j < longer.len() implies is_digit(#[trigger] longer[j]) by {
            if j < longer.len() - 1 {
                assert(longer[j] == t.subrange(0, i - from - 1)[j]);
            }
        }
    }
    assert(t.subrange(0, v.len() - from) == t);
    Some(n)
}

/// The numeral that is printed for a number reads back as that number.
pub proof fn decimal_reads_back(n: u64)
    ensures
        u64_denoted(decimal(n as nat)) == Some(n),
{
    lemma_decimal(n as nat);
    assert(without_plus(decimal(n as nat)) == decimal(n as nat));
}

/// A decimal numeral is a non-empty run of digits with the number's value.
pub proof fn lemma_decimal(n: nat)
    ensures
        decimal(n).len() > 0,
        all_digits(decimal(n)),
        digits_value(decimal(n)) == n,
        is_digit(decimal(n)[0]),
    decreases n,
{
    let s = decimal(n);
    if n < 10 {
        assert(s.drop_last() == Seq::<char>::empty());
        assert(s.last() == digit_char(n));
        assert(digits_value(s.drop_last()) == 0);
        assert(digits_value(s) == digit_value(s.last()));
    } else {
        lemma_decimal(n / 10);
        assert(s.drop_last() == decimal(n / 10));
        assert(s.last() == digit_char(n % 10));
        assert(s[0] == decimal(n / 10)[0]);
        assert forall|i: int| 0 <= i < s.len() implies is_digit(#[trigger] s[i]) by {
            if i < s.len() - 1 {
                assert(s[i] == decimal(n / 10)[i]);
            }
        }
    }
}

// ───────────────────────────── floating-point literals ─────────────────────────────

/// The text without a leading plus or minus sign.
pub open spec fn without_sign(s: Seq<char>) -> Seq<char> {
    if s.len() > 0 && (s[0] == '+' || s[0] == '-') {
        s.subrange(1, s.len() as int)
    } else {
        s
    }
}

/// The ASCII upper-case letters made lower-case, every other character as it is.
pub open spec fn ascii_lower(c: char) -> char {
    if 'A' <= c <= 'Z' {
        (c as int + 32) as char
    } else {
        c
    }
}

/// The text with its ASCII letters made lower-case.
pub open spec fn lowered(s: Seq<char>) -> Seq<char> {
    s.map_values(|c: char| ascii_lower(c))
}

/// Digits with at most one decimal point among them, and at least one digit.
pub open spec fn is_mantissa(s: Seq<char>) -> bool {
    let dot = first_index(s, '.');
    let whole = s.subrange(0, dot);
    let fraction = if dot < s.len() {
        s.subrange(dot + 1, s.len() as int)
    } else {
        Seq::empty()
    };
    all_digits(whole) && all_digits(fraction) && whole.len() + fraction.len() > 0
}

/// A non-empty run of digits behind an optional sign.
pub open spec fn is_exponent(s: Seq<char>) -> bool {
    without_sign(s).len() > 0 && all_digits(without_sign(s))
}

/// A mantissa, and behind the first `e` an exponent where there is one.
pub open spec fn is_scaled(s: Seq<char>) -> bool {
    let e = first_index(s, 'e');
    is_mantissa(s.subrange(0, e)) && (e < s.len() ==> is_exponent(
        s.subrange(e + 1, s.len() as int),
    ))
}

/// Whether the text denotes a floating-point number: an optional sign, then
/// `inf`, `infinity`, `nan` in any case, or a decimal number with an optional
/// exponent.
pub open spec fn is_float_text(s: Seq<char>) -> bool {
    let t = lowered(without_sign(s));
    t == "inf"@ || t == "infinity"@ || t == "nan"@ || is_scaled(t)
}

/// Whether the characters in the range are all decimal digits.
fn digits_in(v: &Vec<char>, from: usize, to: usize) -> (r: bool)
    requires
        from <= to <= v.len(),
    ensures
        r == all_digits(v@.subrange(from as int, to as int)),
{
    let mut i: usize = from;
    while i < to
        invariant
            from <= i <= to <= v.len(),
            forall|j: int| from <= j < i ==> is_digit(#[trigger] v@[j]),
        decreases to - i,
    {
        let c = v[i];
        if !('0' <= c && c <= '9') {
            assert(!is_digit(v@.subrange(from as int, to as int)[i - from]));
            return false;
        }
        i += 1;
    }
    assert forall|j: int| 0 <= j < to - from implies is_digit(
        #[trigger] v@.subrange(from as int, to as int)[j],
    ) by {
        assert(is_digit(v@[from + j]));
    }
    true
}

fn mantissa_ok(v: &Vec<char>) -> (r: bool)
    ensures
        r == is_mantissa(v@),
{
    let dot: usize = find_char(v, '.');
    let whole_ok = digits_in(v, 0, dot);
    if dot < v.len() {
        whole_ok && digits_in(v, dot + 1, v.len()) && v.len() > 1
    } else {
        assert(all_digits(Seq::<char>::empty()));
        whole_ok && dot > 0
    }
}

fn sign_len(v: &Vec<char>) -> (n: usize)
    ensures
        n <= v.len(),
        v@.subrange(n as int, v.len() as int) == without_sign(v@),
{
    if v.len() > 0 && (v[0] == '+' || v[0] == '-') {
        1
    } else {
        assert(v@.subrange(0, v.len() as int) == v@);
        0
    }
}

/// The characters from `from` on, with ASCII letters made lower-case.
pub fn lower_from(v: &Vec<char>, from: usize) -> (r: Vec<char>)
    requires
        from <= v.len(),
    ensures
        r@ == lowered(v@.subrange(from as int, v.len() as int)),
{
    let mut r: Vec<char> = Vec::new();
    let mut i: usize = from;
    let ghost t = v@.subrange(from as int, v.len() as int);
    while i < v.len()
        invariant
            from <= i <= v.len(),
            t == v@.subrange(from as int, v.len() as int),
            r@ == lowered(t.subrange(0, i - from)),
        decreases v.len() - i,
    {
        let c = v[i];
        r.push(lower(c));
        assert(t.subrange(0, i - from + 1) == t.subrange(0, i - from).push(c));
        i += 1;
        assert(r@ =~= lowered(t.subrange(0, i - from)));
    }
    assert(t.subrange(0, v.len() - from) == t);
    r
}

fn lower(c: char) -> (r: char)
    ensures
        r == ascii_lower(c),
{
    if 'A' <= c && c <= 'Z' {
        (c as u8 + 32) as char
    } else {
        c
    }
}

/// Whether the text denotes a floating-point number.
pub fn denotes_float(v: &Vec<char>) -> (r: bool)
    ensures
        r == is_float_text(v@),
{
    let t = lower_from(v, sign_len(v));
    if crate::text::is_text(&t, "inf") || crate::text::is_text(&t, "infinity")
        || crate::text::is_text(&t, "nan") {
        return true;
    }
    let e: usize = find_char(&t, 'e');
    let head = slice_chars(&t, 0, e);
    if !mantissa_ok(&head) {
        return false;
    }
    if e == t.len() {
        return true;
    }
    let tail = slice_chars(&t, e + 1, t.len());
    let sign: usize = sign_len(&tail);
    sign < tail.len() && digits_in(&tail, sign, tail.len())
}

} // verus!
