//! What taking texts apart and putting them together promises: trimming, words, lines,
//! padding, joining, numerals.

use crate::numerals::{
    all_digits, ascii_lower, decimal, digits_value, is_digit, is_float_text, is_mantissa, is_scaled,
    lemma_decimal, lowered, u64_denoted, without_plus, without_sign,
};
use crate::report::solid;
use crate::text::{
    has_suffix, is_space, joined, lemma_first_index, lemma_first_index_unique, lines_of, lines_read,
    pad_left, pad_right, trim_left, trim_right, trimmed, without_suffixes, words, words_read,
};
use vstd::prelude::*;

verus! {

// ───────────────────────────── trimming ─────────────────────────────

/// Among the ASCII characters the white space is the space, the tab, the line feed, the
/// vertical tab, the form feed and the carriage return.
pub proof fn ascii_white_space(c: char)
    requires
        (c as int) < 128,
    ensures
        is_space(c) <==> {
            ||| c == ' '
            ||| c == '\t'
            ||| c == '\n'
            ||| c == '\u{b}'
            ||| c == '\u{c}'
            ||| c == '\r'
        },
{
}

/// Nothing but white space.
pub open spec fn blank(s: Seq<char>) -> bool {
    forall|i: int| 0 <= i < s.len() ==> is_space(#[trigger] s[i])
}

proof fn lemma_trim_left(s: Seq<char>) -> (a: Seq<char>)
    ensures
        blank(a),
        s == a + trim_left(s),
        trim_left(s).len() > 0 ==> !is_space(trim_left(s)[0]),
    decreases s.len(),
{
    if s.len() > 0 && is_space(s[0]) {
        let tail = s.subrange(1, s.len() as int);
        let b = lemma_trim_left(tail);
        let a = seq![s[0]] + b;
        assert(tail == b + trim_left(tail));
        assert(s =~= seq![s[0]] + tail);
        assert(seq![s[0]] + (b + trim_left(tail)) =~= a + trim_left(tail));
        assert forall|i: int| 0 <= i < a.len() implies is_space(#[trigger] a[i]) by {
            if i > 0 {
                assert(a[i] == b[i - 1]);
            }
        }
        a
    } else {
        assert(s =~= Seq::empty() + s);
        Seq::empty()
    }
}

proof fn lemma_trim_right(s: Seq<char>) -> (b: Seq<char>)
    ensures
        blank(b),
        s == trim_right(s) + b,
        trim_right(s).len() > 0 ==> !is_space(trim_right(s).last()) && trim_right(s)[0] == s[0],
    decreases s.len(),
{
    if s.len() > 0 && is_space(s.last()) {
        let front = s.drop_last();
        let a = lemma_trim_right(front);
        let b = a.push(s.last());
        assert(front == trim_right(front) + a);
        assert(s =~= front.push(s.last()));
        assert((trim_right(front) + a).push(s.last()) =~= trim_right(front) + b);
        if trim_right(front).len() > 0 {
            assert(front[0] == s[0]);
        }
        assert forall|i: int| 0 <= i < b.len() implies is_space(#[trigger] b[i]) by {
            if i < a.len() {
                assert(b[i] == a[i]);
            }
        }
        b
    } else {
        assert(s =~= s + Seq::empty());
        Seq::empty()
    }
}

/// The text between two others.
pub open spec fn enclosed(a: Seq<char>, s: Seq<char>, b: Seq<char>) -> Seq<char> {
    a + s + b
}

/// Trimming takes white space off both ends, all of it and nothing else.
pub proof fn trimming_takes_outer_space_off(s: Seq<char>)
    ensures
        trimmed(s).len() > 0 ==> !is_space(trimmed(s)[0]) && !is_space(trimmed(s).last()),
        exists|a: Seq<char>, b: Seq<char>|
            blank(a) && blank(b) && s == #[trigger] enclosed(a, trimmed(s), b),
        trimmed(trimmed(s)) == trimmed(s),
{
    let a = lemma_trim_left(s);
    let b = lemma_trim_right(trim_left(s));
    assert(s =~= enclosed(a, trimmed(s), b));
    assert(trim_left(trimmed(s)) == trimmed(s));
}

// ───────────────────────────── words ─────────────────────────────

proof fn lemma_words_read_solid(s: Seq<char>)
    ensures
        forall|i: int| 0 <= i < words_read(s).0.len() ==> solid(#[trigger] words_read(s).0[i]),
        forall|i: int| 0 <= i < words_read(s).1.len() ==> !is_space(#[trigger] words_read(s).1[i]),
    decreases s.len(),
{
    if s.len() > 0 {
        lemma_words_read_solid(s.drop_last());
        let (done, open) = words_read(s.drop_last());
        let (all, rest) = words_read(s);
        assert forall|i: int| 0 <= i < all.len() implies solid(#[trigger] all[i]) by {
            if i < done.len() {
                assert(all[i] == done[i]);
            }
        }
        assert forall|i: int| 0 <= i < rest.len() implies !is_space(#[trigger] rest[i]) by {
            if i < open.len() {
                assert(rest[i] == open[i]);
            }
        }
    }
}

proof fn lemma_words_append(a: Seq<char>, b: Seq<char>)
    requires
        words_read(a).1.len() == 0,
    ensures
        words_read(a + b) == (words_read(a).0 + words_read(b).0, words_read(b).1),
    decreases b.len(),
{
    if b.len() == 0 {
        assert(a + b =~= a);
        assert(words_read(a).0 + words_read(b).0 =~= words_read(a).0);
        assert(words_read(a).1 =~= words_read(b).1);
    } else {
        let front = b.drop_last();
        lemma_words_append(a, front);
        assert((a + b).drop_last() =~= a + front);
        assert((a + b).last() == b.last());
        let (done, open) = words_read(front);
        if is_space(b.last()) && open.len() > 0 {
            assert((words_read(a).0 + done).push(open) =~= words_read(a).0 + done.push(open));
        }
    }
}

/// The words of a text are those before a white space and those behind it; a text
/// without white space is one word, and an empty one has none.
pub proof fn words_are_parted_by_space(a: Seq<char>, c: char, b: Seq<char>)
    requires
        is_space(c),
    ensures
        words(a.push(c) + b) == words(a) + words(b),
        solid(a) ==> words(a) == seq![a],
        words(Seq::<char>::empty()).len() == 0,
        forall|i: int| 0 <= i < words(a).len() ==> solid(#[trigger] words(a)[i]),
{
    let x = a.push(c);
    assert(x.drop_last() =~= a);
    let (done, open) = words_read(a);
    assert(words_read(x) == (words(a), Seq::<char>::empty())) by {
        if open.len() == 0 {
            assert(open =~= Seq::<char>::empty());
        }
    }
    lemma_words_append(x, b);
    let (bd, bo) = words_read(b);
    if bo.len() > 0 {
        assert((words(a) + bd).push(bo) =~= words(a) + bd.push(bo));
    }
    lemma_words_read_solid(a);
    if solid(a) {
        lemma_one_word(a);
        assert(words(a) =~= seq![a]);
    }
    assert forall|i: int| 0 <= i < words(a).len() implies solid(#[trigger] words(a)[i]) by {
        if i < done.len() {
            assert(words(a)[i] == done[i]);
        } else {
            assert(words(a)[i] == open);
            assert forall|j: int| 0 <= j < open.len() implies !is_space(#[trigger] open[j]) by {
                assert(open[j] == words_read(a).1[j]);
            }
        }
    }
}

proof fn lemma_one_word(a: Seq<char>)
    requires
        forall|i: int| 0 <= i < a.len() ==> !is_space(#[trigger] a[i]),
    ensures
        words_read(a) == (Seq::<Seq<char>>::empty(), a),
    decreases a.len(),
{
    if a.len() > 0 {
        let front = a.drop_last();
        assert forall|i: int| 0 <= i < front.len() implies !is_space(#[trigger] front[i]) by {
            assert(front[i] == a[i]);
        }
        lemma_one_word(front);
        assert(a[a.len() - 1] == a.last());
        assert(front.push(a.last()) =~= a);
    } else {
        assert(words_read(a).1 =~= a);
    }
}

// ───────────────────────────── lines ─────────────────────────────

proof fn lemma_open_line(a: Seq<char>)
    requires
        !a.contains('\n'),
    ensures
        lines_read(a) == (Seq::<Seq<char>>::empty(), a),
    decreases a.len(),
{
    if a.len() > 0 {
        let front = a.drop_last();
        if front.contains('\n') {
            let i = choose|i: int| 0 <= i < front.len() && front[i] == '\n';
            assert(a[i] == '\n');
        }
        lemma_open_line(front);
        assert(a[a.len() - 1] == a.last());
        assert(front.push(a.last()) =~= a);
    } else {
        assert(lines_read(a).1 =~= a);
    }
}

proof fn lemma_lines_append(a: Seq<char>, b: Seq<char>)
    requires
        lines_read(a).1.len() == 0,
    ensures
        lines_read(a + b) == (lines_read(a).0 + lines_read(b).0, lines_read(b).1),
    decreases b.len(),
{
    if b.len() == 0 {
        assert(a + b =~= a);
        assert(lines_read(a).0 + lines_read(b).0 =~= lines_read(a).0);
        assert(lines_read(a).1 =~= lines_read(b).1);
    } else {
        let front = b.drop_last();
        lemma_lines_append(a, front);
        assert((a + b).drop_last() =~= a + front);
        assert((a + b).last() == b.last());
        let (done, open) = lines_read(front);
        if b.last() == '\n' {
            let line = crate::text::without_cr(open);
            assert((lines_read(a).0 + done).push(line) =~= lines_read(a).0 + done.push(line));
        }
    }
}

/// A line feed ends a line: what stands before it is the line, without a carriage
/// return at its end, and the lines of the rest follow. What is left without a line
/// feed is a line of its own, where there is anything.
pub proof fn lines_end_at_line_feeds(a: Seq<char>, b: Seq<char>)
    requires
        !a.contains('\n'),
    ensures
        a.len() > 0 && a.last() == '\r' ==> lines_of(a.push('\n') + b) == seq![a.drop_last()]
            + lines_of(b),
        a.len() == 0 || a.last() != '\r' ==> lines_of(a.push('\n') + b) == seq![a] + lines_of(b),
        a.len() > 0 ==> lines_of(a) == seq![a],
        a.len() == 0 ==> lines_of(a).len() == 0,
{
    lemma_open_line(a);
    let x = a.push('\n');
    assert(x.drop_last() =~= a);
    let line = crate::text::without_cr(a);
    assert(lines_read(x).0 =~= seq![line]);
    lemma_lines_append(x, b);
    let (done, open) = lines_read(b);
    if open.len() > 0 {
        assert((seq![line] + done).push(open) =~= seq![line] + done.push(open));
    }
    if a.len() > 0 {
        assert(lines_of(a) =~= seq![a]);
    }
}

// ───────────────────────────── composing ─────────────────────────────

/// Padding fills up to the width with spaces, in front or behind, and cuts nothing.
pub proof fn padding_fills_with_spaces(s: Seq<char>, width: nat, i: int)
    ensures
        s.len() >= width ==> pad_left(s, width) == s && pad_right(s, width) == s,
        s.len() < width ==> {
            &&& pad_left(s, width).len() == width
            &&& pad_right(s, width).len() == width
            &&& pad_left(s, width).subrange(width - s.len(), width as int) == s
            &&& pad_right(s, width).subrange(0, s.len() as int) == s
            &&& 0 <= i < width - s.len() ==> pad_left(s, width)[i] == ' '
            &&& s.len() <= i < width ==> pad_right(s, width)[i] == ' '
        },
{
    if s.len() < width {
        assert(pad_left(s, width).subrange(width - s.len(), width as int) =~= s);
        assert(pad_right(s, width).subrange(0, s.len() as int) =~= s);
    }
}

/// Joined texts stand in order with the separator between each two of them.
pub proof fn separator_stands_between_texts(parts: Seq<Seq<char>>, sep: Seq<char>, x: Seq<char>)
    ensures
        joined(Seq::<Seq<char>>::empty(), sep).len() == 0,
        joined(seq![x], sep) == x,
        parts.len() > 0 ==> joined(parts.push(x), sep) == joined(parts, sep) + sep + x,
{
    assert(parts.push(x).drop_last() =~= parts);
}

/// Taking a suffix off takes every copy of it off the end, and nothing else.
pub proof fn suffix_is_taken_off(s: Seq<char>, p: Seq<char>)
    requires
        p.len() > 0,
    ensures
        !has_suffix(without_suffixes(s, p), p),
        without_suffixes(s + p, p) == without_suffixes(s, p),
        !has_suffix(s, p) ==> without_suffixes(s, p) == s,
    decreases s.len(),
{
    assert((s + p).subrange((s + p).len() - p.len(), (s + p).len() as int) =~= p);
    assert((s + p).subrange(0, (s + p).len() - p.len()) =~= s);
    if has_suffix(s, p) {
        suffix_is_taken_off(s.subrange(0, s.len() - p.len()), p);
    }
}

// ───────────────────────────── numerals ─────────────────────────────

/// A decimal numeral has no leading zero, but for zero itself, and two numbers have
/// different numerals.
pub proof fn numerals_are_shortest(n: nat, m: nat)
    ensures
        n > 0 ==> decimal(n)[0] != '0',
        decimal(0) == seq!['0'],
        decimal(n) == decimal(m) ==> n == m,
    decreases n,
{
    lemma_decimal(n);
    lemma_decimal(m);
    if n >= 10 {
        lemma_decimal(n / 10);
        numerals_are_shortest(n / 10, m);
        assert(decimal(n)[0] == decimal(n / 10)[0]);
    }
}

/// A text denotes an unsigned number exactly where it is a run of digits that fits,
/// with at most one plus sign in front; leading zeros change nothing.
pub proof fn unsigned_numbers_are_digits(s: Seq<char>, n: u64)
    ensures
        u64_denoted(decimal(n as nat)) == Some(n),
        u64_denoted(seq!['+'] + decimal(n as nat)) == Some(n),
        u64_denoted(seq!['0'] + decimal(n as nat)) == Some(n),
        u64_denoted(Seq::<char>::empty()) is None,
        u64_denoted(s) is Some ==> forall|i: int|
            0 <= i < s.len() ==> is_digit(#[trigger] s[i]) || i == 0 && s[i] == '+',
{
    let d = decimal(n as nat);
    lemma_decimal(n as nat);
    assert(without_plus(d) == d);
    assert((seq!['+'] + d).subrange(1, 1 + d.len() as int) =~= d);
    let z = seq!['0'] + d;
    assert(without_plus(z) == z);
    lemma_leading_zero(d);
    assert(all_digits(z)) by {
        assert forall|i: int| 0 <= i < z.len() implies is_digit(#[trigger] z[i]) by {
            if i > 0 {
                assert(z[i] == d[i - 1]);
            }
        }
    }
    if u64_denoted(s) is Some {
        let t = without_plus(s);
        assert forall|i: int| 0 <= i < s.len() implies is_digit(#[trigger] s[i]) || i == 0 && s[i]
            == '+' by {
            if s[0] == '+' {
                if i > 0 {
                    assert(t[i - 1] == s[i]);
                }
            } else {
                assert(t[i] == s[i]);
            }
        }
    }
}

proof fn lemma_leading_zero(d: Seq<char>)
    ensures
        digits_value(seq!['0'] + d) == digits_value(d),
    decreases d.len(),
{
    let z = seq!['0'] + d;
    if d.len() == 0 {
        assert(z.drop_last() =~= Seq::<char>::empty());
        assert(z.last() == '0');
        assert(digits_value(z.drop_last()) == 0);
    } else {
        lemma_leading_zero(d.drop_last());
        assert(z.drop_last() =~= seq!['0'] + d.drop_last());
        assert(z.last() == d.last());
    }
}

/// Only the ASCII capital letters change, each to its small letter.
pub proof fn capitals_become_small_letters(s: Seq<char>, i: int)
    requires
        0 <= i < s.len(),
    ensures
        lowered(s).len() == s.len(),
        !('A' <= s[i] <= 'Z') ==> lowered(s)[i] == s[i],
        'A' <= s[i] <= 'Z' ==> lowered(s)[i] as int == s[i] as int + 32,
{
    if 'A' <= s[i] <= 'Z' {
        let c = s[i];
        assert(ascii_lower(c) as int == c as int + 32);
    }
}

proof fn lemma_digits_lowered(a: Seq<char>)
    requires
        forall|i: int| 0 <= i < a.len() ==> is_digit(#[trigger] a[i]) || a[i] == '.',
    ensures
        lowered(a) == a,
{
    assert forall|i: int| 0 <= i < a.len() implies lowered(a)[i] == a[i] by {
        assert(is_digit(a[i]) || a[i] == '.');
    }
    assert(lowered(a) =~= a);
}

proof fn lemma_mantissa_is_float(a: Seq<char>)
    requires
        a.len() > 0,
        forall|i: int| 0 <= i < a.len() ==> is_digit(#[trigger] a[i]) || a[i] == '.',
        is_mantissa(a),
    ensures
        is_float_text(a),
        is_float_text(seq!['-'] + a),
        is_float_text(seq!['+'] + a),
{
    lemma_digits_lowered(a);
    assert(is_digit(a[0]) || a[0] == '.');
    assert(without_sign(a) == a);
    assert((seq!['-'] + a).subrange(1, 1 + a.len() as int) =~= a);
    assert((seq!['+'] + a).subrange(1, 1 + a.len() as int) =~= a);
    assert forall|j: int| 0 <= j < a.len() implies a[j] != 'e' by {
        assert(is_digit(a[j]) || a[j] == '.');
    }
    lemma_first_index_unique(a, 'e', a.len() as int);
    assert(a.subrange(0, a.len() as int) =~= a);
    assert(is_scaled(a));
}

/// Digits, and digits with one decimal point among, before or behind them, denote a
/// number, with or without a sign; a point alone, a sign alone and nothing at all do
/// not.
pub proof fn digits_and_a_point_are_numbers(a: Seq<char>, b: Seq<char>)
    requires
        all_digits(a),
        all_digits(b),
    ensures
        a.len() > 0 ==> is_float_text(a) && is_float_text(seq!['-'] + a) && is_float_text(
            seq!['+'] + a,
        ),
        a.len() + b.len() > 0 ==> is_float_text(a.push('.') + b) && is_float_text(
            seq!['-'] + (a.push('.') + b),
        ),
        !is_float_text(Seq::<char>::empty()),
        !is_float_text(seq!['.']),
        !is_float_text(seq!['-']),
{
    if a.len() > 0 {
        assert forall|i: int| 0 <= i < a.len() implies is_digit(#[trigger] a[i]) || a[i]
            == '.' by {}
        assert forall|j: int| 0 <= j < a.len() implies a[j] != '.' by {
            assert(is_digit(a[j]));
        }
        lemma_first_index_unique(a, '.', a.len() as int);
        assert(a.subrange(0, a.len() as int) =~= a);
        assert(all_digits(Seq::<char>::empty()));
        lemma_mantissa_is_float(a);
    }
    let x = a.push('.') + b;
    if a.len() + b.len() > 0 {
        assert forall|i: int| 0 <= i < x.len() implies is_digit(#[trigger] x[i]) || x[i]
            == '.' by {
            if i < a.len() {
                assert(x[i] == a[i]);
            } else if i > a.len() {
                assert(x[i] == b[i - a.len() - 1]);
            }
        }
        assert forall|j: int| 0 <= j < a.len() implies x[j] != '.' by {
            assert(x[j] == a[j] && is_digit(a[j]));
        }
        assert(x[a.len() as int] == '.');
        lemma_first_index_unique(x, '.', a.len() as int);
        assert(x.subrange(0, a.len() as int) =~= a);
        assert(x.subrange(a.len() as int + 1, x.len() as int) =~= b);
        lemma_mantissa_is_float(x);
    }
    reveal_strlit("inf");
    reveal_strlit("infinity");
    reveal_strlit("nan");
    lemma_no_number(Seq::empty());
    lemma_no_number(seq!['.']);
    let minus = seq!['-'];
    assert(minus.subrange(1, 1) =~= Seq::<char>::empty());
    lemma_no_number(minus);
}

/// A number may have an exponent: behind an `e`, small or capital, digits with or
/// without a sign; an `e` without digits behind it makes no number.
pub proof fn exponents_are_numbers(a: Seq<char>, e: char, b: Seq<char>, sign: char)
    requires
        all_digits(a),
        a.len() > 0,
        all_digits(b),
        e == 'e' || e == 'E',
        sign == '+' || sign == '-',
    ensures
        is_float_text(a.push(e) + b) <==> b.len() > 0,
        is_float_text(a.push(e).push(sign) + b) <==> b.len() > 0,
{
    lemma_exponent(a, e, b, b);
    let c = seq![sign] + b;
    assert(a.push(e).push(sign) + b =~= a.push(e) + c);
    assert(c.subrange(1, c.len() as int) =~= b);
    lemma_exponent(a, e, c, b);
}

proof fn lemma_exponent(a: Seq<char>, e: char, c: Seq<char>, b: Seq<char>)
    requires
        all_digits(a),
        a.len() > 0,
        all_digits(b),
        e == 'e' || e == 'E',
        without_sign(c) == b,
        c == b || c.len() == b.len() + 1 && (c[0] == '+' || c[0] == '-'),
    ensures
        is_float_text(a.push(e) + c) <==> b.len() > 0,
{
    reveal_strlit("inf");
    reveal_strlit("infinity");
    reveal_strlit("nan");
    let s = a.push(e) + c;
    let n = a.len() as int;
    assert(s[0] == a[0] && is_digit(a[0]));
    assert(without_sign(s) == s);
    let t = lowered(s);
    assert(t[0] == a[0]);
    assert("inf"@[0] == 'i' && "infinity"@[0] == 'i' && "nan"@[0] == 'n');
    assert forall|j: int| 0 <= j < n implies t[j] == a[j] && t[j] != 'e' && t[j] != '.' by {
        assert(s[j] == a[j] && is_digit(a[j]));
    }
    assert(s[n] == e);
    assert(t[n] == 'e') by {
        if e == 'E' {
            let k = 'E';
            assert(ascii_lower(k) as int == 101);
        }
    }
    lemma_first_index_unique(t, 'e', n);
    assert(t.subrange(0, n) =~= a);
    lemma_first_index_unique(a, '.', n);
    assert(a.subrange(0, n) =~= a);
    assert(all_digits(Seq::<char>::empty()));
    assert(is_mantissa(a));
    let tail = t.subrange(n + 1, t.len() as int);
    assert(tail =~= c) by {
        assert forall|j: int| 0 <= j < c.len() implies tail[j] == c[j] by {
            assert(s[n + 1 + j] == c[j]);
            if c == b {
                assert(is_digit(b[j]));
            } else if j > 0 {
                assert(c[j] == b[j - 1]);
                assert(is_digit(b[j - 1]));
            }
        }
    }
}

proof fn lemma_no_number(s: Seq<char>)
    requires
        without_sign(s).len() == 0 || without_sign(s) =~= seq!['.'],
    ensures
        !is_float_text(s),
{
    reveal_strlit("inf");
    reveal_strlit("infinity");
    reveal_strlit("nan");
    let t = lowered(without_sign(s));
    if without_sign(s).len() == 0 {
        assert(t =~= Seq::<char>::empty());
    } else {
        assert(t =~= seq!['.']);
    }
    lemma_first_index_unique(t, 'e', t.len() as int);
    assert(t.subrange(0, t.len() as int) =~= t);
    lemma_first_index(t, '.');
    if t.len() == 1 {
        lemma_first_index_unique(t, '.', 0);
    }
    assert(!is_mantissa(t));
}

} // verus!
