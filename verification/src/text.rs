//! Text primitives: character access, whitespace and line splitting, padding and
//! joining.
//!
//! Strings are modelled as sequences of characters. The splitting functions are
//! specified as left folds over those characters.

use vstd::prelude::*;
use vstd::string::StringExecFns;

verus! {

/// `String::push` appends one character to the end of the string.
pub assume_specification[ String::push ](s: &mut String, c: char)
    ensures
        final(s)@ == old(s)@.push(c),
;

// ───────────────────────────── characters and strings ─────────────────────────────

/// The text of an optional string.
pub open spec fn opt_text(s: Option<String>) -> Option<Seq<char>> {
    match s {
        Some(t) => Some(t@),
        None => None,
    }
}

/// The texts of a sequence of strings.
pub open spec fn texts(v: Seq<String>) -> Seq<Seq<char>> {
    v.map_values(|s: String| s@)
}

/// The texts of a sequence of tokens.
pub open spec fn tokens(v: Seq<Vec<char>>) -> Seq<Seq<char>> {
    v.map_values(|t: Vec<char>| t@)
}

/// The characters of a string, in order.
pub fn chars_of(s: &str) -> (v: Vec<char>)
    ensures
        v@ == s@,
{
    let mut v: Vec<char> = Vec::new();
    for c in it: s.chars()
        invariant
            v@ == s@.subrange(0, it.index() as int),
            it.seq() == s@,
    {
        v.push(c);
    }
    v
}

/// The string made of the given characters.
pub fn string_of(v: &Vec<char>) -> (s: String)
    ensures
        s@ == v@,
{
    let mut s = String::new();
    let mut i: usize = 0;
    while i < v.len()
        invariant
            i <= v.len(),
            s@ == v@.subrange(0, i as int),
        decreases v.len() - i,
    {
        s.push(v[i]);
        i += 1;
        assert(v@.subrange(0, i as int) == v@.subrange(0, i - 1).push(v@[i - 1]));
    }
    assert(v@.subrange(0, v.len() as int) == v@);
    s
}

/// Whether two character vectors hold the same text.
pub fn same_chars(a: &Vec<char>, b: &Vec<char>) -> (r: bool)
    ensures
        r == (a@ == b@),
{
    if a.len() != b.len() {
        return false;
    }
    let mut i: usize = 0;
    while i < a.len()
        invariant
            i <= a.len(),
            a.len() == b.len(),
            forall|j: int| 0 <= j < i ==> a@[j] == b@[j],
        decreases a.len() - i,
    {
        if a[i] != b[i] {
            return false;
        }
        i += 1;
    }
    assert(a@ =~= b@);
    true
}

/// Whether a character vector holds the given text.
pub fn is_text(a: &Vec<char>, lit: &str) -> (r: bool)
    ensures
        r == (a@ == lit@),
{
    let b = chars_of(lit);
    same_chars(a, &b)
}

/// Whether two strings hold the same text.
pub fn same_text(a: &str, b: &str) -> (r: bool)
    ensures
        r == (a@ == b@),
{
    let va = chars_of(a);
    let vb = chars_of(b);
    same_chars(&va, &vb)
}

/// The characters from `from` up to, not including, `to`.
pub fn slice_chars(v: &Vec<char>, from: usize, to: usize) -> (r: Vec<char>)
    requires
        from <= to <= v.len(),
    ensures
        r@ == v@.subrange(from as int, to as int),
{
    let mut r: Vec<char> = Vec::new();
    let mut i: usize = from;
    while i < to
        invariant
            from <= i <= to <= v.len(),
            r@ == v@.subrange(from as int, i as int),
        decreases to - i,
    {
        r.push(v[i]);
        i += 1;
        assert(v@.subrange(from as int, i as int) == v@.subrange(from as int, i - 1).push(v@[i - 1]));
    }
    r
}

/// Whether some character of the text is `c`.
pub fn has_char(v: &Vec<char>, c: char) -> (r: bool)
    ensures
        r == v@.contains(c),
{
    let mut i: usize = 0;
    while i < v.len()
        invariant
            i <= v.len(),
            forall|j: int| 0 <= j < i ==> v@[j] != c,
        decreases v.len() - i,
    {
        if v[i] == c {
            assert(v@[i as int] == c);
            return true;
        }
        i += 1;
    }
    false
}

/// Whether `p` is a prefix of `s`.
pub open spec fn has_prefix(s: Seq<char>, p: Seq<char>) -> bool {
    p.len() <= s.len() && s.subrange(0, p.len() as int) == p
}

/// Whether `p` is a suffix of `s`.
pub open spec fn has_suffix(s: Seq<char>, p: Seq<char>) -> bool {
    p.len() <= s.len() && s.subrange(s.len() - p.len(), s.len() as int) == p
}

/// Whether the text starts with the given prefix.
pub fn starts_with(v: &Vec<char>, lit: &str) -> (r: bool)
    ensures
        r == has_prefix(v@, lit@),
{
    let p = chars_of(lit);
    if p.len() > v.len() {
        return false;
    }
    let head = slice_chars(v, 0, p.len());
    same_chars(&head, &p)
}

/// Whether the text ends with the given suffix.
pub fn ends_with(v: &Vec<char>, p: &Vec<char>) -> (r: bool)
    ensures
        r == has_suffix(v@, p@),
{
    if p.len() > v.len() {
        return false;
    }
    let tail = slice_chars(v, v.len() - p.len(), v.len());
    same_chars(&tail, p)
}

/// What follows the prefix, where the text starts with it.
pub open spec fn after_prefix(s: Seq<char>, p: Seq<char>) -> Option<Seq<char>> {
    if has_prefix(s, p) {
        Some(s.subrange(p.len() as int, s.len() as int))
    } else {
        None
    }
}

/// The rest of the text after the prefix, or `None` where it starts otherwise.
pub fn strip_prefix(v: &Vec<char>, lit: &str) -> (r: Option<Vec<char>>)
    ensures
        match r {
            Some(t) => after_prefix(v@, lit@) == Some(t@),
            None => after_prefix(v@, lit@) is None,
        },
{
    if starts_with(v, lit) {
        let p = chars_of(lit);
        Some(slice_chars(v, p.len(), v.len()))
    } else {
        None
    }
}

/// The text with every trailing copy of `p` taken off.
pub open spec fn without_suffixes(s: Seq<char>, p: Seq<char>) -> Seq<char>
    decreases s.len(),
{
    if p.len() > 0 && has_suffix(s, p) {
        without_suffixes(s.subrange(0, s.len() - p.len()), p)
    } else {
        s
    }
}

/// Takes every trailing copy of a non-empty suffix off the text.
pub fn trim_end_matches(v: &Vec<char>, lit: &str) -> (r: Vec<char>)
    ensures
        r@ == without_suffixes(v@, lit@),
{
    let p = chars_of(lit);
    let mut r = slice_chars(v, 0, v.len());
    assert(r@ =~= v@);
    while p.len() > 0 && ends_with(&r, &p)
        invariant
            p@ == lit@,
            without_suffixes(r@, p@) == without_suffixes(v@, p@),
        decreases r.len(),
    {
        r = slice_chars(&r, 0, r.len() - p.len());
    }
    r
}

/// The index of the first `c` in the text, or its length where there is none.
pub open spec fn first_index(s: Seq<char>, c: char) -> int
    decreases s.len(),
{
    if s.len() == 0 || s[0] == c {
        0
    } else {
        1 + first_index(s.subrange(1, s.len() as int), c)
    }
}

/// `first_index` points at the first occurrence, or past the end.
pub proof fn lemma_first_index(s: Seq<char>, c: char)
    ensures
        0 <= first_index(s, c) <= s.len(),
        first_index(s, c) < s.len() ==> s[first_index(s, c)] == c,
        forall|j: int| 0 <= j < first_index(s, c) ==> s[j] != c,
        s.contains(c) <==> first_index(s, c) < s.len(),
    decreases s.len(),
{
    if s.len() > 0 && s[0] != c {
        let t = s.subrange(1, s.len() as int);
        lemma_first_index(t, c);
        assert forall|j: int| 0 <= j < first_index(s, c) implies s[j] != c by {
            if j > 0 {
                assert(s[j] == t[j - 1]);
            }
        }
        if first_index(t, c) < t.len() {
            assert(s[first_index(s, c)] == t[first_index(t, c)]);
        }
        if s.contains(c) {
            let k = choose|k: int| 0 <= k < s.len() && s[k] == c;
            assert(t[k - 1] == c);
        }
    }
}

/// A position is the first index when it holds `c`, or is the end, and no
/// earlier position holds it.
pub proof fn lemma_first_index_unique(s: Seq<char>, c: char, k: int)
    requires
        0 <= k <= s.len(),
        k < s.len() ==> s[k] == c,
        forall|j: int| 0 <= j < k ==> s[j] != c,
    ensures
        first_index(s, c) == k,
{
    lemma_first_index(s, c);
    let f = first_index(s, c);
    if f < k {
        assert(s[f] != c);
    } else if k < f {
        assert(s[k] != c);
    }
}

/// Finds the first `c`; the length of the text means that there is none.
pub fn find_char(v: &Vec<char>, c: char) -> (r: usize)
    ensures
        r == first_index(v@, c),
        r <= v.len(),
{
    let mut i: usize = 0;
    while i < v.len() && v[i] != c
        invariant
            i <= v.len(),
            forall|j: int| 0 <= j < i ==> v@[j] != c,
        decreases v.len() - i,
    {
        i += 1;
    }
    proof {
        lemma_first_index_unique(v@, c, i as int);
    }
    i
}

// ───────────────────────────── whitespace ─────────────────────────────

/// Unicode's `White_Space` property.
pub open spec fn is_space(c: char) -> bool {
    ||| '\u{9}' <= c <= '\u{d}'
    ||| c == ' '
    ||| c == '\u{85}'
    ||| c == '\u{a0}'
    ||| c == '\u{1680}'
    ||| '\u{2000}' <= c <= '\u{200a}'
    ||| c == '\u{2028}'
    ||| c == '\u{2029}'
    ||| c == '\u{202f}'
    ||| c == '\u{205f}'
    ||| c == '\u{3000}'
}

/// Whether the character is Unicode white space.
pub fn is_whitespace(c: char) -> (r: bool)
    ensures
        r == is_space(c),
{
    ('\u{9}' <= c && c <= '\u{d}') || c == ' ' || c == '\u{85}' || c == '\u{a0}' || c == '\u{1680}'
        || ('\u{2000}' <= c && c <= '\u{200a}') || c == '\u{2028}' || c == '\u{2029}' || c
        == '\u{202f}' || c == '\u{205f}' || c == '\u{3000}'
}

/// The text without its leading white space.
pub open spec fn trim_left(s: Seq<char>) -> Seq<char>
    decreases s.len(),
{
    if s.len() > 0 && is_space(s[0]) {
        trim_left(s.subrange(1, s.len() as int))
    } else {
        s
    }
}

/// The text without its trailing white space.
pub open spec fn trim_right(s: Seq<char>) -> Seq<char>
    decreases s.len(),
{
    if s.len() > 0 && is_space(s.last()) {
        trim_right(s.drop_last())
    } else {
        s
    }
}

/// The text without leading and trailing white space.
pub open spec fn trimmed(s: Seq<char>) -> Seq<char> {
    trim_right(trim_left(s))
}

/// Takes leading and trailing white space off the text.
pub fn trim(v: &Vec<char>) -> (r: Vec<char>)
    ensures
        r@ == trimmed(v@),
{
    let mut from: usize = 0;
    assert(v@.subrange(0, v.len() as int) == v@);
    while from < v.len() && is_whitespace(v[from])
        invariant
            from <= v.len(),
            trim_left(v@.subrange(from as int, v.len() as int)) == trim_left(v@),
        decreases v.len() - from,
    {
        from += 1;
        assert(v@.subrange(from - 1, v.len() as int).subrange(1, v.len() - from + 1) == v@.subrange(
            from as int,
            v.len() as int,
        ));
    }
    let ghost left = v@.subrange(from as int, v.len() as int);
    assert(left == trim_left(v@));
    let mut to: usize = v.len();
    assert(left.subrange(0, to - from) == left);
    while from < to && is_whitespace(v[to - 1])
        invariant
            from <= to <= v.len(),
            left == v@.subrange(from as int, v.len() as int),
            trim_right(left.subrange(0, to - from)) == trim_right(left),
        decreases to - from,
    {
        let ghost before = left.subrange(0, to - from);
        to -= 1;
        assert(before.drop_last() == left.subrange(0, to - from));
        assert(before.last() == v@[to as int]);
    }
    let ghost kept = left.subrange(0, to - from);
    assert(kept.len() > 0 ==> kept.last() == v@[to - 1]);
    assert(kept == v@.subrange(from as int, to as int));
    slice_chars(v, from, to)
}

/// The finished words and the word still open after reading `s`.
pub open spec fn words_read(s: Seq<char>) -> (Seq<Seq<char>>, Seq<char>)
    decreases s.len(),
{
    if s.len() == 0 {
        (Seq::empty(), Seq::empty())
    } else {
        let (done, open) = words_read(s.drop_last());
        if !is_space(s.last()) {
            (done, open.push(s.last()))
        } else if open.len() == 0 {
            (done, open)
        } else {
            (done.push(open), Seq::empty())
        }
    }
}

/// The words of the text: its maximal runs of characters that are not white space.
pub open spec fn words(s: Seq<char>) -> Seq<Seq<char>> {
    let (done, open) = words_read(s);
    if open.len() == 0 {
        done
    } else {
        done.push(open)
    }
}

/// Splits the text at white space into its words.
pub fn split_whitespace(v: &Vec<char>) -> (r: Vec<Vec<char>>)
    ensures
        tokens(r@) == words(v@),
{
    let mut done: Vec<Vec<char>> = Vec::new();
    let mut open: Vec<char> = Vec::new();
    let mut i: usize = 0;
    assert(tokens(done@) =~= Seq::<Seq<char>>::empty());
    while i < v.len()
        invariant
            i <= v.len(),
            (tokens(done@), open@) == words_read(v@.subrange(0, i as int)),
        decreases v.len() - i,
    {
        let c = v[i];
        let ghost head = v@.subrange(0, i + 1);
        assert(head.drop_last() == v@.subrange(0, i as int));
        assert(head.last() == c);
        if !is_whitespace(c) {
            open.push(c);
        } else if open.len() > 0 {
            let ghost before = tokens(done@);
            done.push(open);
            assert(tokens(done@) =~= before.push(open@));
            open = Vec::new();
        } else {
            assert(open@ =~= Seq::<char>::empty());
        }
        i += 1;
    }
    assert(v@.subrange(0, v.len() as int) == v@);
    if open.len() > 0 {
        let ghost before = tokens(done@);
        done.push(open);
        assert(tokens(done@) =~= before.push(open@));
    }
    done
}

// ───────────────────────────── lines ─────────────────────────────

/// A line without the carriage return before its line feed.
pub open spec fn without_cr(s: Seq<char>) -> Seq<char> {
    if s.len() > 0 && s.last() == '\r' {
        s.drop_last()
    } else {
        s
    }
}

/// The finished lines and the line still open after reading `s`.
pub open spec fn lines_read(s: Seq<char>) -> (Seq<Seq<char>>, Seq<char>)
    decreases s.len(),
{
    if s.len() == 0 {
        (Seq::empty(), Seq::empty())
    } else {
        let (done, open) = lines_read(s.drop_last());
        if s.last() == '\n' {
            (done.push(without_cr(open)), Seq::empty())
        } else {
            (done, open.push(s.last()))
        }
    }
}

/// The lines of the text: they end at a line feed, which with a carriage return
/// before it is not part of the line; a last line may lack it.
pub open spec fn lines_of(s: Seq<char>) -> Seq<Seq<char>> {
    let (done, open) = lines_read(s);
    if open.len() == 0 {
        done
    } else {
        done.push(open)
    }
}

/// Splits the text into its lines.
pub fn lines(v: &Vec<char>) -> (r: Vec<Vec<char>>)
    ensures
        tokens(r@) == lines_of(v@),
{
    let mut done: Vec<Vec<char>> = Vec::new();
    let mut open: Vec<char> = Vec::new();
    let mut i: usize = 0;
    assert(tokens(done@) =~= Seq::<Seq<char>>::empty());
    while i < v.len()
        invariant
            i <= v.len(),
            (tokens(done@), open@) == lines_read(v@.subrange(0, i as int)),
        decreases v.len() - i,
    {
        let c = v[i];
        let ghost head = v@.subrange(0, i + 1);
        assert(head.drop_last() == v@.subrange(0, i as int));
        assert(head.last() == c);
        if c == '\n' {
            let ghost before = tokens(done@);
            let ghost whole = open@;
            if open.len() > 0 && open[open.len() - 1] == '\r' {
                open.pop();
                assert(open@ =~= whole.drop_last());
            }
            done.push(open);
            assert(tokens(done@) =~= before.push(without_cr(whole)));
            open = Vec::new();
        } else {
            open.push(c);
        }
        i += 1;
    }
    assert(v@.subrange(0, v.len() as int) == v@);
    if open.len() > 0 {
        let ghost before = tokens(done@);
        done.push(open);
        assert(tokens(done@) =~= before.push(open@));
    }
    done
}

// ───────────────────────────── composing ─────────────────────────────

/// A run of spaces.
pub open spec fn spaces(n: nat) -> Seq<char> {
    Seq::new(n, |i: int| ' ')
}

/// The text with spaces in front, at least `width` characters long.
pub open spec fn pad_left(s: Seq<char>, width: nat) -> Seq<char> {
    if s.len() < width {
        spaces((width - s.len()) as nat) + s
    } else {
        s
    }
}

/// The text with spaces behind, at least `width` characters long.
pub open spec fn pad_right(s: Seq<char>, width: nat) -> Seq<char> {
    if s.len() < width {
        s + spaces((width - s.len()) as nat)
    } else {
        s
    }
}

/// The texts with a separator between them.
pub open spec fn joined(parts: Seq<Seq<char>>, sep: Seq<char>) -> Seq<char>
    decreases parts.len(),
{
    if parts.len() == 0 {
        Seq::empty()
    } else if parts.len() == 1 {
        parts[0]
    } else {
        joined(parts.drop_last(), sep) + sep + parts.last()
    }
}

fn blanks(n: usize) -> (s: String)
    ensures
        s@ == spaces(n as nat),
{
    let mut s = String::new();
    let mut i: usize = 0;
    assert(s@ =~= spaces(0));
    while i < n
        invariant
            i <= n,
            s@ == spaces(i as nat),
        decreases n - i,
    {
        s.push(' ');
        i += 1;
        assert(s@ =~= spaces(i as nat));
    }
    s
}

fn char_count(s: &str) -> (n: usize)
    ensures
        n == s@.len(),
{
    chars_of(s).len()
}

/// Puts spaces in front of the text until it is `width` characters long.
pub fn padded_left(s: &str, width: usize) -> (r: String)
    ensures
        r@ == pad_left(s@, width as nat),
{
    let n: usize = char_count(s);
    if n < width {
        let mut r = blanks(width - n);
        r.append(s);
        r
    } else {
        String::from_str(s)
    }
}

/// Puts spaces behind the text until it is `width` characters long.
pub fn padded_right(s: &str, width: usize) -> (r: String)
    ensures
        r@ == pad_right(s@, width as nat),
{
    let n: usize = char_count(s);
    let mut r = String::from_str(s);
    if n < width {
        let b = blanks(width - n);
        r.append(b.as_str());
    }
    r
}

/// Joins the texts with a separator between them.
pub fn join(parts: &Vec<String>, sep: &str) -> (r: String)
    ensures
        r@ == joined(texts(parts@), sep@),
{
    let mut r = String::new();
    let ghost all = texts(parts@);
    let mut i: usize = 0;
    assert(all.subrange(0, 0) =~= Seq::<Seq<char>>::empty());
    assert(r@ =~= joined(all.subrange(0, 0), sep@));
    while i < parts.len()
        invariant
            i <= parts@.len() == all.len(),
            all == texts(parts@),
            r@ == joined(all.subrange(0, i as int), sep@),
        decreases parts@.len() - i,
    {
        let ghost before = r@;
        if i > 0 {
            r.append(sep);
        }
        r.append(parts[i].as_str());
        proof {
            let next = all.subrange(0, i + 1);
            assert(next.drop_last() =~= all.subrange(0, i as int));
            assert(next.last() == parts@[i as int]@);
            if i == 0 {
                assert(r@ =~= next[0]);
            }
        }
        i += 1;
    }
    assert(all.subrange(0, i as int) =~= all);
    r
}

} // verus!
