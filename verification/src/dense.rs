//! Tables indexed by path id, which grow when a larger id appears.

use vstd::prelude::*;

verus! {

/// The entry at `i`, which is `fill` where the table does not reach.
pub open spec fn at<T>(s: Seq<T>, i: int, fill: T) -> T {
    if 0 <= i < s.len() {
        s[i]
    } else {
        fill
    }
}

/// The table with `x` at `i`, grown with `fill` as far as needed.
pub open spec fn placed<T>(s: Seq<T>, i: int, x: T, fill: T) -> Seq<T> {
    Seq::new(
        if i < s.len() {
            s.len()
        } else {
            (i + 1) as nat
        },
        |j: int|
            if j == i {
                x
            } else {
                at(s, j, fill)
            },
    )
}

/// The sum of the entries.
pub open spec fn total(s: Seq<u64>) -> nat
    decreases s.len(),
{
    if s.len() == 0 {
        0
    } else {
        total(s.drop_last()) + s.last() as nat
    }
}

/// A table of the same length with zeros only.
pub open spec fn zeros(len: nat) -> Seq<u64> {
    Seq::new(len, |i: int| 0u64)
}

/// The entry at `i` after a change elsewhere is what it was.
pub proof fn lemma_placed_at<T>(s: Seq<T>, i: int, x: T, fill: T, j: int)
    requires
        0 <= i,
        0 <= j,
    ensures
        at(placed(s, i, x, fill), j, fill) == if j == i {
            x
        } else {
            at(s, j, fill)
        },
{
}

/// Zeros sum up to zero.
pub proof fn lemma_total_zeros(len: nat)
    ensures
        total(zeros(len)) == 0,
    decreases len,
{
    if len > 0 {
        assert(zeros(len).drop_last() =~= zeros((len - 1) as nat));
        lemma_total_zeros((len - 1) as nat);
    }
}

/// Replacing an entry changes the sum by the difference.
pub proof fn lemma_total_update(s: Seq<u64>, i: int, x: u64)
    requires
        0 <= i < s.len(),
    ensures
        total(s.update(i, x)) == total(s) - s[i] + x,
    decreases s.len(),
{
    let t = s.update(i, x);
    if i == s.len() - 1 {
        assert(t.drop_last() =~= s.drop_last());
    } else {
        lemma_total_update(s.drop_last(), i, x);
        assert(t.drop_last() =~= s.drop_last().update(i, x));
    }
}

/// Growing a table with zeros keeps the sum.
pub proof fn lemma_total_grown(s: Seq<u64>, n: nat)
    ensures
        total(s + zeros(n)) == total(s),
    decreases n,
{
    if n == 0 {
        assert(s + zeros(n) =~= s);
    } else {
        lemma_total_grown(s, (n - 1) as nat);
        assert((s + zeros(n)).drop_last() =~= s + zeros((n - 1) as nat));
    }
}

/// Placing an entry changes the sum by the difference.
pub proof fn lemma_total_placed(s: Seq<u64>, i: int, x: u64)
    requires
        0 <= i,
    ensures
        total(placed(s, i, x, 0)) == total(s) - at(s, i, 0) + x,
{
    if i < s.len() {
        assert(placed(s, i, x, 0) =~= s.update(i, x));
        lemma_total_update(s, i, x);
    } else {
        let n = (i + 1 - s.len()) as nat;
        let g = s + zeros(n);
        lemma_total_grown(s, n);
        assert(placed(s, i, x, 0) =~= g.update(i, x));
        lemma_total_update(g, i, x);
    }
}

/// No entry is more than the sum.
pub proof fn lemma_entry_at_most_total(s: Seq<u64>, i: int)
    ensures
        at(s, i, 0) <= total(s),
    decreases s.len(),
{
    if 0 <= i < s.len() && i < s.len() - 1 {
        lemma_entry_at_most_total(s.drop_last(), i);
    }
}

/// The entry at `i`.
pub fn get<T: Copy>(v: &Vec<T>, i: usize, fill: T) -> (r: T)
    ensures
        r == at(v@, i as int, fill),
{
    if i < v.len() {
        v[i]
    } else {
        fill
    }
}

/// Puts an entry at `i`.
pub fn put<T: Copy>(v: &mut Vec<T>, i: usize, x: T, fill: T)
    requires
        i < usize::MAX,
    ensures
        final(v)@ == placed(old(v)@, i as int, x, fill),
{
    let ghost before = v@;
    while v.len() <= i
        invariant
            v.len() >= before.len(),
            v.len() <= before.len() || v.len() <= i + 1,
            i < usize::MAX,
            forall|j: int| 0 <= j < v.len() ==> #[trigger] v@[j] == at(before, j, fill),
        decreases i + 1 - v.len(),
    {
        v.push(fill);
    }
    v.set(i, x);
    assert(v@ =~= placed(before, i as int, x, fill));
}

/// Sets every entry to zero.
pub fn clear_counts(v: &mut Vec<u64>)
    ensures
        final(v)@ == zeros(old(v)@.len()),
{
    let ghost len = v@.len();
    let mut i: usize = 0;
    while i < v.len()
        invariant
            i <= v.len() == len,
            forall|j: int| 0 <= j < i ==> v@[j] == 0,
        decreases v.len() - i,
    {
        v.set(i, 0);
        i += 1;
    }
    assert(v@ =~= zeros(len));
}

} // verus!
