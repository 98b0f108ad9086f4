//! Scores: exact shares between 0 and 1, and the order of doubles by their bits.

use vstd::prelude::*;

verus! {

// ───────────────────────────── shares ─────────────────────────────

/// A score between 0 and 1: `num / den`, or what is left of 1 beside it.
#[derive(Debug, Clone, Copy, PartialEq, Eq, Structural)]
pub struct Score {
    pub num: u64,
    pub den: u64,
    pub complement: bool,
}

impl Score {
    /// The share is between 0 and 1.
    pub open spec fn wf(self) -> bool {
        0 < self.den && self.num <= self.den
    }

    /// The numerator of the score over `den`.
    pub open spec fn part(self) -> int {
        if self.complement {
            self.den - self.num
        } else {
            self.num as int
        }
    }

    /// The score is at most the other one.
    pub open spec fn le(self, other: Score) -> bool {
        self.part() * other.den <= other.part() * self.den
    }
}

/// The score is the ratio `num / den`.
pub open spec fn is_ratio(s: Score, num: int, den: int) -> bool {
    let part = if s.complement {
        s.den - s.num
    } else {
        s.num as int
    };
    &&& s.den > 0
    &&& den > 0
    &&& part * den == num * s.den
}

/// A plain score is the ratio of its two numbers, and 0 where the first is 0.
pub proof fn lemma_plain_ratio(s: Score)
    requires
        s.den > 0,
        !s.complement,
    ensures
        is_ratio(s, s.num as int, s.den as int),
        s.num == 0 ==> is_ratio(s, 0, 1),
{
}

/// The score `num / den`, at most 1.
pub open spec fn share(num: u64, den: u64) -> Score {
    Score {
        num: if num <= den {
            num
        } else {
            den
        },
        den,
        complement: false,
    }
}

/// The score `1 - num / den`, at least 0.
pub open spec fn rest(num: u64, den: u64) -> Score {
    Score { complement: true, ..share(num, den) }
}

/// The score 1.
pub open spec fn full() -> Score {
    Score { num: 1, den: 1, complement: false }
}

/// The score 0.
pub open spec fn none() -> Score {
    Score { num: 0, den: 1, complement: false }
}

/// The score 1.
pub fn full_score() -> (r: Score)
    ensures
        r == full(),
{
    Score { num: 1, den: 1, complement: false }
}

/// The score 0.
pub fn no_score() -> (r: Score)
    ensures
        r == none(),
{
    Score { num: 0, den: 1, complement: false }
}

/// The score `num / den`, at most 1.
pub fn share_of(num: u64, den: u64) -> (r: Score)
    ensures
        r == share(num, den),
{
    Score {
        num: if num <= den {
            num
        } else {
            den
        },
        den,
        complement: false,
    }
}

/// The score `1 - num / den`, at least 0.
pub fn rest_of(num: u64, den: u64) -> (r: Score)
    ensures
        r == rest(num, den),
{
    Score {
        num: if num <= den {
            num
        } else {
            den
        },
        den,
        complement: true,
    }
}

/// A larger numerator makes no smaller share.
pub proof fn share_grows_with_numerator(a: u64, b: u64, den: u64)
    requires
        a <= b,
        den > 0,
    ensures
        share(a, den).le(share(b, den)),
        rest(b, den).le(rest(a, den)),
{
    let x = share(a, den).num;
    let y = share(b, den).num;
    assert(x * den <= y * den) by (nonlinear_arith)
        requires
            x <= y,
    ;
    assert((den - y) * den <= (den - x) * den) by (nonlinear_arith)
        requires
            x <= y,
    ;
}

/// A larger denominator makes no larger share.
pub proof fn share_falls_with_denominator(num: u64, a: u64, b: u64)
    requires
        0 < a <= b,
    ensures
        share(num, b).le(share(num, a)),
{
    let x = share(num, b).num as int;
    let y = share(num, a).num as int;
    assert(x * a <= y * b) by (nonlinear_arith)
        requires
            0 <= x,
            0 < a <= b,
            x == y || (y == a && x <= b),
    ;
}

/// No score is below 0.
pub proof fn none_is_least(s: Score)
    requires
        s.wf(),
    ensures
        none().le(s),
{
    let n = none();
    assert(n.part() * s.den == 0) by (nonlinear_arith)
        requires
            n.part() == 0,
    ;
    assert(s.part() * n.den >= 0) by (nonlinear_arith)
        requires
            s.part() >= 0,
            n.den >= 0,
    ;
}

// ───────────────────────────── doubles by their bits ─────────────────────────────

/// The magnitude of infinity.
pub const INFINITY_BITS: u64 = 0x7FF0_0000_0000_0000;

/// The sign bit.
pub const SIGN_BIT: u64 = 0x8000_0000_0000_0000;

/// Where the double with these bits stands in the order of doubles; a double
/// that is not a number stands nowhere. The two zeros stand at the same place.
pub open spec fn place(bits: u64) -> Option<int> {
    let magnitude = if bits < SIGN_BIT {
        bits as int
    } else {
        bits - SIGN_BIT
    };
    if magnitude > INFINITY_BITS {
        None
    } else if bits < SIGN_BIT {
        Some(magnitude)
    } else {
        Some(-magnitude)
    }
}

/// The double is a finite number.
pub open spec fn finite_double(bits: u64) -> bool {
    place(bits) matches Some(x) && -INFINITY_BITS < x < INFINITY_BITS
}

/// Whether the double is a finite number.
pub fn is_finite(bits: u64) -> (r: bool)
    ensures
        r == finite_double(bits),
{
    if bits < SIGN_BIT {
        bits < INFINITY_BITS
    } else {
        bits - SIGN_BIT < INFINITY_BITS
    }
}

/// The double `a` is greater than the double `b`.
pub open spec fn above(a: u64, b: u64) -> bool {
    match (place(a), place(b)) {
        (Some(x), Some(y)) => x > y,
        _ => false,
    }
}

/// The bits of negative infinity.
pub const NEG_INFINITY_BITS: u64 = 0xFFF0_0000_0000_0000;

/// Whether the double `a` is greater than the double `b`.
pub fn is_above(a: u64, b: u64) -> (r: bool)
    ensures
        r == above(a, b),
{
    let ma: u64 = if a < SIGN_BIT {
        a
    } else {
        a - SIGN_BIT
    };
    let mb: u64 = if b < SIGN_BIT {
        b
    } else {
        b - SIGN_BIT
    };
    if ma > INFINITY_BITS || mb > INFINITY_BITS {
        false
    } else if a < SIGN_BIT {
        if b < SIGN_BIT {
            ma > mb
        } else {
            ma > 0 || mb > 0
        }
    } else if b < SIGN_BIT {
        false
    } else {
        ma < mb
    }
}

/// `b` wins: its score is the first of the greatest ones. Where no score is above
/// negative infinity, the first one wins.
pub open spec fn is_winner(scores: Seq<u64>, b: int) -> bool {
    &&& 0 <= b < scores.len()
    &&& if forall|i: int|
        0 <= i < scores.len() ==> !above(#[trigger] scores[i], NEG_INFINITY_BITS) {
        b == 0
    } else {
        &&& above(scores[b], NEG_INFINITY_BITS)
        &&& forall|i: int| 0 <= i < scores.len() ==> !above(#[trigger] scores[i], scores[b])
        &&& forall|i: int|
            0 <= i < b ==> place(#[trigger] scores[i]) is None || above(scores[b], scores[i])
    }
}

/// There is one winner.
pub proof fn winner_is_unique(scores: Seq<u64>, a: int, b: int)
    requires
        is_winner(scores, a),
        is_winner(scores, b),
    ensures
        a == b,
{
    if a < b {
        assert(!above(scores[b], scores[a]));
    } else if b < a {
        assert(!above(scores[a], scores[b]));
    }
}

/// Doubles are ordered as numbers: among positive ones larger bits are greater, among
/// negative ones smaller, every positive one is above every negative one and zero, and
/// what is not a number is above nothing and below nothing.
pub proof fn doubles_are_ordered_as_numbers(a: u64, b: u64)
    requires
        a <= 0x7FF0_0000_0000_0000,
        b <= 0x7FF0_0000_0000_0000,
    ensures
        above(a, b) <==> a > b,
        above((a + 0x8000_0000_0000_0000) as u64, (b + 0x8000_0000_0000_0000) as u64) <==> a < b,
        above(a, (b + 0x8000_0000_0000_0000) as u64) <==> a > 0 || b > 0,
        !above((a + 0x8000_0000_0000_0000) as u64, b),
        forall|x: u64|
            0x7FF0_0000_0000_0000 < x < 0x8000_0000_0000_0000 ==> !(#[trigger] above(x, a))
                && !above(a, x),
        forall|x: u64|
            0xFFF0_0000_0000_0000 < x ==> !(#[trigger] above(x, a)) && !above(a, x),
{
}

/// A double is finite exactly where its bits, without the sign, are below those of
/// infinity.
pub proof fn finite_doubles_are_below_infinity(bits: u64)
    ensures
        finite_double(bits) <==> bits % 0x8000_0000_0000_0000 < 0x7FF0_0000_0000_0000,
{
}

/// Among scores that are not negative and no infinity, the greatest wins, and the first
/// where several are greatest.
pub proof fn first_greatest_score_wins(scores: Seq<u64>, b: int, i: int)
    requires
        is_winner(scores, b),
        forall|j: int| 0 <= j < scores.len() ==> (#[trigger] scores[j]) < 0x7FF0_0000_0000_0000,
        0 <= i < scores.len(),
    ensures
        scores[i] <= scores[b],
        i < b ==> scores[i] < scores[b],
{
    assert(scores[b] < 0x7FF0_0000_0000_0000);
    assert(scores[i] < 0x7FF0_0000_0000_0000);
    assert(above(scores[b], NEG_INFINITY_BITS));
    assert(!above(scores[i], scores[b]));
}

/// What is not a number never wins while a score above negative infinity is there.
pub proof fn numbers_win(scores: Seq<u64>, b: int, i: int)
    requires
        is_winner(scores, b),
        0 <= i < scores.len(),
        above(scores[i], 0xFFF0_0000_0000_0000),
    ensures
        place(scores[b]) is Some,
        !above(scores[i], scores[b]),
{
}

/// The index of the winner.
pub fn winner(scores: &Vec<u64>) -> (b: usize)
    requires
        scores@.len() > 0,
    ensures
        is_winner(scores@, b as int),
{
    let mut best: usize = 0;
    let mut best_score: u64 = NEG_INFINITY_BITS;
    let mut i: usize = 0;
    while i < scores.len()
        invariant
            i <= scores@.len(),
            best < scores@.len(),
            place(best_score) is Some,
            best_score == NEG_INFINITY_BITS ==> best == 0 && forall|j: int|
                0 <= j < i ==> !above(#[trigger] scores@[j], NEG_INFINITY_BITS),
            best_score != NEG_INFINITY_BITS ==> {
                &&& best < i
                &&& best_score == scores@[best as int]
                &&& above(best_score, NEG_INFINITY_BITS)
            },
            forall|j: int| 0 <= j < i ==> !above(#[trigger] scores@[j], best_score),
            forall|j: int|
                0 <= j < best ==> place(#[trigger] scores@[j]) is None || above(
                    best_score,
                    scores@[j],
                ),
        decreases scores@.len() - i,
    {
        if is_above(scores[i], best_score) {
            best_score = scores[i];
            best = i;
        }
        i += 1;
    }
    if best_score != NEG_INFINITY_BITS {
        assert(above(scores@[best as int], NEG_INFINITY_BITS));
    }
    best
}

} // verus!
