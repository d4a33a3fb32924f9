//! The StableSwap invariant `D` and the balance `y` that keeps it, both by
//! Newton's method on integers.
use crate::bigint::{u192_bound, u576_bound, lemma_bound_values, U192, U576};
use vstd::prelude::*;

verus! {

/// The most rounds a Newton iteration runs.
pub const MAX_ROUNDS: u64 = 256;

/// The outcome of a Newton iteration: the last value, and whether two
/// successive values came within one of each other before the rounds ran out.
pub struct Solution {
    pub value: U576,
    pub converged: bool,
}

/// The model of an optional solution.
pub open spec fn solution_view(r: Option<Solution>) -> Option<(nat, bool)> {
    match r {
        Some(s) => Some((s.value@, s.converged)),
        None => None,
    }
}

/// The model of an optional wide integer.
pub open spec fn wide_view(r: Option<U576>) -> Option<nat> {
    match r {
        Some(v) => Some(v@),
        None => None,
    }
}

/// The sum of the amounts.
pub open spec fn sum_of(xs: Seq<u128>) -> nat
    decreases xs.len(),
{
    if xs.len() == 0 {
        0
    } else {
        sum_of(xs.drop_last()) + xs.last() as nat
    }
}

/// Whether two successive Newton values are within one of each other.
pub open spec fn within_one(a: nat, b: nat) -> bool {
    a <= b + 1 && b <= a + 1
}

/// `d * Π_k (d / (xs[k] * n))`, one factor at a time from the first amount,
/// each product below 2^576; `None` on overflow or a zero amount.
pub open spec fn d_product(xs: Seq<u128>, n: nat, d: nat) -> Option<nat>
    decreases xs.len(),
{
    if xs.len() == 0 {
        Some(d)
    } else {
        match d_product(xs.drop_last(), n, d) {
            Some(acc) => if acc * d < u576_bound() && (xs.last() as nat) * n != 0 {
                Some(acc * d / ((xs.last() as nat) * n))
            } else {
                None
            },
            None => None,
        }
    }
}

/// One Newton step for `D`:
/// `d * (d_prod * n + ann * sum) / (d * (ann - 1) + d_prod * (n + 1))`,
/// each intermediate below 2^576.
pub open spec fn next_d(ann: nat, n: nat, d: nat, d_prod: nat, sum: nat) -> Option<nat> {
    let leverage = sum * ann;
    let numerator = d * (d_prod * n + leverage);
    let ann_less_one = (ann - 1) as nat;
    let denominator = d * ann_less_one + d_prod * (n + 1);
    if leverage < u576_bound() && d_prod * n < u576_bound() && d_prod * n + leverage < u576_bound()
        && numerator < u576_bound() && d * ann_less_one < u576_bound() && d_prod * (n + 1)
        < u576_bound() && denominator < u576_bound() && denominator != 0 {
        Some(numerator / denominator)
    } else {
        None
    }
}

/// Newton's iteration for `D` from `d`, for at most `rounds` more rounds.
pub open spec fn d_newton(xs: Seq<u128>, n: nat, ann: nat, sum: nat, d: nat, rounds: nat) -> Option<
    (nat, bool),
>
    decreases rounds,
{
    if rounds == 0 {
        Some((d, false))
    } else {
        match d_product(xs, n, d) {
            Some(dp) => match next_d(ann, n, d, dp, sum) {
                Some(d2) => if within_one(d2, d) {
                    Some((d2, true))
                } else {
                    d_newton(xs, n, ann, sum, d2, (rounds - 1) as nat)
                },
                None => None,
            },
            None => None,
        }
    }
}

/// The invariant `D` of normalized balances `xs` with amplification `amp`:
/// zero for an empty pool, else Newton's iteration from the sum.
pub open spec fn invariant_d(xs: Seq<u128>, amp: nat) -> Option<(nat, bool)> {
    let n = xs.len() as nat;
    let s = sum_of(xs);
    if s == 0 {
        Some((0, true))
    } else {
        d_newton(xs, n, amp * n, s, s, MAX_ROUNDS as nat)
    }
}

/// One Newton round for `y` in `y^2 + b*y = c` (the pool's `d` folded into
/// the denominator): `(y^2 + c) / (2*y + b - d)`, each intermediate below
/// 2^576; repeated for at most `rounds` rounds.
pub open spec fn y_newton(c: nat, b: nat, d: nat, y: nat, rounds: nat) -> Option<(nat, bool)>
    decreases rounds,
{
    if rounds == 0 {
        Some((y, false))
    } else {
        let square = y * y;
        let twice = 2 * y;
        if square < u576_bound() && square + c < u576_bound() && twice < u576_bound() && twice + b
            < u576_bound() && twice + b > d {
            let y2 = (square + c) / (twice + b - d) as nat;
            if within_one(y2, y) {
                Some((y2, true))
            } else {
                y_newton(c, b, d, y2, (rounds - 1) as nat)
            }
        } else {
            None
        }
    }
}

/// The balance `y` of the one missing token that keeps invariant `d`, given
/// the balances `terms` of the others, `n` tokens in all and `ann = A * n`:
/// `c = d * Π_k (d / (terms[k] * n)) * d / (ann * n)`, `b = d / ann + Σ terms`,
/// then Newton's iteration from `d`.
pub open spec fn y_given_d(terms: Seq<u128>, n: nat, ann: nat, d: nat) -> Option<(nat, bool)> {
    match d_product(terms, n, d) {
        Some(c0) => {
            let c = c0 * d / (ann * n);
            let b = d / ann + sum_of(terms);
            if c0 * d < u576_bound() && b < u576_bound() {
                y_newton(c, b, d, d, MAX_ROUNDS as nat)
            } else {
                None
            }
        },
        None => None,
    }
}

pub proof fn lemma_sum_bound(xs: Seq<u128>)
    ensures
        sum_of(xs) <= xs.len() * 0xffff_ffff_ffff_ffff_ffff_ffff_ffff_ffffnat,
    decreases xs.len(),
{
    if xs.len() > 0 {
        lemma_sum_bound(xs.drop_last());
    }
}

/// The sum of the amounts, in 192 bits.
pub fn sum_amounts(xs: &Vec<u128>) -> (r: U192)
    requires
        xs.len() <= 3,
    ensures
        r@ == sum_of(xs@),
{
    proof {
        lemma_bound_values();
    }
    let mut sum = U192::from_u128(0);
    let mut k: usize = 0;
    while k < xs.len()
        invariant
            k <= xs.len() <= 3,
            sum@ == sum_of(xs@.take(k as int)),
            u192_bound() == 0x1_0000_0000_0000_0000_0000_0000_0000_0000_0000_0000_0000_0000nat,
        decreases xs.len() - k,
    {
        proof {
            assert(xs@.take(k + 1).drop_last() =~= xs@.take(k as int));
            lemma_sum_bound(xs@.take(k as int));
        }
        sum = sum.checked_add(&U192::from_u128(xs[k])).unwrap();
        k = k + 1;
    }
    proof {
        assert(xs@.take(xs.len() as int) =~= xs@);
    }
    sum
}

/// Whether two wide values are within one of each other.
fn close_enough(a: &U576, b: &U576) -> (r: bool)
    ensures
        r == within_one(a@, b@),
{
    let one = U576::from_u128(1);
    if b.less_than(a) {
        match a.checked_sub(b) {
            Some(gap) => !one.less_than(&gap),
            None => false,
        }
    } else {
        match b.checked_sub(a) {
            Some(gap) => !one.less_than(&gap),
            None => false,
        }
    }
}

/// `d * Π_k (d / (xs[k] * n))`; see `d_product`.
pub fn compute_d_product(xs: &Vec<u128>, n: u64, d: &U576) -> (r: Option<U576>)
    ensures
        wide_view(r) == d_product(xs@, n as nat, d@),
{
    let n_w = U576::from_u128(n as u128);
    let mut acc = d.duplicate();
    let mut k: usize = 0;
    while k < xs.len()
        invariant
            k <= xs.len(),
            n_w@ == n,
            d_product(xs@.take(k as int), n as nat, d@) == Some(acc@),
        decreases xs.len() - k,
    {
        proof {
            assert(xs@.take(k + 1).drop_last() =~= xs@.take(k as int));
            assert(xs@.take(k + 1).last() == xs@[k as int]);
            if d_product(xs@.take(k + 1), n as nat, d@) is None {
                lemma_d_product_none_stays(xs@, (k + 1) as int, n as nat, d@);
            }
        }
        let x = U576::from_u128(xs[k]);
        proof {
            lemma_wide_product_fits(xs[k as int] as nat, n as nat);
        }
        let divisor = match x.checked_mul(&n_w) {
            Some(v) => v,
            None => return None,
        };
        let grown = match acc.checked_mul(d) {
            Some(v) => v,
            None => return None,
        };
        acc = match grown.checked_div(&divisor) {
            Some(v) => v,
            None => return None,
        };
        k = k + 1;
    }
    proof {
        assert(xs@.take(xs.len() as int) =~= xs@);
    }
    Some(acc)
}

/// A `u128` times a `u64` fits in 576 bits.
pub proof fn lemma_wide_product_fits(x: nat, y: nat)
    requires
        x < 0x1_0000_0000_0000_0000_0000_0000_0000_0000nat,
        y < 0x1_0000_0000_0000_0000nat,
    ensures
        x * y < u192_bound(),
        x * y < u576_bound(),
{
    lemma_bound_values();
    assert(x * y < 0x1_0000_0000_0000_0000_0000_0000_0000_0000nat * 0x1_0000_0000_0000_0000nat)
        by (nonlinear_arith)
        requires
            x < 0x1_0000_0000_0000_0000_0000_0000_0000_0000nat,
            y < 0x1_0000_0000_0000_0000nat,
    ;
}

/// Once a prefix fails, the whole product fails.
pub proof fn lemma_d_product_none_stays(xs: Seq<u128>, k: int, n: nat, d: nat)
    requires
        0 <= k <= xs.len(),
        d_product(xs.take(k), n, d) is None,
    ensures
        d_product(xs, n, d) is None,
    decreases xs.len() - k,
{
    if k < xs.len() {
        assert(xs.take(k + 1).drop_last() =~= xs.take(k));
        lemma_d_product_none_stays(xs, k + 1, n, d);
    } else {
        assert(xs.take(k) =~= xs);
    }
}

/// One Newton step for `D`; see `next_d`.
pub fn compute_next_d(ann: u128, n: u64, d: &U576, d_prod: &U576, sum: &U576) -> (r: Option<U576>)
    requires
        ann >= 2,
        n <= 3,
    ensures
        wide_view(r) == next_d(ann as nat, n as nat, d@, d_prod@, sum@),
{
    let n_w = U576::from_u128(n as u128);
    let ann_w = U576::from_u128(ann);
    let leverage = match sum.checked_mul(&ann_w) {
        Some(v) => v,
        None => return None,
    };
    let scaled_prod = match d_prod.checked_mul(&n_w) {
        Some(v) => v,
        None => return None,
    };
    let inner = match scaled_prod.checked_add(&leverage) {
        Some(v) => v,
        None => return None,
    };
    let numerator = match d.checked_mul(&inner) {
        Some(v) => v,
        None => return None,
    };
    let ann_less_one = U576::from_u128(ann - 1);
    let first = match d.checked_mul(&ann_less_one) {
        Some(v) => v,
        None => return None,
    };
    let n_plus_one = U576::from_u128(n as u128 + 1);
    let second = match d_prod.checked_mul(&n_plus_one) {
        Some(v) => v,
        None => return None,
    };
    let denominator = match first.checked_add(&second) {
        Some(v) => v,
        None => return None,
    };
    numerator.checked_div(&denominator)
}

/// The invariant `D` of normalized balances `xs` at amplification `amp`.
pub fn solve_d(xs: &Vec<u128>, amp: u64) -> (r: Option<Solution>)
    requires
        2 <= xs.len() <= 3,
        amp >= 1,
    ensures
        solution_view(r) == invariant_d(xs@, amp as nat),
{
    let n = xs.len() as u64;
    let sum_narrow = sum_amounts(xs);
    if sum_narrow.is_zero() {
        return Some(Solution { value: U576::from_u128(0), converged: true });
    }
    let sum = U576::from_u192(&sum_narrow);
    proof {
        lemma_wide_product_fits(amp as nat, n as nat);
        assert((amp as nat) * (n as nat) <= (amp as nat) * 3) by (nonlinear_arith)
            requires
                n <= 3,
        ;
        assert((amp as nat) * (n as nat) >= 2) by (nonlinear_arith)
            requires
                amp >= 1,
                n >= 2,
        ;
    }
    let ann: u128 = amp as u128 * n as u128;
    proof {
        assert(xs@.len() as nat == n as nat);
        assert(ann as nat == (amp as nat) * (xs@.len() as nat));
    }
    let ghost start = sum@;
    let mut d = sum.duplicate();
    let mut round: u64 = 0;
    while round < MAX_ROUNDS
        invariant
            round <= MAX_ROUNDS,
            n == xs.len(),
            2 <= n <= 3,
            ann == amp * n,
            ann >= 2,
            sum@ == start,
            start == sum_of(xs@),
            start != 0,
            invariant_d(xs@, amp as nat) == d_newton(
                xs@,
                n as nat,
                ann as nat,
                start,
                d@,
                (MAX_ROUNDS - round) as nat,
            ),
        decreases MAX_ROUNDS - round,
    {
        let d_prod = match compute_d_product(xs, n, &d) {
            Some(v) => v,
            None => return None,
        };
        let d_next = match compute_next_d(ann, n, &d, &d_prod, &sum) {
            Some(v) => v,
            None => return None,
        };
        if close_enough(&d_next, &d) {
            return Some(Solution { value: d_next, converged: true });
        }
        d = d_next;
        round = round + 1;
    }
    Some(Solution { value: d, converged: false })
}

/// The balance that keeps invariant `d` for the one token missing from
/// `terms`; see `y_given_d`.
pub fn solve_y(terms: &Vec<u128>, n: u64, amp: u64, d: &U576) -> (r: Option<Solution>)
    requires
        2 <= n <= 3,
        terms.len() <= 3,
        amp >= 1,
    ensures
        solution_view(r) == y_given_d(terms@, n as nat, (amp * n) as nat, d@),
{
    proof {
        assert((amp as nat) * (n as nat) <= (amp as nat) * 3) by (nonlinear_arith)
            requires
                n <= 3,
        ;
    }
    let ann: u128 = amp as u128 * n as u128;
    proof {
        lemma_wide_product_fits(amp as nat, n as nat);
        assert((amp as nat) * (n as nat) <= (amp as nat) * 3) by (nonlinear_arith)
            requires
                n <= 3,
        ;
        lemma_wide_product_fits(ann as nat, n as nat);
        assert((ann as nat) * (n as nat) <= (ann as nat) * 3) by (nonlinear_arith)
            requires
                n <= 3,
        ;
        assert((amp as nat) * (n as nat) >= 2) by (nonlinear_arith)
            requires
                amp >= 1,
                n >= 2,
        ;
        assert((ann as nat) * (n as nat) >= 4) by (nonlinear_arith)
            requires
                ann >= 2,
                n >= 2,
        ;
    }
    let c0 = match compute_d_product(terms, n, d) {
        Some(v) => v,
        None => return None,
    };
    let c1 = match c0.checked_mul(d) {
        Some(v) => v,
        None => return None,
    };
    let c = c1.checked_div(&U576::from_u128(ann * n as u128)).unwrap();
    let share = d.checked_div(&U576::from_u128(ann)).unwrap();
    let sum = U576::from_u192(&sum_amounts(terms));
    let b = match share.checked_add(&sum) {
        Some(v) => v,
        None => return None,
    };
    let two = U576::from_u128(2);
    let ghost c_val = c@;
    let ghost b_val = b@;
    let mut y = d.duplicate();
    let mut round: u64 = 0;
    while round < MAX_ROUNDS
        invariant
            round <= MAX_ROUNDS,
            c@ == c_val,
            b@ == b_val,
            two@ == 2,
            y_given_d(terms@, n as nat, (amp * n) as nat, d@) == y_newton(
                c_val,
                b_val,
                d@,
                y@,
                (MAX_ROUNDS - round) as nat,
            ),
        decreases MAX_ROUNDS - round,
    {
        let square = match y.checked_mul(&y) {
            Some(v) => v,
            None => return None,
        };
        let numerator = match square.checked_add(&c) {
            Some(v) => v,
            None => return None,
        };
        let twice = match y.checked_mul(&two) {
            Some(v) => v,
            None => return None,
        };
        let grown = match twice.checked_add(&b) {
            Some(v) => v,
            None => return None,
        };
        let denominator = match grown.checked_sub(d) {
            Some(v) => v,
            None => return None,
        };
        let y_next = match numerator.checked_div(&denominator) {
            Some(v) => v,
            None => return None,
        };
        if close_enough(&y_next, &y) {
            return Some(Solution { value: y_next, converged: true });
        }
        y = y_next;
        round = round + 1;
    }
    Some(Solution { value: y, converged: false })
}

} // verus!
