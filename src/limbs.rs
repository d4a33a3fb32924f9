//! Little-endian sequences of 64-bit limbs and the carry-propagating
//! operations that the fixed-width integers are built from.
use vstd::arithmetic::div_mod::lemma_fundamental_div_mod_converse;
use vstd::prelude::*;

verus! {

/// The weight of one limb: 2^64.
pub open spec fn limb_radix() -> nat {
    0x1_0000_0000_0000_0000nat
}

/// `limb_radix()` raised to `k`.
pub open spec fn radix_pow(k: nat) -> nat
    decreases k,
{
    if k == 0 {
        1
    } else {
        limb_radix() * radix_pow((k - 1) as nat)
    }
}

/// The number that little-endian limbs `s` stand for.
pub open spec fn limbs_value(s: Seq<u64>) -> nat
    decreases s.len(),
{
    if s.len() == 0 {
        0
    } else {
        limbs_value(s.drop_last()) + (s.last() as nat) * radix_pow((s.len() - 1) as nat)
    }
}

pub proof fn lemma_radix_pow_positive(k: nat)
    ensures
        radix_pow(k) >= 1,
    decreases k,
{
    if k > 0 {
        lemma_radix_pow_positive((k - 1) as nat);
        let p = radix_pow((k - 1) as nat);
        assert(limb_radix() * p >= 1) by (nonlinear_arith)
            requires
                p >= 1,
        ;
    }
}

pub proof fn lemma_radix_pow_adds(a: nat, b: nat)
    ensures
        radix_pow(a) * radix_pow(b) == radix_pow(a + b),
    decreases a,
{
    if a == 0 {
        assert(radix_pow(0) == 1);
        assert(a + b == b);
    } else {
        let a1 = (a - 1) as nat;
        lemma_radix_pow_adds(a1, b);
        let pa = radix_pow(a1);
        let pb = radix_pow(b);
        assert((limb_radix() * pa) * pb == limb_radix() * (pa * pb)) by (nonlinear_arith);
        assert(radix_pow(a) == limb_radix() * pa);
        assert(((a + b) - 1) as nat == a1 + b);
        assert(radix_pow(a + b) == limb_radix() * radix_pow(a1 + b));
    }
}

pub proof fn lemma_radix_pow_monotone(a: nat, b: nat)
    requires
        a <= b,
    ensures
        radix_pow(a) <= radix_pow(b),
{
    lemma_radix_pow_adds(a, (b - a) as nat);
    lemma_radix_pow_positive((b - a) as nat);
    lemma_radix_pow_positive(a);
    let pa = radix_pow(a);
    let pd = radix_pow((b - a) as nat);
    assert(pa <= pa * pd) by (nonlinear_arith)
        requires
            pd >= 1,
            pa >= 1,
    ;
}

/// A value held in `k` limbs is below `radix_pow(k)`.
pub proof fn lemma_limbs_bound(s: Seq<u64>)
    ensures
        limbs_value(s) < radix_pow(s.len()),
    decreases s.len(),
{
    if s.len() > 0 {
        let d = s.drop_last();
        lemma_limbs_bound(d);
        let p = radix_pow(d.len());
        let v = limbs_value(d);
        let l = s.last() as nat;
        assert(l < limb_radix());
        assert(v + l * p < limb_radix() * p) by (nonlinear_arith)
            requires
                v < p,
                l < limb_radix(),
        ;
        assert((s.len() - 1) as nat == d.len());
    }
}

/// Appending one limb adds it at the next weight.
pub proof fn lemma_limbs_push(s: Seq<u64>, x: u64)
    ensures
        limbs_value(s.push(x)) == limbs_value(s) + (x as nat) * radix_pow(s.len()),
{
    assert(s.push(x).drop_last() =~= s);
}

/// One more limb of a prefix.
pub proof fn lemma_limbs_take_step(s: Seq<u64>, i: int)
    requires
        0 <= i < s.len(),
    ensures
        limbs_value(s.take(i + 1)) == limbs_value(s.take(i)) + (s[i] as nat) * radix_pow(i as nat),
{
    assert(s.take(i + 1) =~= s.take(i).push(s[i]));
    lemma_limbs_push(s.take(i), s[i]);
}

/// Splits a value into its low `m` limbs and the rest.
pub proof fn lemma_limbs_split(s: Seq<u64>, m: int)
    requires
        0 <= m <= s.len(),
    ensures
        limbs_value(s) == limbs_value(s.take(m)) + radix_pow(m as nat) * limbs_value(s.skip(m)),
    decreases s.len(),
{
    if s.len() == m {
        assert(s.take(m) =~= s);
        assert(s.skip(m).len() == 0);
        assert(limbs_value(s.skip(m)) == 0);
    } else {
        let d = s.drop_last();
        lemma_limbs_split(d, m);
        assert(d.take(m) =~= s.take(m));
        assert(s.skip(m).drop_last() =~= d.skip(m));
        let hi = s.skip(m);
        assert(hi.last() == s.last());
        let k = (s.len() - 1 - m) as nat;
        assert((hi.len() - 1) as nat == k);
        lemma_radix_pow_adds(m as nat, k);
        assert((m + k) as nat == (s.len() - 1) as nat);
        let pm = radix_pow(m as nat);
        let pk = radix_pow(k);
        let l = s.last() as nat;
        let vh = limbs_value(d.skip(m));
        assert(limbs_value(hi) == vh + l * pk);
        assert(limbs_value(s) == limbs_value(d) + l * radix_pow((s.len() - 1) as nat));
        assert(pm * (vh + l * pk) == pm * vh + l * (pm * pk)) by (nonlinear_arith);
    }
}

/// The value is zero exactly when every limb is.
pub proof fn lemma_limbs_zero(s: Seq<u64>)
    ensures
        limbs_value(s) == 0 <==> (forall|i: int| 0 <= i < s.len() ==> s[i] == 0),
    decreases s.len(),
{
    if s.len() > 0 {
        let d = s.drop_last();
        lemma_limbs_zero(d);
        lemma_radix_pow_positive(d.len());
        let p = radix_pow(d.len());
        let l = s.last() as nat;
        assert((s.len() - 1) as nat == d.len());
        if limbs_value(s) == 0 {
            assert(l * p == 0);
            assert(l == 0) by (nonlinear_arith)
                requires
                    l * p == 0,
                    p >= 1,
            ;
            assert forall|i: int| 0 <= i < s.len() implies s[i] == 0 by {
                if i < d.len() {
                    assert(s[i] == d[i]);
                }
            }
        }
        if forall|i: int| 0 <= i < s.len() ==> s[i] == 0 {
            assert forall|i: int| 0 <= i < d.len() implies d[i] == 0 by {
                assert(d[i] == s[i]);
            }
            assert(s[s.len() - 1] == 0);
        }
    }
}

proof fn lemma_digit_weight(lo: int, c: int, x: int, y: int, cin: int, p: int)
    requires
        lo + c * limb_radix() == x + y + cin,
    ensures
        lo * p + c * (limb_radix() * p) == x * p + y * p + cin * p,
{
    assert(lo * p + c * (limb_radix() * p) == (lo + c * limb_radix()) * p) by (nonlinear_arith);
    assert((x + y + cin) * p == x * p + y * p + cin * p) by (nonlinear_arith);
}

/// Adds two numbers of the same number of limbs; the flag is the carry out
/// of the top limb.
pub fn add_limbs(a: &Vec<u64>, b: &Vec<u64>) -> (r: (Vec<u64>, bool))
    requires
        a.len() == b.len(),
    ensures
        r.0.len() == a.len(),
        limbs_value(r.0@) + (if r.1 { radix_pow(a.len() as nat) } else { 0 }) == limbs_value(a@)
            + limbs_value(b@),
{
    let mut out: Vec<u64> = Vec::with_capacity(a.len());
    let mut carry: bool = false;
    let mut i: usize = 0;
    while i < a.len()
        invariant
            i <= a.len(),
            a.len() == b.len(),
            out.len() == i,
            limbs_value(out@) + (if carry { radix_pow(i as nat) } else { 0 }) == limbs_value(
                a@.take(i as int),
            ) + limbs_value(b@.take(i as int)),
        decreases a.len() - i,
    {
        let x: u64 = a[i];
        let y: u64 = b[i];
        let cin: u128 = if carry {
            1
        } else {
            0
        };
        let s: u128 = x as u128 + y as u128 + cin;
        let c: bool = s >= 0x1_0000_0000_0000_0000u128;
        let lo: u64 = if c {
            (s - 0x1_0000_0000_0000_0000u128) as u64
        } else {
            s as u64
        };
        proof {
            lemma_limbs_take_step(a@, i as int);
            lemma_limbs_take_step(b@, i as int);
            lemma_limbs_push(out@, lo);
            let cc: int = if c {
                1
            } else {
                0
            };
            lemma_digit_weight(lo as int, cc, x as int, y as int, cin as int, radix_pow(i as nat) as int);
        }
        out.push(lo);
        carry = c;
        i = i + 1;
    }
    proof {
        assert(a@.take(a.len() as int) =~= a@);
        assert(b@.take(b.len() as int) =~= b@);
    }
    (out, carry)
}

/// Subtracts `b` from `a`, both of the same number of limbs; the flag is the
/// borrow out of the top limb.
pub fn sub_limbs(a: &Vec<u64>, b: &Vec<u64>) -> (r: (Vec<u64>, bool))
    requires
        a.len() == b.len(),
    ensures
        r.0.len() == a.len(),
        limbs_value(r.0@) as int - (if r.1 { radix_pow(a.len() as nat) as int } else { 0 })
            == limbs_value(a@) as int - limbs_value(b@) as int,
{
    let mut out: Vec<u64> = Vec::with_capacity(a.len());
    let mut borrow: bool = false;
    let mut i: usize = 0;
    while i < a.len()
        invariant
            i <= a.len(),
            a.len() == b.len(),
            out.len() == i,
            limbs_value(out@) as int - (if borrow { radix_pow(i as nat) as int } else { 0 })
                == limbs_value(a@.take(i as int)) as int - limbs_value(b@.take(i as int)) as int,
        decreases a.len() - i,
    {
        let x: u64 = a[i];
        let y: u64 = b[i];
        let bin: u128 = if borrow {
            1
        } else {
            0
        };
        let need: u128 = y as u128 + bin;
        let c: bool = (x as u128) < need;
        let lo: u64 = if c {
            (x as u128 + 0x1_0000_0000_0000_0000u128 - need) as u64
        } else {
            (x as u128 - need) as u64
        };
        proof {
            lemma_limbs_take_step(a@, i as int);
            lemma_limbs_take_step(b@, i as int);
            lemma_limbs_push(out@, lo);
            let cc: int = if c {
                1
            } else {
                0
            };
            lemma_digit_weight(x as int, 0, lo as int, y as int, bin as int - cc * limb_radix(), radix_pow(i as nat) as int);
            let p = radix_pow(i as nat) as int;
            assert((bin as int - cc * limb_radix()) * p == bin * p - cc * (limb_radix() * p))
                by (nonlinear_arith);
        }
        out.push(lo);
        borrow = c;
        i = i + 1;
    }
    proof {
        assert(a@.take(a.len() as int) =~= a@);
        assert(b@.take(b.len() as int) =~= b@);
    }
    (out, borrow)
}

/// `a < b` for numbers of the same number of limbs.
pub fn less_than(a: &Vec<u64>, b: &Vec<u64>) -> (r: bool)
    requires
        a.len() == b.len(),
    ensures
        r == (limbs_value(a@) < limbs_value(b@)),
{
    let (d, borrow) = sub_limbs(a, b);
    proof {
        lemma_limbs_bound(d@);
    }
    borrow
}

/// `a + b`, or `None` when the sum needs more limbs than `a` has.
pub fn checked_add_limbs(a: &Vec<u64>, b: &Vec<u64>) -> (r: Option<Vec<u64>>)
    requires
        a.len() == b.len(),
    ensures
        r is Some <==> limbs_value(a@) + limbs_value(b@) < radix_pow(a.len() as nat),
        r is Some ==> r->0.len() == a.len() && limbs_value(r->0@) == limbs_value(a@) + limbs_value(b@),
{
    let (s, carry) = add_limbs(a, b);
    proof {
        lemma_limbs_bound(s@);
    }
    if carry {
        None
    } else {
        Some(s)
    }
}

/// `a - b`, or `None` when `b` is the larger.
pub fn checked_sub_limbs(a: &Vec<u64>, b: &Vec<u64>) -> (r: Option<Vec<u64>>)
    requires
        a.len() == b.len(),
    ensures
        r is Some <==> limbs_value(b@) <= limbs_value(a@),
        r is Some ==> r->0.len() == a.len() && limbs_value(r->0@) == limbs_value(a@) - limbs_value(b@),
{
    let (d, borrow) = sub_limbs(a, b);
    proof {
        lemma_limbs_bound(d@);
    }
    if borrow {
        None
    } else {
        Some(d)
    }
}

/// A copy of `a`.
pub fn copy_limbs(a: &Vec<u64>) -> (r: Vec<u64>)
    ensures
        r@ == a@,
{
    let mut out: Vec<u64> = Vec::with_capacity(a.len());
    let mut i: usize = 0;
    while i < a.len()
        invariant
            i <= a.len(),
            out@ =~= a@.take(i as int),
        decreases a.len() - i,
    {
        out.push(a[i]);
        i = i + 1;
        proof {
            assert(out@ =~= a@.take(i as int));
        }
    }
    proof {
        assert(a@.take(a.len() as int) =~= a@);
    }
    out
}

/// `n` limbs holding the small number `v`.
pub fn small_limbs(v: u64, n: usize) -> (r: Vec<u64>)
    requires
        n >= 1,
    ensures
        r.len() == n,
        limbs_value(r@) == v,
{
    let mut out: Vec<u64> = Vec::with_capacity(n);
    out.push(v);
    proof {
        lemma_limbs_push(Seq::<u64>::empty(), v);
        assert(limbs_value(Seq::<u64>::empty()) == 0);
        assert(radix_pow(0) == 1);
        assert(Seq::<u64>::empty().push(v) =~= out@);
        assert((v as nat) * radix_pow(0) == v) by (nonlinear_arith)
            requires
                radix_pow(0) == 1,
        ;
    }
    while out.len() < n
        invariant
            1 <= out.len() <= n,
            limbs_value(out@) == v,
        decreases n - out.len(),
    {
        proof {
            lemma_limbs_push(out@, 0);
        }
        out.push(0);
    }
    out
}

/// `n` limbs holding `v`.
pub fn limbs_from_u128(v: u128, n: usize) -> (r: Vec<u64>)
    requires
        n >= 2,
    ensures
        r.len() == n,
        limbs_value(r@) == v,
{
    let lo: u64 = (v % 0x1_0000_0000_0000_0000u128) as u64;
    let hi: u64 = (v / 0x1_0000_0000_0000_0000u128) as u64;
    let mut out: Vec<u64> = Vec::with_capacity(n);
    out.push(lo);
    out.push(hi);
    proof {
        let e = Seq::<u64>::empty();
        assert(limbs_value(e) == 0);
        assert(radix_pow(0) == 1);
        lemma_limbs_push(e, lo);
        lemma_limbs_push(e.push(lo), hi);
        assert(e.push(lo).push(hi) =~= out@);
        assert(radix_pow(1) == limb_radix() * radix_pow(0));
        assert(radix_pow(1) == limb_radix());
        assert((lo as nat) * radix_pow(0) == lo) by (nonlinear_arith)
            requires
                radix_pow(0) == 1,
        ;
        assert(v == lo + hi * limb_radix());
    }
    while out.len() < n
        invariant
            2 <= out.len() <= n,
            limbs_value(out@) == v,
        decreases n - out.len(),
    {
        proof {
            lemma_limbs_push(out@, 0);
        }
        out.push(0);
    }
    out
}

/// Whether the value of `s` fits in its low `m` limbs.
pub fn fits_in_limbs(s: &Vec<u64>, m: usize) -> (r: bool)
    requires
        m <= s.len(),
    ensures
        r == (limbs_value(s@) < radix_pow(m as nat)),
{
    let mut i: usize = m;
    while i < s.len()
        invariant
            m <= i <= s.len(),
            forall|k: int| m <= k < i ==> s@[k] == 0,
        decreases s.len() - i,
    {
        if s[i] != 0 {
            proof {
                lemma_limbs_split(s@, m as int);
                lemma_limbs_zero(s@.skip(m as int));
                assert(s@.skip(m as int)[i - m] != 0);
                let h = limbs_value(s@.skip(m as int));
                let p = radix_pow(m as nat);
                assert(p * h >= p) by (nonlinear_arith)
                    requires
                        h >= 1,
                ;
            }
            return false;
        }
        i = i + 1;
    }
    proof {
        lemma_limbs_split(s@, m as int);
        lemma_limbs_zero(s@.skip(m as int));
        assert forall|k: int| 0 <= k < s@.skip(m as int).len() implies s@.skip(m as int)[k] == 0 by {
            assert(s@.skip(m as int)[k] == s@[m + k]);
        }
        lemma_limbs_bound(s@.take(m as int));
    }
    true
}

/// The value of `s` in `m` limbs, or `None` when it does not fit.
pub fn resize_limbs(s: &Vec<u64>, m: usize) -> (r: Option<Vec<u64>>)
    ensures
        r is Some <==> limbs_value(s@) < radix_pow(m as nat),
        r is Some ==> r->0.len() == m && limbs_value(r->0@) == limbs_value(s@),
{
    if m < s.len() {
        if !fits_in_limbs(s, m) {
            return None;
        }
        let mut out: Vec<u64> = Vec::with_capacity(m);
        let mut i: usize = 0;
        while i < m
            invariant
                i <= m < s.len(),
                out@ =~= s@.take(i as int),
            decreases m - i,
        {
            out.push(s[i]);
            i = i + 1;
            proof {
                assert(out@ =~= s@.take(i as int));
            }
        }
        proof {
            lemma_limbs_split(s@, m as int);
            lemma_limbs_zero(s@.skip(m as int));
            lemma_limbs_bound(s@.take(m as int));
            let h = limbs_value(s@.skip(m as int));
            let p = radix_pow(m as nat);
            if h != 0 {
                assert(p * h >= p) by (nonlinear_arith)
                    requires
                        h >= 1,
                ;
            } else {
                assert(p * h == 0) by (nonlinear_arith)
                    requires
                        h == 0,
                ;
            }
        }
        Some(out)
    } else {
        let mut out: Vec<u64> = copy_limbs(s);
        proof {
            assert(out@ =~= s@);
            lemma_limbs_bound(s@);
            lemma_radix_pow_monotone(s.len() as nat, m as nat);
        }
        while out.len() < m
            invariant
                out.len() <= m,
                limbs_value(out@) == limbs_value(s@),
            decreases m - out.len(),
        {
            proof {
                lemma_limbs_push(out@, 0);
            }
            out.push(0);
        }
        Some(out)
    }
}

/// Takes the multiples `a * 2^k` (held in `t`, with `p == 2^k`) that make
/// up `b` from the highest one down. The result is the product of `a` with
/// `b - r` and the part `r < p` of `b` left over.
fn mul_by_doubling(b: &Vec<u64>, p: &Vec<u64>, t: &Vec<u64>, Ghost(va): Ghost<int>) -> (res: Option<
    (Vec<u64>, Vec<u64>),
>)
    requires
        b.len() == p.len() == t.len(),
        b.len() >= 1,
        limbs_value(p@) >= 1,
        limbs_value(t@) == va * limbs_value(p@),
        va >= 0,
    ensures
        res is None ==> va * limbs_value(b@) >= radix_pow(b.len() as nat),
        res matches Some((acc, r)) ==> acc.len() == b.len() && r.len() == b.len() && limbs_value(r@)
            < limbs_value(p@) && limbs_value(r@) <= limbs_value(b@) && limbs_value(acc@) == va * (
        limbs_value(b@) - limbs_value(r@)),
    decreases radix_pow(b.len() as nat) - limbs_value(p@),
{
    let n = b.len();
    let ghost vb = limbs_value(b@) as int;
    let ghost vp = limbs_value(p@) as int;
    let ghost top = radix_pow(n as nat) as int;
    proof {
        lemma_limbs_bound(b@);
        lemma_limbs_bound(p@);
        lemma_limbs_bound(t@);
    }
    let (p_twice, c) = add_limbs(p, p);
    proof {
        lemma_limbs_bound(p_twice@);
    }
    let (acc, rest) = if c || less_than(b, &p_twice) {
        proof {
            assert(va * (vb - vb) == 0) by (nonlinear_arith);
        }
        (small_limbs(0, n), copy_limbs(b))
    } else {
        let (t_twice, c2) = add_limbs(t, t);
        proof {
            assert(va * (2 * vp) == 2 * (va * vp)) by (nonlinear_arith);
        }
        if c2 {
            proof {
                assert(va * (2 * vp) <= va * vb) by (nonlinear_arith)
                    requires
                        2 * vp <= vb,
                        va >= 0,
                ;
            }
            return None;
        }
        proof {
            assert(va * (2 * vp) == 2 * (va * vp)) by (nonlinear_arith);
        }
        match mul_by_doubling(b, &p_twice, &t_twice, Ghost(va)) {
            None => {
                return None;
            },
            Some(found) => found,
        }
    };
    let ghost vr = limbs_value(rest@) as int;
    if less_than(&rest, p) {
        Some((acc, rest))
    } else {
        let r2 = checked_sub_limbs(&rest, p);
        let a2 = checked_add_limbs(&acc, t);
        proof {
            assert(va * (vb - vr) + va * vp == va * (vb - (vr - vp))) by (nonlinear_arith);
            assert(va * (vb - (vr - vp)) <= va * vb) by (nonlinear_arith)
                requires
                    va >= 0,
                    vr >= vp,
            ;
        }
        match a2 {
            None => None,
            Some(a2) => Some((a2, r2.unwrap())),
        }
    }
}

/// `a * b`, or `None` when the product needs more limbs than `a` has.
pub fn checked_mul_limbs(a: &Vec<u64>, b: &Vec<u64>) -> (r: Option<Vec<u64>>)
    requires
        a.len() == b.len(),
        a.len() >= 1,
    ensures
        r is Some <==> limbs_value(a@) * limbs_value(b@) < radix_pow(a.len() as nat),
        r is Some ==> r->0.len() == a.len() && limbs_value(r->0@) == limbs_value(a@) * limbs_value(
            b@,
        ),
{
    let one = small_limbs(1, a.len());
    let ghost va = limbs_value(a@) as int;
    proof {
        assert(va * 1 == va);
    }
    match mul_by_doubling(b, &one, a, Ghost(va)) {
        None => None,
        Some((acc, _)) => {
            proof {
                lemma_limbs_bound(acc@);
            }
            Some(acc)
        },
    }
}

/// Long division in base two: divides by the multiples `d * 2^k` (held in
/// `t`, with `p == 2^k`), from the highest that fits in `a` down. The
/// quotient `q` and remainder `r` satisfy `a == q * d * 2^k + r`, `r < t`.
fn div_by_doubling(a: &Vec<u64>, t: &Vec<u64>, Ghost(vd): Ghost<int>, Ghost(vp): Ghost<int>) -> (res: (
    Vec<u64>,
    Vec<u64>,
))
    requires
        a.len() == t.len(),
        a.len() >= 1,
        vd >= 1,
        vp >= 1,
        limbs_value(t@) == vd * vp,
    ensures
        res.0.len() == a.len(),
        res.1.len() == a.len(),
        limbs_value(res.0@) * limbs_value(t@) + limbs_value(res.1@) == limbs_value(a@),
        limbs_value(res.1@) < limbs_value(t@),
    decreases radix_pow(a.len() as nat) - limbs_value(t@),
{
    let n = a.len();
    let ghost va = limbs_value(a@) as int;
    let ghost vt = limbs_value(t@) as int;
    proof {
        lemma_limbs_bound(a@);
        lemma_limbs_bound(t@);
        assert(vd * vp >= 1) by (nonlinear_arith)
            requires
                vd >= 1,
                vp >= 1,
        ;
    }
    let (t_twice, c) = add_limbs(t, t);
    proof {
        lemma_limbs_bound(t_twice@);
    }
    let (q, rest) = if c || less_than(a, &t_twice) {
        let z = small_limbs(0, n);
        proof {
            assert(0 * (2 * vt) == 0);
        }
        (z, copy_limbs(a))
    } else {
        proof {
            assert(vd * (2 * vp) == 2 * (vd * vp)) by (nonlinear_arith);
        }
        div_by_doubling(a, &t_twice, Ghost(vd), Ghost(2 * vp))
    };
    let ghost vq = limbs_value(q@) as int;
    let ghost vr = limbs_value(rest@) as int;
    proof {
        assert(vq * (2 * vt) == (2 * vq) * vt) by (nonlinear_arith);
        assert((2 * vq) * vt <= va);
        assert(2 * vq <= (2 * vq) * vt) by (nonlinear_arith)
            requires
                vt >= 1,
                vq >= 0,
        ;
    }
    let (q2, _) = add_limbs(&q, &q);
    if less_than(&rest, t) {
        (q2, rest)
    } else {
        proof {
            assert((2 * vq + 1) * vt == (2 * vq) * vt + vt) by (nonlinear_arith);
            assert(2 * vq + 1 <= (2 * vq + 1) * vt) by (nonlinear_arith)
                requires
                    vt >= 1,
                    vq >= 0,
            ;
        }
        let one = small_limbs(1, n);
        let (q3, _) = add_limbs(&q2, &one);
        let r2 = checked_sub_limbs(&rest, t);
        (q3, r2.unwrap())
    }
}

/// `a / b` rounded down, or `None` when `b` is zero.
pub fn checked_div_limbs(a: &Vec<u64>, b: &Vec<u64>) -> (r: Option<Vec<u64>>)
    requires
        a.len() == b.len(),
        a.len() >= 1,
    ensures
        r is Some <==> limbs_value(b@) != 0,
        r is Some ==> r->0.len() == a.len() && limbs_value(r->0@) == limbs_value(a@) / limbs_value(
            b@,
        ),
{
    let zero = small_limbs(0, a.len());
    if !less_than(&zero, b) {
        return None;
    }
    let ghost vb = limbs_value(b@) as int;
    proof {
        assert(vb * 1 == vb);
    }
    let (q, r) = div_by_doubling(a, b, Ghost(vb), Ghost(1));
    proof {
        lemma_fundamental_div_mod_converse(
            limbs_value(a@) as int,
            vb,
            limbs_value(q@) as int,
            limbs_value(r@) as int,
        );
    }
    Some(q)
}

} // verus!
