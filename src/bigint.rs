//! Unsigned integers of fixed widths wider than `u128`.
//!
//! Every operation either gives the exact result or fails: nothing wraps,
//! saturates or is silently truncated.
use crate::limbs::{
    checked_add_limbs, checked_div_limbs, checked_mul_limbs, checked_sub_limbs, copy_limbs,
    fits_in_limbs, lemma_limbs_bound, less_than, limbs_from_u128, limbs_value, radix_pow,
    resize_limbs,
};
use vstd::prelude::*;

verus! {

/// Why a narrowing conversion gave no value.
#[derive(Debug, Clone, Copy, PartialEq, Eq, Structural)]
pub enum NumConvertError {
    /// The value does not fit in the narrower type.
    ConversionFailure,
    /// Any other failure.
    OtherFailure,
}

/// `2^64`, the first value that does not fit in a `u64`.
pub open spec fn u64_bound() -> nat {
    radix_pow(1)
}

/// `2^128`, the first value that does not fit in a `u128`.
pub open spec fn u128_bound() -> nat {
    radix_pow(2)
}

/// `2^192`, the first value that does not fit in a `U192`.
pub open spec fn u192_bound() -> nat {
    radix_pow(3)
}

/// `2^256`, the first value that does not fit in a `U256`.
pub open spec fn u256_bound() -> nat {
    radix_pow(4)
}

/// `2^576`, the first value that does not fit in a `U576`.
pub open spec fn u576_bound() -> nat {
    radix_pow(9)
}

/// `2^704`, the first value that does not fit in a `U704`.
pub open spec fn u704_bound() -> nat {
    radix_pow(11)
}

/// The bounds as numbers.
pub proof fn lemma_bound_values()
    ensures
        u64_bound() == 0x1_0000_0000_0000_0000nat,
        u128_bound() == 0x1_0000_0000_0000_0000_0000_0000_0000_0000nat,
        u192_bound() == 0x1_0000_0000_0000_0000_0000_0000_0000_0000_0000_0000_0000_0000nat,
        u192_bound() == u128_bound() * u64_bound(),
        u256_bound() == u192_bound() * u64_bound(),
        u576_bound() == u256_bound() * u256_bound() * u64_bound(),
        u704_bound() == u576_bound() * u128_bound(),
        u64_bound() <= u128_bound() <= u192_bound() <= u256_bound() <= u576_bound() <= u704_bound(),
{
    crate::limbs::lemma_radix_pow_monotone(1, 2);
    crate::limbs::lemma_radix_pow_monotone(2, 3);
    crate::limbs::lemma_radix_pow_monotone(3, 4);
    crate::limbs::lemma_radix_pow_monotone(4, 9);
    crate::limbs::lemma_radix_pow_monotone(9, 11);
    let r = 0x1_0000_0000_0000_0000nat;
    assert(radix_pow(0) == 1);
    assert(radix_pow(1) == r);
    assert(radix_pow(2) == r * r);
    assert(radix_pow(3) == r * r * r);
    assert(radix_pow(4) == r * radix_pow(3));
    assert(radix_pow(5) == r * radix_pow(4));
    assert(radix_pow(6) == r * radix_pow(5));
    assert(radix_pow(7) == r * radix_pow(6));
    assert(radix_pow(8) == r * radix_pow(7));
    assert(radix_pow(9) == r * radix_pow(8));
    assert(radix_pow(10) == r * radix_pow(9));
    assert(radix_pow(11) == r * radix_pow(10));
    let pow4 = radix_pow(4);
    let pow9 = radix_pow(9);
    assert(pow9 == pow4 * pow4 * r) by (nonlinear_arith)
        requires
            pow9 == r * (r * (r * (r * (r * pow4)))),
            pow4 == r * (r * (r * r)),
    ;
    assert(radix_pow(11) == pow9 * (r * r)) by (nonlinear_arith)
        requires
            radix_pow(11) == r * (r * pow9),
    ;
}

/// The value of two limbs, the low one first.
proof fn lemma_two_limbs(s: Seq<u64>)
    requires
        s.len() == 2,
    ensures
        limbs_value(s) == s[0] + s[1] * 0x1_0000_0000_0000_0000nat,
{
    lemma_one_limb(s.drop_last());
    assert(radix_pow(1) == 0x1_0000_0000_0000_0000nat * radix_pow(0));
}

/// The value of one limb.
proof fn lemma_one_limb(s: Seq<u64>)
    requires
        s.len() == 1,
    ensures
        limbs_value(s) == s[0],
{
    assert(s.drop_last().len() == 0);
    assert(radix_pow(0) == 1);
    let x = s[0] as nat;
    assert(x * radix_pow(0) == x) by (nonlinear_arith)
        requires
            radix_pow(0) == 1,
    ;
    assert(limbs_value(s.drop_last()) == 0);
    assert(s.last() == s[0]);
    assert(limbs_value(s) == limbs_value(s.drop_last()) + x * radix_pow(0));
}
/// A 192-bit unsigned integer.
pub struct U192 {
    limbs: Vec<u64>,
}

impl View for U192 {
    type V = nat;

    closed spec fn view(&self) -> nat {
        limbs_value(self.limbs@)
    }
}

impl U192 {
    #[verifier::type_invariant]
    spec fn width_is_fixed(&self) -> bool {
        self.limbs.len() == 3
    }

    /// The value `v`.
    pub fn from_u128(v: u128) -> (r: Self)
        ensures
            r@ == v,
    {
        U192 { limbs: limbs_from_u128(v, 3) }
    }

    /// A second value equal to this one.
    pub fn duplicate(&self) -> (r: Self)
        ensures
            r@ == self@,
    {
        proof {
            use_type_invariant(self);
        }
        U192 { limbs: copy_limbs(&self.limbs) }
    }

    /// Whether the value is zero.
    pub fn is_zero(&self) -> (r: bool)
        ensures
            r == (self@ == 0),
    {
        let z = U192::from_u128(0);
        proof {
            use_type_invariant(self);
            use_type_invariant(&z);
        }
        !less_than(&z.limbs, &self.limbs)
    }

    /// `self < other`.
    pub fn less_than(&self, other: &Self) -> (r: bool)
        ensures
            r == (self@ < other@),
    {
        proof {
            use_type_invariant(self);
            use_type_invariant(other);
        }
        less_than(&self.limbs, &other.limbs)
    }

    /// `self + other`, or `None` on overflow.
    pub fn checked_add(&self, other: &Self) -> (r: Option<Self>)
        ensures
            r is Some <==> self@ + other@ < u192_bound(),
            r matches Some(v) ==> v@ == self@ + other@,
    {
        proof {
            use_type_invariant(self);
            use_type_invariant(other);
        }
        match checked_add_limbs(&self.limbs, &other.limbs) {
            Some(l) => Some(U192 { limbs: l }),
            None => None,
        }
    }

    /// `self - other`, or `None` when `other` is the larger.
    pub fn checked_sub(&self, other: &Self) -> (r: Option<Self>)
        ensures
            r is Some <==> other@ <= self@,
            r matches Some(v) ==> v@ == self@ - other@,
    {
        proof {
            use_type_invariant(self);
            use_type_invariant(other);
        }
        match checked_sub_limbs(&self.limbs, &other.limbs) {
            Some(l) => Some(U192 { limbs: l }),
            None => None,
        }
    }

    /// `self * other`, or `None` on overflow.
    pub fn checked_mul(&self, other: &Self) -> (r: Option<Self>)
        ensures
            r is Some <==> self@ * other@ < u192_bound(),
            r matches Some(v) ==> v@ == self@ * other@,
    {
        proof {
            use_type_invariant(self);
            use_type_invariant(other);
        }
        match checked_mul_limbs(&self.limbs, &other.limbs) {
            Some(l) => Some(U192 { limbs: l }),
            None => None,
        }
    }

    /// `self / other` rounded down, or `None` when `other` is zero.
    pub fn checked_div(&self, other: &Self) -> (r: Option<Self>)
        ensures
            r is Some <==> other@ != 0,
            r matches Some(v) ==> v@ == self@ / other@,
    {
        proof {
            use_type_invariant(self);
            use_type_invariant(other);
        }
        match checked_div_limbs(&self.limbs, &other.limbs) {
            Some(l) => Some(U192 { limbs: l }),
            None => None,
        }
    }

    /// The value as a `u64`, or `None` when it does not fit.
    pub fn to_u64(&self) -> (r: Option<u64>)
        ensures
            r is Some <==> self@ < u64_bound(),
            r matches Some(v) ==> v == self@,
    {
        match self.try_to_u64() {
            Ok(v) => Some(v),
            Err(_) => None,
        }
    }

    /// The value as a `u64`, or `ConversionFailure` when it does not fit.
    pub fn try_to_u64(&self) -> (r: Result<u64, NumConvertError>)
        ensures
            r is Ok <==> self@ < u64_bound(),
            r matches Ok(v) ==> v == self@,
            r matches Err(e) ==> e == NumConvertError::ConversionFailure,
    {
        proof {
            use_type_invariant(self);
        }
        match resize_limbs(&self.limbs, 1) {
            Some(l) => {
                proof {
                    lemma_one_limb(l@);
                }
                Ok(l[0])
            },
            None => Err(NumConvertError::ConversionFailure),
        }
    }

    /// The value as a `u128`, or `None` when it does not fit.
    pub fn to_u128(&self) -> (r: Option<u128>)
        ensures
            r is Some <==> self@ < u128_bound(),
            r matches Some(v) ==> v == self@,
    {
        match self.try_to_u128() {
            Ok(v) => Some(v),
            Err(_) => None,
        }
    }

    /// The value as a `u128`, or `ConversionFailure` when it does not fit.
    pub fn try_to_u128(&self) -> (r: Result<u128, NumConvertError>)
        ensures
            r is Ok <==> self@ < u128_bound(),
            r matches Ok(v) ==> v == self@,
            r matches Err(e) ==> e == NumConvertError::ConversionFailure,
    {
        proof {
            use_type_invariant(self);
        }
        match resize_limbs(&self.limbs, 2) {
            Some(l) => {
                proof {
                    lemma_two_limbs(l@);
                }
                Ok(l[0] as u128 + (l[1] as u128) * 0x1_0000_0000_0000_0000u128)
            },
            None => Err(NumConvertError::ConversionFailure),
        }
    }
}

/// A 256-bit unsigned integer.
pub struct U256 {
    limbs: Vec<u64>,
}

impl View for U256 {
    type V = nat;

    closed spec fn view(&self) -> nat {
        limbs_value(self.limbs@)
    }
}

impl U256 {
    #[verifier::type_invariant]
    spec fn width_is_fixed(&self) -> bool {
        self.limbs.len() == 4
    }

    /// The value `v`.
    pub fn from_u128(v: u128) -> (r: Self)
        ensures
            r@ == v,
    {
        U256 { limbs: limbs_from_u128(v, 4) }
    }

    /// A second value equal to this one.
    pub fn duplicate(&self) -> (r: Self)
        ensures
            r@ == self@,
    {
        proof {
            use_type_invariant(self);
        }
        U256 { limbs: copy_limbs(&self.limbs) }
    }

    /// Whether the value is zero.
    pub fn is_zero(&self) -> (r: bool)
        ensures
            r == (self@ == 0),
    {
        let z = U256::from_u128(0);
        proof {
            use_type_invariant(self);
            use_type_invariant(&z);
        }
        !less_than(&z.limbs, &self.limbs)
    }

    /// `self < other`.
    pub fn less_than(&self, other: &Self) -> (r: bool)
        ensures
            r == (self@ < other@),
    {
        proof {
            use_type_invariant(self);
            use_type_invariant(other);
        }
        less_than(&self.limbs, &other.limbs)
    }

    /// `self + other`, or `None` on overflow.
    pub fn checked_add(&self, other: &Self) -> (r: Option<Self>)
        ensures
            r is Some <==> self@ + other@ < u256_bound(),
            r matches Some(v) ==> v@ == self@ + other@,
    {
        proof {
            use_type_invariant(self);
            use_type_invariant(other);
        }
        match checked_add_limbs(&self.limbs, &other.limbs) {
            Some(l) => Some(U256 { limbs: l }),
            None => None,
        }
    }

    /// `self - other`, or `None` when `other` is the larger.
    pub fn checked_sub(&self, other: &Self) -> (r: Option<Self>)
        ensures
            r is Some <==> other@ <= self@,
            r matches Some(v) ==> v@ == self@ - other@,
    {
        proof {
            use_type_invariant(self);
            use_type_invariant(other);
        }
        match checked_sub_limbs(&self.limbs, &other.limbs) {
            Some(l) => Some(U256 { limbs: l }),
            None => None,
        }
    }

    /// `self * other`, or `None` on overflow.
    pub fn checked_mul(&self, other: &Self) -> (r: Option<Self>)
        ensures
            r is Some <==> self@ * other@ < u256_bound(),
            r matches Some(v) ==> v@ == self@ * other@,
    {
        proof {
            use_type_invariant(self);
            use_type_invariant(other);
        }
        match checked_mul_limbs(&self.limbs, &other.limbs) {
            Some(l) => Some(U256 { limbs: l }),
            None => None,
        }
    }

    /// `self / other` rounded down, or `None` when `other` is zero.
    pub fn checked_div(&self, other: &Self) -> (r: Option<Self>)
        ensures
            r is Some <==> other@ != 0,
            r matches Some(v) ==> v@ == self@ / other@,
    {
        proof {
            use_type_invariant(self);
            use_type_invariant(other);
        }
        match checked_div_limbs(&self.limbs, &other.limbs) {
            Some(l) => Some(U256 { limbs: l }),
            None => None,
        }
    }

    /// The value as a `u64`, or `None` when it does not fit.
    pub fn to_u64(&self) -> (r: Option<u64>)
        ensures
            r is Some <==> self@ < u64_bound(),
            r matches Some(v) ==> v == self@,
    {
        match self.try_to_u64() {
            Ok(v) => Some(v),
            Err(_) => None,
        }
    }

    /// The value as a `u64`, or `ConversionFailure` when it does not fit.
    pub fn try_to_u64(&self) -> (r: Result<u64, NumConvertError>)
        ensures
            r is Ok <==> self@ < u64_bound(),
            r matches Ok(v) ==> v == self@,
            r matches Err(e) ==> e == NumConvertError::ConversionFailure,
    {
        proof {
            use_type_invariant(self);
        }
        match resize_limbs(&self.limbs, 1) {
            Some(l) => {
                proof {
                    lemma_one_limb(l@);
                }
                Ok(l[0])
            },
            None => Err(NumConvertError::ConversionFailure),
        }
    }

    /// The value as a `u128`, or `None` when it does not fit.
    pub fn to_u128(&self) -> (r: Option<u128>)
        ensures
            r is Some <==> self@ < u128_bound(),
            r matches Some(v) ==> v == self@,
    {
        match self.try_to_u128() {
            Ok(v) => Some(v),
            Err(_) => None,
        }
    }

    /// The value as a `u128`, or `ConversionFailure` when it does not fit.
    pub fn try_to_u128(&self) -> (r: Result<u128, NumConvertError>)
        ensures
            r is Ok <==> self@ < u128_bound(),
            r matches Ok(v) ==> v == self@,
            r matches Err(e) ==> e == NumConvertError::ConversionFailure,
    {
        proof {
            use_type_invariant(self);
        }
        match resize_limbs(&self.limbs, 2) {
            Some(l) => {
                proof {
                    lemma_two_limbs(l@);
                }
                Ok(l[0] as u128 + (l[1] as u128) * 0x1_0000_0000_0000_0000u128)
            },
            None => Err(NumConvertError::ConversionFailure),
        }
    }
}

/// A 576-bit unsigned integer.
pub struct U576 {
    limbs: Vec<u64>,
}

impl View for U576 {
    type V = nat;

    closed spec fn view(&self) -> nat {
        limbs_value(self.limbs@)
    }
}

impl U576 {
    #[verifier::type_invariant]
    spec fn width_is_fixed(&self) -> bool {
        self.limbs.len() == 9
    }

    /// The value `v`.
    pub fn from_u128(v: u128) -> (r: Self)
        ensures
            r@ == v,
    {
        U576 { limbs: limbs_from_u128(v, 9) }
    }

    /// A second value equal to this one.
    pub fn duplicate(&self) -> (r: Self)
        ensures
            r@ == self@,
    {
        proof {
            use_type_invariant(self);
        }
        U576 { limbs: copy_limbs(&self.limbs) }
    }

    /// Whether the value is zero.
    pub fn is_zero(&self) -> (r: bool)
        ensures
            r == (self@ == 0),
    {
        let z = U576::from_u128(0);
        proof {
            use_type_invariant(self);
            use_type_invariant(&z);
        }
        !less_than(&z.limbs, &self.limbs)
    }

    /// `self < other`.
    pub fn less_than(&self, other: &Self) -> (r: bool)
        ensures
            r == (self@ < other@),
    {
        proof {
            use_type_invariant(self);
            use_type_invariant(other);
        }
        less_than(&self.limbs, &other.limbs)
    }

    /// `self + other`, or `None` on overflow.
    pub fn checked_add(&self, other: &Self) -> (r: Option<Self>)
        ensures
            r is Some <==> self@ + other@ < u576_bound(),
            r matches Some(v) ==> v@ == self@ + other@,
    {
        proof {
            use_type_invariant(self);
            use_type_invariant(other);
        }
        match checked_add_limbs(&self.limbs, &other.limbs) {
            Some(l) => Some(U576 { limbs: l }),
            None => None,
        }
    }

    /// `self - other`, or `None` when `other` is the larger.
    pub fn checked_sub(&self, other: &Self) -> (r: Option<Self>)
        ensures
            r is Some <==> other@ <= self@,
            r matches Some(v) ==> v@ == self@ - other@,
    {
        proof {
            use_type_invariant(self);
            use_type_invariant(other);
        }
        match checked_sub_limbs(&self.limbs, &other.limbs) {
            Some(l) => Some(U576 { limbs: l }),
            None => None,
        }
    }

    /// `self * other`, or `None` on overflow.
    pub fn checked_mul(&self, other: &Self) -> (r: Option<Self>)
        ensures
            r is Some <==> self@ * other@ < u576_bound(),
            r matches Some(v) ==> v@ == self@ * other@,
    {
        proof {
            use_type_invariant(self);
            use_type_invariant(other);
        }
        match checked_mul_limbs(&self.limbs, &other.limbs) {
            Some(l) => Some(U576 { limbs: l }),
            None => None,
        }
    }

    /// `self / other` rounded down, or `None` when `other` is zero.
    pub fn checked_div(&self, other: &Self) -> (r: Option<Self>)
        ensures
            r is Some <==> other@ != 0,
            r matches Some(v) ==> v@ == self@ / other@,
    {
        proof {
            use_type_invariant(self);
            use_type_invariant(other);
        }
        match checked_div_limbs(&self.limbs, &other.limbs) {
            Some(l) => Some(U576 { limbs: l }),
            None => None,
        }
    }

    /// The value as a `u64`, or `None` when it does not fit.
    pub fn to_u64(&self) -> (r: Option<u64>)
        ensures
            r is Some <==> self@ < u64_bound(),
            r matches Some(v) ==> v == self@,
    {
        match self.try_to_u64() {
            Ok(v) => Some(v),
            Err(_) => None,
        }
    }

    /// The value as a `u64`, or `ConversionFailure` when it does not fit.
    pub fn try_to_u64(&self) -> (r: Result<u64, NumConvertError>)
        ensures
            r is Ok <==> self@ < u64_bound(),
            r matches Ok(v) ==> v == self@,
            r matches Err(e) ==> e == NumConvertError::ConversionFailure,
    {
        proof {
            use_type_invariant(self);
        }
        match resize_limbs(&self.limbs, 1) {
            Some(l) => {
                proof {
                    lemma_one_limb(l@);
                }
                Ok(l[0])
            },
            None => Err(NumConvertError::ConversionFailure),
        }
    }

    /// The value as a `u128`, or `None` when it does not fit.
    pub fn to_u128(&self) -> (r: Option<u128>)
        ensures
            r is Some <==> self@ < u128_bound(),
            r matches Some(v) ==> v == self@,
    {
        match self.try_to_u128() {
            Ok(v) => Some(v),
            Err(_) => None,
        }
    }

    /// The value as a `u128`, or `ConversionFailure` when it does not fit.
    pub fn try_to_u128(&self) -> (r: Result<u128, NumConvertError>)
        ensures
            r is Ok <==> self@ < u128_bound(),
            r matches Ok(v) ==> v == self@,
            r matches Err(e) ==> e == NumConvertError::ConversionFailure,
    {
        proof {
            use_type_invariant(self);
        }
        match resize_limbs(&self.limbs, 2) {
            Some(l) => {
                proof {
                    lemma_two_limbs(l@);
                }
                Ok(l[0] as u128 + (l[1] as u128) * 0x1_0000_0000_0000_0000u128)
            },
            None => Err(NumConvertError::ConversionFailure),
        }
    }

    /// The value as a `U192`, or `None` when it does not fit.
    pub fn to_u192(&self) -> (r: Option<U192>)
        ensures
            r is Some <==> self@ < u192_bound(),
            r matches Some(v) ==> v@ == self@,
    {
        match self.try_to_u192() {
            Ok(v) => Some(v),
            Err(_) => None,
        }
    }

    /// The value as a `U192`, or `ConversionFailure` when it does not fit.
    pub fn try_to_u192(&self) -> (r: Result<U192, NumConvertError>)
        ensures
            r is Ok <==> self@ < u192_bound(),
            r matches Ok(v) ==> v@ == self@,
            r matches Err(e) ==> e == NumConvertError::ConversionFailure,
    {
        proof {
            use_type_invariant(self);
        }
        match resize_limbs(&self.limbs, 3) {
            Some(l) => Ok(U192 { limbs: l }),
            None => Err(NumConvertError::ConversionFailure),
        }
    }

    /// The same value, widened from a `U192`.
    pub fn from_u192(v: &U192) -> (r: Self)
        ensures
            r@ == v@,
    {
        proof {
            use_type_invariant(v);
            lemma_limbs_bound(v.limbs@);
            crate::limbs::lemma_radix_pow_monotone(3, 9);
        }
        let l = resize_limbs(&v.limbs, 9);
        U576 { limbs: l.unwrap() }
    }
}

/// A 704-bit unsigned integer.
pub struct U704 {
    limbs: Vec<u64>,
}

impl View for U704 {
    type V = nat;

    closed spec fn view(&self) -> nat {
        limbs_value(self.limbs@)
    }
}

impl U704 {
    #[verifier::type_invariant]
    spec fn width_is_fixed(&self) -> bool {
        self.limbs.len() == 11
    }

    /// The value `v`.
    pub fn from_u128(v: u128) -> (r: Self)
        ensures
            r@ == v,
    {
        U704 { limbs: limbs_from_u128(v, 11) }
    }

    /// A second value equal to this one.
    pub fn duplicate(&self) -> (r: Self)
        ensures
            r@ == self@,
    {
        proof {
            use_type_invariant(self);
        }
        U704 { limbs: copy_limbs(&self.limbs) }
    }

    /// Whether the value is zero.
    pub fn is_zero(&self) -> (r: bool)
        ensures
            r == (self@ == 0),
    {
        let z = U704::from_u128(0);
        proof {
            use_type_invariant(self);
            use_type_invariant(&z);
        }
        !less_than(&z.limbs, &self.limbs)
    }

    /// `self < other`.
    pub fn less_than(&self, other: &Self) -> (r: bool)
        ensures
            r == (self@ < other@),
    {
        proof {
            use_type_invariant(self);
            use_type_invariant(other);
        }
        less_than(&self.limbs, &other.limbs)
    }

    /// `self + other`, or `None` on overflow.
    pub fn checked_add(&self, other: &Self) -> (r: Option<Self>)
        ensures
            r is Some <==> self@ + other@ < u704_bound(),
            r matches Some(v) ==> v@ == self@ + other@,
    {
        proof {
            use_type_invariant(self);
            use_type_invariant(other);
        }
        match checked_add_limbs(&self.limbs, &other.limbs) {
            Some(l) => Some(U704 { limbs: l }),
            None => None,
        }
    }

    /// `self - other`, or `None` when `other` is the larger.
    pub fn checked_sub(&self, other: &Self) -> (r: Option<Self>)
        ensures
            r is Some <==> other@ <= self@,
            r matches Some(v) ==> v@ == self@ - other@,
    {
        proof {
            use_type_invariant(self);
            use_type_invariant(other);
        }
        match checked_sub_limbs(&self.limbs, &other.limbs) {
            Some(l) => Some(U704 { limbs: l }),
            None => None,
        }
    }

    /// `self * other`, or `None` on overflow.
    pub fn checked_mul(&self, other: &Self) -> (r: Option<Self>)
        ensures
            r is Some <==> self@ * other@ < u704_bound(),
            r matches Some(v) ==> v@ == self@ * other@,
    {
        proof {
            use_type_invariant(self);
            use_type_invariant(other);
        }
        match checked_mul_limbs(&self.limbs, &other.limbs) {
            Some(l) => Some(U704 { limbs: l }),
            None => None,
        }
    }

    /// `self / other` rounded down, or `None` when `other` is zero.
    pub fn checked_div(&self, other: &Self) -> (r: Option<Self>)
        ensures
            r is Some <==> other@ != 0,
            r matches Some(v) ==> v@ == self@ / other@,
    {
        proof {
            use_type_invariant(self);
            use_type_invariant(other);
        }
        match checked_div_limbs(&self.limbs, &other.limbs) {
            Some(l) => Some(U704 { limbs: l }),
            None => None,
        }
    }

    /// The value as a `u64`, or `None` when it does not fit.
    pub fn to_u64(&self) -> (r: Option<u64>)
        ensures
            r is Some <==> self@ < u64_bound(),
            r matches Some(v) ==> v == self@,
    {
        match self.try_to_u64() {
            Ok(v) => Some(v),
            Err(_) => None,
        }
    }

    /// The value as a `u64`, or `ConversionFailure` when it does not fit.
    pub fn try_to_u64(&self) -> (r: Result<u64, NumConvertError>)
        ensures
            r is Ok <==> self@ < u64_bound(),
            r matches Ok(v) ==> v == self@,
            r matches Err(e) ==> e == NumConvertError::ConversionFailure,
    {
        proof {
            use_type_invariant(self);
        }
        match resize_limbs(&self.limbs, 1) {
            Some(l) => {
                proof {
                    lemma_one_limb(l@);
                }
                Ok(l[0])
            },
            None => Err(NumConvertError::ConversionFailure),
        }
    }

    /// The value as a `u128`, or `None` when it does not fit.
    pub fn to_u128(&self) -> (r: Option<u128>)
        ensures
            r is Some <==> self@ < u128_bound(),
            r matches Some(v) ==> v == self@,
    {
        match self.try_to_u128() {
            Ok(v) => Some(v),
            Err(_) => None,
        }
    }

    /// The value as a `u128`, or `ConversionFailure` when it does not fit.
    pub fn try_to_u128(&self) -> (r: Result<u128, NumConvertError>)
        ensures
            r is Ok <==> self@ < u128_bound(),
            r matches Ok(v) ==> v == self@,
            r matches Err(e) ==> e == NumConvertError::ConversionFailure,
    {
        proof {
            use_type_invariant(self);
        }
        match resize_limbs(&self.limbs, 2) {
            Some(l) => {
                proof {
                    lemma_two_limbs(l@);
                }
                Ok(l[0] as u128 + (l[1] as u128) * 0x1_0000_0000_0000_0000u128)
            },
            None => Err(NumConvertError::ConversionFailure),
        }
    }

    /// The value as a `U192`, or `None` when it does not fit.
    pub fn to_u192(&self) -> (r: Option<U192>)
        ensures
            r is Some <==> self@ < u192_bound(),
            r matches Some(v) ==> v@ == self@,
    {
        match self.try_to_u192() {
            Ok(v) => Some(v),
            Err(_) => None,
        }
    }

    /// The value as a `U192`, or `ConversionFailure` when it does not fit.
    pub fn try_to_u192(&self) -> (r: Result<U192, NumConvertError>)
        ensures
            r is Ok <==> self@ < u192_bound(),
            r matches Ok(v) ==> v@ == self@,
            r matches Err(e) ==> e == NumConvertError::ConversionFailure,
    {
        proof {
            use_type_invariant(self);
        }
        match resize_limbs(&self.limbs, 3) {
            Some(l) => Ok(U192 { limbs: l }),
            None => Err(NumConvertError::ConversionFailure),
        }
    }

    /// The same value, widened from a `U192`.
    pub fn from_u192(v: &U192) -> (r: Self)
        ensures
            r@ == v@,
    {
        proof {
            use_type_invariant(v);
            lemma_limbs_bound(v.limbs@);
            crate::limbs::lemma_radix_pow_monotone(3, 11);
        }
        let l = resize_limbs(&v.limbs, 11);
        U704 { limbs: l.unwrap() }
    }
}

} // verus!
