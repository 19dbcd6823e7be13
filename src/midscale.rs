use num_bigint::{BigInt, BigUint};
use vstd::prelude::*;

use crate::characters::NumChar;
use crate::grouping::{
    lemma_linear_nonempty, linear_at, linear_chars, trim_chars, trim_leading_one, LinearScale,
};
use crate::magnitude::{
    digits_of, digits_of_u128, leading_myriad_u128, leading_myriad_of, lemma_digits_of,
    lemma_nonzero_digits, lemma_pow10_monotonic, lemma_pow10_positive, lemma_u128_below_pow10,
    pow10, BigMagnitude,
};
use crate::{
    abs_of_int, normal_sign, sign_of_int, split_i128, ChineseNumeral, ChineseNumeralBase, Error,
    Sign, SignedInteger,
};

verus! {

/// The symbols of `n` in the mid scale (中数), least significant first:
/// groups of eight digits, each named in the myriad scale; the group above
/// the lowest is marked by the first large name, each higher one by the
/// next.
pub open spec fn mid_syms(n: nat) -> Seq<NumChar> {
    linear_at(LinearScale::Mid, digits_of(n), 0, 11)
}

/// How many digits the mid scale can name: its largest absolute value is
/// `10^88 - 1`.
pub const MID_SCALE_DIGITS: usize = 88;

/// A positive number the mid scale can name has a nonempty name there.
proof fn lemma_nonempty(v: nat)
    requires
        0 < v < pow10(88),
    ensures
        mid_syms(v).len() > 0,
{
    lemma_nonzero_digits(v, 88);
    lemma_linear_nonempty(LinearScale::Mid, digits_of(v), 0, 11);
}

/// Mid-scale integers (中数), with an absolute value that fits in a `u128`.
#[derive(PartialEq, Eq, Structural, PartialOrd, Ord, Clone, Copy, Debug)]
pub struct MidScaleInt {
    sign: Sign,
    data: u128,
}

impl MidScaleInt {
    #[verifier::type_invariant]
    spec fn inv(&self) -> bool {
        self.data == 0 ==> self.sign == Sign::Nil
    }

    /// The number with the given sign and absolute value; zero has no sign.
    pub fn new(sign: Sign, data: u128) -> (r: Self)
        ensures
            r.spec_abs() == data,
            r.spec_sign() == normal_sign(sign, data as nat),
    {
        if data == 0 {
            MidScaleInt { sign: Sign::Nil, data: 0 }
        } else {
            MidScaleInt { sign, data }
        }
    }

    /// The number with the absolute value `abs`, negative unless it is zero.
    pub fn new_non_pos(abs: u128) -> (r: Self)
        ensures
            r.spec_abs() == abs,
            r.spec_sign() == normal_sign(Sign::Neg, abs as nat),
    {
        Self::new(Sign::Neg, abs)
    }

    /// The number `v`.
    pub fn from_i128(v: i128) -> (r: Self)
        ensures
            r.spec_abs() == abs_of_int(v as int),
            r.spec_sign() == sign_of_int(v as int),
    {
        let (sign, abs) = split_i128(v);
        Self::new(sign, abs)
    }

    /// The number `v`.
    pub fn from_u128(v: u128) -> (r: Self)
        ensures
            r.spec_abs() == v,
            r.spec_sign() == normal_sign(Sign::Pos, v as nat),
    {
        Self::new(Sign::Pos, v)
    }

    /// The absolute value.
    pub fn data(&self) -> (r: u128)
        ensures
            r == self.spec_abs(),
    {
        self.data
    }
}

impl Default for MidScaleInt {
    /// Zero.
    fn default() -> (r: Self)
        ensures
            r.spec_abs() == 0,
            r.spec_sign() == Sign::Nil,
    {
        Self::new(Sign::Nil, 0)
    }
}

impl SignedInteger for MidScaleInt {
    closed spec fn spec_sign(&self) -> Sign {
        self.sign
    }

    closed spec fn spec_abs(&self) -> nat {
        self.data as nat
    }

    fn sign(&self) -> (r: Sign) {
        self.sign
    }
}

impl ChineseNumeralBase for MidScaleInt {
    open spec fn spec_chars(&self) -> Seq<NumChar> {
        mid_syms(self.spec_abs())
    }

    open spec fn spec_chars_trimmed(&self) -> Seq<NumChar> {
        trim_leading_one(mid_syms(self.spec_abs()), self.spec_abs())
    }

    fn to_chars(&self) -> (r: Vec<NumChar>) {
        let ds = digits_of_u128(self.data);
        linear_chars(LinearScale::Mid, &ds, 11)
    }

    fn to_chars_trimmed(&self) -> (r: Vec<NumChar>) {
        let chars = self.to_chars();
        let lead = leading_myriad_u128(self.data);
        proof {
            if self.data > 0 {
                lemma_u128_below_pow10(self.data);
                lemma_pow10_monotonic(39, 88);
                lemma_nonempty(self.data as nat);
            }
        }
        trim_chars(chars, lead)
    }
}

impl ChineseNumeral for MidScaleInt {

}

/// Mid-scale integers (中数) of any size the scale can name: the absolute value is at most
/// `10^88 - 1`.
#[derive(Debug, PartialEq, Eq)]
pub struct MidScaleBigInt {
    sign: Sign,
    data: BigMagnitude,
}

impl MidScaleBigInt {
    #[verifier::type_invariant]
    spec fn inv(&self) -> bool {
        &&& self.data@ < pow10(88)
        &&& self.data@ == 0 ==> self.sign == Sign::Nil
    }

    /// The number with the given sign and absolute value; zero has no sign.
    /// Fails, with that absolute value, when it is beyond `10^88 - 1`.
    pub fn new(sign: Sign, data: BigMagnitude) -> (r: Result<Self, Error>)
        ensures
            data@ < pow10(88) <==> r is Ok,
            r matches Ok(n) ==> n.spec_abs() == data@ && n.spec_sign() == normal_sign(
                sign,
                data@,
            ),
            r matches Err(e) ==> e matches Error::MidScaleOutOfRange(m) && m@ == data@,
    {
        if !data.below_pow10(MID_SCALE_DIGITS) {
            Err(Error::MidScaleOutOfRange(data))
        } else if data.is_zero() {
            Ok(MidScaleBigInt { sign: Sign::Nil, data })
        } else {
            Ok(MidScaleBigInt { sign, data })
        }
    }

    /// The number held by `value`; fails, with it, when it is beyond
    /// `10^88 - 1`.
    pub fn try_from_biguint(value: &BigUint) -> (r: Result<Self, Error>)
        ensures
            r matches Ok(n) ==> n.spec_sign() != Sign::Neg,
    {
        Self::new(Sign::Pos, BigMagnitude::from_biguint(value))
    }

    /// The number held by `value`; fails, with its absolute value, when that
    /// is beyond `10^88 - 1`.
    pub fn try_from_bigint(value: &BigInt) -> (r: Result<Self, Error>) {
        let (sign, abs) = BigMagnitude::from_bigint(value);
        Self::new(sign, abs)
    }

    /// The largest number the scale can name.
    pub fn max_value() -> (r: Self)
        ensures
            r.spec_sign() == Sign::Pos,
            r.spec_abs() + 1 == pow10(88),
    {
        let data = BigMagnitude::nines(MID_SCALE_DIGITS);
        proof {
            lemma_pow10_monotonic(0, 88);
        }
        MidScaleBigInt { sign: Sign::Pos, data }
    }

    /// The smallest number the scale can name.
    pub fn min_value() -> (r: Self)
        ensures
            r.spec_sign() == Sign::Neg,
            r.spec_abs() + 1 == pow10(88),
    {
        let data = BigMagnitude::nines(MID_SCALE_DIGITS);
        proof {
            lemma_pow10_monotonic(1, 88);
            reveal_with_fuel(pow10, 2);
        }
        MidScaleBigInt { sign: Sign::Neg, data }
    }

    /// The absolute value.
    pub fn data(&self) -> (r: &BigMagnitude)
        ensures
            r@ == self.spec_abs(),
    {
        &self.data
    }
}

impl Default for MidScaleBigInt {
    /// Zero.
    fn default() -> (r: Self)
        ensures
            r.spec_abs() == 0,
            r.spec_sign() == Sign::Nil,
    {
        proof {
            lemma_pow10_positive(88);
        }
        MidScaleBigInt { sign: Sign::Nil, data: BigMagnitude::zero() }
    }
}

impl SignedInteger for MidScaleBigInt {
    closed spec fn spec_sign(&self) -> Sign {
        self.sign
    }

    closed spec fn spec_abs(&self) -> nat {
        self.data@
    }

    fn sign(&self) -> (r: Sign) {
        self.sign
    }
}

impl ChineseNumeralBase for MidScaleBigInt {
    open spec fn spec_chars(&self) -> Seq<NumChar> {
        mid_syms(self.spec_abs())
    }

    open spec fn spec_chars_trimmed(&self) -> Seq<NumChar> {
        trim_leading_one(mid_syms(self.spec_abs()), self.spec_abs())
    }

    fn to_chars(&self) -> (r: Vec<NumChar>) {
        let ds = self.data.digits_le();
        linear_chars(LinearScale::Mid, ds, 11)
    }

    fn to_chars_trimmed(&self) -> (r: Vec<NumChar>) {
        let chars = self.to_chars();
        let ds = self.data.digits_le();
        let lead = leading_myriad_of(ds);
        proof {
            use_type_invariant(self);
            lemma_digits_of(self.data@);
            if self.data@ > 0 {
                lemma_nonempty(self.data@);
            }
        }
        trim_chars(chars, lead as u128)
    }
}

impl ChineseNumeral for MidScaleBigInt {

}

} // verus!
