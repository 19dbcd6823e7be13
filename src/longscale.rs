use num_bigint::{BigInt, BigUint};
use vstd::prelude::*;

use crate::characters::NumChar;
use crate::grouping::{
    lemma_long_nonempty, lemma_long_reach, long_at, long_chars, trim_chars, trim_leading_one,
};
use crate::magnitude::{
    digits_of, digits_of_u128, leading_myriad_u128, leading_myriad_of, lemma_digits_of,
    lemma_nonzero_digits, lemma_pow10_monotonic, lemma_pow10_positive, lemma_u128_below_pow10,
    pow10, BigMagnitude,
};
use crate::{
    abs_of_int, normal_sign, sign_of_int, split_i128, ChineseNumeral, ChineseNumeralBase, Error,
    Sign, SignedInteger,
};

verus! {

/// The symbols of `n` in the long scale (上数), least significant first:
/// the lowest sixteen digits are named in the mid scale; above them, tier
/// `t` holds a number as wide as all lower tiers together, named by the long
/// scale itself and marked by the `t`-th large name from the second on.
pub open spec fn long_syms(n: nat) -> Seq<NumChar> {
    long_at(digits_of(n), 0, 10)
}

/// How many digits the long scale can name: its largest absolute value is
/// `10^8192 - 1`.
pub const LONG_SCALE_DIGITS: usize = 8192;

/// A positive number the long scale can name has a nonempty name there.
proof fn lemma_nonempty(v: nat)
    requires
        0 < v < pow10(8192),
    ensures
        long_syms(v).len() > 0,
{
    lemma_nonzero_digits(v, 8192);
    lemma_long_reach();
    lemma_long_nonempty(digits_of(v), 0, 10);
}

/// Long scale integers (上数), with an absolute value that fits in a `u128`.
#[derive(PartialEq, Eq, Structural, PartialOrd, Ord, Clone, Copy, Debug)]
pub struct LongScaleInt {
    sign: Sign,
    data: u128,
}

impl LongScaleInt {
    #[verifier::type_invariant]
    spec fn inv(&self) -> bool {
        self.data == 0 ==> self.sign == Sign::Nil
    }

    /// The number with the given sign and absolute value; zero has no sign.
    pub fn new(sign: Sign, data: u128) -> (r: Self)
        ensures
            r.spec_abs() == data,
            r.spec_sign() == normal_sign(sign, data as nat),
    {
        if data == 0 {
            LongScaleInt { sign: Sign::Nil, data: 0 }
        } else {
            LongScaleInt { sign, data }
        }
    }

    /// The number `v`.
    pub fn from_i128(v: i128) -> (r: Self)
        ensures
            r.spec_abs() == abs_of_int(v as int),
            r.spec_sign() == sign_of_int(v as int),
    {
        let (sign, abs) = split_i128(v);
        Self::new(sign, abs)
    }

    /// The number `v`.
    pub fn from_u128(v: u128) -> (r: Self)
        ensures
            r.spec_abs() == v,
            r.spec_sign() == normal_sign(Sign::Pos, v as nat),
    {
        Self::new(Sign::Pos, v)
    }

    /// The absolute value.
    pub fn data(&self) -> (r: u128)
        ensures
            r == self.spec_abs(),
    {
        self.data
    }
}

impl Default for LongScaleInt {
    /// Zero.
    fn default() -> (r: Self)
        ensures
            r.spec_abs() == 0,
            r.spec_sign() == Sign::Nil,
    {
        Self::new(Sign::Nil, 0)
    }
}

impl SignedInteger for LongScaleInt {
    closed spec fn spec_sign(&self) -> Sign {
        self.sign
    }

    closed spec fn spec_abs(&self) -> nat {
        self.data as nat
    }

    fn sign(&self) -> (r: Sign) {
        self.sign
    }
}

impl ChineseNumeralBase for LongScaleInt {
    open spec fn spec_chars(&self) -> Seq<NumChar> {
        long_syms(self.spec_abs())
    }

    open spec fn spec_chars_trimmed(&self) -> Seq<NumChar> {
        trim_leading_one(long_syms(self.spec_abs()), self.spec_abs())
    }

    fn to_chars(&self) -> (r: Vec<NumChar>) {
        let ds = digits_of_u128(self.data);
        long_chars(&ds, 10)
    }

    fn to_chars_trimmed(&self) -> (r: Vec<NumChar>) {
        let chars = self.to_chars();
        let lead = leading_myriad_u128(self.data);
        proof {
            if self.data > 0 {
                lemma_u128_below_pow10(self.data);
                lemma_pow10_monotonic(39, 8192);
                lemma_nonempty(self.data as nat);
            }
        }
        trim_chars(chars, lead)
    }
}

impl ChineseNumeral for LongScaleInt {

}

/// Long scale integers (上数) of any size the scale can name: the absolute value is at most
/// `10^8192 - 1`.
#[derive(Debug, PartialEq, Eq)]
pub struct LongScaleBigInt {
    sign: Sign,
    data: BigMagnitude,
}

impl LongScaleBigInt {
    #[verifier::type_invariant]
    spec fn inv(&self) -> bool {
        &&& self.data@ < pow10(8192)
        &&& self.data@ == 0 ==> self.sign == Sign::Nil
    }

    /// The number with the given sign and absolute value; zero has no sign.
    /// Fails, with that absolute value, when it is beyond `10^8192 - 1`.
    pub fn new(sign: Sign, data: BigMagnitude) -> (r: Result<Self, Error>)
        ensures
            data@ < pow10(8192) <==> r is Ok,
            r matches Ok(n) ==> n.spec_abs() == data@ && n.spec_sign() == normal_sign(
                sign,
                data@,
            ),
            r matches Err(e) ==> e matches Error::LongScaleOutOfRange(m) && m@ == data@,
    {
        if !data.below_pow10(LONG_SCALE_DIGITS) {
            Err(Error::LongScaleOutOfRange(data))
        } else if data.is_zero() {
            Ok(LongScaleBigInt { sign: Sign::Nil, data })
        } else {
            Ok(LongScaleBigInt { sign, data })
        }
    }

    /// The number held by `value`; fails, with it, when it is beyond
    /// `10^8192 - 1`.
    pub fn try_from_biguint(value: &BigUint) -> (r: Result<Self, Error>)
        ensures
            r matches Ok(n) ==> n.spec_sign() != Sign::Neg,
    {
        Self::new(Sign::Pos, BigMagnitude::from_biguint(value))
    }

    /// The number held by `value`; fails, with its absolute value, when that
    /// is beyond `10^8192 - 1`.
    pub fn try_from_bigint(value: &BigInt) -> (r: Result<Self, Error>) {
        let (sign, abs) = BigMagnitude::from_bigint(value);
        Self::new(sign, abs)
    }

    /// The largest number the scale can name.
    pub fn max_value() -> (r: Self)
        ensures
            r.spec_sign() == Sign::Pos,
            r.spec_abs() + 1 == pow10(8192),
    {
        let data = BigMagnitude::nines(LONG_SCALE_DIGITS);
        proof {
            lemma_pow10_monotonic(0, 8192);
        }
        LongScaleBigInt { sign: Sign::Pos, data }
    }

    /// The smallest number the scale can name.
    pub fn min_value() -> (r: Self)
        ensures
            r.spec_sign() == Sign::Neg,
            r.spec_abs() + 1 == pow10(8192),
    {
        let data = BigMagnitude::nines(LONG_SCALE_DIGITS);
        proof {
            lemma_pow10_monotonic(1, 8192);
            reveal_with_fuel(pow10, 2);
        }
        LongScaleBigInt { sign: Sign::Neg, data }
    }

    /// The absolute value.
    pub fn data(&self) -> (r: &BigMagnitude)
        ensures
            r@ == self.spec_abs(),
    {
        &self.data
    }
}

impl Default for LongScaleBigInt {
    /// Zero.
    fn default() -> (r: Self)
        ensures
            r.spec_abs() == 0,
            r.spec_sign() == Sign::Nil,
    {
        proof {
            lemma_pow10_positive(8192);
        }
        LongScaleBigInt { sign: Sign::Nil, data: BigMagnitude::zero() }
    }
}

impl SignedInteger for LongScaleBigInt {
    closed spec fn spec_sign(&self) -> Sign {
        self.sign
    }

    closed spec fn spec_abs(&self) -> nat {
        self.data@
    }

    fn sign(&self) -> (r: Sign) {
        self.sign
    }
}

impl ChineseNumeralBase for LongScaleBigInt {
    open spec fn spec_chars(&self) -> Seq<NumChar> {
        long_syms(self.spec_abs())
    }

    open spec fn spec_chars_trimmed(&self) -> Seq<NumChar> {
        trim_leading_one(long_syms(self.spec_abs()), self.spec_abs())
    }

    fn to_chars(&self) -> (r: Vec<NumChar>) {
        let ds = self.data.digits_le();
        long_chars(ds, 10)
    }

    fn to_chars_trimmed(&self) -> (r: Vec<NumChar>) {
        let chars = self.to_chars();
        let ds = self.data.digits_le();
        let lead = leading_myriad_of(ds);
        proof {
            use_type_invariant(self);
            lemma_digits_of(self.data@);
            if self.data@ > 0 {
                lemma_nonempty(self.data@);
            }
        }
        trim_chars(chars, lead as u128)
    }
}

impl ChineseNumeral for LongScaleBigInt {

}

} // verus!
