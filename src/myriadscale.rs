use num_bigint::{BigInt, BigUint};
use vstd::prelude::*;

use crate::characters::NumChar;
use crate::grouping::{
    lemma_linear_nonempty, linear_at, linear_chars, trim_chars, trim_leading_one, LinearScale,
};
use crate::magnitude::{
    digits_of, digits_of_u128, leading_myriad_u128, leading_myriad_of, lemma_digits_of,
    lemma_nonzero_digits, lemma_pow10_monotonic, lemma_pow10_positive, lemma_u128_below_pow10,
    pow10, BigMagnitude,
};
use crate::{
    abs_of_int, normal_sign, sign_of_int, split_i128, ChineseNumeral, ChineseNumeralBase, Error,
    Sign, SignedInteger,
};

verus! {

/// The symbols of `n` in the myriad scale (万进), least significant first:
/// groups of four digits, each named in the short scale; the group above
/// the lowest is marked by the myriad, each higher one by the next large
/// name.
pub open spec fn myriad_syms(n: nat) -> Seq<NumChar> {
    linear_at(LinearScale::Myriad, digits_of(n), 0, 12)
}

/// How many digits the myriad scale can name: its largest absolute value is
/// `10^48 - 1`.
pub const MYRIAD_SCALE_DIGITS: usize = 48;

/// A positive number the myriad scale can name has a nonempty name there.
proof fn lemma_nonempty(v: nat)
    requires
        0 < v < pow10(48),
    ensures
        myriad_syms(v).len() > 0,
{
    lemma_nonzero_digits(v, 48);
    lemma_linear_nonempty(LinearScale::Myriad, digits_of(v), 0, 12);
}

/// Myriad scale integers (万进), with an absolute value that fits in a `u128`.
#[derive(PartialEq, Eq, Structural, PartialOrd, Ord, Clone, Copy, Debug)]
pub struct MyriadScaleInt {
    sign: Sign,
    data: u128,
}

impl MyriadScaleInt {
    #[verifier::type_invariant]
    spec fn inv(&self) -> bool {
        self.data == 0 ==> self.sign == Sign::Nil
    }

    /// The number with the given sign and absolute value; zero has no sign.
    pub fn new(sign: Sign, data: u128) -> (r: Self)
        ensures
            r.spec_abs() == data,
            r.spec_sign() == normal_sign(sign, data as nat),
    {
        if data == 0 {
            MyriadScaleInt { sign: Sign::Nil, data: 0 }
        } else {
            MyriadScaleInt { sign, data }
        }
    }

    /// The number `v`.
    pub fn from_i128(v: i128) -> (r: Self)
        ensures
            r.spec_abs() == abs_of_int(v as int),
            r.spec_sign() == sign_of_int(v as int),
    {
        let (sign, abs) = split_i128(v);
        Self::new(sign, abs)
    }

    /// The number `v`.
    pub fn from_u128(v: u128) -> (r: Self)
        ensures
            r.spec_abs() == v,
            r.spec_sign() == normal_sign(Sign::Pos, v as nat),
    {
        Self::new(Sign::Pos, v)
    }

    /// The absolute value.
    pub fn data(&self) -> (r: u128)
        ensures
            r == self.spec_abs(),
    {
        self.data
    }
}

impl Default for MyriadScaleInt {
    /// Zero.
    fn default() -> (r: Self)
        ensures
            r.spec_abs() == 0,
            r.spec_sign() == Sign::Nil,
    {
        Self::new(Sign::Nil, 0)
    }
}

impl SignedInteger for MyriadScaleInt {
    closed spec fn spec_sign(&self) -> Sign {
        self.sign
    }

    closed spec fn spec_abs(&self) -> nat {
        self.data as nat
    }

    fn sign(&self) -> (r: Sign) {
        self.sign
    }
}

impl ChineseNumeralBase for MyriadScaleInt {
    open spec fn spec_chars(&self) -> Seq<NumChar> {
        myriad_syms(self.spec_abs())
    }

    open spec fn spec_chars_trimmed(&self) -> Seq<NumChar> {
        trim_leading_one(myriad_syms(self.spec_abs()), self.spec_abs())
    }

    fn to_chars(&self) -> (r: Vec<NumChar>) {
        let ds = digits_of_u128(self.data);
        linear_chars(LinearScale::Myriad, &ds, 12)
    }

    fn to_chars_trimmed(&self) -> (r: Vec<NumChar>) {
        let chars = self.to_chars();
        let lead = leading_myriad_u128(self.data);
        proof {
            if self.data > 0 {
                lemma_u128_below_pow10(self.data);
                lemma_pow10_monotonic(39, 48);
                lemma_nonempty(self.data as nat);
            }
        }
        trim_chars(chars, lead)
    }
}

impl ChineseNumeral for MyriadScaleInt {

}

/// Myriad scale integers (万进) of any size the scale can name: the absolute value is at most
/// `10^48 - 1`.
#[derive(Debug, PartialEq, Eq)]
pub struct MyriadScaleBigInt {
    sign: Sign,
    data: BigMagnitude,
}

impl MyriadScaleBigInt {
    #[verifier::type_invariant]
    spec fn inv(&self) -> bool {
        &&& self.data@ < pow10(48)
        &&& self.data@ == 0 ==> self.sign == Sign::Nil
    }

    /// The number with the given sign and absolute value; zero has no sign.
    /// Fails, with that absolute value, when it is beyond `10^48 - 1`.
    pub fn new(sign: Sign, data: BigMagnitude) -> (r: Result<Self, Error>)
        ensures
            data@ < pow10(48) <==> r is Ok,
            r matches Ok(n) ==> n.spec_abs() == data@ && n.spec_sign() == normal_sign(
                sign,
                data@,
            ),
            r matches Err(e) ==> e matches Error::MyriadScaleOutOfRange(m) && m@ == data@,
    {
        if !data.below_pow10(MYRIAD_SCALE_DIGITS) {
            Err(Error::MyriadScaleOutOfRange(data))
        } else if data.is_zero() {
            Ok(MyriadScaleBigInt { sign: Sign::Nil, data })
        } else {
            Ok(MyriadScaleBigInt { sign, data })
        }
    }

    /// The number held by `value`; fails, with it, when it is beyond
    /// `10^48 - 1`.
    pub fn try_from_biguint(value: &BigUint) -> (r: Result<Self, Error>)
        ensures
            r matches Ok(n) ==> n.spec_sign() != Sign::Neg,
    {
        Self::new(Sign::Pos, BigMagnitude::from_biguint(value))
    }

    /// The number held by `value`; fails, with its absolute value, when that
    /// is beyond `10^48 - 1`.
    pub fn try_from_bigint(value: &BigInt) -> (r: Result<Self, Error>) {
        let (sign, abs) = BigMagnitude::from_bigint(value);
        Self::new(sign, abs)
    }

    /// The largest number the scale can name.
    pub fn max_value() -> (r: Self)
        ensures
            r.spec_sign() == Sign::Pos,
            r.spec_abs() + 1 == pow10(48),
    {
        let data = BigMagnitude::nines(MYRIAD_SCALE_DIGITS);
        proof {
            lemma_pow10_monotonic(0, 48);
        }
        MyriadScaleBigInt { sign: Sign::Pos, data }
    }

    /// The smallest number the scale can name.
    pub fn min_value() -> (r: Self)
        ensures
            r.spec_sign() == Sign::Neg,
            r.spec_abs() + 1 == pow10(48),
    {
        let data = BigMagnitude::nines(MYRIAD_SCALE_DIGITS);
        proof {
            lemma_pow10_monotonic(1, 48);
            reveal_with_fuel(pow10, 2);
        }
        MyriadScaleBigInt { sign: Sign::Neg, data }
    }

    /// The absolute value.
    pub fn data(&self) -> (r: &BigMagnitude)
        ensures
            r@ == self.spec_abs(),
    {
        &self.data
    }
}

impl Default for MyriadScaleBigInt {
    /// Zero.
    fn default() -> (r: Self)
        ensures
            r.spec_abs() == 0,
            r.spec_sign() == Sign::Nil,
    {
        proof {
            lemma_pow10_positive(48);
        }
        MyriadScaleBigInt { sign: Sign::Nil, data: BigMagnitude::zero() }
    }
}

impl SignedInteger for MyriadScaleBigInt {
    closed spec fn spec_sign(&self) -> Sign {
        self.sign
    }

    closed spec fn spec_abs(&self) -> nat {
        self.data@
    }

    fn sign(&self) -> (r: Sign) {
        self.sign
    }
}

impl ChineseNumeralBase for MyriadScaleBigInt {
    open spec fn spec_chars(&self) -> Seq<NumChar> {
        myriad_syms(self.spec_abs())
    }

    open spec fn spec_chars_trimmed(&self) -> Seq<NumChar> {
        trim_leading_one(myriad_syms(self.spec_abs()), self.spec_abs())
    }

    fn to_chars(&self) -> (r: Vec<NumChar>) {
        let ds = self.data.digits_le();
        linear_chars(LinearScale::Myriad, ds, 12)
    }

    fn to_chars_trimmed(&self) -> (r: Vec<NumChar>) {
        let chars = self.to_chars();
        let ds = self.data.digits_le();
        let lead = leading_myriad_of(ds);
        proof {
            use_type_invariant(self);
            lemma_digits_of(self.data@);
            if self.data@ > 0 {
                lemma_nonempty(self.data@);
            }
        }
        trim_chars(chars, lead as u128)
    }
}

impl ChineseNumeral for MyriadScaleBigInt {

}

} // verus!
