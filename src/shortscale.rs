use vstd::prelude::*;

use crate::characters::NumChar;
use crate::grouping::{lemma_linear_nonempty, linear_at, linear_chars, trim_chars, LinearScale};
use crate::magnitude::{digits_of, digits_of_u128, lemma_nonzero_digits, pow10};
use crate::{
    abs_of_int, normal_sign, sign_of_int, split_i128, ChineseNumeral, ChineseNumeralBase, Error,
    Sign, SignedInteger,
};

verus! {

/// The largest absolute value of a short scale number: fifteen nines.
pub const SHORT_SCALE_MAX_ABS: u64 = 999_999_999_999_999;

/// The symbols of `n` in the short scale (下数), least significant first:
/// every digit has a marker of its own, from ten up to the tenth large name.
pub open spec fn short_syms(n: nat) -> Seq<NumChar> {
    linear_at(LinearScale::Short, digits_of(n), 0, 15)
}

/// The everyday symbols of `n` in the short scale: a number from ten to
/// nineteen drops its leading "one".
pub open spec fn short_trimmed(n: nat) -> Seq<NumChar> {
    if 10 <= n <= 19 {
        short_syms(n).drop_last()
    } else {
        short_syms(n)
    }
}

proof fn lemma_short_max()
    ensures
        SHORT_SCALE_MAX_ABS + 1 == pow10(15),
{
    reveal_with_fuel(pow10, 16);
}

/// Short scale integers (下数): each digit position has a name of its own,
/// so the absolute value stays below `10^15`.
#[derive(PartialEq, Eq, Structural, PartialOrd, Ord, Clone, Copy, Debug)]
pub struct ShortScaleInt {
    sign: Sign,
    data: u64,
}

impl ShortScaleInt {
    #[verifier::type_invariant]
    spec fn inv(&self) -> bool {
        &&& self.data <= SHORT_SCALE_MAX_ABS
        &&& self.data == 0 ==> self.sign == Sign::Nil
    }

    /// The short scale number with the given sign and absolute value; zero
    /// has no sign. Fails when the absolute value is beyond fifteen digits.
    pub fn new(sign: Sign, data: u64) -> (r: Result<Self, Error>)
        ensures
            data <= SHORT_SCALE_MAX_ABS <==> r is Ok,
            r matches Ok(n) ==> n.spec_abs() == data && n.spec_sign() == normal_sign(
                sign,
                data as nat,
            ),
            r matches Err(e) ==> e == Error::ShortScaleOutOfRange(data as u128),
    {
        if data > SHORT_SCALE_MAX_ABS {
            Err(Error::ShortScaleOutOfRange(data as u128))
        } else if data == 0 {
            Ok(ShortScaleInt { sign: Sign::Nil, data: 0 })
        } else {
            Ok(ShortScaleInt { sign, data })
        }
    }

    /// The short scale number `v`; fails with its absolute value when that
    /// is beyond fifteen digits.
    pub fn try_from_i128(v: i128) -> (r: Result<Self, Error>)
        ensures
            abs_of_int(v as int) <= SHORT_SCALE_MAX_ABS <==> r is Ok,
            r matches Ok(n) ==> n.spec_abs() == abs_of_int(v as int) && n.spec_sign()
                == sign_of_int(v as int),
            r matches Err(e) ==> e matches Error::ShortScaleOutOfRange(a) && a as nat
                == abs_of_int(v as int),
    {
        let (sign, abs) = split_i128(v);
        if abs > SHORT_SCALE_MAX_ABS as u128 {
            Err(Error::ShortScaleOutOfRange(abs))
        } else {
            Self::new(sign, abs as u64)
        }
    }

    /// The short scale number `v`; fails with `v` when it is beyond fifteen
    /// digits.
    pub fn try_from_u128(v: u128) -> (r: Result<Self, Error>)
        ensures
            v <= SHORT_SCALE_MAX_ABS <==> r is Ok,
            r matches Ok(n) ==> n.spec_abs() == v && n.spec_sign() == normal_sign(
                Sign::Pos,
                v as nat,
            ),
            r matches Err(e) ==> e == Error::ShortScaleOutOfRange(v),
    {
        if v > SHORT_SCALE_MAX_ABS as u128 {
            Err(Error::ShortScaleOutOfRange(v))
        } else {
            Self::new(Sign::Pos, v as u64)
        }
    }

    /// The largest short scale number.
    pub fn max_value() -> (r: Self)
        ensures
            r.spec_sign() == Sign::Pos,
            r.spec_abs() == SHORT_SCALE_MAX_ABS,
    {
        ShortScaleInt { sign: Sign::Pos, data: SHORT_SCALE_MAX_ABS }
    }

    /// The smallest short scale number.
    pub fn min_value() -> (r: Self)
        ensures
            r.spec_sign() == Sign::Neg,
            r.spec_abs() == SHORT_SCALE_MAX_ABS,
    {
        ShortScaleInt { sign: Sign::Neg, data: SHORT_SCALE_MAX_ABS }
    }

    /// The absolute value.
    pub fn data(&self) -> (r: u64)
        ensures
            r == self.spec_abs(),
    {
        self.data
    }
}

impl Default for ShortScaleInt {
    /// Zero.
    fn default() -> (r: Self)
        ensures
            r.spec_abs() == 0,
            r.spec_sign() == Sign::Nil,
    {
        ShortScaleInt { sign: Sign::Nil, data: 0 }
    }
}

impl SignedInteger for ShortScaleInt {
    closed spec fn spec_sign(&self) -> Sign {
        self.sign
    }

    closed spec fn spec_abs(&self) -> nat {
        self.data as nat
    }

    fn sign(&self) -> (r: Sign) {
        self.sign
    }
}

impl ChineseNumeralBase for ShortScaleInt {
    open spec fn spec_chars(&self) -> Seq<NumChar> {
        short_syms(self.spec_abs())
    }

    open spec fn spec_chars_trimmed(&self) -> Seq<NumChar> {
        short_trimmed(self.spec_abs())
    }

    fn to_chars(&self) -> (r: Vec<NumChar>) {
        let ds = digits_of_u128(self.data as u128);
        linear_chars(LinearScale::Short, &ds, 15)
    }

    fn to_chars_trimmed(&self) -> (r: Vec<NumChar>) {
        let chars = self.to_chars();
        proof {
            use_type_invariant(self);
            if self.data > 0 {
                lemma_short_max();
                lemma_nonzero_digits(self.data as nat, 15);
                lemma_linear_nonempty(LinearScale::Short, digits_of(self.data as nat), 0, 15);
            }
        }
        trim_chars(chars, self.data as u128)
    }
}

impl ChineseNumeral for ShortScaleInt {

}

} // verus!
