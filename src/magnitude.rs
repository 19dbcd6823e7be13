use num_bigint::{BigInt, BigUint};
use vstd::arithmetic::div_mod::lemma_div_denominator;
use vstd::prelude::*;

use crate::Sign;

verus! {

/// Ten to the power `n`.
pub open spec fn pow10(n: nat) -> nat
    decreases n,
{
    if n == 0 {
        1
    } else {
        10 * pow10((n - 1) as nat)
    }
}

/// The decimal digits of `n`, least significant first, with no zero on top:
/// zero has no digits at all.
pub open spec fn digits_of(n: nat) -> Seq<u8>
    decreases n,
{
    if n == 0 {
        seq![]
    } else {
        seq![(n % 10) as u8] + digits_of(n / 10)
    }
}

/// The number written by decimal digits, least significant first.
pub open spec fn value_of(ds: Seq<u8>) -> nat
    decreases ds.len(),
{
    if ds.len() == 0 {
        0
    } else {
        ds[0] as nat + 10 * value_of(ds.drop_first())
    }
}

/// Every entry is a decimal digit.
pub open spec fn all_digits(ds: Seq<u8>) -> bool {
    forall|i: int| 0 <= i < ds.len() ==> ds[i] < 10
}

/// Decimal digits with no zero on top.
pub open spec fn is_canonical(ds: Seq<u8>) -> bool {
    &&& all_digits(ds)
    &&& ds.len() > 0 ==> ds.last() != 0
}

/// The digit at position `i`, reading every position past the end as zero.
pub open spec fn dig(ds: Seq<u8>, i: int) -> u8 {
    if 0 <= i < ds.len() {
        ds[i]
    } else {
        0
    }
}

/// Whether some digit at a position in `lo..hi` is not zero.
pub open spec fn any_nonzero(ds: Seq<u8>, lo: int, hi: int) -> bool
    decreases hi - lo,
{
    if hi <= lo {
        false
    } else {
        dig(ds, hi - 1) != 0 || any_nonzero(ds, lo, hi - 1)
    }
}

pub proof fn lemma_pow10_positive(n: nat)
    ensures
        pow10(n) >= 1,
    decreases n,
{
    if n > 0 {
        lemma_pow10_positive((n - 1) as nat);
    }
}

pub proof fn lemma_pow10_monotonic(a: nat, b: nat)
    requires
        a <= b,
    ensures
        pow10(a) <= pow10(b),
    decreases b,
{
    if a < b {
        lemma_pow10_monotonic(a, (b - 1) as nat);
        lemma_pow10_positive((b - 1) as nat);
    }
}

/// The digits of a number are canonical and write that number.
pub proof fn lemma_digits_of(n: nat)
    ensures
        is_canonical(digits_of(n)),
        value_of(digits_of(n)) == n,
        n > 0 ==> digits_of(n).len() > 0,
    decreases n,
{
    if n > 0 {
        lemma_digits_of(n / 10);
        let ds = digits_of(n);
        let rest = digits_of(n / 10);
        assert(ds.drop_first() =~= rest);
        if rest.len() > 0 {
            assert(ds.last() == rest.last());
        } else {
            assert(n / 10 == 0);
            assert(n % 10 != 0);
        }
        assert forall|i: int| 0 <= i < ds.len() implies ds[i] < 10 by {
            if i > 0 {
                assert(ds[i] == rest[i - 1]);
            }
        }
    }
}

/// Canonical digits are the digits of the number they write.
pub proof fn lemma_canonical_digits(ds: Seq<u8>)
    requires
        is_canonical(ds),
    ensures
        digits_of(value_of(ds)) == ds,
    decreases ds.len(),
{
    if ds.len() > 0 {
        let rest = ds.drop_first();
        assert(is_canonical(rest)) by {
            assert forall|i: int| 0 <= i < rest.len() implies rest[i] < 10 by {
                assert(rest[i] == ds[i + 1]);
            }
            if rest.len() > 0 {
                assert(rest.last() == ds.last());
            }
        }
        lemma_canonical_digits(rest);
        let v = value_of(ds);
        assert(ds[0] < 10);
        assert(v % 10 == ds[0] as nat && v / 10 == value_of(rest)) by (nonlinear_arith)
            requires
                v == ds[0] as nat + 10 * value_of(rest),
                ds[0] < 10,
        ;
        if value_of(rest) == 0 {
            lemma_value_zero(rest);
            assert(rest.len() == 0);
            assert(ds.last() == ds[0]);
        }
        assert(v != 0);
        assert(digits_of(v) =~= seq![ds[0]] + rest);
        assert(seq![ds[0]] + rest =~= ds);
    }
}

/// Canonical digits write zero only when there are none.
pub proof fn lemma_value_zero(ds: Seq<u8>)
    requires
        is_canonical(ds),
        value_of(ds) == 0,
    ensures
        ds.len() == 0,
{
    if ds.len() > 0 {
        lemma_value_lower_bound(ds);
        lemma_pow10_positive((ds.len() - 1) as nat);
    }
}

/// Digits below ten write a number below ten to the power of their count.
pub proof fn lemma_value_upper_bound(ds: Seq<u8>)
    requires
        forall|i: int| 0 <= i < ds.len() ==> ds[i] < 10,
    ensures
        value_of(ds) < pow10(ds.len()),
    decreases ds.len(),
{
    if ds.len() > 0 {
        let rest = ds.drop_first();
        assert forall|i: int| 0 <= i < rest.len() implies rest[i] < 10 by {
            assert(rest[i] == ds[i + 1]);
        }
        lemma_value_upper_bound(rest);
        assert(ds[0] < 10);
        assert(value_of(ds) < pow10(ds.len())) by (nonlinear_arith)
            requires
                value_of(ds) == ds[0] as nat + 10 * value_of(rest),
                ds[0] < 10,
                value_of(rest) + 1 <= pow10(rest.len()),
                pow10(ds.len()) == 10 * pow10(rest.len()),
        ;
    }
}

/// A nonzero top digit makes the number at least ten to the power of the
/// count of the digits below it.
pub proof fn lemma_value_lower_bound(ds: Seq<u8>)
    requires
        ds.len() > 0,
        ds.last() != 0,
    ensures
        value_of(ds) >= pow10((ds.len() - 1) as nat),
    decreases ds.len(),
{
    let rest = ds.drop_first();
    if ds.len() == 1 {
        assert(ds[0] == ds.last());
    } else {
        assert(rest.last() == ds.last());
        lemma_value_lower_bound(rest);
        assert(value_of(ds) >= 10 * value_of(rest));
    }
}

/// A canonical number is at most `10^n - 1` exactly when it has at most
/// `n` digits.
pub proof fn lemma_within_digits(ds: Seq<u8>, n: nat)
    requires
        is_canonical(ds),
    ensures
        (value_of(ds) < pow10(n)) <==> (ds.len() <= n),
{
    lemma_value_upper_bound(ds);
    if ds.len() <= n {
        lemma_pow10_monotonic(ds.len(), n);
    } else {
        lemma_value_lower_bound(ds);
        lemma_pow10_monotonic(n, (ds.len() - 1) as nat);
    }
}

/// A number is at most `10^n - 1` exactly when it has at most `n` digits.
pub proof fn lemma_digit_count(v: nat, n: nat)
    ensures
        (v < pow10(n)) <==> (digits_of(v).len() <= n),
{
    lemma_digits_of(v);
    lemma_within_digits(digits_of(v), n);
}

/// The nonzero digits of a range split at any point between its ends.
pub proof fn lemma_any_nonzero_split(ds: Seq<u8>, lo: int, mid: int, hi: int)
    requires
        lo <= mid <= hi,
    ensures
        any_nonzero(ds, lo, hi) == (any_nonzero(ds, lo, mid) || any_nonzero(ds, mid, hi)),
    decreases hi - mid,
{
    if mid < hi {
        lemma_any_nonzero_split(ds, lo, mid, hi - 1);
    }
}

/// Past the last digit every position reads as zero.
pub proof fn lemma_any_nonzero_past_end(ds: Seq<u8>, lo: int, hi: int)
    requires
        lo >= ds.len(),
    ensures
        !any_nonzero(ds, lo, hi),
    decreases hi - lo,
{
    if hi > lo {
        lemma_any_nonzero_past_end(ds, lo, hi - 1);
    }
}

/// The digit at position `i`, zero past the end.
pub fn digit_at(ds: &Vec<u8>, i: usize) -> (r: u8)
    ensures
        r == dig(ds@, i as int),
{
    if i < ds.len() {
        ds[i]
    } else {
        0
    }
}

/// Whether some digit at a position in `lo..hi` is not zero.
pub fn has_nonzero(ds: &Vec<u8>, lo: usize, hi: usize) -> (r: bool)
    ensures
        r == any_nonzero(ds@, lo as int, hi as int),
{
    let mut i: usize = lo;
    while i < hi && i < ds.len()
        invariant
            lo <= i,
            hi <= lo ==> i == lo,
            i <= hi || i == lo,
            !any_nonzero(ds@, lo as int, i as int),
        decreases hi - i,
    {
        if ds[i] != 0 {
            proof {
                lemma_any_nonzero_split(ds@, lo as int, i as int + 1, hi as int);
            }
            return true;
        }
        i = i + 1;
    }
    proof {
        if i < hi {
            lemma_any_nonzero_past_end(ds@, i as int, hi as int);
            lemma_any_nonzero_split(ds@, lo as int, i as int, hi as int);
        } else if lo < hi {
            assert(i == hi);
        }
    }
    false
}

/// The decimal digits of `v`, least significant first.
pub fn digits_of_u128(v: u128) -> (r: Vec<u8>)
    ensures
        r@ == digits_of(v as nat),
        is_canonical(r@),
{
    proof {
        lemma_digits_of(v as nat);
    }
    let mut r: Vec<u8> = Vec::new();
    let mut n: u128 = v;
    while n > 0
        invariant
            r@ + digits_of(n as nat) == digits_of(v as nat),
        decreases n,
    {
        let d: u8 = (n % 10) as u8;
        proof {
            assert(digits_of(n as nat) == seq![d] + digits_of((n / 10) as nat));
            assert(r@.push(d) + digits_of((n / 10) as nat) =~= r@ + digits_of(n as nat));
        }
        r.push(d);
        n = n / 10;
    }
    proof {
        assert(r@ + digits_of(0) =~= r@);
    }
    r
}

/// The value of the highest myriad group: the number divided by ten
/// thousand as often as it stays whole.
pub open spec fn leading_myriad(v: nat) -> nat
    decreases v,
{
    if v < 10000 {
        v
    } else {
        leading_myriad(v / 10000)
    }
}

/// Dropping the lowest digit divides by ten.
proof fn lemma_digits_of_shift(v: nat)
    requires
        v > 0,
    ensures
        digits_of(v).drop_first() == digits_of(v / 10),
{
    assert(digits_of(v).drop_first() =~= digits_of(v / 10));
}

/// Dropping the lowest four digits divides by ten thousand.
pub proof fn lemma_digits_of_shift4(v: nat)
    requires
        v >= 10000,
    ensures
        digits_of(v).subrange(4, digits_of(v).len() as int) == digits_of(v / 10000),
{
    let a = v / 10;
    let b = a / 10;
    let c = b / 10;
    lemma_digits_of_shift(v);
    lemma_digits_of_shift(a);
    lemma_digits_of_shift(b);
    lemma_digits_of_shift(c);
    lemma_div_denominator(v as int, 10, 10);
    lemma_div_denominator(v as int, 100, 10);
    lemma_div_denominator(v as int, 1000, 10);
    let ds = digits_of(v);
    assert(ds.subrange(4, ds.len() as int) =~= ds.drop_first().drop_first().drop_first().drop_first());
}

/// The value of the digits from position `i` up.
proof fn lemma_value_from(ds: Seq<u8>, i: int)
    requires
        0 <= i < ds.len(),
    ensures
        value_of(ds.subrange(i, ds.len() as int)) == ds[i] as nat + 10 * value_of(
            ds.subrange(i + 1, ds.len() as int),
        ),
{
    let tail = ds.subrange(i, ds.len() as int);
    assert(tail.drop_first() =~= ds.subrange(i + 1, ds.len() as int));
}

/// The value of `n` nines.
proof fn lemma_nines(ds: Seq<u8>)
    requires
        forall|i: int| 0 <= i < ds.len() ==> ds[i] == 9,
    ensures
        value_of(ds) + 1 == pow10(ds.len()),
    decreases ds.len(),
{
    if ds.len() > 0 {
        let rest = ds.drop_first();
        lemma_nines(rest);
    }
}

/// A zero on top does not change the value.
proof fn lemma_value_drop_top_zero(ds: Seq<u8>)
    requires
        ds.len() > 0,
        ds.last() == 0,
    ensures
        value_of(ds) == value_of(ds.drop_last()),
    decreases ds.len(),
{
    if ds.len() > 1 {
        let rest = ds.drop_first();
        assert(rest.last() == ds.last());
        lemma_value_drop_top_zero(rest);
        assert(rest.drop_last() =~= ds.drop_last().drop_first());
    } else {
        assert(ds[0] == ds.last());
        assert(ds.drop_last().len() == 0);
        assert(value_of(ds.drop_first()) == 0);
    }
}

/// Relies on `BigUint::to_radix_le` with radix 10: the decimal digits of the
/// number, least significant first, each below ten.
#[verifier::external_body]
fn biguint_decimal_digits(b: &BigUint) -> (r: Vec<u8>)
    ensures
        all_digits(r@),
{
    b.to_radix_le(10)
}

/// Relies on `BigInt::to_radix_le` with radix 10: the sign, and the decimal
/// digits of the absolute value, least significant first, each below ten.
#[verifier::external_body]
fn bigint_sign_and_digits(b: &BigInt) -> (r: (Sign, Vec<u8>))
    ensures
        all_digits(r.1@),
{
    let (sign, digits) = b.to_radix_le(10);
    let sign = match sign {
        num_bigint::Sign::Minus => Sign::Neg,
        num_bigint::Sign::NoSign => Sign::Nil,
        num_bigint::Sign::Plus => Sign::Pos,
    };
    (sign, digits)
}

/// `num_bigint::BigUint`, opaque here: it is read only through its decimal
/// digits.
#[verifier::external_type_specification]
#[verifier::external_body]
pub struct ExBigUint(BigUint);

/// `num_bigint::BigInt`, opaque here: it is read only through its sign and
/// the decimal digits of its absolute value.
#[verifier::external_type_specification]
#[verifier::external_body]
pub struct ExBigInt(BigInt);

/// A non-negative integer of any size, kept as its decimal digits, least
/// significant first, with no zero on top.
#[derive(Debug, PartialEq, Eq)]
pub struct BigMagnitude {
    digits: Vec<u8>,
}

impl View for BigMagnitude {
    type V = nat;

    closed spec fn view(&self) -> nat {
        value_of(self.digits@)
    }
}

impl BigMagnitude {
    #[verifier::type_invariant]
    spec fn inv(&self) -> bool {
        is_canonical(self.digits@)
    }

    /// Zero.
    pub fn zero() -> (r: Self)
        ensures
            r@ == 0,
    {
        BigMagnitude { digits: Vec::new() }
    }

    /// The number written by the decimal digits `ds`, least significant first;
    /// `None` when an entry is not a decimal digit.
    pub fn from_digits_le(ds: Vec<u8>) -> (r: Option<Self>)
        ensures
            r is Some <==> all_digits(ds@),
            r matches Some(m) ==> m@ == value_of(ds@),
    {
        let mut i: usize = 0;
        while i < ds.len()
            invariant
                i <= ds@.len(),
                forall|j: int| 0 <= j < i ==> ds@[j] < 10,
            decreases ds@.len() - i,
        {
            if ds[i] >= 10 {
                return None;
            }
            i = i + 1;
        }
        let ghost orig = ds@;
        let mut ds = ds;
        while ds.len() > 0 && ds[ds.len() - 1] == 0
            invariant
                all_digits(ds@),
                value_of(ds@) == value_of(orig),
            decreases ds@.len(),
        {
            proof {
                lemma_value_drop_top_zero(ds@);
            }
            ds.pop();
            assert(all_digits(ds@));
        }
        Some(BigMagnitude { digits: ds })
    }

    /// The number `v`.
    pub fn from_u128(v: u128) -> (r: Self)
        ensures
            r@ == v,
    {
        let ds = digits_of_u128(v);
        proof {
            lemma_digits_of(v as nat);
        }
        BigMagnitude { digits: ds }
    }

    /// The number held by `b`, through its decimal digits.
    pub fn from_biguint(b: &BigUint) -> (r: Self) {
        let ds = biguint_decimal_digits(b);
        match Self::from_digits_le(ds) {
            Some(m) => m,
            None => Self::zero(),
        }
    }

    /// The sign and the absolute value of `b`.
    pub fn from_bigint(b: &BigInt) -> (r: (Sign, Self)) {
        let (sign, ds) = bigint_sign_and_digits(b);
        match Self::from_digits_le(ds) {
            Some(m) => (sign, m),
            None => (sign, Self::zero()),
        }
    }

    /// The number written with `n` nines: `10^n - 1`.
    pub fn nines(n: usize) -> (r: Self)
        ensures
            r@ + 1 == pow10(n as nat),
    {
        let mut ds: Vec<u8> = Vec::new();
        let mut i: usize = 0;
        while i < n
            invariant
                i <= n,
                ds@.len() == i,
                forall|j: int| 0 <= j < i ==> ds@[j] == 9,
            decreases n - i,
        {
            ds.push(9);
            i = i + 1;
        }
        proof {
            lemma_nines(ds@);
        }
        BigMagnitude { digits: ds }
    }

    /// The decimal digits, least significant first, with no zero on top.
    pub fn digits_le(&self) -> (r: &Vec<u8>)
        ensures
            r@ == digits_of(self@),
            is_canonical(r@),
    {
        proof {
            use_type_invariant(self);
            lemma_canonical_digits(self.digits@);
        }
        &self.digits
    }

    /// Whether the number is zero.
    pub fn is_zero(&self) -> (r: bool)
        ensures
            r == (self@ == 0),
    {
        proof {
            use_type_invariant(self);
            if self@ == 0 {
                lemma_value_zero(self.digits@);
            }
        }
        self.digits.len() == 0
    }

    /// Whether the number is below `10^n`, that is has at most `n` digits.
    pub fn below_pow10(&self, n: usize) -> (r: bool)
        ensures
            r == (self@ < pow10(n as nat)),
    {
        proof {
            use_type_invariant(self);
            lemma_within_digits(self.digits@, n as nat);
        }
        self.digits.len() <= n
    }
}

/// The value of the highest myriad group of the number with digits `ds`.
pub fn leading_myriad_of(ds: &Vec<u8>) -> (r: u16)
    requires
        is_canonical(ds@),
    ensures
        r == leading_myriad(value_of(ds@)),
{
    let ghost v = value_of(ds@);
    proof {
        lemma_canonical_digits(ds@);
    }
    let n = ds.len();
    let mut start: usize = 0;
    assert(ds@.subrange(0, n as int) =~= ds@);
    while n - start > 4
        invariant
            start <= n,
            n == ds@.len(),
            is_canonical(ds@),
            digits_of(value_of(ds@)) == ds@,
            digits_of(value_of(ds@.subrange(start as int, n as int))) == ds@.subrange(
                start as int,
                n as int,
            ),
            leading_myriad(value_of(ds@.subrange(start as int, n as int))) == leading_myriad(v),
        decreases n - start,
    {
        let ghost w = value_of(ds@.subrange(start as int, n as int));
        proof {
            let tail = ds@.subrange(start as int, n as int);
            assert(tail.last() == ds@.last());
            lemma_value_lower_bound(tail);
            lemma_pow10_monotonic(4, (tail.len() - 1) as nat);
            reveal_with_fuel(pow10, 5);
            assert(w >= 10000);
            lemma_digits_of_shift4(w);
            assert(tail.subrange(4, tail.len() as int) =~= ds@.subrange(start + 4, n as int));
            lemma_digits_of(w / 10000);
        }
        start = start + 4;
    }
    let ghost tail = ds@.subrange(start as int, n as int);
    proof {
        assert forall|j: int| 0 <= j < tail.len() implies tail[j] < 10 by {
            assert(tail[j] == ds@[start + j]);
        }
        lemma_value_upper_bound(tail);
        reveal_with_fuel(pow10, 5);
        lemma_pow10_monotonic(tail.len(), 4);
    }
    let mut acc: u16 = 0;
    let mut i: usize = n;
    while i > start
        invariant
            start <= i <= n,
            n == ds@.len(),
            n - start <= 4,
            is_canonical(ds@),
            acc as nat == value_of(ds@.subrange(i as int, n as int)),
            acc < pow10((n - i) as nat),
        decreases i,
    {
        proof {
            lemma_value_from(ds@, i - 1);
            reveal_with_fuel(pow10, 5);
            assert(n - i < 4);
            assert(acc < 1000) by {
                lemma_pow10_monotonic((n - i) as nat, 3);
            }
        }
        acc = ds[i - 1] as u16 + 10 * acc;
        i = i - 1;
    }
    acc
}

/// A positive number below `10^n` has a nonzero digit below position `n`.
pub proof fn lemma_nonzero_digits(v: nat, n: nat)
    requires
        0 < v < pow10(n),
    ensures
        any_nonzero(digits_of(v), 0, n as int),
{
    let ds = digits_of(v);
    lemma_digit_count(v, n);
    lemma_digits_of(v);
    let top = ds.len() - 1;
    assert(dig(ds, top) == ds.last());
    assert(any_nonzero(ds, top, top + 1));
    lemma_any_nonzero_split(ds, top, top + 1, n as int);
    lemma_any_nonzero_split(ds, 0, top, n as int);
}

/// Every `u128` has at most 39 digits.
pub proof fn lemma_u128_below_pow10(v: u128)
    ensures
        (v as nat) < pow10(39),
{
    reveal_with_fuel(pow10, 40);
    assert(pow10(39) == 1_000_000_000_000_000_000_000_000_000_000_000_000_000nat);
}

/// The value of the highest myriad group of `v`.
pub fn leading_myriad_u128(v: u128) -> (r: u128)
    ensures
        r == leading_myriad(v as nat),
        r < 10000,
{
    let mut n: u128 = v;
    while n >= 10000
        invariant
            leading_myriad(n as nat) == leading_myriad(v as nat),
        decreases n,
    {
        n = n / 10000;
    }
    n
}

} // verus!
