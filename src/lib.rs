//! Chinese numerals for signed integers of any size, in the short, myriad,
//! mid and long scales, in simplified or traditional characters, in everyday
//! or financial register.
//!
//! A number is first named as a sequence of symbols ([`NumChar`]), least
//! significant first; the sequence is then read from its end and each symbol
//! is written with the character of the chosen table.

mod characters;
mod grouping;
mod laws;
mod leading;
mod longscale;
mod magnitude;
mod midscale;
mod myriadscale;
mod shortscale;

pub use characters::NumChar;
pub use characters::{
    has_financial_form, is_large_name, is_marker, lower_simp, lower_trad, ord, symbol_at, upper_simp,
    upper_trad,
};
pub use grouping::{
    filler, group_block, group_marker, linear_at, long_at, tier_start, tier_width, width,
    LinearScale,
};
pub use grouping::trim_leading_one;
pub use laws::{
    all_below, increasing_above, law_groups_read_back, law_negative_is_sign_then_absolute,
    law_tables_differ_only_where_written_differently, law_text_maps_each_symbol,
    law_zero_is_single_zero, well_nested,
};
pub use leading::{law_trim_drops_leading_one, top_nonzero};
pub use longscale::{long_syms, LongScaleBigInt, LongScaleInt, LONG_SCALE_DIGITS};
pub use magnitude::{
    all_digits, any_nonzero, dig, digits_of, is_canonical, leading_myriad, pow10, value_of,
    BigMagnitude,
};
pub use midscale::{mid_syms, MidScaleBigInt, MidScaleInt, MID_SCALE_DIGITS};
pub use myriadscale::{myriad_syms, MyriadScaleBigInt, MyriadScaleInt, MYRIAD_SCALE_DIGITS};
pub use shortscale::{short_syms, short_trimmed, ShortScaleInt, SHORT_SCALE_MAX_ABS};

use vstd::prelude::*;

verus! {

/// The sign of the number.
#[derive(PartialEq, Eq, Structural, PartialOrd, Ord, Clone, Copy, Debug)]
pub enum Sign {
    /// Negative.
    Neg,
    /// No sign: zero.
    Nil,
    /// Positive.
    Pos,
}

impl Default for Sign {
    fn default() -> (r: Self)
        ensures
            r == Sign::Nil,
    {
        Sign::Nil
    }
}

/// A magnitude beyond what a scale can name, with that absolute value.
#[derive(Debug, PartialEq, Eq)]
pub enum Error {
    /// Beyond fifteen digits, the most the short scale can name.
    ShortScaleOutOfRange(u128),
    /// Beyond 48 digits, the most the myriad scale can name.
    MyriadScaleOutOfRange(BigMagnitude),
    /// Beyond 88 digits, the most the mid scale can name.
    MidScaleOutOfRange(BigMagnitude),
    /// Beyond 8192 digits, the most the long scale can name.
    LongScaleOutOfRange(BigMagnitude),
}

/// The character of a decimal digit.
pub open spec fn digit_char(d: u8) -> char {
    if d == 0 {
        '0'
    } else if d == 1 {
        '1'
    } else if d == 2 {
        '2'
    } else if d == 3 {
        '3'
    } else if d == 4 {
        '4'
    } else if d == 5 {
        '5'
    } else if d == 6 {
        '6'
    } else if d == 7 {
        '7'
    } else if d == 8 {
        '8'
    } else {
        '9'
    }
}

/// The decimal text of digits kept least significant first.
pub open spec fn digits_text(ds: Seq<u8>) -> Seq<char>
    decreases ds.len(),
{
    if ds.len() == 0 {
        seq![]
    } else {
        digits_text(ds.drop_first()).push(digit_char(ds[0]))
    }
}

/// The decimal text of a number: its digits from the most significant, or
/// `0` for zero.
pub open spec fn number_text(v: nat) -> Seq<char> {
    if v == 0 {
        seq!['0']
    } else {
        digits_text(digits_of(v))
    }
}

/// What an error says: which scale refused which absolute value.
pub open spec fn error_text(e: Error) -> Seq<char> {
    match e {
        Error::ShortScaleOutOfRange(v) => "Absolute value "@ + number_text(v as nat)
            + " out of range for a short scale number"@,
        Error::MyriadScaleOutOfRange(m) => "Absolute value "@ + number_text(m@)
            + " out of range for a myriad scale number"@,
        Error::MidScaleOutOfRange(m) => "Absolute value "@ + number_text(m@)
            + " out of range for a mid-scale number"@,
        Error::LongScaleOutOfRange(m) => "Absolute value "@ + number_text(m@)
            + " out of range for a long scale number"@,
    }
}

/// The character of the decimal digit `d`.
fn digit_char_of(d: u8) -> (r: char)
    ensures
        r == digit_char(d),
{
    if d == 0 {
        '0'
    } else if d == 1 {
        '1'
    } else if d == 2 {
        '2'
    } else if d == 3 {
        '3'
    } else if d == 4 {
        '4'
    } else if d == 5 {
        '5'
    } else if d == 6 {
        '6'
    } else if d == 7 {
        '7'
    } else if d == 8 {
        '8'
    } else {
        '9'
    }
}

/// Appends the decimal text of the number with the canonical digits `ds`.
fn push_number(s: &mut String, ds: &Vec<u8>)
    ensures
        final(s)@ == old(s)@ + (if ds@.len() == 0 {
            seq!['0']
        } else {
            digits_text(ds@)
        }),
{
    if ds.len() == 0 {
        push_char(s, '0');
        return;
    }
    let ghost start = s@;
    let mut i: usize = ds.len();
    assert(ds@.subrange(i as int, ds@.len() as int) =~= seq![]);
    assert(s@ =~= start + digits_text(seq![]));
    while i > 0
        invariant
            i <= ds@.len(),
            s@ == start + digits_text(ds@.subrange(i as int, ds@.len() as int)),
        decreases i,
    {
        i = i - 1;
        let c = digit_char_of(ds[i]);
        proof {
            let tail = ds@.subrange(i as int, ds@.len() as int);
            assert(tail.drop_first() =~= ds@.subrange(i + 1, ds@.len() as int));
            assert(tail[0] == ds@[i as int]);
            assert(start + digits_text(tail) =~= (start + digits_text(tail.drop_first())).push(c));
        }
        push_char(s, c);
    }
    assert(ds@.subrange(0, ds@.len() as int) =~= ds@);
}

impl Error {
    /// What the error says: which scale refused which absolute value.
    pub fn message(&self) -> (r: String)
        ensures
            r@ == error_text(*self),
    {
        let mut s = String::from_str("Absolute value ");
        match self {
            Error::ShortScaleOutOfRange(v) => {
                let ds = magnitude::digits_of_u128(*v);
                proof {
                    magnitude::lemma_digits_of(*v as nat);
                    if *v > 0 {
                        assert(ds@.len() > 0);
                    }
                }
                push_number(&mut s, &ds);
                s.append(" out of range for a short scale number");
            },
            Error::MyriadScaleOutOfRange(m) => {
                push_magnitude(&mut s, m);
                s.append(" out of range for a myriad scale number");
            },
            Error::MidScaleOutOfRange(m) => {
                push_magnitude(&mut s, m);
                s.append(" out of range for a mid-scale number");
            },
            Error::LongScaleOutOfRange(m) => {
                push_magnitude(&mut s, m);
                s.append(" out of range for a long scale number");
            },
        }
        s
    }
}

/// Appends the decimal text of `m`.
fn push_magnitude(s: &mut String, m: &BigMagnitude)
    ensures
        final(s)@ == old(s)@ + number_text(m@),
{
    let ds = m.digits_le();
    proof {
        magnitude::lemma_digits_of(m@);
    }
    push_number(s, ds);
}

/// The sign of an integer.
pub open spec fn sign_of_int(v: int) -> Sign {
    if v < 0 {
        Sign::Neg
    } else if v == 0 {
        Sign::Nil
    } else {
        Sign::Pos
    }
}

/// The absolute value of an integer.
pub open spec fn abs_of_int(v: int) -> nat {
    if v < 0 {
        (-v) as nat
    } else {
        v as nat
    }
}

/// The sign a number keeps: none for zero, the given one otherwise.
pub open spec fn normal_sign(sign: Sign, abs: nat) -> Sign {
    if abs == 0 {
        Sign::Nil
    } else {
        sign
    }
}

/// The sign and the absolute value of `v`.
pub fn split_i128(v: i128) -> (r: (Sign, u128))
    ensures
        r.0 == sign_of_int(v as int),
        r.1 as nat == abs_of_int(v as int),
{
    if v < 0 {
        let abs: u128 = if v == i128::MIN {
            (i128::MAX as u128) + 1
        } else {
            (-v) as u128
        };
        (Sign::Neg, abs)
    } else if v == 0 {
        (Sign::Nil, 0)
    } else {
        (Sign::Pos, v as u128)
    }
}

/// The character set.
#[derive(PartialEq, Eq, Structural, Clone, Copy, Debug)]
pub enum Variant {
    /// Simplified Chinese.
    Simplified,
    /// Traditional Chinese.
    Traditional,
}

/// The character of a symbol in a variant, in the financial register when
/// `upper` holds and in the everyday one otherwise.
pub open spec fn glyph(c: NumChar, variant: Variant, upper: bool) -> char {
    match (variant, upper) {
        (Variant::Simplified, false) => lower_simp(c),
        (Variant::Simplified, true) => upper_simp(c),
        (Variant::Traditional, false) => lower_trad(c),
        (Variant::Traditional, true) => upper_trad(c),
    }
}

/// The symbol that the sign adds on top of the magnitude: the minus sign for a
/// negative number, the single zero for zero, nothing for a positive number.
pub open spec fn sign_suffix(sign: Sign) -> Seq<NumChar> {
    match sign {
        Sign::Neg => seq![NumChar::Neg],
        Sign::Nil => seq![NumChar::Zero],
        Sign::Pos => seq![],
    }
}

/// The text of symbols kept least significant first: the last symbol is
/// written first.
pub open spec fn spell(syms: Seq<NumChar>, variant: Variant, upper: bool) -> Seq<char>
    decreases syms.len(),
{
    if syms.len() == 0 {
        seq![]
    } else {
        spell(syms.drop_first(), variant, upper).push(glyph(syms[0], variant, upper))
    }
}

/// The text of a signed number whose magnitude is named by `syms`.
pub open spec fn numeral_text(syms: Seq<NumChar>, sign: Sign, variant: Variant, upper: bool) -> Seq<
    char,
> {
    spell(syms + sign_suffix(sign), variant, upper)
}

/// Relies on `String::push`: appends one character.
#[verifier::external_body]
fn push_char(s: &mut String, c: char)
    ensures
        final(s)@ == old(s)@.push(c),
{
    s.push(c);
}

/// The character of a symbol in a variant and register.
pub fn glyph_of(c: NumChar, variant: Variant, upper: bool) -> (r: char)
    ensures
        r == glyph(c, variant, upper),
{
    match (variant, upper) {
        (Variant::Simplified, false) => c.to_lowercase_simp(),
        (Variant::Simplified, true) => c.to_uppercase_simp(),
        (Variant::Traditional, false) => c.to_lowercase_trad(),
        (Variant::Traditional, true) => c.to_uppercase_trad(),
    }
}

/// Writes a signed number whose magnitude is named by `chars`, least
/// significant first.
pub fn render(chars: Vec<NumChar>, sign: Sign, variant: Variant, upper: bool) -> (r: String)
    ensures
        r@ == numeral_text(chars@, sign, variant, upper),
{
    let mut chars = chars;
    let ghost syms = chars@;
    match sign {
        Sign::Neg => chars.push(NumChar::Neg),
        Sign::Nil => chars.push(NumChar::Zero),
        Sign::Pos => {},
    }
    assert(chars@ =~= syms + sign_suffix(sign));
    let mut s = String::new();
    let mut i: usize = chars.len();
    assert(chars@.subrange(i as int, chars@.len() as int) =~= seq![]);
    while i > 0
        invariant
            i <= chars@.len(),
            s@ == spell(chars@.subrange(i as int, chars@.len() as int), variant, upper),
        decreases i,
    {
        i = i - 1;
        let c = glyph_of(chars[i], variant, upper);
        proof {
            let tail = chars@.subrange(i as int, chars@.len() as int);
            assert(tail.drop_first() =~= chars@.subrange(i + 1, chars@.len() as int));
            assert(tail[0] == chars@[i as int]);
        }
        push_char(&mut s, c);
    }
    assert(chars@.subrange(0, chars@.len() as int) =~= chars@);
    s
}

/// A signed integer: its sign and its absolute value.
pub trait SignedInteger {
    /// The sign.
    spec fn spec_sign(&self) -> Sign;

    /// The absolute value.
    spec fn spec_abs(&self) -> nat;

    /// The sign.
    fn sign(&self) -> (r: Sign)
        ensures
            r == self.spec_sign(),
    ;
}

/// A number named as a sequence of symbols, least significant first.
pub trait ChineseNumeralBase: SignedInteger {
    /// The symbols of the absolute value, least significant first.
    spec fn spec_chars(&self) -> Seq<NumChar>;

    /// The same symbols, without the leading "one" that everyday speech drops
    /// before "ten".
    spec fn spec_chars_trimmed(&self) -> Seq<NumChar>;

    /// The symbols of the absolute value, least significant first.
    fn to_chars(&self) -> (r: Vec<NumChar>)
        ensures
            r@ == self.spec_chars(),
    ;

    /// The symbols of the absolute value without a leading "one" before
    /// "ten", least significant first.
    fn to_chars_trimmed(&self) -> (r: Vec<NumChar>)
        ensures
            r@ == self.spec_chars_trimmed(),
    ;
}

/// Writes a number as Chinese text.
pub trait ChineseNumeral: ChineseNumeralBase {
    /// The everyday form (小写), which drops a leading "one" before "ten".
    fn to_lowercase(&self, variant: Variant) -> (r: String)
        ensures
            r@ == numeral_text(self.spec_chars_trimmed(), self.spec_sign(), variant, false),
    {
        render(self.to_chars_trimmed(), self.sign(), variant, false)
    }

    /// The everyday form in simplified characters.
    fn to_lowercase_simp(&self) -> (r: String)
        ensures
            r@ == numeral_text(
                self.spec_chars_trimmed(),
                self.spec_sign(),
                Variant::Simplified,
                false,
            ),
    {
        self.to_lowercase(Variant::Simplified)
    }

    /// The everyday form in traditional characters.
    fn to_lowercase_trad(&self) -> (r: String)
        ensures
            r@ == numeral_text(
                self.spec_chars_trimmed(),
                self.spec_sign(),
                Variant::Traditional,
                false,
            ),
    {
        self.to_lowercase(Variant::Traditional)
    }

    /// The financial form (大写), which keeps every "one".
    fn to_uppercase(&self, variant: Variant) -> (r: String)
        ensures
            r@ == numeral_text(self.spec_chars(), self.spec_sign(), variant, true),
    {
        render(self.to_chars(), self.sign(), variant, true)
    }

    /// The financial form in simplified characters.
    fn to_uppercase_simp(&self) -> (r: String)
        ensures
            r@ == numeral_text(self.spec_chars(), self.spec_sign(), Variant::Simplified, true),
    {
        self.to_uppercase(Variant::Simplified)
    }

    /// The financial form in traditional characters.
    fn to_uppercase_trad(&self) -> (r: String)
        ensures
            r@ == numeral_text(self.spec_chars(), self.spec_sign(), Variant::Traditional, true),
    {
        self.to_uppercase(Variant::Traditional)
    }
}

} // verus!
