use chinese_numerals::{
    BigMagnitude, ChineseNumeral, ChineseNumeralBase, Error, LongScaleBigInt, LongScaleInt,
    MidScaleBigInt, MidScaleInt, MyriadScaleBigInt, MyriadScaleInt, NumChar, ShortScaleInt, Sign,
    SignedInteger, Variant,
};
use num_bigint::{BigInt, BigUint};

fn short(v: i128) -> ShortScaleInt {
    ShortScaleInt::try_from_i128(v).expect("in range")
}

fn all_four<T: ChineseNumeral>(n: &T) -> [String; 4] {
    [
        n.to_lowercase_simp(),
        n.to_lowercase_trad(),
        n.to_uppercase_simp(),
        n.to_uppercase_trad(),
    ]
}

#[test]
fn short_scale_digit_by_digit() {
    let num = short(1_0203_0405);
    assert_eq!("一垓零二兆零三万零四百零五", num.to_lowercase_simp());
    assert_eq!("壹垓零贰兆零叁万零肆佰零伍", num.to_uppercase_simp());
}

#[test]
fn short_scale_symbol_sequence() {
    let num = short(1_0203_0405);
    assert_eq!(
        vec![NumChar::Five, NumChar::Zero, NumChar::Bai, NumChar::Four, NumChar::Zero, NumChar::Wan, NumChar::Three, NumChar::Zero, NumChar::Zhao, NumChar::Two, NumChar::Zero, NumChar::Gai, NumChar::One],
        num.to_chars()
    );
    assert_eq!(num.to_chars(), num.to_chars_trimmed());
}

#[test]
fn mid_scale_traditional() {
    let num = MidScaleInt::from_i128(1_0203_0405);
    assert_eq!("一億零二百零三萬零四百零五", num.to_lowercase_trad());
    assert_eq!("壹億零貳佰零叄萬零肆佰零伍", num.to_uppercase_trad());
}

#[test]
fn long_scale_big_example() {
    let num = BigUint::new(vec![463665380, 3016835882, 707]);
    let num = LongScaleBigInt::try_from_biguint(&num).expect("in range");
    assert_eq!(
        "一百三十万五千四百八十兆五千二百七十一万\
         五千六百三十七亿零五百九十七万二千九百六十四",
        num.to_lowercase_simp()
    );
}

#[test]
fn zero_is_a_single_zero_everywhere() {
    let expected = ["零", "零", "零", "零"];
    for sign in [Sign::Neg, Sign::Nil, Sign::Pos] {
        assert_eq!(expected, all_four(&ShortScaleInt::new(sign, 0).unwrap()));
        assert_eq!(expected, all_four(&MyriadScaleInt::new(sign, 0)));
        assert_eq!(expected, all_four(&MidScaleInt::new(sign, 0)));
        assert_eq!(expected, all_four(&LongScaleInt::new(sign, 0)));
        let big = MyriadScaleBigInt::new(sign, BigMagnitude::zero()).unwrap();
        assert_eq!(expected, all_four(&big));
        assert_eq!(Sign::Nil, big.sign());
    }
    assert_eq!(Sign::Nil, MidScaleInt::new_non_pos(0).sign());
    assert!(MyriadScaleInt::new(Sign::Neg, 0).to_chars().is_empty());
}

#[test]
fn negative_is_sign_then_absolute_value() {
    let neg = MyriadScaleInt::from_i128(-12345);
    let pos = MyriadScaleInt::from_i128(12345);
    assert_eq!(
        ["负一万二千三百四十五", "負一萬二千三百四十五", "负壹万贰仟叁佰肆拾伍", "負壹萬貳仟叄佰肆拾伍"],
        all_four(&neg)
    );
    assert_eq!(format!("负{}", pos.to_lowercase_simp()), neg.to_lowercase_simp());
    assert_eq!(format!("負{}", pos.to_uppercase_trad()), neg.to_uppercase_trad());
    assert_eq!("负一", short(-1).to_lowercase_simp());
    assert_eq!("负十", LongScaleInt::from_i128(-10).to_lowercase_simp());
    assert_eq!("负十", MidScaleInt::new_non_pos(10).to_lowercase_simp());
}

#[test]
fn leading_one_dropped_in_everyday_register() {
    assert_eq!("十", short(10).to_lowercase_simp());
    assert_eq!("十九", short(19).to_lowercase_simp());
    assert_eq!("二十一", short(21).to_lowercase_simp());
    assert_eq!("壹拾", short(10).to_uppercase_simp());
    assert_eq!("壹拾玖", short(19).to_uppercase_simp());
    assert_eq!("十万", MyriadScaleInt::from_i128(100000).to_lowercase_simp());
    assert_eq!("壹拾万", MyriadScaleInt::from_i128(100000).to_uppercase_simp());
    assert_eq!("一亿", short(100000).to_lowercase_simp());
    assert_eq!("十", MidScaleInt::from_u128(10).to_lowercase_trad());
    assert_eq!("壹拾", LongScaleInt::from_u128(10).to_uppercase_trad());
}

#[test]
fn filler_zero_below_an_underfilled_group() {
    let five = MyriadScaleInt::from_i128(10005);
    assert_eq!("一万零五", five.to_lowercase_simp());
    assert_eq!(vec![NumChar::Five, NumChar::Zero, NumChar::Wan, NumChar::One], five.to_chars());
    let full = MyriadScaleInt::from_i128(12345);
    assert_eq!("一万二千三百四十五", full.to_lowercase_simp());
    assert_eq!(vec![NumChar::Five, NumChar::Shi, NumChar::Four, NumChar::Bai, NumChar::Three, NumChar::Qian, NumChar::Two, NumChar::Wan, NumChar::One], full.to_chars());
}

#[test]
fn variants_share_the_symbol_sequence() {
    let num = MyriadScaleInt::from_i128(12345);
    assert_eq!(num.to_chars(), num.to_chars_trimmed());
    assert_eq!("一万二千三百四十五", num.to_lowercase_simp());
    assert_eq!("一萬二千三百四十五", num.to_lowercase_trad());
    assert_eq!("壹万贰仟叁佰肆拾伍", num.to_uppercase_simp());
    assert_eq!("壹萬貳仟叄佰肆拾伍", num.to_uppercase_trad());
    assert_eq!(num.to_lowercase(Variant::Traditional), num.to_lowercase_trad());
    assert_eq!(num.to_uppercase(Variant::Simplified), num.to_uppercase_simp());
}

#[test]
fn character_tables() {
    assert_eq!('万', NumChar::Wan.to_lowercase_simp());
    assert_eq!('萬', NumChar::Wan.to_lowercase_trad());
    assert_eq!('万', NumChar::Wan.to_uppercase_simp());
    assert_eq!('萬', NumChar::Wan.to_uppercase_trad());
    assert_eq!('壹', NumChar::One.to_uppercase_trad());
    assert_eq!('陸', NumChar::Six.to_uppercase_trad());
    assert_eq!('陆', NumChar::Six.to_uppercase_simp());
    assert_eq!('载', NumChar::Zai.to_uppercase_simp());
    assert_eq!('載', NumChar::Zai.to_uppercase_trad());
    assert_eq!('负', NumChar::Neg.to_uppercase_simp());
    assert_eq!('負', NumChar::Neg.to_lowercase_trad());
    assert_eq!('零', NumChar::Zero.to_uppercase_trad());
    assert_eq!(NumChar::Gai, NumChar::from_index(17));
}

#[test]
fn short_scale_ceiling() {
    let max = ShortScaleInt::try_from_u128(999_999_999_999_999).unwrap();
    assert_eq!(999_999_999_999_999, max.data());
    assert_eq!(ShortScaleInt::max_value(), max);
    assert_eq!(
        Err(Error::ShortScaleOutOfRange(1_000_000_000_000_000)),
        ShortScaleInt::try_from_u128(1_000_000_000_000_000)
    );
    assert_eq!(
        Err(Error::ShortScaleOutOfRange(1_000_000_000_000_000)),
        ShortScaleInt::try_from_i128(-1_000_000_000_000_000)
    );
    assert_eq!(
        Err(Error::ShortScaleOutOfRange(1u128 << 127)),
        ShortScaleInt::try_from_i128(i128::MIN)
    );
    assert_eq!(ShortScaleInt::min_value(), short(-999_999_999_999_999));
    assert_eq!(
        Err(Error::ShortScaleOutOfRange(u64::MAX as u128)),
        ShortScaleInt::new(Sign::Pos, u64::MAX)
    );
}

fn pow10(n: u32) -> BigUint {
    BigUint::from(10u32).pow(n)
}

#[test]
fn big_scale_ceilings() {
    let one = BigUint::from(1u32);
    for (digits, which) in [(48u32, 0), (88, 1), (8192, 2)] {
        let max = pow10(digits) - &one;
        let over = pow10(digits);
        let over_digits = {
            let mut d = vec![0u8; digits as usize];
            d.push(1);
            d
        };
        match which {
            0 => {
                let ok = MyriadScaleBigInt::try_from_biguint(&max).unwrap();
                assert_eq!(MyriadScaleBigInt::max_value(), ok);
                match MyriadScaleBigInt::try_from_biguint(&over) {
                    Err(Error::MyriadScaleOutOfRange(m)) => assert_eq!(&over_digits, m.digits_le()),
                    other => panic!("unexpected {:?}", other),
                }
            },
            1 => {
                let ok = MidScaleBigInt::try_from_biguint(&max).unwrap();
                assert_eq!(MidScaleBigInt::max_value(), ok);
                match MidScaleBigInt::try_from_biguint(&over) {
                    Err(Error::MidScaleOutOfRange(m)) => assert_eq!(&over_digits, m.digits_le()),
                    other => panic!("unexpected {:?}", other),
                }
            },
            _ => {
                let ok = LongScaleBigInt::try_from_biguint(&max).unwrap();
                assert_eq!(LongScaleBigInt::max_value(), ok);
                match LongScaleBigInt::try_from_biguint(&over) {
                    Err(Error::LongScaleOutOfRange(m)) => assert_eq!(&over_digits, m.digits_le()),
                    other => panic!("unexpected {:?}", other),
                }
            },
        }
    }
}

#[test]
fn signed_big_integers() {
    let v = BigInt::from(-12345);
    let num = MyriadScaleBigInt::try_from_bigint(&v).unwrap();
    assert_eq!("负一万二千三百四十五", num.to_lowercase_simp());
    let neg_over = -BigInt::from(10u32).pow(48);
    assert!(matches!(
        MyriadScaleBigInt::try_from_bigint(&neg_over),
        Err(Error::MyriadScaleOutOfRange(_))
    ));
    assert_eq!(Sign::Neg, MidScaleBigInt::min_value().sign());
}

#[test]
fn big_and_bounded_forms_agree() {
    let v: u128 = u128::MAX;
    let big = BigUint::from(v);
    assert_eq!(
        MyriadScaleInt::from_u128(v).to_lowercase_simp(),
        MyriadScaleBigInt::try_from_biguint(&big).unwrap().to_lowercase_simp()
    );
    assert_eq!(
        MidScaleInt::from_u128(v).to_uppercase_trad(),
        MidScaleBigInt::try_from_biguint(&big).unwrap().to_uppercase_trad()
    );
    assert_eq!(
        LongScaleInt::from_u128(v).to_lowercase_trad(),
        LongScaleBigInt::try_from_biguint(&big).unwrap().to_lowercase_trad()
    );
    assert_eq!(
        "三百四十涧二千八百二十三沟六千六百九十二穰零九百三十八秭四千六百三十四垓\
         六千三百三十七京四千六百零七兆四千三百一十七亿六千八百二十一万一千四百五十五",
        MyriadScaleInt::from_u128(v).to_lowercase_simp()
    );
    assert_eq!(
        "三百四十万二千八百二十三京六千六百九十二万零九百三十八亿四千六百三十四万\
         六千三百三十七兆四千六百零七万四千三百一十七亿六千八百二十一万一千四百五十五",
        LongScaleInt::from_u128(v).to_lowercase_simp()
    );
}

#[test]
fn large_names_per_scale() {
    assert_eq!("一亿", MyriadScaleInt::from_u128(100_000_000).to_lowercase_simp());
    assert_eq!("一亿", MidScaleInt::from_u128(100_000_000).to_lowercase_simp());
    assert_eq!("一兆", MidScaleInt::from_u128(10u128.pow(16)).to_lowercase_simp());
    assert_eq!("一兆", LongScaleInt::from_u128(10u128.pow(16)).to_lowercase_simp());
    assert_eq!("一京", LongScaleInt::from_u128(10u128.pow(32)).to_lowercase_simp());
    assert_eq!(
        "一京零五千万亿",
        LongScaleInt::from_u128(10u128.pow(32) + 5 * 10u128.pow(15)).to_lowercase_simp()
    );
    assert_eq!(
        "一京零五百萬億",
        LongScaleInt::from_u128(10u128.pow(32) + 5 * 10u128.pow(14)).to_lowercase_trad()
    );
}

#[test]
fn magnitude_from_digits() {
    let m = BigMagnitude::from_digits_le(vec![5, 0, 0, 0, 1, 0, 0]).unwrap();
    assert_eq!(&vec![5u8, 0, 0, 0, 1], m.digits_le());
    assert!(BigMagnitude::from_digits_le(vec![1, 10]).is_none());
    assert!(BigMagnitude::from_digits_le(vec![0, 0]).unwrap().is_zero());
    assert_eq!(&vec![5u8, 4, 3, 2, 1], BigMagnitude::from_u128(12345).digits_le());
    assert_eq!(&vec![9u8, 9, 9], BigMagnitude::nines(3).digits_le());
    let big = BigMagnitude::from_biguint(&BigUint::from(1_000_000_007u64));
    assert_eq!(&vec![7u8, 0, 0, 0, 0, 0, 0, 0, 0, 1], big.digits_le());
    let num = MyriadScaleBigInt::new(Sign::Pos, m).unwrap();
    assert_eq!("一万零五", num.to_lowercase_simp());
    assert_eq!(Sign::Pos, num.sign());
}

#[test]
fn error_messages_name_scale_and_value() {
    let short_err = ShortScaleInt::try_from_u128(1_000_000_000_000_000).unwrap_err();
    assert_eq!(
        "Absolute value 1000000000000000 out of range for a short scale number",
        short_err.message()
    );
    let over = pow10(48) + BigUint::from(5u32);
    let big_err = MyriadScaleBigInt::try_from_biguint(&over).unwrap_err();
    assert_eq!(
        format!("Absolute value {} out of range for a myriad scale number", over),
        big_err.message()
    );
    let mid_err = MidScaleBigInt::try_from_biguint(&pow10(88)).unwrap_err();
    assert_eq!(
        format!("Absolute value {} out of range for a mid-scale number", pow10(88)),
        mid_err.message()
    );
    let long_err = LongScaleBigInt::try_from_biguint(&pow10(8192)).unwrap_err();
    assert!(long_err.message().ends_with(" out of range for a long scale number"));
    assert_eq!(
        "Absolute value 0 out of range for a long scale number",
        Error::LongScaleOutOfRange(BigMagnitude::zero()).message()
    );
}

fn marker_rank(c: NumChar) -> usize {
    (0..25).find(|&i| NumChar::from_index(i) == c).unwrap()
}

#[test]
fn group_markers_read_back_in_order() {
    let cases: Vec<(Vec<NumChar>, usize)> = vec![
        (short(987_654_321_012_345).to_chars(), 9),
        (MyriadScaleInt::from_u128(u128::MAX).to_chars(), 12),
        (MidScaleInt::from_u128(u128::MAX).to_chars(), 13),
    ];
    for (chars, floor) in cases {
        let tiers: Vec<usize> = chars.iter().map(|&c| marker_rank(c)).filter(|&r| r > floor).collect();
        assert!(!tiers.is_empty());
        assert!(tiers.windows(2).all(|w| w[0] < w[1]), "{:?}", tiers);
    }
    let long = LongScaleInt::from_u128(u128::MAX).to_chars();
    for i in 0..long.len() {
        for j in i + 1..long.len() {
            let r = marker_rank(long[i]);
            if long[i] == long[j] && r >= 10 {
                assert!((i + 1..j).any(|m| marker_rank(long[m]) > r));
            }
        }
    }
}

#[test]
fn defaults_are_zero() {
    assert_eq!(Sign::Nil, Sign::default());
    assert_eq!("零", ShortScaleInt::default().to_lowercase_simp());
    assert_eq!("零", MyriadScaleInt::default().to_uppercase_trad());
    assert_eq!("零", MidScaleBigInt::default().to_lowercase_trad());
    assert_eq!("零", LongScaleBigInt::default().to_uppercase_simp());
    assert_eq!(0, LongScaleInt::default().data());
}
