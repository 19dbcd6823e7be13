use vstd::prelude::*;

verus! {

/// A numeral symbol: the ten digits, the place markers inside a myriad,
/// the myriad and the ten names of larger powers, and the minus sign.
#[derive(PartialEq, Eq, Structural, Clone, Copy, Debug)]
pub enum NumChar {
    Zero,
    One,
    Two,
    Three,
    Four,
    Five,
    Six,
    Seven,
    Eight,
    Nine,
    Shi,
    Bai,
    Qian,
    Wan,
    Yi,
    Zhao,
    Jing,
    Gai,
    Zi,
    Rang,
    Gou,
    Jian,
    Zheng,
    Zai,
    Neg,
}

/// The symbol in position `i` of the canonical order: digits `0..=9` are the
/// digit symbols, `10..=23` the markers from ten up to the tenth large name,
/// and every later position is the minus sign.
pub open spec fn symbol_at(i: nat) -> NumChar {
    if i == 0 {
        NumChar::Zero
    } else if i == 1 {
        NumChar::One
    } else if i == 2 {
        NumChar::Two
    } else if i == 3 {
        NumChar::Three
    } else if i == 4 {
        NumChar::Four
    } else if i == 5 {
        NumChar::Five
    } else if i == 6 {
        NumChar::Six
    } else if i == 7 {
        NumChar::Seven
    } else if i == 8 {
        NumChar::Eight
    } else if i == 9 {
        NumChar::Nine
    } else if i == 10 {
        NumChar::Shi
    } else if i == 11 {
        NumChar::Bai
    } else if i == 12 {
        NumChar::Qian
    } else if i == 13 {
        NumChar::Wan
    } else if i == 14 {
        NumChar::Yi
    } else if i == 15 {
        NumChar::Zhao
    } else if i == 16 {
        NumChar::Jing
    } else if i == 17 {
        NumChar::Gai
    } else if i == 18 {
        NumChar::Zi
    } else if i == 19 {
        NumChar::Rang
    } else if i == 20 {
        NumChar::Gou
    } else if i == 21 {
        NumChar::Jian
    } else if i == 22 {
        NumChar::Zheng
    } else if i == 23 {
        NumChar::Zai
    } else {
        NumChar::Neg
    }
}

/// The position of a symbol in the canonical order (the inverse of
/// `symbol_at` on `0..25`).
pub open spec fn ord(c: NumChar) -> nat {
    match c {
        NumChar::Zero => 0,
        NumChar::One => 1,
        NumChar::Two => 2,
        NumChar::Three => 3,
        NumChar::Four => 4,
        NumChar::Five => 5,
        NumChar::Six => 6,
        NumChar::Seven => 7,
        NumChar::Eight => 8,
        NumChar::Nine => 9,
        NumChar::Shi => 10,
        NumChar::Bai => 11,
        NumChar::Qian => 12,
        NumChar::Wan => 13,
        NumChar::Yi => 14,
        NumChar::Zhao => 15,
        NumChar::Jing => 16,
        NumChar::Gai => 17,
        NumChar::Zi => 18,
        NumChar::Rang => 19,
        NumChar::Gou => 20,
        NumChar::Jian => 21,
        NumChar::Zheng => 22,
        NumChar::Zai => 23,
        NumChar::Neg => 24,
    }
}

/// Whether a symbol is a marker: ten, hundred, thousand, the myriad or a
/// large name.
pub open spec fn is_marker(c: NumChar) -> bool {
    10 <= ord(c) <= 23
}

pub proof fn lemma_ord_symbol_at(i: nat)
    requires
        i < 25,
    ensures
        ord(symbol_at(i)) == i,
{
}

/// Whether a symbol names a power of ten from the myriad upwards.
pub open spec fn is_large_name(c: NumChar) -> bool {
    match c {
        NumChar::Wan | NumChar::Yi | NumChar::Zhao | NumChar::Jing | NumChar::Gai | NumChar::Zi
        | NumChar::Rang | NumChar::Gou | NumChar::Jian | NumChar::Zheng | NumChar::Zai => true,
        _ => false,
    }
}

/// The base table: everyday simplified characters.
pub open spec fn lower_simp(c: NumChar) -> char {
    match c {
        NumChar::Zero => '零',
        NumChar::One => '一',
        NumChar::Two => '二',
        NumChar::Three => '三',
        NumChar::Four => '四',
        NumChar::Five => '五',
        NumChar::Six => '六',
        NumChar::Seven => '七',
        NumChar::Eight => '八',
        NumChar::Nine => '九',
        NumChar::Shi => '十',
        NumChar::Bai => '百',
        NumChar::Qian => '千',
        NumChar::Wan => '万',
        NumChar::Yi => '亿',
        NumChar::Zhao => '兆',
        NumChar::Jing => '京',
        NumChar::Gai => '垓',
        NumChar::Zi => '秭',
        NumChar::Rang => '穰',
        NumChar::Gou => '沟',
        NumChar::Jian => '涧',
        NumChar::Zheng => '正',
        NumChar::Zai => '载',
        NumChar::Neg => '负',
    }
}

/// Financial simplified characters: digits one to nine and the markers up to
/// the myriad are overridden, everything else falls back to the base table.
pub open spec fn upper_simp(c: NumChar) -> char {
    match c {
        NumChar::One => '壹',
        NumChar::Two => '贰',
        NumChar::Three => '叁',
        NumChar::Four => '肆',
        NumChar::Five => '伍',
        NumChar::Six => '陆',
        NumChar::Seven => '柒',
        NumChar::Eight => '捌',
        NumChar::Nine => '玖',
        NumChar::Shi => '拾',
        NumChar::Bai => '佰',
        NumChar::Qian => '仟',
        NumChar::Wan => '万',
        _ => lower_simp(c),
    }
}

/// Everyday traditional characters: the names written differently and the
/// minus sign are overridden, everything else falls back to the base table.
pub open spec fn lower_trad(c: NumChar) -> char {
    match c {
        NumChar::Wan => '萬',
        NumChar::Yi => '億',
        NumChar::Zhao => '兆',
        NumChar::Gou => '溝',
        NumChar::Jian => '澗',
        NumChar::Zai => '載',
        NumChar::Neg => '負',
        _ => lower_simp(c),
    }
}

/// Whether the financial register writes a symbol with a form of its own:
/// the digits one to nine and the markers ten, hundred and thousand.
pub open spec fn has_financial_form(c: NumChar) -> bool {
    match c {
        NumChar::One | NumChar::Two | NumChar::Three | NumChar::Four | NumChar::Five
        | NumChar::Six | NumChar::Seven | NumChar::Eight | NumChar::Nine | NumChar::Shi
        | NumChar::Bai | NumChar::Qian => true,
        _ => false,
    }
}

/// Financial traditional characters: three digits have traditional financial
/// forms; the other symbols with a financial form take the simplified one,
/// and everything else falls back to the everyday traditional table.
pub open spec fn upper_trad(c: NumChar) -> char {
    match c {
        NumChar::Two => '貳',
        NumChar::Three => '叄',
        NumChar::Six => '陸',
        _ => if has_financial_form(c) {
            upper_simp(c)
        } else {
            lower_trad(c)
        },
    }
}

impl NumChar {
    /// The symbol in position `i` of the canonical order.
    pub fn from_index(i: usize) -> (r: NumChar)
        requires
            i < 25,
        ensures
            r == symbol_at(i as nat),
    {
        match i {
            0 => NumChar::Zero,
            1 => NumChar::One,
            2 => NumChar::Two,
            3 => NumChar::Three,
            4 => NumChar::Four,
            5 => NumChar::Five,
            6 => NumChar::Six,
            7 => NumChar::Seven,
            8 => NumChar::Eight,
            9 => NumChar::Nine,
            10 => NumChar::Shi,
            11 => NumChar::Bai,
            12 => NumChar::Qian,
            13 => NumChar::Wan,
            14 => NumChar::Yi,
            15 => NumChar::Zhao,
            16 => NumChar::Jing,
            17 => NumChar::Gai,
            18 => NumChar::Zi,
            19 => NumChar::Rang,
            20 => NumChar::Gou,
            21 => NumChar::Jian,
            22 => NumChar::Zheng,
            23 => NumChar::Zai,
            _ => NumChar::Neg,
        }
    }

    /// The everyday simplified character of the symbol.
    pub fn to_lowercase_simp(self) -> (r: char)
        ensures
            r == lower_simp(self),
    {
        match self {
            NumChar::Zero => '零',
            NumChar::One => '一',
            NumChar::Two => '二',
            NumChar::Three => '三',
            NumChar::Four => '四',
            NumChar::Five => '五',
            NumChar::Six => '六',
            NumChar::Seven => '七',
            NumChar::Eight => '八',
            NumChar::Nine => '九',
            NumChar::Shi => '十',
            NumChar::Bai => '百',
            NumChar::Qian => '千',
            NumChar::Wan => '万',
            NumChar::Yi => '亿',
            NumChar::Zhao => '兆',
            NumChar::Jing => '京',
            NumChar::Gai => '垓',
            NumChar::Zi => '秭',
            NumChar::Rang => '穰',
            NumChar::Gou => '沟',
            NumChar::Jian => '涧',
            NumChar::Zheng => '正',
            NumChar::Zai => '载',
            NumChar::Neg => '负',
        }
    }

    /// The financial simplified character of the symbol.
    pub fn to_uppercase_simp(self) -> (r: char)
        ensures
            r == upper_simp(self),
    {
        match self {
            NumChar::One => '壹',
            NumChar::Two => '贰',
            NumChar::Three => '叁',
            NumChar::Four => '肆',
            NumChar::Five => '伍',
            NumChar::Six => '陆',
            NumChar::Seven => '柒',
            NumChar::Eight => '捌',
            NumChar::Nine => '玖',
            NumChar::Shi => '拾',
            NumChar::Bai => '佰',
            NumChar::Qian => '仟',
            NumChar::Wan => '万',
            _ => self.to_lowercase_simp(),
        }
    }

    /// The everyday traditional character of the symbol.
    pub fn to_lowercase_trad(self) -> (r: char)
        ensures
            r == lower_trad(self),
    {
        match self {
            NumChar::Wan => '萬',
            NumChar::Yi => '億',
            NumChar::Zhao => '兆',
            NumChar::Gou => '溝',
            NumChar::Jian => '澗',
            NumChar::Zai => '載',
            NumChar::Neg => '負',
            _ => self.to_lowercase_simp(),
        }
    }

    /// The financial traditional character of the symbol.
    pub fn to_uppercase_trad(self) -> (r: char)
        ensures
            r == upper_trad(self),
    {
        match self {
            NumChar::Two => '貳',
            NumChar::Three => '叄',
            NumChar::Six => '陸',
            NumChar::One | NumChar::Four | NumChar::Five | NumChar::Seven | NumChar::Eight
            | NumChar::Nine | NumChar::Shi | NumChar::Bai | NumChar::Qian => self.to_uppercase_simp(),
            _ => self.to_lowercase_trad(),
        }
    }
}

} // verus!
