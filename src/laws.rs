use vstd::prelude::*;

use crate::characters::{
    is_large_name, is_marker, lemma_ord_symbol_at, lower_simp, lower_trad, ord, symbol_at,
    upper_simp, upper_trad, NumChar,
};
use crate::grouping::{
    filler, group_block, group_count, group_marker, linear_at, long_at, marker_base, rank,
    tier_start, tier_width, trim_leading_one, width, LinearScale,
};
use crate::longscale::long_syms;
use crate::magnitude::{all_digits, dig, digits_of, lemma_any_nonzero_past_end, leading_myriad};
use crate::midscale::mid_syms;
use crate::myriadscale::myriad_syms;
use crate::shortscale::{short_syms, short_trimmed};
use crate::{glyph, numeral_text, sign_suffix, spell, Sign, Variant};

verus! {

/// Text of two symbol sequences put one after the other: the later one is
/// written first.
pub proof fn lemma_spell_concat(a: Seq<NumChar>, b: Seq<NumChar>, variant: Variant, upper: bool)
    ensures
        spell(a + b, variant, upper) == spell(b, variant, upper) + spell(a, variant, upper),
    decreases a.len(),
{
    if a.len() == 0 {
        assert(a + b =~= b);
        assert(spell(b, variant, upper) + spell(a, variant, upper) =~= spell(b, variant, upper));
    } else {
        lemma_spell_concat(a.drop_first(), b, variant, upper);
        assert((a + b).drop_first() =~= a.drop_first() + b);
        assert((a + b)[0] == a[0]);
        assert(spell(b, variant, upper) + spell(a.drop_first(), variant, upper).push(
            glyph(a[0], variant, upper),
        ) =~= (spell(b, variant, upper) + spell(a.drop_first(), variant, upper)).push(
            glyph(a[0], variant, upper),
        ));
    }
}

/// The text of a sequence has one character per symbol, the character of
/// the symbol in the mirrored position.
pub proof fn lemma_spell_positions(syms: Seq<NumChar>, variant: Variant, upper: bool)
    ensures
        spell(syms, variant, upper).len() == syms.len(),
        forall|i: int|
            0 <= i < syms.len() ==> #[trigger] spell(syms, variant, upper)[i] == glyph(
                syms[syms.len() - 1 - i],
                variant,
                upper,
            ),
    decreases syms.len(),
{
    if syms.len() > 0 {
        let rest = syms.drop_first();
        lemma_spell_positions(rest, variant, upper);
        assert forall|i: int| 0 <= i < syms.len() implies #[trigger] spell(syms, variant, upper)[i]
            == glyph(syms[syms.len() - 1 - i], variant, upper) by {
            if i < rest.len() {
                assert(rest[rest.len() - 1 - i] == syms[syms.len() - 1 - i]);
            }
        }
    }
}

/// A negative number is written as the minus sign followed by the text of
/// its absolute value, whatever the symbols, the variant and the register.
pub proof fn law_negative_is_sign_then_absolute(
    syms: Seq<NumChar>,
    variant: Variant,
    upper: bool,
)
    ensures
        numeral_text(syms, Sign::Neg, variant, upper) == seq![glyph(NumChar::Neg, variant, upper)]
            + numeral_text(syms, Sign::Pos, variant, upper),
        glyph(NumChar::Neg, variant, upper) == (if variant == Variant::Simplified {
            '负'
        } else {
            '負'
        }),
{
    lemma_spell_concat(syms, seq![NumChar::Neg], variant, upper);
    assert(syms + sign_suffix(Sign::Pos) =~= syms);
    let one = seq![NumChar::Neg];
    assert(one.drop_first() =~= Seq::<NumChar>::empty());
    assert(spell(Seq::<NumChar>::empty(), variant, upper) == Seq::<char>::empty());
    assert(spell(one, variant, upper) =~= seq![glyph(NumChar::Neg, variant, upper)]);
}

/// The symbols of a text are fixed before the characters are chosen: in
/// every variant and register the text of a signed sequence has one
/// character per symbol, read from the most significant symbol down.
pub proof fn law_text_maps_each_symbol(
    syms: Seq<NumChar>,
    sign: Sign,
    variant: Variant,
    upper: bool,
)
    ensures
        ({
            let all = syms + sign_suffix(sign);
            let text = numeral_text(syms, sign, variant, upper);
            &&& text.len() == all.len()
            &&& forall|i: int|
                0 <= i < all.len() ==> #[trigger] text[i] == glyph(
                    all[all.len() - 1 - i],
                    variant,
                    upper,
                )
        }),
{
    lemma_spell_positions(syms + sign_suffix(sign), variant, upper);
}

/// Simplified and traditional characters differ only where a symbol is a
/// large name or the minus sign, or, in the financial register, one of the
/// three digits with a traditional financial form; the financial register
/// writes every large name in its everyday form.
pub proof fn law_tables_differ_only_where_written_differently(c: NumChar)
    ensures
        lower_trad(c) != lower_simp(c) ==> is_large_name(c) || c == NumChar::Neg,
        upper_trad(c) != upper_simp(c) ==> is_large_name(c) || c == NumChar::Neg || c
            == NumChar::Two || c == NumChar::Three || c == NumChar::Six,
        is_large_name(c) ==> upper_simp(c) == lower_simp(c) && upper_trad(c) == lower_trad(c),
{
}

proof fn lemma_linear_of_zero(s: LinearScale, off: int, k: nat)
    requires
        off >= 0,
    ensures
        linear_at(s, seq![], off, k) == Seq::<NumChar>::empty(),
    decreases k,
{
    if k > 0 {
        let g = (k - 1) as nat;
        lemma_linear_of_zero(s, off, g);
        assert(off + g * width(s) >= 0) by (nonlinear_arith)
            requires
                off >= 0,
        ;
        lemma_any_nonzero_past_end(seq![], off + g * width(s), off + g * width(s) + width(s));
    }
}

proof fn lemma_long_of_zero(off: int, k: nat)
    requires
        off >= 0,
    ensures
        long_at(seq![], off, k) == Seq::<NumChar>::empty(),
    decreases k,
{
    if k > 0 {
        let t = (k - 1) as nat;
        lemma_long_of_zero(off, t);
        lemma_any_nonzero_past_end(seq![], off + tier_start(t), off + tier_start(t) + tier_width(t));
    }
}

/// Zero has no symbols in any scale, so with the sign it always gets it is
/// written as the single zero, in every variant and register.
pub proof fn law_zero_is_single_zero(sign: Sign, variant: Variant, upper: bool)
    ensures
        short_syms(0) == Seq::<NumChar>::empty(),
        short_trimmed(0) == Seq::<NumChar>::empty(),
        myriad_syms(0) == Seq::<NumChar>::empty(),
        mid_syms(0) == Seq::<NumChar>::empty(),
        long_syms(0) == Seq::<NumChar>::empty(),
        trim_leading_one(Seq::<NumChar>::empty(), 0) == Seq::<NumChar>::empty(),
        numeral_text(Seq::<NumChar>::empty(), crate::normal_sign(sign, 0), variant, upper)
            == seq!['零'],
{
    assert(digits_of(0) =~= Seq::<u8>::empty());
    lemma_linear_of_zero(LinearScale::Short, 0, 15);
    lemma_linear_of_zero(LinearScale::Myriad, 0, 12);
    lemma_linear_of_zero(LinearScale::Mid, 0, 11);
    lemma_long_of_zero(0, 10);
    assert(leading_myriad(0) == 0);
    let z = seq![NumChar::Zero];
    assert(Seq::<NumChar>::empty() + sign_suffix(Sign::Nil) =~= z);
    assert(z.drop_first() =~= Seq::<NumChar>::empty());
    assert(spell(Seq::<NumChar>::empty(), variant, upper) == Seq::<char>::empty());
    assert(spell(z, variant, upper) =~= seq![glyph(NumChar::Zero, variant, upper)]);
}


/// No marker is repeated at the same depth: two equal markers are always
/// separated by a greater marker, which closes the group that held the first.
pub open spec fn well_nested(syms: Seq<NumChar>) -> bool {
    forall|i: int, j: int|
        #![trigger syms[i], syms[j]]
        0 <= i < j < syms.len() && syms[i] == syms[j] && is_marker(syms[i]) ==> exists|m: int|
            i < m < j && ord(syms[m]) > ord(syms[i])
}

/// The symbols above `floor` appear in strictly increasing order.
pub open spec fn increasing_above(syms: Seq<NumChar>, floor: nat) -> bool {
    forall|i: int, j: int|
        #![trigger syms[i], syms[j]]
        0 <= i < j < syms.len() && ord(syms[i]) > floor && ord(syms[j]) > floor ==> ord(syms[i])
            < ord(syms[j])
}

/// Every symbol is below `bound`.
pub open spec fn all_below(syms: Seq<NumChar>, bound: nat) -> bool {
    forall|i: int| 0 <= i < syms.len() ==> ord(#[trigger] syms[i]) < bound
}

/// Joining what lies below a group, the group's filler, its marker and its
/// content keeps every marker at its own depth.
proof fn lemma_nested_join(p: Seq<NumChar>, f: Seq<NumChar>, mk: NumChar, c: Seq<NumChar>)
    requires
        well_nested(p),
        well_nested(c),
        f.len() <= 1,
        forall|x: int| 0 <= x < f.len() ==> f[x] == NumChar::Zero,
        all_below(p, ord(mk)),
        all_below(c, ord(mk)),
    ensures
        well_nested(p + (f + seq![mk] + c)),
{
    let s = p + (f + seq![mk] + c);
    let a = p.len() as int;
    let mpos = a + f.len();
    let cs = mpos + 1;
    assert forall|i: int, j: int|
        #![trigger s[i], s[j]]
        0 <= i < j < s.len() && s[i] == s[j] && is_marker(s[i]) implies exists|m: int|
        i < m < j && ord(s[m]) > ord(s[i]) by {
        if j < a {
            assert(p[i] == s[i] && p[j] == s[j]);
            let m = choose|m: int| i < m < j && ord(#[trigger] p[m]) > ord(p[i]);
            assert(s[m] == p[m]);
        } else if j < mpos {
            assert(s[j] == f[j - a]);
        } else if j == mpos {
            assert(s[j] == mk);
            if i < a {
                assert(s[i] == p[i]);
            } else {
                assert(s[i] == f[i - a]);
            }
        } else {
            assert(s[j] == c[j - cs]);
            if i < cs {
                assert(s[mpos] == mk);
                if i == mpos {
                    assert(ord(c[j - cs]) < ord(mk));
                }
            } else {
                assert(s[i] == c[i - cs]);
                assert(c[i - cs] == c[j - cs]);
                let m = choose|m: int| i - cs < m < j - cs && ord(#[trigger] c[m]) > ord(c[i - cs]);
                assert(s[m + cs] == c[m]);
            }
        }
    }
}

/// Joining what lies below a group with the group itself, when only the
/// group's marker stands above `floor`, keeps the symbols above `floor` in
/// increasing order.
proof fn lemma_increasing_join(
    p: Seq<NumChar>,
    f: Seq<NumChar>,
    mk: NumChar,
    c: Seq<NumChar>,
    floor: nat,
)
    requires
        increasing_above(p, floor),
        forall|x: int| 0 <= x < f.len() ==> f[x] == NumChar::Zero,
        all_below(p, ord(mk)),
        all_below(c, floor + 1),
    ensures
        increasing_above(p + (f + seq![mk] + c), floor),
{
    let s = p + (f + seq![mk] + c);
    let a = p.len() as int;
    let mpos = a + f.len();
    assert forall|i: int, j: int|
        #![trigger s[i], s[j]]
        0 <= i < j < s.len() && ord(s[i]) > floor && ord(s[j]) > floor implies ord(s[i]) < ord(
        s[j],
    ) by {
        if j < a {
            assert(p[i] == s[i] && p[j] == s[j]);
        } else if j < mpos {
            assert(s[j] == f[j - a]);
        } else if j == mpos {
            if i < a {
                assert(s[i] == p[i]);
            } else {
                assert(s[i] == f[i - a]);
            }
        } else {
            assert(s[j] == c[j - mpos - 1]);
        }
    }
}

/// Every symbol of `k` groups of a linear scale is below the marker of
/// group `k`.
pub proof fn lemma_linear_below(s: LinearScale, ds: Seq<u8>, off: int, k: nat)
    requires
        all_digits(ds),
        k <= group_count(s),
    ensures
        all_below(linear_at(s, ds, off, k), marker_base(s) + k),
    decreases rank(s), k,
{
    if k > 0 {
        let g = (k - 1) as nat;
        let w = width(s);
        let start = off + g * w;
        lemma_linear_below(s, ds, off, g);
        let content = match s {
            LinearScale::Short => seq![symbol_at(dig(ds, start) as nat)],
            LinearScale::Myriad => linear_at(LinearScale::Short, ds, start, 4),
            LinearScale::Mid => linear_at(LinearScale::Myriad, ds, start, 2),
        };
        match s {
            LinearScale::Short => {
                lemma_ord_symbol_at(dig(ds, start) as nat);
            },
            LinearScale::Myriad => {
                lemma_linear_below(LinearScale::Short, ds, start, 4);
            },
            LinearScale::Mid => {
                lemma_linear_below(LinearScale::Myriad, ds, start, 2);
            },
        }
        assert(all_below(content, marker_base(s) + 1));
        lemma_ord_symbol_at(marker_base(s) + g);
        let p = linear_at(s, ds, off, g);
        let blk = group_block(ds, off, start, w, group_marker(g, marker_base(s)), content);
        assert(linear_at(s, ds, off, k) == p + blk);
        let all = p + blk;
        assert forall|i: int| 0 <= i < all.len() implies ord(#[trigger] all[i]) < marker_base(s)
            + k by {
            if i >= p.len() {
                let f = filler(ds, off, start);
                let mk = group_marker(g, marker_base(s));
                assert(blk == f + mk + content);
                let x = i - p.len();
                if x < f.len() {
                    assert(blk[x] == f[x]);
                } else if x < f.len() + mk.len() {
                    assert(blk[x] == mk[x - f.len()]);
                } else {
                    assert(blk[x] == content[x - f.len() - mk.len()]);
                }
            }
        }
    }
}

/// Every symbol of `k` tiers of the long scale is below the marker of tier
/// `k`.
pub proof fn lemma_long_below(ds: Seq<u8>, off: int, k: nat)
    requires
        all_digits(ds),
        k <= 10,
    ensures
        all_below(long_at(ds, off, k), 14 + k),
    decreases k,
{
    if k > 0 {
        let t = (k - 1) as nat;
        let start = off + tier_start(t);
        lemma_long_below(ds, off, t);
        let content = if t == 0 {
            linear_at(LinearScale::Mid, ds, off, 2)
        } else {
            long_at(ds, start, t)
        };
        if t == 0 {
            lemma_linear_below(LinearScale::Mid, ds, off, 2);
        } else {
            lemma_long_below(ds, start, t);
        }
        lemma_ord_symbol_at(14 + t);
        let p = long_at(ds, off, t);
        let blk = group_block(ds, off, start, tier_width(t), group_marker(t, 14), content);
        assert(long_at(ds, off, k) == p + blk);
        let all = p + blk;
        assert forall|i: int| 0 <= i < all.len() implies ord(#[trigger] all[i]) < 14 + k by {
            if i >= p.len() {
                let f = filler(ds, off, start);
                let mk = group_marker(t, 14);
                assert(blk == f + mk + content);
                let x = i - p.len();
                if x < f.len() {
                    assert(blk[x] == f[x]);
                } else if x < f.len() + mk.len() {
                    assert(blk[x] == mk[x - f.len()]);
                } else {
                    assert(blk[x] == content[x - f.len() - mk.len()]);
                }
            }
        }
    }
}


proof fn lemma_all_below_weaken(syms: Seq<NumChar>, a: nat, b: nat)
    requires
        all_below(syms, a),
        a <= b,
    ensures
        all_below(syms, b),
{
}

/// The groups of a linear scale keep their markers at their own depth, and
/// the markers of the groups themselves increase.
pub proof fn lemma_linear_nested(s: LinearScale, ds: Seq<u8>, off: int, k: nat)
    requires
        all_digits(ds),
        k <= group_count(s),
    ensures
        well_nested(linear_at(s, ds, off, k)),
        increasing_above(linear_at(s, ds, off, k), marker_base(s)),
    decreases rank(s), k,
{
    if k > 0 {
        let g = (k - 1) as nat;
        let w = width(s);
        let base = marker_base(s);
        let start = off + g * w;
        let content = match s {
            LinearScale::Short => seq![symbol_at(dig(ds, start) as nat)],
            LinearScale::Myriad => linear_at(LinearScale::Short, ds, start, 4),
            LinearScale::Mid => linear_at(LinearScale::Myriad, ds, start, 2),
        };
        match s {
            LinearScale::Short => {
                lemma_ord_symbol_at(dig(ds, start) as nat);
            },
            LinearScale::Myriad => {
                lemma_linear_below(LinearScale::Short, ds, start, 4);
                lemma_linear_nested(LinearScale::Short, ds, start, 4);
            },
            LinearScale::Mid => {
                lemma_linear_below(LinearScale::Myriad, ds, start, 2);
                lemma_linear_nested(LinearScale::Myriad, ds, start, 2);
            },
        }
        assert(all_below(content, base + 1));
        assert(well_nested(content));
        lemma_linear_nested(s, ds, off, g);
        lemma_linear_below(s, ds, off, g);
        let p = linear_at(s, ds, off, g);
        let f = filler(ds, off, start);
        let mk = group_marker(g, base);
        let blk = group_block(ds, off, start, w, mk, content);
        assert(linear_at(s, ds, off, k) == p + blk);
        if blk.len() == 0 {
            assert(p + blk =~= p);
        } else if g == 0 {
            assert(p.len() == 0);
            assert(f.len() == 0);
            assert(p + blk =~= content);
        } else {
            let m = symbol_at(base + g);
            lemma_ord_symbol_at(base + g);
            assert(mk == seq![m]);
            assert(blk == f + seq![m] + content);
            lemma_all_below_weaken(content, base + 1, ord(m));
            lemma_nested_join(p, f, m, content);
            lemma_increasing_join(p, f, m, content, base);
        }
    }
}

/// The tiers of the long scale keep their markers at their own depth.
pub proof fn lemma_long_nested(ds: Seq<u8>, off: int, k: nat)
    requires
        all_digits(ds),
        k <= 10,
    ensures
        well_nested(long_at(ds, off, k)),
    decreases k,
{
    if k > 0 {
        let t = (k - 1) as nat;
        let start = off + tier_start(t);
        let content = if t == 0 {
            linear_at(LinearScale::Mid, ds, off, 2)
        } else {
            long_at(ds, start, t)
        };
        if t == 0 {
            lemma_linear_nested(LinearScale::Mid, ds, off, 2);
        } else {
            lemma_long_nested(ds, start, t);
            lemma_long_below(ds, start, t);
        }
        lemma_long_nested(ds, off, t);
        lemma_long_below(ds, off, t);
        let p = long_at(ds, off, t);
        let f = filler(ds, off, start);
        let mk = group_marker(t, 14);
        let blk = group_block(ds, off, start, tier_width(t), mk, content);
        assert(long_at(ds, off, k) == p + blk);
        if blk.len() == 0 {
            assert(p + blk =~= p);
        } else if t == 0 {
            assert(p.len() == 0);
            assert(f.len() == 0);
            assert(p + blk =~= content);
        } else {
            let m = symbol_at(14 + t);
            lemma_ord_symbol_at(14 + t);
            assert(mk == seq![m]);
            assert(blk == f + seq![m] + content);
            lemma_nested_join(p, f, m, content);
        }
    }
}

/// Reading a name back recovers its groups. In the short, myriad and mid
/// scales the markers of the groups themselves (the symbols above the
/// scale's own place markers) appear from the least significant end in
/// strictly increasing order, one per named group. In every scale a marker
/// never appears twice at the same depth: two equal markers are always
/// separated by a greater one, which closes the group holding the first.
pub proof fn law_groups_read_back(n: nat)
    ensures
        increasing_above(short_syms(n), 9),
        increasing_above(myriad_syms(n), 12),
        increasing_above(mid_syms(n), 13),
        well_nested(short_syms(n)),
        well_nested(myriad_syms(n)),
        well_nested(mid_syms(n)),
        well_nested(long_syms(n)),
{
    let ds = digits_of(n);
    assert(all_digits(ds)) by {
        crate::magnitude::lemma_digits_of(n);
    }
    assert(increasing_above(short_syms(n), 9) && well_nested(short_syms(n))) by {
        lemma_linear_nested(LinearScale::Short, ds, 0, 15);
    }
    assert(increasing_above(myriad_syms(n), 12) && well_nested(myriad_syms(n))) by {
        lemma_linear_nested(LinearScale::Myriad, ds, 0, 12);
    }
    assert(increasing_above(mid_syms(n), 13) && well_nested(mid_syms(n))) by {
        lemma_linear_nested(LinearScale::Mid, ds, 0, 11);
    }
    assert(well_nested(long_syms(n))) by {
        lemma_long_nested(ds, 0, 10);
    }
}

} // verus!
