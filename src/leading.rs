use vstd::prelude::*;

use crate::characters::{symbol_at, NumChar};
use crate::grouping::{
    filler, group_block, group_marker, lemma_long_reach, lemma_tier_width, linear_at, long_at,
    marker_base, rank, tier_start, tier_width, width, LinearScale,
};
use crate::longscale::long_syms;
use crate::magnitude::{
    any_nonzero, dig, digits_of, leading_myriad, lemma_any_nonzero_past_end,
    lemma_any_nonzero_split, lemma_digit_count, lemma_digits_of, lemma_digits_of_shift4, pow10,
};
use crate::midscale::mid_syms;
use crate::myriadscale::myriad_syms;
use crate::shortscale::short_syms;

verus! {

/// The highest position in `lo..hi` whose digit is not zero.
pub open spec fn top_nonzero(ds: Seq<u8>, lo: int, hi: int) -> int
    decreases hi - lo,
{
    if hi <= lo {
        lo
    } else if dig(ds, hi - 1) != 0 {
        hi - 1
    } else {
        top_nonzero(ds, lo, hi - 1)
    }
}

proof fn lemma_top_nonzero_split(ds: Seq<u8>, lo: int, mid: int, hi: int)
    requires
        lo <= mid <= hi,
    ensures
        top_nonzero(ds, lo, hi) == (if any_nonzero(ds, mid, hi) {
            top_nonzero(ds, mid, hi)
        } else {
            top_nonzero(ds, lo, mid)
        }),
    decreases hi - mid,
{
    if mid < hi {
        lemma_top_nonzero_split(ds, lo, mid, hi - 1);
    }
}

/// The last (most significant) symbol of a linear-scale name is the symbol
/// of the highest nonzero digit.
proof fn lemma_linear_last(s: LinearScale, ds: Seq<u8>, off: int, k: nat)
    requires
        any_nonzero(ds, off, off + k * width(s)),
    ensures
        linear_at(s, ds, off, k).len() > 0,
        linear_at(s, ds, off, k).last() == symbol_at(
            dig(ds, top_nonzero(ds, off, off + k * width(s))) as nat,
        ),
    decreases rank(s), k,
{
    if k > 0 {
        let g = (k - 1) as nat;
        let w = width(s);
        let start = off + g * w;
        assert(off + k * w == start + w) by (nonlinear_arith)
            requires
                start == off + g * w,
                k == g + 1,
        ;
        lemma_any_nonzero_split(ds, off, start, start + w);
        lemma_top_nonzero_split(ds, off, start, start + w);
        let content = match s {
            LinearScale::Short => seq![symbol_at(dig(ds, start) as nat)],
            LinearScale::Myriad => linear_at(LinearScale::Short, ds, start, 4),
            LinearScale::Mid => linear_at(LinearScale::Myriad, ds, start, 2),
        };
        let p = linear_at(s, ds, off, g);
        let blk = group_block(ds, off, start, w, group_marker(g, marker_base(s)), content);
        assert(linear_at(s, ds, off, k) == p + blk);
        if any_nonzero(ds, start, start + w) {
            match s {
                LinearScale::Short => {
                    assert(!any_nonzero(ds, start, start));
                    assert(dig(ds, start) != 0);
                },
                LinearScale::Myriad => {
                    lemma_linear_last(LinearScale::Short, ds, start, 4);
                },
                LinearScale::Mid => {
                    lemma_linear_last(LinearScale::Myriad, ds, start, 2);
                },
            }
            let f = filler(ds, off, start);
            let mk = group_marker(g, marker_base(s));
            assert(blk == f + mk + content);
            assert((p + blk).last() == content.last());
        } else {
            lemma_linear_last(s, ds, off, g);
            assert(p + blk =~= p);
        }
    } else {
        assert(off + k * width(s) == off);
    }
}

/// The last (most significant) symbol of a long-scale name is the symbol of
/// the highest nonzero digit.
proof fn lemma_long_last(ds: Seq<u8>, off: int, k: nat)
    requires
        any_nonzero(ds, off, off + tier_start(k)),
    ensures
        long_at(ds, off, k).len() > 0,
        long_at(ds, off, k).last() == symbol_at(
            dig(ds, top_nonzero(ds, off, off + tier_start(k))) as nat,
        ),
    decreases k,
{
    if k > 0 {
        let t = (k - 1) as nat;
        let start = off + tier_start(t);
        let w = tier_width(t);
        lemma_tier_width(t);
        assert(start + w == off + tier_start(k));
        lemma_any_nonzero_split(ds, off, start, start + w);
        lemma_top_nonzero_split(ds, off, start, start + w);
        let content = if t == 0 {
            linear_at(LinearScale::Mid, ds, off, 2)
        } else {
            long_at(ds, start, t)
        };
        let p = long_at(ds, off, t);
        let blk = group_block(ds, off, start, w, group_marker(t, 14), content);
        assert(long_at(ds, off, k) == p + blk);
        if any_nonzero(ds, start, start + w) {
            if t == 0 {
                lemma_linear_last(LinearScale::Mid, ds, off, 2);
            } else {
                lemma_long_last(ds, start, t);
            }
            let f = filler(ds, off, start);
            let mk = group_marker(t, 14);
            assert(blk == f + mk + content);
            assert((p + blk).last() == content.last());
        } else {
            lemma_long_last(ds, off, t);
            assert(p + blk =~= p);
        }
    }
}

/// In a number of at most `n` digits the highest nonzero digit is the last
/// of its digits.
proof fn lemma_top_is_leading_digit(v: nat, n: nat)
    requires
        0 < v < pow10(n),
    ensures
        any_nonzero(digits_of(v), 0, n as int),
        dig(digits_of(v), top_nonzero(digits_of(v), 0, n as int)) == digits_of(v).last(),
{
    let ds = digits_of(v);
    lemma_digits_of(v);
    lemma_digit_count(v, n);
    crate::magnitude::lemma_nonzero_digits(v, n);
    let len = ds.len() as int;
    lemma_any_nonzero_past_end(ds, len, n as int);
    lemma_top_nonzero_split(ds, 0, len, n as int);
    assert(dig(ds, len - 1) == ds.last());
}

/// The highest myriad group of a number starts with the number's leading
/// digit.
proof fn lemma_leading_myriad_digit(v: nat)
    requires
        v > 0,
    ensures
        leading_myriad(v) > 0,
        digits_of(leading_myriad(v)).last() == digits_of(v).last(),
    decreases v,
{
    lemma_digits_of(v);
    if v >= 10000 {
        lemma_digits_of_shift4(v);
        reveal_with_fuel(pow10, 5);
        lemma_digit_count(v, 4);
        let ds = digits_of(v);
        assert(ds.subrange(4, ds.len() as int).last() == ds.last());
        lemma_leading_myriad_digit(v / 10000);
    }
}

/// A number from ten to nineteen has the leading digit one.
proof fn lemma_teen_digit(v: nat)
    requires
        10 <= v <= 19,
    ensures
        digits_of(v).last() == 1,
{
    assert(v / 10 == 1);
    assert(digits_of(1) =~= seq![1u8]) by {
        assert(digits_of(0) =~= Seq::<u8>::empty());
    }
    assert(digits_of(v) =~= seq![(v % 10) as u8] + digits_of(1));
}

/// Everyday speech drops nothing but a leading "one": whenever the trimmed
/// name is shorter, the symbol left out is the most significant one and it
/// is `One`. The short scale trims numbers from ten to nineteen; the other
/// scales trim when the highest myriad group is between ten and nineteen.
pub proof fn law_trim_drops_leading_one(n: nat)
    ensures
        10 <= n <= 19 ==> short_syms(n).len() > 0 && short_syms(n).last() == NumChar::One,
        10 <= leading_myriad(n) <= 19 && n < pow10(48) ==> myriad_syms(n).len() > 0
            && myriad_syms(n).last() == NumChar::One,
        10 <= leading_myriad(n) <= 19 && n < pow10(88) ==> mid_syms(n).len() > 0 && mid_syms(
            n,
        ).last() == NumChar::One,
        10 <= leading_myriad(n) <= 19 && n < pow10(8192) ==> long_syms(n).len() > 0
            && long_syms(n).last() == NumChar::One,
{
    if 10 <= n <= 19 {
        assert(n < pow10(15)) by {
            reveal_with_fuel(pow10, 3);
            crate::magnitude::lemma_pow10_monotonic(2, 15);
        }
        lemma_top_is_leading_digit(n, 15);
        lemma_linear_last(LinearScale::Short, digits_of(n), 0, 15);
        lemma_teen_digit(n);
    }
    if 10 <= leading_myriad(n) <= 19 {
        assert(n > 0);
        lemma_leading_myriad_digit(n);
        lemma_teen_digit(leading_myriad(n));
        if n < pow10(48) {
            lemma_top_is_leading_digit(n, 48);
            lemma_linear_last(LinearScale::Myriad, digits_of(n), 0, 12);
        }
        if n < pow10(88) {
            lemma_top_is_leading_digit(n, 88);
            lemma_linear_last(LinearScale::Mid, digits_of(n), 0, 11);
        }
        if n < pow10(8192) {
            lemma_long_reach();
            lemma_top_is_leading_digit(n, 8192);
            lemma_long_last(digits_of(n), 0, 10);
        }
    }
}


} // verus!
