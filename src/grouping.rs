use vstd::prelude::*;

use crate::characters::{symbol_at, NumChar};
use crate::magnitude::{
    all_digits, any_nonzero, dig, digit_at, has_nonzero, leading_myriad, lemma_any_nonzero_split,
};

verus! {

/// The three scales whose groups all have the same width.
#[derive(PartialEq, Eq, Structural, Clone, Copy, Debug)]
pub enum LinearScale {
    /// Every digit is a group of its own.
    Short,
    /// Groups of four digits.
    Myriad,
    /// Groups of eight digits.
    Mid,
}

/// The count of digits in each group of a linear scale.
pub open spec fn width(s: LinearScale) -> nat {
    match s {
        LinearScale::Short => 1,
        LinearScale::Myriad => 4,
        LinearScale::Mid => 8,
    }
}

/// Group `g >= 1` of a linear scale is named by the symbol in position
/// `marker_base(s) + g`.
pub open spec fn marker_base(s: LinearScale) -> nat {
    match s {
        LinearScale::Short => 9,
        LinearScale::Myriad => 12,
        LinearScale::Mid => 13,
    }
}

/// How many groups a linear scale can name.
pub open spec fn group_count(s: LinearScale) -> nat {
    match s {
        LinearScale::Short => 15,
        LinearScale::Myriad => 12,
        LinearScale::Mid => 11,
    }
}

pub open spec fn rank(s: LinearScale) -> nat {
    match s {
        LinearScale::Short => 0,
        LinearScale::Myriad => 1,
        LinearScale::Mid => 2,
    }
}

/// A filler zero goes before the group that starts at position `start` when
/// a lower group of the number (whose digits start at `off`) was named and
/// the digit just below `start` is zero.
pub open spec fn filler(ds: Seq<u8>, off: int, start: int) -> Seq<NumChar> {
    if start > off && any_nonzero(ds, off, start) && dig(ds, start - 1) == 0 {
        seq![NumChar::Zero]
    } else {
        seq![]
    }
}

/// The marker of group `g`: none for the lowest group.
pub open spec fn group_marker(g: nat, base: nat) -> Seq<NumChar> {
    if g == 0 {
        seq![]
    } else {
        seq![symbol_at(base + g)]
    }
}

/// The symbols of one group, least significant first: nothing when all its
/// digits are zero, else the filler, the marker and the group's content.
pub open spec fn group_block(
    ds: Seq<u8>,
    off: int,
    start: int,
    w: nat,
    marker: Seq<NumChar>,
    content: Seq<NumChar>,
) -> Seq<NumChar> {
    if any_nonzero(ds, start, start + w) {
        filler(ds, off, start) + marker + content
    } else {
        seq![]
    }
}

/// The symbols, least significant first, of the first `k` groups of the
/// number whose digits start at position `off`, in linear scale `s`.
/// A digit stands for itself; a myriad group is named in the short scale and
/// a mid-scale group in the myriad scale.
pub open spec fn linear_at(s: LinearScale, ds: Seq<u8>, off: int, k: nat) -> Seq<NumChar>
    decreases rank(s), k,
{
    if k == 0 {
        seq![]
    } else {
        let g = (k - 1) as nat;
        let start = off + g * width(s);
        let content = match s {
            LinearScale::Short => seq![symbol_at(dig(ds, start) as nat)],
            LinearScale::Myriad => linear_at(LinearScale::Short, ds, start, 4),
            LinearScale::Mid => linear_at(LinearScale::Myriad, ds, start, 2),
        };
        linear_at(s, ds, off, g) + group_block(
            ds,
            off,
            start,
            width(s),
            group_marker(g, marker_base(s)),
            content,
        )
    }
}

/// The width of tier `t` of the long scale: sixteen digits for the first
/// two tiers, then each tier is as wide as all the tiers below it.
pub open spec fn tier_width(t: nat) -> nat
    decreases t,
{
    if t <= 1 {
        16
    } else {
        2 * tier_width((t - 1) as nat)
    }
}

/// Where tier `t` of the long scale starts.
pub open spec fn tier_start(t: nat) -> nat {
    if t == 0 {
        0
    } else {
        tier_width(t)
    }
}

/// The symbols, least significant first, of the first `k` tiers of the
/// number whose digits start at position `off`, in the long scale. The
/// lowest tier is named in the mid scale; tier `t >= 1` holds a number as
/// wide as all lower tiers together, named by the long scale itself.
pub open spec fn long_at(ds: Seq<u8>, off: int, k: nat) -> Seq<NumChar>
    decreases k,
{
    if k == 0 {
        seq![]
    } else {
        let t = (k - 1) as nat;
        let start = off + tier_start(t);
        let content = if t == 0 {
            linear_at(LinearScale::Mid, ds, off, 2)
        } else {
            long_at(ds, start, t)
        };
        long_at(ds, off, t) + group_block(
            ds,
            off,
            start,
            tier_width(t),
            group_marker(t, 14),
            content,
        )
    }
}

proof fn lemma_tier_width_monotonic(a: nat, b: nat)
    requires
        a <= b,
    ensures
        tier_width(a) <= tier_width(b),
    decreases b,
{
    if a < b {
        lemma_tier_width_monotonic(a, (b - 1) as nat);
        lemma_tier_width((b - 1) as nat);
    }
}

pub proof fn lemma_tier_width(t: nat)
    ensures
        16 <= tier_width(t),
        t <= 9 ==> tier_width(t) <= 4096,
        t >= 1 ==> tier_width(t + 1) == 2 * tier_width(t),
    decreases t,
{
    if t > 1 {
        lemma_tier_width((t - 1) as nat);
    }
    if t <= 9 {
        reveal_with_fuel(tier_width, 10);
        assert(t == 0 || t == 1 || t == 2 || t == 3 || t == 4 || t == 5 || t == 6 || t == 7
            || t == 8 || t == 9);
    }
}

/// Appends the filler and the marker that go before a nonzero group.
fn push_group_head(
    ds: &Vec<u8>,
    g: usize,
    start: usize,
    seen: bool,
    marker: usize,
    out: &mut Vec<NumChar>,
)
    requires
        start >= 1 || g == 0,
        marker < 25,
    ensures
        final(out)@ == old(out)@ + (if g > 0 && seen && dig(ds@, start - 1) == 0 {
            seq![NumChar::Zero]
        } else {
            seq![]
        }) + (if g == 0 {
            seq![]
        } else {
            seq![symbol_at(marker as nat)]
        }),
{
    let ghost before = out@;
    if g > 0 && seen && digit_at(ds, start - 1) == 0 {
        out.push(NumChar::Zero);
    }
    let ghost mid = out@;
    if g > 0 {
        out.push(NumChar::from_index(marker));
    }
    proof {
        let f = if g > 0 && seen && dig(ds@, start - 1) == 0 {
            seq![NumChar::Zero]
        } else {
            seq![]
        };
        let m = if g == 0 {
            seq![]
        } else {
            seq![symbol_at(marker as nat)]
        };
        assert(mid =~= before + f);
        assert(out@ =~= before + f + m);
    }
}

/// Appends the symbols of the first `k` groups of the number whose digits
/// start at `off`, in linear scale `s`.
#[verifier::rlimit(30)]
pub fn linear_into(s: LinearScale, ds: &Vec<u8>, off: usize, k: usize, out: &mut Vec<NumChar>)
    requires
        all_digits(ds@),
        k <= group_count(s),
        off + 100 * rank(s) <= 2_000_000,
    ensures
        final(out)@ == old(out)@ + linear_at(s, ds@, off as int, k as nat),
    decreases rank(s),
{
    let w: usize = match s {
        LinearScale::Short => 1,
        LinearScale::Myriad => 4,
        LinearScale::Mid => 8,
    };
    let base: usize = match s {
        LinearScale::Short => 9,
        LinearScale::Myriad => 12,
        LinearScale::Mid => 13,
    };
    let ghost out0 = out@;
    let mut g: usize = 0;
    let mut start: usize = off;
    let mut seen: bool = false;
    while g < k
        invariant
            all_digits(ds@),
            w == width(s),
            base == marker_base(s),
            k <= group_count(s),
            off + 100 * rank(s) <= 2_000_000,
            g <= k,
            start == off + g * w,
            seen == any_nonzero(ds@, off as int, start as int),
            out@ == out0 + linear_at(s, ds@, off as int, g as nat),
        decreases k - g,
    {
        assert(start <= 2_000_000 + 14 * 8) by (nonlinear_arith)
            requires
                start == off + g * w,
                off <= 2_000_000,
                g < 15,
                w <= 8,
        ;
        assert(g * w <= 80) by (nonlinear_arith)
            requires
                g < group_count(s),
                w == width(s),
                group_count(s) * width(s) <= 88,
        ;
        let ghost prev = out@;
        let nz = has_nonzero(ds, start, start + w);
        if nz {
            push_group_head(ds, g, start, seen, base + g, out);
            match s {
                LinearScale::Short => {
                    let d = digit_at(ds, start);
                    out.push(NumChar::from_index(d as usize));
                },
                LinearScale::Myriad => {
                    linear_into(LinearScale::Short, ds, start, 4, out);
                },
                LinearScale::Mid => {
                    linear_into(LinearScale::Myriad, ds, start, 2, out);
                },
            }
        }
        proof {
            lemma_any_nonzero_split(ds@, off as int, start as int, start + w);
            let content = match s {
                LinearScale::Short => seq![symbol_at(dig(ds@, start as int) as nat)],
                LinearScale::Myriad => linear_at(LinearScale::Short, ds@, start as int, 4),
                LinearScale::Mid => linear_at(LinearScale::Myriad, ds@, start as int, 2),
            };
            let blk = group_block(
                ds@,
                off as int,
                start as int,
                width(s),
                group_marker(g as nat, marker_base(s)),
                content,
            );
            assert(linear_at(s, ds@, off as int, (g + 1) as nat) == prev.subrange(
                out0.len() as int,
                prev.len() as int,
            ) + blk) by {
                assert(prev.subrange(out0.len() as int, prev.len() as int) =~= linear_at(
                    s,
                    ds@,
                    off as int,
                    g as nat,
                ));
            }
            assert(out@ =~= out0 + linear_at(s, ds@, off as int, (g + 1) as nat));
        }
        seen = seen || nz;
        g = g + 1;
        start = start + w;
        assert(start == off + g * w) by (nonlinear_arith)
            requires
                start == off + (g - 1) * w + w,
        ;
    }
}

/// Appends the symbols of the first `k` tiers of the number whose digits
/// start at `off`, in the long scale.
pub fn long_into(ds: &Vec<u8>, off: usize, k: usize, out: &mut Vec<NumChar>)
    requires
        all_digits(ds@),
        k <= 10,
        off + 2 * tier_width(k as nat) <= 1_000_000,
    ensures
        final(out)@ == old(out)@ + long_at(ds@, off as int, k as nat),
    decreases k,
{
    let ghost out0 = out@;
    let mut t: usize = 0;
    let mut w: usize = 16;
    let mut seen: bool = false;
    while t < k
        invariant
            all_digits(ds@),
            k <= 10,
            off + 2 * tier_width(k as nat) <= 1_000_000,
            t <= k,
            w == tier_width(t as nat),
            seen == any_nonzero(ds@, off as int, off + tier_start(t as nat)),
            out@ == out0 + long_at(ds@, off as int, t as nat),
        decreases k - t,
    {
        proof {
            lemma_tier_width(t as nat);
            lemma_tier_width_monotonic(t as nat, k as nat);
            if t >= 1 {
                lemma_tier_width_monotonic((t + 1) as nat, k as nat);
            }
        }
        let start: usize = if t == 0 {
            off
        } else {
            off + w
        };
        let ghost prev = out@;
        let nz = has_nonzero(ds, start, start + w);
        if nz {
            push_group_head(ds, t, start, seen, 14 + t, out);
            if t == 0 {
                linear_into(LinearScale::Mid, ds, off, 2, out);
            } else {
                long_into(ds, start, t, out);
            }
        }
        proof {
            lemma_any_nonzero_split(ds@, off as int, start as int, start + w);
            let content = if t == 0 {
                linear_at(LinearScale::Mid, ds@, off as int, 2)
            } else {
                long_at(ds@, start as int, t as nat)
            };
            let blk = group_block(
                ds@,
                off as int,
                start as int,
                tier_width(t as nat),
                group_marker(t as nat, 14),
                content,
            );
            assert(long_at(ds@, off as int, (t + 1) as nat) == prev.subrange(
                out0.len() as int,
                prev.len() as int,
            ) + blk) by {
                assert(prev.subrange(out0.len() as int, prev.len() as int) =~= long_at(
                    ds@,
                    off as int,
                    t as nat,
                ));
            }
            assert(out@ =~= out0 + long_at(ds@, off as int, (t + 1) as nat));
            assert(start + w == off + tier_start((t + 1) as nat));
        }
        seen = seen || nz;
        if t >= 1 {
            w = w * 2;
        }
        t = t + 1;
    }
}

/// Everyday speech drops the "one" on top when the highest myriad group of
/// the number `v` is between ten and nineteen: the symbols of `v` lose their
/// last (most significant) entry.
pub open spec fn trim_leading_one(syms: Seq<NumChar>, v: nat) -> Seq<NumChar> {
    if 10 <= leading_myriad(v) <= 19 {
        syms.drop_last()
    } else {
        syms
    }
}

/// A number with a nonzero digit has a nonempty name in a linear scale.
pub proof fn lemma_linear_nonempty(s: LinearScale, ds: Seq<u8>, off: int, k: nat)
    requires
        any_nonzero(ds, off, off + k * width(s)),
    ensures
        linear_at(s, ds, off, k).len() > 0,
    decreases rank(s), k,
{
    if k > 0 {
        let g = (k - 1) as nat;
        let w = width(s);
        let start = off + g * w;
        assert(off + k * w == start + w) by (nonlinear_arith)
            requires
                start == off + g * w,
                k == g + 1,
        ;
        lemma_any_nonzero_split(ds, off, start, start + w);
        let content = match s {
            LinearScale::Short => seq![symbol_at(dig(ds, start) as nat)],
            LinearScale::Myriad => linear_at(LinearScale::Short, ds, start, 4),
            LinearScale::Mid => linear_at(LinearScale::Myriad, ds, start, 2),
        };
        let blk = group_block(ds, off, start, w, group_marker(g, marker_base(s)), content);
        assert(linear_at(s, ds, off, k) == linear_at(s, ds, off, g) + blk);
        if any_nonzero(ds, start, start + w) {
            match s {
                LinearScale::Short => {},
                LinearScale::Myriad => {
                    lemma_linear_nonempty(LinearScale::Short, ds, start, 4);
                },
                LinearScale::Mid => {
                    lemma_linear_nonempty(LinearScale::Myriad, ds, start, 2);
                },
            }
            assert(content.len() > 0);
            assert(blk.len() > 0);
        } else {
            lemma_linear_nonempty(s, ds, off, g);
        }
    } else {
        assert(off + k * width(s) == off);
    }
}

/// A number with a nonzero digit has a nonempty name in the long scale.
pub proof fn lemma_long_nonempty(ds: Seq<u8>, off: int, k: nat)
    requires
        any_nonzero(ds, off, off + tier_start(k)),
    ensures
        long_at(ds, off, k).len() > 0,
    decreases k,
{
    if k > 0 {
        let t = (k - 1) as nat;
        let start = off + tier_start(t);
        lemma_tier_width(t);
        assert(start + tier_width(t) == off + tier_start(k));
        lemma_any_nonzero_split(ds, off, start, start + tier_width(t));
        let content = if t == 0 {
            linear_at(LinearScale::Mid, ds, off, 2)
        } else {
            long_at(ds, start, t)
        };
        let blk = group_block(ds, off, start, tier_width(t), group_marker(t, 14), content);
        assert(long_at(ds, off, k) == long_at(ds, off, t) + blk);
        if any_nonzero(ds, start, start + tier_width(t)) {
            if t == 0 {
                lemma_linear_nonempty(LinearScale::Mid, ds, off, 2);
            } else {
                lemma_long_nonempty(ds, start, t);
            }
            assert(blk.len() > 0);
        } else {
            lemma_long_nonempty(ds, off, t);
        }
    }
}

/// How far the long scale reaches with all ten names: 8192 digits.
pub proof fn lemma_long_reach()
    ensures
        tier_start(10) == 8192,
        tier_width(10) == 8192,
{
    reveal_with_fuel(tier_width, 11);
}

/// Drops the most significant symbol when the highest myriad group `lead`
/// is between ten and nineteen.
pub fn trim_chars(chars: Vec<NumChar>, lead: u128) -> (r: Vec<NumChar>)
    requires
        10 <= lead <= 19 ==> chars@.len() > 0,
    ensures
        r@ == (if 10 <= lead <= 19 {
            chars@.drop_last()
        } else {
            chars@
        }),
{
    let mut chars = chars;
    if 10 <= lead && lead <= 19 {
        chars.pop();
    }
    chars
}

/// The symbols of the first `k` groups of a number in linear scale `s`.
pub fn linear_chars(s: LinearScale, ds: &Vec<u8>, k: usize) -> (r: Vec<NumChar>)
    requires
        all_digits(ds@),
        k <= group_count(s),
    ensures
        r@ == linear_at(s, ds@, 0, k as nat),
{
    let mut out: Vec<NumChar> = Vec::new();
    linear_into(s, ds, 0, k, &mut out);
    assert(out@ =~= linear_at(s, ds@, 0, k as nat));
    out
}

/// The symbols of the first `k` tiers of a number in the long scale.
pub fn long_chars(ds: &Vec<u8>, k: usize) -> (r: Vec<NumChar>)
    requires
        all_digits(ds@),
        k <= 10,
    ensures
        r@ == long_at(ds@, 0, k as nat),
{
    proof {
        lemma_tier_width(k as nat);
        lemma_tier_width_monotonic(k as nat, 10);
        lemma_long_reach();
    }
    let mut out: Vec<NumChar> = Vec::new();
    long_into(ds, 0, k, &mut out);
    assert(out@ =~= long_at(ds@, 0, k as nat));
    out
}

} // verus!
