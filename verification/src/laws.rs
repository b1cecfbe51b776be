//! Invariants of the position bookkeeping, stated over the spec model of
//! `modify_position` and proved once and for all.

use crate::bitmap::{tick_bit, word_pos_fits};
use crate::intdiv::trunc_div;
use crate::mutator::{
    info_of, spec_flip, spec_update_position, spec_update_position_ticks, spec_update_tick,
    word_with_flipped,
};
use crate::pool::Info;
use crate::u256::U256;
use vstd::prelude::*;
use vstd::set::fold::{is_fun_commutative, lemma_finite_set_induct, lemma_fold_empty, lemma_fold_insert};

verus! {

/// The sum of `liquidity_net` over every entry of the tick table.
pub open spec fn sum_net(m: Map<i32, Info>) -> int {
    m.dom().fold(
        0int,
        |acc: int, t: i32|
            acc + (if m.contains_key(t) {
                m[t].liquidity_net as int
            } else {
                0
            }),
    )
}

/// Folding two functions that agree on a set's elements gives the same
/// result.
proof fn lemma_fold_congruence(
    s: Set<i32>,
    z: int,
    f: spec_fn(int, i32) -> int,
    g: spec_fn(int, i32) -> int,
)
    requires
        s.finite(),
        is_fun_commutative(f),
        is_fun_commutative(g),
        forall|acc: int, t: i32| s.contains(t) ==> #[trigger] f(acc, t) == g(acc, t),
    ensures
        s.fold(z, f) == s.fold(z, g),
{
    let pred = |s2: Set<i32>|
        (s2.finite() && (forall|acc: int, t: i32| s2.contains(t) ==> #[trigger] f(acc, t) == g(
            acc,
            t,
        ))) ==> s2.fold(z, f) == s2.fold(z, g);
    assert(pred(Set::empty())) by {
        lemma_fold_empty(z, f);
        lemma_fold_empty(z, g);
    }
    assert forall|s2: Set<i32>, a: i32|
        pred(s2) && s2.finite() && !s2.contains(a) implies #[trigger] pred(s2.insert(a)) by {
        if s2.insert(a).finite() && (forall|acc: int, t: i32|
            s2.insert(a).contains(t) ==> #[trigger] f(acc, t) == g(acc, t)) {
            lemma_fold_insert(s2, z, f, a);
            lemma_fold_insert(s2, z, g, a);
        }
    }
    lemma_finite_set_induct(s, pred);
    assert(pred(s));
}

/// The net-sum fold function of a table.
pub open spec fn net_adder(m: Map<i32, Info>) -> spec_fn(int, i32) -> int {
    |acc: int, t: i32|
        acc + (if m.contains_key(t) {
            m[t].liquidity_net as int
        } else {
            0
        })
}

/// Inserting a fresh entry adds its net to the sum.
proof fn lemma_sum_net_insert_fresh(m: Map<i32, Info>, k: i32, v: Info)
    requires
        m.dom().finite(),
        !m.contains_key(k),
    ensures
        sum_net(m.insert(k, v)) == sum_net(m) + v.liquidity_net,
{
    let m2 = m.insert(k, v);
    assert(m2.dom() == m.dom().insert(k));
    lemma_fold_congruence(m.dom(), 0int, net_adder(m2), net_adder(m));
    lemma_fold_insert(m.dom(), 0int, net_adder(m2), k);
}

/// Overwriting an entry trades its old net for the new one.
proof fn lemma_sum_net_overwrite(m: Map<i32, Info>, k: i32, v: Info)
    requires
        m.dom().finite(),
        m.contains_key(k),
    ensures
        sum_net(m.insert(k, v)) == sum_net(m) - m[k].liquidity_net + v.liquidity_net,
{
    let m0 = m.remove(k);
    assert(m0.dom() == m.dom().remove(k));
    assert(m0.insert(k, m[k]) =~= m);
    lemma_sum_net_insert_fresh(m0, k, m[k]);
    assert(m.insert(k, v) =~= m0.insert(k, v));
    lemma_sum_net_insert_fresh(m0, k, v);
}

/// Removing an entry takes its net out of the sum.
proof fn lemma_sum_net_remove(m: Map<i32, Info>, k: i32)
    requires
        m.dom().finite(),
        m.contains_key(k),
    ensures
        sum_net(m.remove(k)) == sum_net(m) - m[k].liquidity_net,
{
    let m0 = m.remove(k);
    assert(m0.insert(k, m[k]) =~= m);
    lemma_sum_net_insert_fresh(m0, k, m[k]);
}

/// Net-liquidity accounting of one position update: the endpoint pair
/// itself contributes nothing to the net sum; only entries dropped on a
/// burn-side flip carry their net out of the table. A mint therefore
/// preserves the sum exactly, and so does any burn whose dropped entries
/// hold a zero net.
pub proof fn lemma_position_net_sum(m: Map<i32, Info>, lower: i32, upper: i32, delta: int)
    requires
        m.dom().finite(),
        spec_update_position_ticks(m, lower, upper, delta) is Some,
    ensures
        ({
            let (m4, flip_l, flip_u) = spec_update_position_ticks(m, lower, upper, delta).unwrap();
            let dropped = (if delta < 0 && flip_l {
                new_info_lower(m, lower, upper, delta).liquidity_net as int
            } else {
                0
            }) + (if delta < 0 && flip_u {
                new_info_upper(m, lower, upper, delta).liquidity_net as int
            } else {
                0
            });
            sum_net(m4) == sum_net(m) - dropped
        }),
{
    if delta == 0 {
    } else {
        let (new_l, flip_l) = spec_update_tick(info_of(m, lower), delta, false).unwrap();
        let info_u = if upper == lower {
            new_l
        } else {
            info_of(m, upper)
        };
        let (new_u, flip_u) = spec_update_tick(info_u, delta, true).unwrap();
        let m1 = m.insert(lower, new_l);
        let m2 = m1.insert(upper, new_u);
        if m.contains_key(lower) {
            lemma_sum_net_overwrite(m, lower, new_l);
        } else {
            lemma_sum_net_insert_fresh(m, lower, new_l);
        }
        if upper == lower {
            lemma_sum_net_overwrite(m1, upper, new_u);
        } else {
            if m1.contains_key(upper) {
                lemma_sum_net_overwrite(m1, upper, new_u);
            } else {
                lemma_sum_net_insert_fresh(m1, upper, new_u);
            }
        }
        let m3 = if delta < 0 && flip_l {
            m2.remove(lower)
        } else {
            m2
        };
        if delta < 0 && flip_l {
            lemma_sum_net_remove(m2, lower);
        }
        if delta < 0 && flip_u {
            if upper == lower && flip_l {
                assert(false);
            }
            lemma_sum_net_remove(m3, upper);
        }
    }
}

/// The updated lower-endpoint entry of a position update.
pub open spec fn new_info_lower(m: Map<i32, Info>, lower: i32, upper: i32, delta: int) -> Info {
    spec_update_tick(info_of(m, lower), delta, false).unwrap().0
}

/// The updated upper-endpoint entry of a position update.
pub open spec fn new_info_upper(m: Map<i32, Info>, lower: i32, upper: i32, delta: int) -> Info {
    let new_l = new_info_lower(m, lower, upper, delta);
    let info_u = if upper == lower {
        new_l
    } else {
        info_of(m, upper)
    };
    spec_update_tick(info_u, delta, true).unwrap().0
}

/// Applied from a balanced table, a mint leaves the nets balanced: what a
/// position adds at its lower endpoint it subtracts at its upper one.
pub proof fn lemma_mint_preserves_net_balance(m: Map<i32, Info>, lower: i32, upper: i32, delta: int)
    requires
        m.dom().finite(),
        delta >= 0,
        spec_update_position_ticks(m, lower, upper, delta) is Some,
        sum_net(m) == 0,
    ensures
        sum_net(spec_update_position_ticks(m, lower, upper, delta).unwrap().0) == 0,
{
    lemma_position_net_sum(m, lower, upper, delta);
}

/// Every entry's gross count dominates the magnitude of its net count.
pub open spec fn net_bounded(m: Map<i32, Info>) -> bool {
    forall|t: i32|
        m.contains_key(t) ==> vstd::math::abs(#[trigger] m[t].liquidity_net as int)
            <= m[t].liquidity_gross
}

/// A mint preserves the gross-dominates-net bound at every tick. (A burn
/// can break it: the bound relies on burns matching earlier mints of the
/// same range, which the table alone does not record.)
pub proof fn lemma_mint_preserves_net_bound(m: Map<i32, Info>, lower: i32, upper: i32, delta: int)
    requires
        delta >= 0,
        spec_update_position_ticks(m, lower, upper, delta) is Some,
        net_bounded(m),
    ensures
        net_bounded(spec_update_position_ticks(m, lower, upper, delta).unwrap().0),
{
    if delta == 0 {
    } else {
        let (m4, flip_l, flip_u) = spec_update_position_ticks(m, lower, upper, delta).unwrap();
        assert forall|t: i32| m4.contains_key(t) implies vstd::math::abs(
            #[trigger] m4[t].liquidity_net as int,
        ) <= m4[t].liquidity_gross by {
            if t == upper || t == lower {
            } else {
                assert(m4[t] == m[t]);
            }
        }
    }
}

/// The bitmap marks exactly the table's ticks: each table key is a
/// spacing-multiple whose compressed coordinate carries a set bit, and
/// every set bit points back at a table key.
pub open spec fn ticks_match_bitmap(
    ticks: Map<i32, Info>,
    bm: Map<i16, U256>,
    spacing: int,
) -> bool {
    &&& (forall|t: i32|
        #[trigger] ticks.contains_key(t) ==> trunc_div(t as int, spacing) * spacing == t
            && word_pos_fits(trunc_div(t as int, spacing)))
    &&& (forall|c: int|
        word_pos_fits(c) ==> ((#[trigger] tick_bit(bm, c)) <==> (crate::bitmap::fits_i32(
            c * spacing,
        ) && ticks.contains_key((c * spacing) as i32))))
}

/// A flipped word changes exactly the flipped compressed coordinate.
proof fn lemma_flip_changes_one_bit(bm: Map<i16, U256>, tick: int, spacing: int)
    requires
        spacing >= 1,
        spec_flip(bm, tick, spacing) is Some,
    ensures
        forall|c: int|
            word_pos_fits(c) ==> ((#[trigger] tick_bit(spec_flip(bm, tick, spacing).unwrap(), c))
                == (if c == trunc_div(tick, spacing) {
                !tick_bit(bm, c)
            } else {
                tick_bit(bm, c)
            })),
{
    let c0 = trunc_div(tick, spacing);
    let wp = (c0 / 256) as i16;
    let w0 = crate::bitmap::word_of(bm, wp);
    let w1 = word_with_flipped(w0, c0 % 256);
    let bm2 = spec_flip(bm, tick, spacing).unwrap();
    assert forall|c: int| word_pos_fits(c) implies ((#[trigger] tick_bit(bm2, c)) == (if c == c0 {
        !tick_bit(bm, c)
    } else {
        tick_bit(bm, c)
    })) by {
        vstd::arithmetic::div_mod::lemma_mod_bound(c, 256);
        vstd::arithmetic::div_mod::lemma_mod_bound(c0, 256);
        if (c / 256) as i16 == wp {
            lemma_word_div_unique(c, c0);
            lemma_flipped_word_bits(w0, c0 % 256, c % 256);
        } else {
            assert(bm2.contains_key((c / 256) as i16) == bm.contains_key((c / 256) as i16));
        }
    }
}

/// Two in-range compressed ticks in the same word differ exactly in their
/// bit coordinate.
proof fn lemma_word_div_unique(c: int, c0: int)
    requires
        word_pos_fits(c),
        word_pos_fits(c0),
        (c / 256) as i16 == (c0 / 256) as i16,
    ensures
        (c == c0) <==> (c % 256 == c0 % 256),
{
    vstd::arithmetic::div_mod::lemma_fundamental_div_mod(c, 256);
    vstd::arithmetic::div_mod::lemma_fundamental_div_mod(c0, 256);
}

/// Flipping one bit of a word leaves every other bit alone.
proof fn lemma_flipped_word_bits(w: U256, b: int, j: int)
    requires
        0 <= b < 256,
        0 <= j < 256,
    ensures
        word_with_flipped(w, b).spec_bit(j) == (if j == b {
            !w.spec_bit(j)
        } else {
            w.spec_bit(j)
        }),
{
    let w2 = word_with_flipped(w, b);
    if b < 128 {
        if j < 128 {
            lemma_xor_one_bit(w.lo, b as u128, j as u128);
        }
    } else {
        if j >= 128 {
            lemma_xor_one_bit(w.hi, (b - 128) as u128, (j - 128) as u128);
        }
    }
}

/// Every entry of the table counts live liquidity.
pub open spec fn entries_positive(m: Map<i32, Info>) -> bool {
    forall|t: i32| #[trigger] m.contains_key(t) ==> m[t].liquidity_gross > 0
}

/// Distinct compressed coordinates scale to distinct ticks.
proof fn lemma_scale_injective(c1: int, c2: int, spacing: int)
    by (nonlinear_arith)
    requires
        spacing >= 1,
        c1 != c2,
    ensures
        c1 * spacing != c2 * spacing,
{
}

/// A position update keeps the bitmap in step with the tick table: a bit
/// toggles exactly when its tick's entry appears or disappears, so the
/// set of initialized ticks and the set of set bits stay equal. The
/// endpoints must sit on the spacing grid.
pub proof fn lemma_position_preserves_bitmap(
    ticks: Map<i32, Info>,
    bm: Map<i16, U256>,
    lower: i32,
    upper: i32,
    spacing: int,
    delta: int,
)
    requires
        spacing >= 1,
        trunc_div(lower as int, spacing) * spacing == lower as int,
        trunc_div(upper as int, spacing) * spacing == upper as int,
        ticks_match_bitmap(ticks, bm, spacing),
        entries_positive(ticks),
        spec_update_position(ticks, bm, lower, upper, spacing, delta) is Some,
    ensures
        ({
            let (m4, bm4) = spec_update_position(ticks, bm, lower, upper, spacing, delta).unwrap();
            ticks_match_bitmap(m4, bm4, spacing) && entries_positive(m4)
        }),
{
    if delta == 0 {
    } else {
        let (m4, flip_l, flip_u) = spec_update_position_ticks(ticks, lower, upper, delta).unwrap();
        let bm4 = crate::mutator::spec_update_position_bitmap(
            bm,
            lower,
            upper,
            spacing,
            flip_l,
            flip_u,
        ).unwrap();
        let cl = trunc_div(lower as int, spacing);
        let cu = trunc_div(upper as int, spacing);
        let (new_l, _) = spec_update_tick(info_of(ticks, lower), delta, false).unwrap();
        let info_u = if upper == lower {
            new_l
        } else {
            info_of(ticks, upper)
        };
        let (new_u, _) = spec_update_tick(info_u, delta, true).unwrap();
        let bm1 = if flip_l {
            spec_flip(bm, lower as int, spacing).unwrap()
        } else {
            bm
        };
        if flip_l {
            lemma_flip_changes_one_bit(bm, lower as int, spacing);
        }
        if flip_u {
            lemma_flip_changes_one_bit(bm1, upper as int, spacing);
        }
        // Entry presence after the update, endpoint by endpoint.
        assert(m4.contains_key(lower) <==> (if lower == upper {
            !(delta < 0 && (flip_l || flip_u))
        } else {
            !(delta < 0 && flip_l)
        }));
        assert(m4.contains_key(upper) <==> !(delta < 0 && flip_u));
        assert forall|t: i32| #[trigger] m4.contains_key(t) implies m4[t].liquidity_gross > 0 by {
            if t == lower || t == upper {
            } else {
                assert(m4[t] == ticks[t]);
            }
        }
        assert forall|t: i32| #[trigger] m4.contains_key(t) implies trunc_div(t as int, spacing)
            * spacing == t as int && word_pos_fits(trunc_div(t as int, spacing)) by {
            if t == lower || t == upper {
                if flip_l {
                }
                if flip_u {
                }
                assert(word_pos_fits(cl) || !m4.contains_key(lower) || !flip_l);
                lemma_compressed_fits(ticks, bm, spacing, t);
            } else {
                assert(ticks.contains_key(t));
            }
        }
        assert forall|c: int| word_pos_fits(c) implies ((#[trigger] tick_bit(bm4, c)) <==> (
        crate::bitmap::fits_i32(c * spacing) && m4.contains_key((c * spacing) as i32))) by {
            if c != cl {
                lemma_scale_injective(c, cl, spacing);
            }
            if c != cu {
                lemma_scale_injective(c, cu, spacing);
            }
            if c == cl || c == cu {
            } else {
                assert(tick_bit(bm4, c) == tick_bit(bm, c));
                if crate::bitmap::fits_i32(c * spacing) {
                    let t = (c * spacing) as i32;
                    assert(t != lower && t != upper);
                    assert(m4.contains_key(t) == ticks.contains_key(t));
                }
            }
        }
    }
}

/// A tick that the invariant covers has a representable compressed
/// coordinate, whether it sits in the table or is an endpoint whose flip
/// succeeded.
proof fn lemma_compressed_fits(ticks: Map<i32, Info>, bm: Map<i16, U256>, spacing: int, t: i32)
    requires
        spacing >= 1,
        trunc_div(t as int, spacing) * spacing == t as int,
    ensures
        crate::bitmap::fits_i32(trunc_div(t as int, spacing) * spacing),
{
}

/// The empty replica is balanced: no entries, no net.
pub proof fn lemma_empty_net_sum()
    ensures
        sum_net(Map::<i32, Info>::empty()) == 0,
{
    lemma_fold_empty(0int, net_adder(Map::<i32, Info>::empty()));
    assert(Map::<i32, Info>::empty().dom() =~= Set::<i32>::empty());
}

/// The empty replica's bitmap matches its empty tick table.
pub proof fn lemma_empty_maps_match(spacing: int)
    ensures
        ticks_match_bitmap(Map::<i32, Info>::empty(), Map::<i16, U256>::empty(), spacing),
        entries_positive(Map::<i32, Info>::empty()),
        net_bounded(Map::<i32, Info>::empty()),
{
    assert forall|c: int| word_pos_fits(c) implies !tick_bit(
        Map::<i16, U256>::empty(),
        c,
    ) by {
        vstd::arithmetic::div_mod::lemma_mod_bound(c, 256);
        lemma_zero_word_bit(c % 256);
    }
}

/// Every bit of an absent word reads clear.
proof fn lemma_zero_word_bit(j: int)
    requires
        0 <= j < 256,
    ensures
        !(U256 { lo: 0, hi: 0 }).spec_bit(j),
{
    if j < 128 {
        lemma_zero_shift(j as u128);
    } else {
        lemma_zero_shift((j - 128) as u128);
    }
}

proof fn lemma_zero_shift(j: u128)
    by (bit_vector)
    ensures
        (0u128 >> j) & 1 != 1,
{
}

/// A sequence of position updates, applied first to last.
pub open spec fn apply_position_events(
    events: Seq<(i32, i32, int)>,
    m: Map<i32, Info>,
) -> Option<Map<i32, Info>>
    decreases events.len(),
{
    if events.len() == 0 {
        Some(m)
    } else {
        match spec_update_position_ticks(m, events[0].0, events[0].1, events[0].2) {
            None => None,
            Some((m2, fl, fu)) => apply_position_events(events.drop_first(), m2),
        }
    }
}

/// Any sequence of mints applied from a balanced table leaves the nets
/// balanced; in particular, from the empty replica the net sum is always
/// zero.
pub proof fn lemma_mint_sequence_balanced(events: Seq<(i32, i32, int)>, m: Map<i32, Info>)
    requires
        m.dom().finite(),
        sum_net(m) == 0,
        forall|i: int| 0 <= i < events.len() ==> (#[trigger] events[i]).2 >= 0,
        apply_position_events(events, m) is Some,
    ensures
        ({
            let mf = apply_position_events(events, m).unwrap();
            mf.dom().finite() && sum_net(mf) == 0
        }),
    decreases events.len(),
{
    if events.len() > 0 {
        let (m2, fl, fu) = spec_update_position_ticks(m, events[0].0, events[0].1, events[0].2)
            .unwrap();
        lemma_mint_preserves_net_balance(m, events[0].0, events[0].1, events[0].2);
        assert(m2.dom() =~= (if events[0].2 == 0 {
            m.dom()
        } else {
            m.dom().insert(events[0].0).insert(events[0].1)
        }));
        lemma_mint_sequence_balanced(events.drop_first(), m2);
    }
}

/// Exclusive or with a single set bit inverts that bit and no other.
proof fn lemma_xor_one_bit(x: u128, b: u128, j: u128)
    by (bit_vector)
    requires
        b < 128,
        j < 128,
    ensures
        (((x ^ (1u128 << b)) >> j) & 1 == 1) == (if j == b {
            !((x >> j) & 1 == 1)
        } else {
            (x >> j) & 1 == 1
        }),
{
}

} // verus!
