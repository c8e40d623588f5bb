//! Rounding of fixed-point quantities to a coarser grid.

use vstd::prelude::*;

verus! {

/// The multiple of `quantum` nearest to `value`; a value half way between two
/// multiples goes to the one farther from zero.
pub open spec fn round_half_away(value: int, quantum: int) -> int
    recommends
        quantum > 0,
{
    if value >= 0 {
        ((2 * value + quantum) / (2 * quantum)) * quantum
    } else {
        -(((2 * (-value) + quantum) / (2 * quantum)) * quantum)
    }
}

/// `round_half_away` lands on the grid, within half a quantum of the value,
/// keeps the sign, and at a tie takes the multiple farther from zero.
pub proof fn lemma_round_half_away_nearest(value: int, quantum: int)
    requires
        quantum > 0,
    ensures
        round_half_away(value, quantum) % quantum == 0,
        value >= 0 ==> round_half_away(value, quantum) >= 0,
        value <= 0 ==> round_half_away(value, quantum) <= 0,
        value >= 0 ==> -quantum < 2 * (round_half_away(value, quantum) - value) <= quantum,
        value <= 0 ==> -quantum <= 2 * (round_half_away(value, quantum) - value) < quantum,
{
    let m = if value >= 0 { value } else { -value };
    let k = (2 * m + quantum) / (2 * quantum);
    let r = (2 * m + quantum) % (2 * quantum);
    vstd::arithmetic::div_mod::lemma_fundamental_div_mod(2 * m + quantum, 2 * quantum);
    vstd::arithmetic::div_mod::lemma_mod_bound(2 * m + quantum, 2 * quantum);
    assert((2 * quantum) * k == 2 * (k * quantum)) by (nonlinear_arith);
    assert(2 * m + quantum == 2 * (k * quantum) + r);
    assert(k >= 0) by (nonlinear_arith)
        requires
            2 * m + quantum == 2 * (k * quantum) + r,
            r < 2 * quantum,
            m >= 0,
            quantum > 0,
    ;
    assert(k * quantum >= 0) by (nonlinear_arith)
        requires
            k >= 0,
            quantum > 0,
    ;
    assert(m == 0 ==> k * quantum == 0) by (nonlinear_arith)
        requires
            2 * m + quantum == 2 * (k * quantum) + r,
            0 <= r,
            k >= 0,
            quantum > 0,
    ;
    assert((k * quantum) % quantum == 0) by {
        vstd::arithmetic::div_mod::lemma_mod_multiples_basic(k, quantum);
    }
    assert((-(k * quantum)) % quantum == 0) by {
        assert(-(k * quantum) == (-k) * quantum) by (nonlinear_arith);
        vstd::arithmetic::div_mod::lemma_mod_multiples_basic(-k, quantum);
    }
    if value >= 0 {
        assert(round_half_away(value, quantum) == k * quantum);
    } else {
        assert(round_half_away(value, quantum) == -(k * quantum));
    }
}

/// A value on the grid is its own rounding.
pub proof fn lemma_round_half_away_fixes_multiples(value: int, quantum: int)
    requires
        quantum > 0,
        value % quantum == 0,
    ensures
        round_half_away(value, quantum) == value,
{
    let m = if value >= 0 { value } else { -value };
    let j = m / quantum;
    assert(m % quantum == 0) by {
        if value < 0 {
            let i = value / quantum;
            vstd::arithmetic::div_mod::lemma_fundamental_div_mod(value, quantum);
            assert(m == (-i) * quantum) by (nonlinear_arith)
                requires
                    value == quantum * i,
                    m == -value,
            ;
            vstd::arithmetic::div_mod::lemma_mod_multiples_basic(-i, quantum);
        }
    }
    vstd::arithmetic::div_mod::lemma_fundamental_div_mod(m, quantum);
    assert(m == quantum * j);
    assert(2 * m + quantum == (2 * quantum) * j + quantum) by (nonlinear_arith)
        requires
            m == quantum * j,
    ;
    assert((2 * m + quantum) / (2 * quantum) == j) by {
        vstd::arithmetic::div_mod::lemma_fundamental_div_mod_converse(
            2 * m + quantum,
            2 * quantum,
            j,
            quantum,
        );
    }
    assert(j * quantum == m) by (nonlinear_arith)
        requires
            m == quantum * j,
    ;
}

/// Rounding twice is rounding once.
pub proof fn lemma_round_half_away_idempotent(value: int, quantum: int)
    requires
        quantum > 0,
    ensures
        round_half_away(round_half_away(value, quantum), quantum) == round_half_away(
            value,
            quantum,
        ),
{
    lemma_round_half_away_nearest(value, quantum);
    lemma_round_half_away_fixes_multiples(round_half_away(value, quantum), quantum);
}

/// Rounding keeps the order of two values.
pub proof fn lemma_round_half_away_monotone(a: int, b: int, quantum: int)
    requires
        quantum > 0,
        a <= b,
    ensures
        round_half_away(a, quantum) <= round_half_away(b, quantum),
{
    lemma_round_half_away_nearest(a, quantum);
    lemma_round_half_away_nearest(b, quantum);
    if a >= 0 {
        let ka = (2 * a + quantum) / (2 * quantum);
        let kb = (2 * b + quantum) / (2 * quantum);
        vstd::arithmetic::div_mod::lemma_div_is_ordered(
            2 * a + quantum,
            2 * b + quantum,
            2 * quantum,
        );
        assert(ka * quantum <= kb * quantum) by (nonlinear_arith)
            requires
                ka <= kb,
                quantum > 0,
        ;
    } else if b < 0 {
        let ka = (2 * (-a) + quantum) / (2 * quantum);
        let kb = (2 * (-b) + quantum) / (2 * quantum);
        vstd::arithmetic::div_mod::lemma_div_is_ordered(
            2 * (-b) + quantum,
            2 * (-a) + quantum,
            2 * quantum,
        );
        assert(kb * quantum <= ka * quantum) by (nonlinear_arith)
            requires
                kb <= ka,
                quantum > 0,
        ;
    }
}

/// Rounds `value` to the nearest multiple of `quantum`, a tie going away
/// from zero. `None` when `quantum` is not positive or the multiple does not
/// fit the type.
pub fn round_to_multiple(value: i64, quantum: i64) -> (r: Option<i64>)
    ensures
        r == if quantum > 0 && i64::MIN <= round_half_away(value as int, quantum as int)
            <= i64::MAX {
            Some(round_half_away(value as int, quantum as int) as i64)
        } else {
            None
        },
{
    if quantum <= 0 {
        return None;
    }
    let q: i128 = quantum as i128;
    let v: i128 = value as i128;
    let m: i128 = if v >= 0 { v } else { -v };
    let k: i128 = (2 * m + q) / (2 * q);
    proof {
        lemma_round_half_away_nearest(value as int, quantum as int);
        vstd::arithmetic::div_mod::lemma_fundamental_div_mod(2 * m + q, 2 * q);
        vstd::arithmetic::div_mod::lemma_mod_bound(2 * m + q, 2 * q);
        assert(0 <= k * q <= m + q) by (nonlinear_arith)
            requires
                2 * m + q == (2 * q) * k + (2 * m + q) % (2 * q),
                0 <= (2 * m + q) % (2 * q),
                m >= 0,
                q > 0,
                k == (2 * m + q) / (2 * q),
                (2 * m + q) % (2 * q) < 2 * q,
        ;
    }
    let rounded: i128 = if v >= 0 { k * q } else { -(k * q) };
    assert(rounded == round_half_away(value as int, quantum as int));
    if rounded < i64::MIN as i128 || rounded > i64::MAX as i128 {
        None
    } else {
        Some(rounded as i64)
    }
}

} // verus!
