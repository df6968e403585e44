//! Exponential-moving-average temperature shaping.
//!
//! The smoothing is a triple exponential moving average: three chained
//! stages, each updated as `e' = e + (x - e) * 2 / (w + 1)`, all seeded with
//! the first sample. The engine computes it in fixed point (states scaled by
//! `EMA_SCALE`), each stage division rounded to the nearest, and the final
//! value rounded to the nearest centidegree, so a constant input is
//! reproduced exactly and every result has at most two decimal places.

use vstd::prelude::*;

use crate::setting::CentiTemp;

verus! {

/// The default smoothing window.
pub const TMA_DEFAULT_WINDOW_SIZE: u8 = 8;

/// How many of the most recent samples the average reads.
pub const TEMP_SAMPLE_SIZE: usize = 16;

/// Fixed-point scale of the smoothing states.
pub const EMA_SCALE: i64 = 1000000000;

/// Absolute bound on the centidegree samples the average accepts.
pub const EMA_TEMP_BOUND: i64 = 1000000;

/// `num / den` rounded to the nearest integer, halves away from zero.
pub open spec fn spec_div_round(num: int, den: int) -> int
    recommends
        den >= 1,
{
    if num >= 0 {
        (num + den / 2) / den
    } else {
        -((-num + den / 2) / den)
    }
}

/// One smoothing stage in fixed point: `(e * (w - 1) + 2 * x) / (w + 1)`,
/// rounded to the nearest.
pub open spec fn spec_ema_step(e: int, x: int, w: int) -> int
    recommends
        w >= 1,
{
    spec_div_round(e * (w - 1) + 2 * x, w + 1)
}

/// The three stage states (scaled by `EMA_SCALE`) after feeding `temps`:
/// all seeded with the first sample, then advanced once per later sample.
pub open spec fn spec_tma_states(temps: Seq<CentiTemp>, w: int) -> (int, int, int)
    recommends
        temps.len() >= 1,
        w >= 1,
    decreases temps.len(),
{
    if temps.len() <= 1 {
        let s = temps[0] * EMA_SCALE;
        (s, s, s)
    } else {
        let prev = spec_tma_states(temps.drop_last(), w);
        let x = temps.last() * EMA_SCALE;
        let e1 = spec_ema_step(prev.0, x, w);
        let e2 = spec_ema_step(prev.1, e1, w);
        let e3 = spec_ema_step(prev.2, e2, w);
        (e1, e2, e3)
    }
}

/// The shaped temperature: the third stage state, rounded back to
/// centidegrees.
pub open spec fn spec_ema_of(temps: Seq<CentiTemp>, w: int) -> int
    recommends
        temps.len() >= 1,
        w >= 1,
{
    spec_div_round(spec_tma_states(temps, w).2, EMA_SCALE as int)
}

/// The slice the average actually reads: the last `TEMP_SAMPLE_SIZE`
/// samples.
pub open spec fn spec_ema_window(temps: Seq<CentiTemp>) -> Seq<CentiTemp> {
    if temps.len() > TEMP_SAMPLE_SIZE {
        temps.skip(temps.len() - TEMP_SAMPLE_SIZE as int)
    } else {
        temps
    }
}

/// All samples lie within the accepted centidegree bound.
pub open spec fn spec_temps_bounded(temps: Seq<CentiTemp>) -> bool {
    forall|i: int| 0 <= i < temps.len() ==> -EMA_TEMP_BOUND <= #[trigger] temps[i] <= EMA_TEMP_BOUND
}

/// `num / den` rounded to the nearest integer, halves away from zero.
fn div_round(num: i64, den: i64) -> (r: i64)
    requires
        1 <= den <= 0x1_0000_0000,
        -0x7000_0000_0000_0000 <= num <= 0x7000_0000_0000_0000,
    ensures
        r == spec_div_round(num as int, den as int),
{
    if num >= 0 {
        (num + den / 2) / den
    } else {
        -((-num + den / 2) / den)
    }
}

/// The smoothing states stay within the bound of the samples, up to one
/// rounding unit per step.
proof fn lemma_div_round_bound(num: int, den: int, b: int)
    requires
        den >= 1,
        b >= 0,
        -(b * den) <= num <= b * den,
    ensures
        -b <= spec_div_round(num, den) <= b,
{
    if num >= 0 {
        assert((num + den / 2) / den <= b) by (nonlinear_arith)
            requires
                den >= 1,
                b >= 0,
                num <= b * den,
                num >= 0,
        ;
        assert((num + den / 2) / den >= 0) by (nonlinear_arith)
            requires
                den >= 1,
                num >= 0,
        ;
    } else {
        assert((-num + den / 2) / den <= b) by (nonlinear_arith)
            requires
                den >= 1,
                b >= 0,
                -num <= b * den,
                num < 0,
        ;
        assert((-num + den / 2) / den >= 0) by (nonlinear_arith)
            requires
                den >= 1,
                num < 0,
        ;
    }
}

/// One smoothing stage keeps its state within `bound` when the state and
/// the incoming value are within `bound`.
proof fn lemma_ema_step_bound(e: int, x: int, w: int, bound: int)
    requires
        1 <= w,
        bound >= 0,
        -bound <= e <= bound,
        -bound <= x <= bound,
    ensures
        -bound <= spec_ema_step(e, x, w) <= bound,
{
    assert(e * (w - 1) + 2 * x <= bound * (w + 1) && -(bound * (w + 1)) <= e * (w - 1) + 2 * x)
        by (nonlinear_arith)
        requires
            1 <= w,
            -bound <= e <= bound,
            -bound <= x <= bound,
            bound >= 0,
    ;
    lemma_div_round_bound(e * (w - 1) + 2 * x, w + 1, bound);
}

/// All three states stay within the scaled sample bound.
proof fn lemma_tma_states_bounded(temps: Seq<CentiTemp>, w: int)
    requires
        temps.len() >= 1,
        1 <= w <= 255,
        spec_temps_bounded(temps),
    ensures
        ({
            let s = spec_tma_states(temps, w);
            let b = EMA_TEMP_BOUND * EMA_SCALE;
            &&& -b <= s.0 <= b
            &&& -b <= s.1 <= b
            &&& -b <= s.2 <= b
        }),
    decreases temps.len(),
{
    let b = EMA_TEMP_BOUND * EMA_SCALE;
    if temps.len() <= 1 {
        let t0 = temps[0];
        assert(-EMA_TEMP_BOUND <= t0 <= EMA_TEMP_BOUND);
        assert(-b <= t0 * EMA_SCALE <= b) by (nonlinear_arith)
            requires
                -EMA_TEMP_BOUND <= t0 <= EMA_TEMP_BOUND,
                b == EMA_TEMP_BOUND * EMA_SCALE,
        ;
    } else {
        assert(spec_temps_bounded(temps.drop_last()));
        lemma_tma_states_bounded(temps.drop_last(), w);
        let prev = spec_tma_states(temps.drop_last(), w);
        let tl = temps.last();
        assert(tl == temps[temps.len() - 1]);
        assert(-EMA_TEMP_BOUND <= tl <= EMA_TEMP_BOUND);
        let x = tl * EMA_SCALE;
        assert(-b <= x <= b) by (nonlinear_arith)
            requires
                -EMA_TEMP_BOUND <= tl <= EMA_TEMP_BOUND,
                b == EMA_TEMP_BOUND * EMA_SCALE,
                x == tl * EMA_SCALE,
        ;
        lemma_ema_step_bound(prev.0, x, w, b);
        let e1 = spec_ema_step(prev.0, x, w);
        lemma_ema_step_bound(prev.1, e1, w, b);
        let e2 = spec_ema_step(prev.1, e1, w);
        lemma_ema_step_bound(prev.2, e2, w, b);
    }
}

/// One fixed-point stage, executable.
fn ema_step(e: i64, x: i64, w: u8) -> (r: i64)
    requires
        1 <= w,
        -EMA_TEMP_BOUND * EMA_SCALE <= e <= EMA_TEMP_BOUND * EMA_SCALE,
        -EMA_TEMP_BOUND * EMA_SCALE <= x <= EMA_TEMP_BOUND * EMA_SCALE,
    ensures
        r == spec_ema_step(e as int, x as int, w as int),
        -EMA_TEMP_BOUND * EMA_SCALE <= r <= EMA_TEMP_BOUND * EMA_SCALE,
{
    proof {
        assert(e * (w - 1) + 2 * x <= 0x7000_0000_0000_0000 && e * (w - 1) + 2 * x
            >= -0x7000_0000_0000_0000) by (nonlinear_arith)
            requires
                1 <= w <= 255,
                -EMA_TEMP_BOUND * EMA_SCALE <= e <= EMA_TEMP_BOUND * EMA_SCALE,
                -EMA_TEMP_BOUND * EMA_SCALE <= x <= EMA_TEMP_BOUND * EMA_SCALE,
        ;
        lemma_ema_step_bound(e as int, x as int, w as int, EMA_TEMP_BOUND * EMA_SCALE);
    }
    let num: i64 = e * ((w as i64) - 1) + 2 * x;
    div_round(num, (w as i64) + 1)
}

/// Computes the triple exponential moving average of `all_temps` (all of it;
/// the caller passes the window slice) and returns the final smoothed value
/// in centidegrees. `window_size` falls back to the default of 8; a window
/// of zero is rejected by the precondition, as the smoothing is undefined
/// there.
pub fn current_temp_from_exponential_moving_average(
    all_temps: &Vec<CentiTemp>,
    window_size: Option<u8>,
) -> (r: CentiTemp)
    requires
        all_temps@.len() >= 1,
        spec_temps_bounded(all_temps@),
        window_size is Some ==> window_size->0 >= 1,
    ensures
        r == spec_ema_of(
            spec_ema_window(all_temps@),
            if window_size is Some {
                window_size->0 as int
            } else {
                TMA_DEFAULT_WINDOW_SIZE as int
            },
        ),
{
    let w: u8 = match window_size {
        Some(w) => w,
        None => TMA_DEFAULT_WINDOW_SIZE,
    };
    let start: usize = if all_temps.len() > TEMP_SAMPLE_SIZE {
        all_temps.len() - TEMP_SAMPLE_SIZE
    } else {
        0
    };
    let ghost window = spec_ema_window(all_temps@);
    proof {
        assert(window =~= all_temps@.subrange(start as int, all_temps@.len() as int));
        assert(spec_temps_bounded(window));
    }
    let first = all_temps[start];
    proof {
        assert(-EMA_TEMP_BOUND * EMA_SCALE <= first * EMA_SCALE <= EMA_TEMP_BOUND * EMA_SCALE)
            by (nonlinear_arith)
            requires
                -EMA_TEMP_BOUND <= first <= EMA_TEMP_BOUND,
        ;
    }
    let mut e1: i64 = first * EMA_SCALE;
    let mut e2: i64 = e1;
    let mut e3: i64 = e1;
    let mut i: usize = start + 1;
    proof {
        assert(window.take(1) =~= seq![all_temps@[start as int]]);
    }
    while i < all_temps.len()
        invariant
            start < i <= all_temps@.len(),
            start == if all_temps@.len() > TEMP_SAMPLE_SIZE {
                all_temps@.len() - TEMP_SAMPLE_SIZE as int
            } else {
                0
            },
            1 <= w <= 255,
            window == spec_ema_window(all_temps@),
            window =~= all_temps@.subrange(start as int, all_temps@.len() as int),
            spec_temps_bounded(window),
            (e1 as int, e2 as int, e3 as int) == spec_tma_states(
                window.take(i - start),
                w as int,
            ),
            -EMA_TEMP_BOUND * EMA_SCALE <= e1 <= EMA_TEMP_BOUND * EMA_SCALE,
            -EMA_TEMP_BOUND * EMA_SCALE <= e2 <= EMA_TEMP_BOUND * EMA_SCALE,
            -EMA_TEMP_BOUND * EMA_SCALE <= e3 <= EMA_TEMP_BOUND * EMA_SCALE,
        decreases all_temps@.len() - i,
    {
        let t = all_temps[i];
        proof {
            assert(window[i - start] == all_temps@[i as int]);
            assert(-EMA_TEMP_BOUND <= t <= EMA_TEMP_BOUND);
            assert(-EMA_TEMP_BOUND * EMA_SCALE <= t * EMA_SCALE <= EMA_TEMP_BOUND * EMA_SCALE)
                by (nonlinear_arith)
                requires
                    -EMA_TEMP_BOUND <= t <= EMA_TEMP_BOUND,
            ;
        }
        let x: i64 = t * EMA_SCALE;
        let new_e1 = ema_step(e1, x, w);
        let new_e2 = ema_step(e2, new_e1, w);
        let new_e3 = ema_step(e3, new_e2, w);
        proof {
            let k = i - start + 1;
            assert(window.take(k).drop_last() =~= window.take(k - 1));
            assert(window.take(k).last() == window[i - start]);
        }
        e1 = new_e1;
        e2 = new_e2;
        e3 = new_e3;
        i = i + 1;
    }
    proof {
        assert(window.take(window.len() as int) =~= window);
    }
    div_round(e3, EMA_SCALE)
}

/// The smoothing of a constant signal is that constant: every stage state
/// stays at the scaled constant, and the final rounding returns it exactly.
pub proof fn lemma_ema_of_constant(temps: Seq<CentiTemp>, w: int, c: CentiTemp)
    requires
        temps.len() >= 1,
        1 <= w <= 255,
        -EMA_TEMP_BOUND <= c <= EMA_TEMP_BOUND,
        forall|i: int| 0 <= i < temps.len() ==> temps[i] == c,
    ensures
        spec_ema_of(temps, w) == c,
    decreases temps.len(),
{
    lemma_tma_states_constant(temps, w, c);
    lemma_div_round_exact(c as int, EMA_SCALE as int);
}

/// On a constant signal every stage state equals the scaled constant.
proof fn lemma_tma_states_constant(temps: Seq<CentiTemp>, w: int, c: CentiTemp)
    requires
        temps.len() >= 1,
        1 <= w <= 255,
        forall|i: int| 0 <= i < temps.len() ==> temps[i] == c,
    ensures
        spec_tma_states(temps, w) == (c * EMA_SCALE as int, c * EMA_SCALE as int, c * EMA_SCALE as int),
    decreases temps.len(),
{
    if temps.len() <= 1 {
    } else {
        assert(forall|i: int| 0 <= i < temps.drop_last().len() ==> temps.drop_last()[i] == c);
        lemma_tma_states_constant(temps.drop_last(), w, c);
        lemma_ema_step_fixed(c * EMA_SCALE as int, w);
    }
}

/// A stage whose state equals its input does not move.
proof fn lemma_ema_step_fixed(v: int, w: int)
    requires
        1 <= w,
    ensures
        spec_ema_step(v, v, w) == v,
{
    assert(v * (w - 1) + 2 * v == v * (w + 1)) by (nonlinear_arith);
    lemma_div_round_exact(v, w + 1);
}

/// Rounding an exact multiple returns the factor.
proof fn lemma_div_round_exact(a: int, den: int)
    requires
        den >= 1,
    ensures
        spec_div_round(a * den, den) == a,
{
    if a * den >= 0 {
        assert((a * den + den / 2) / den == a) by (nonlinear_arith)
            requires
                den >= 1,
                a * den >= 0,
        ;
    } else {
        assert((-(a * den) + den / 2) / den == -a) by (nonlinear_arith)
            requires
                den >= 1,
                a * den < 0,
        ;
    }
}

} // verus!
