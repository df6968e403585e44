//! The graph evaluator: piecewise-linear interpolation from a shaped
//! temperature to a duty.

use vstd::prelude::*;

use crate::ema::spec_div_round;
use crate::profile::{speed_profile_well_formed, SpeedProfileData};
use crate::setting::CentiTemp;

verus! {

/// The duty of a well-formed curve at `temp`: clamped to the nearest
/// endpoint outside the curve's range, linear in between, rounded to the
/// nearest percent point.
pub open spec fn spec_interpolate(curve: Seq<(CentiTemp, u8)>, temp: CentiTemp) -> u8
    recommends
        curve.len() >= 1,
    decreases curve.len(),
{
    if temp <= curve[0].0 {
        curve[0].1
    } else if curve.len() <= 1 {
        curve[0].1
    } else if temp >= curve[1].0 {
        spec_interpolate(curve.skip(1), temp)
    } else {
        let x1 = curve[0].0;
        let y1 = curve[0].1;
        let x2 = curve[1].0;
        let y2 = curve[1].1;
        let v = y1 + spec_div_round((temp - x1) * (y2 - y1), x2 - x1);
        if v < 0 {
            0
        } else if v > 100 {
            100
        } else {
            v as u8
        }
    }
}

/// Interpolation of a well-formed curve never leaves 0..=100.
pub proof fn lemma_interpolate_bounds(curve: Seq<(CentiTemp, u8)>, temp: CentiTemp)
    requires
        speed_profile_well_formed(curve),
    ensures
        0 <= spec_interpolate(curve, temp) <= 100,
    decreases curve.len(),
{
    if temp <= curve[0].0 {
    } else if curve.len() <= 1 {
    } else if temp >= curve[1].0 {
        assert(speed_profile_well_formed(curve.skip(1))) by {
            assert(forall|i: int|
                0 <= i < curve.skip(1).len() ==> #[trigger] curve.skip(1)[i] == curve[i + 1]);
        }
        lemma_interpolate_bounds(curve.skip(1), temp);
    }
}

/// The interpolated duty at `temp`, as `spec_interpolate` defines it.
pub fn interpolate_profile(curve: &Vec<(CentiTemp, u8)>, temp: CentiTemp) -> (duty: u8)
    requires
        speed_profile_well_formed(curve@),
    ensures
        duty == spec_interpolate(curve@, temp),
        duty <= 100,
{
    proof {
        lemma_interpolate_bounds(curve@, temp);
    }
    let n = curve.len();
    let mut i: usize = 0;
    proof {
        assert(curve@.skip(0) =~= curve@);
    }
    while i + 1 < n && temp >= curve[i + 1].0
        invariant
            0 <= i < n,
            n == curve@.len(),
            speed_profile_well_formed(curve@),
            spec_interpolate(curve@, temp) == spec_interpolate(curve@.skip(i as int), temp),
            i > 0 ==> temp >= curve@[i as int].0,
        decreases n - i,
    {
        proof {
            let s = curve@.skip(i as int);
            assert(s[0] == curve@[i as int]);
            assert(s.len() > 1);
            assert(s[1] == curve@[i + 1]);
            assert(s.skip(1) =~= curve@.skip(i + 1));
            assert(s[0].0 < s[1].0);
            assert(temp > s[0].0);
        }
        i = i + 1;
    }
    let ghost s = curve@.skip(i as int);
    proof {
        assert(s[0] == curve@[i as int]);
        if i + 1 < n {
            assert(s[1] == curve@[i + 1]);
        }
    }
    if temp <= curve[i].0 {
        return curve[i].1;
    }
    if i + 1 >= n {
        proof {
            assert(s.len() == 1);
        }
        return curve[i].1;
    }
    let x1 = curve[i].0;
    let y1 = curve[i].1 as i64;
    let x2 = curve[i + 1].0;
    let y2 = curve[i + 1].1 as i64;
    proof {
        assert(curve@[i as int].0 < curve@[i + 1].0);
        assert(-1000000 <= x1 <= 1000000 && -1000000 <= x2 <= 1000000);
        assert(x1 < temp);
        assert(temp < x2);
    }
    let dt: i64 = temp - x1;
    let dy: i64 = y2 - y1;
    let den: i64 = x2 - x1;
    proof {
        assert(0 < dt < den <= 2000000);
        assert(-100 <= dy <= 100);
        assert(-(100 * (den as int)) <= dt * dy <= 100 * (den as int)) by (nonlinear_arith)
            requires
                0 < dt < den,
                -100 <= dy <= 100,
        ;
        assert(100 * (den as int) <= 200000000);
    }
    let num: i64 = dt * dy;
    let frac: i64 = div_round_i64(num, den);
    proof {
        lemma_div_round_small(num as int, den as int, 100);
    }
    let v: i64 = y1 + frac;
    let duty: u8 = if v < 0 {
        0
    } else if v > 100 {
        100
    } else {
        v as u8
    };
    duty
}

/// `num / den` rounded to the nearest integer, halves away from zero.
fn div_round_i64(num: i64, den: i64) -> (r: i64)
    requires
        1 <= den <= 0x1_0000_0000,
        -0x7000_0000_0000_0000 <= num <= 0x7000_0000_0000_0000,
    ensures
        r == spec_div_round(num as int, den as int),
{
    if num >= 0 {
        (num + den / 2) / den
    } else {
        -((-num + den / 2) / den)
    }
}

/// A quotient whose numerator is at most `b * den` in magnitude rounds to
/// at most `b` in magnitude.
proof fn lemma_div_round_small(num: int, den: int, b: int)
    requires
        den >= 1,
        b >= 0,
        -(b * den) <= num <= b * den,
    ensures
        -b <= spec_div_round(num, den) <= b,
{
    if num >= 0 {
        assert((num + den / 2) / den <= b && (num + den / 2) / den >= 0) by (nonlinear_arith)
            requires
                den >= 1,
                b >= 0,
                0 <= num <= b * den,
        ;
    } else {
        assert((-num + den / 2) / den <= b && (-num + den / 2) / den >= 0) by (nonlinear_arith)
            requires
                den >= 1,
                b >= 0,
                0 < -num <= b * den,
        ;
    }
}

/// The graph profile processor: turns the shaped temperature into a duty.
pub struct GraphProcessor {}

impl GraphProcessor {
    pub fn new() -> (p: GraphProcessor) {
        GraphProcessor {  }
    }

    /// Fires once a pre-processor has produced a temperature.
    pub fn is_applicable(&self, data: &SpeedProfileData) -> (r: bool)
        ensures
            r == (data.temp is Some),
    {
        data.temp.is_some()
    }

    /// Evaluates the speed profile at the shaped temperature.
    pub fn process(&self, data: &mut SpeedProfileData)
        requires
            old(data).profile.well_formed(),
            old(data).temp is Some,
        ensures
            final(data).profile == old(data).profile,
            final(data).temp == old(data).temp,
            final(data).safety_latch_triggered == old(data).safety_latch_triggered,
            final(data).processing_started == old(data).processing_started,
            final(data).duty == Some(
                spec_interpolate(old(data).profile.speed_profile@, old(data).temp->0),
            ),
            final(data).duty->0 <= 100,
    {
        let temp = match data.temp {
            Some(t) => t,
            None => {
                proof {
                    assert(false);
                }
                0
            },
        };
        let duty = interpolate_profile(&data.profile.speed_profile, temp);
        data.duty = Some(duty);
    }
}

} // verus!
