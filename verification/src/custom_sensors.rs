//! The custom (synthetic) sensor composer: Mix sensors that combine other
//! sensors' readings, File sensors that carry an externally read
//! milli-degree value, and the repository that owns the synthetic device.

use vstd::prelude::*;

use crate::device::{
    spec_temp_in_status, Device, DeviceInfo, DeviceType, DriverInfo, DriverType, Status, StatusV,
    TempInfo, TempStatus, TempStatusV, UID,
};
use crate::device::valid_poll_rate_ms;
use crate::ema::{spec_div_round, EMA_TEMP_BOUND};
use crate::error::CCError;
use crate::processors::spec_clamp_temp;
use crate::profile::AllDevices;
use crate::setting::{
    CentiTemp, CustomSensor, CustomSensorMixFunctionType, CustomSensorType, CustomSensorV,
    CustomTempSourceDataV,
};
use crate::text;
use crate::text::ParseIntErrorKind;

verus! {

/// A File sensor's content must not exceed this many bytes.
pub const MAX_CUSTOM_SENSOR_FILE_SIZE_BYTES: usize = 15;

/// The starting value of the Min mix: above any plausible temperature.
pub const MIX_MIN_START: CentiTemp = 25400;

/// The starting value of the Delta mix's minimum.
pub const MIX_DELTA_MIN_START: CentiTemp = 10500;

/// One gathered reading with its weight.
#[derive(Debug, Clone, Copy, PartialEq, Eq, Structural)]
pub struct TempData {
    pub temp: CentiTemp,
    pub weight: u64,
}

/// The gathered readings lie in the accepted range, their weights are
/// single-source weights, and there are not absurdly many of them.
pub open spec fn spec_temp_data_bounded(data: Seq<TempData>) -> bool {
    &&& data.len() <= 1000000
    &&& forall|i: int|
        0 <= i < data.len() ==> -EMA_TEMP_BOUND <= (#[trigger] data[i]).temp <= EMA_TEMP_BOUND
    &&& forall|i: int| 0 <= i < data.len() ==> (#[trigger] data[i]).weight <= 255
}

/// The Min mix: the smallest reading, starting from the sentinel.
pub open spec fn spec_mix_min(data: Seq<TempData>) -> CentiTemp
    decreases data.len(),
{
    if data.len() == 0 {
        MIX_MIN_START
    } else {
        let rest = spec_mix_min(data.drop_last());
        if data.last().temp < rest {
            data.last().temp
        } else {
            rest
        }
    }
}

/// The Max mix: the largest reading, starting from zero.
pub open spec fn spec_mix_max(data: Seq<TempData>) -> CentiTemp
    decreases data.len(),
{
    if data.len() == 0 {
        0
    } else {
        let rest = spec_mix_max(data.drop_last());
        if data.last().temp > rest {
            data.last().temp
        } else {
            rest
        }
    }
}

/// The running minimum of the Delta mix, starting from its sentinel.
pub open spec fn spec_delta_min(data: Seq<TempData>) -> CentiTemp
    decreases data.len(),
{
    if data.len() == 0 {
        MIX_DELTA_MIN_START
    } else {
        let rest = spec_delta_min(data.drop_last());
        if data.last().temp < rest {
            data.last().temp
        } else {
            rest
        }
    }
}

/// The Delta mix: the absolute spread between the largest and smallest
/// reading; zero on empty input.
pub open spec fn spec_mix_delta(data: Seq<TempData>) -> CentiTemp
    recommends
        spec_temp_data_bounded(data),
{
    if data.len() == 0 {
        0
    } else {
        let lo = spec_delta_min(data);
        let hi = spec_mix_max(data);
        if hi - lo >= 0 {
            (hi - lo) as i64
        } else {
            (lo - hi) as i64
        }
    }
}

/// The sum of the readings.
pub open spec fn spec_sum_temps(data: Seq<TempData>) -> int
    decreases data.len(),
{
    if data.len() == 0 {
        0
    } else {
        spec_sum_temps(data.drop_last()) + data.last().temp
    }
}

/// The Avg mix: the arithmetic mean, rounded to the nearest centidegree;
/// zero on empty input.
pub open spec fn spec_mix_avg(data: Seq<TempData>) -> CentiTemp
    recommends
        spec_temp_data_bounded(data),
{
    if data.len() == 0 {
        0
    } else {
        spec_div_round(spec_sum_temps(data), data.len() as int) as i64
    }
}

/// The weighted sum of the readings.
pub open spec fn spec_weighted_sum(data: Seq<TempData>) -> int
    decreases data.len(),
{
    if data.len() == 0 {
        0
    } else {
        spec_weighted_sum(data.drop_last()) + data.last().temp * data.last().weight
    }
}

/// The sum of the weights.
pub open spec fn spec_weight_total(data: Seq<TempData>) -> int
    decreases data.len(),
{
    if data.len() == 0 {
        0
    } else {
        spec_weight_total(data.drop_last()) + data.last().weight
    }
}

/// The WeightedAvg mix: the weight-scaled mean, rounded to the nearest
/// centidegree; zero on empty input or all-zero weights.
pub open spec fn spec_mix_weighted_avg(data: Seq<TempData>) -> CentiTemp
    recommends
        spec_temp_data_bounded(data),
{
    if data.len() == 0 || spec_weight_total(data) == 0 {
        0
    } else {
        spec_div_round(spec_weighted_sum(data), spec_weight_total(data)) as i64
    }
}

/// The value of a mix function over gathered readings.
pub open spec fn spec_process_temp_data(
    mix_function: CustomSensorMixFunctionType,
    data: Seq<TempData>,
) -> CentiTemp {
    match mix_function {
        CustomSensorMixFunctionType::Min => spec_mix_min(data),
        CustomSensorMixFunctionType::Max => spec_mix_max(data),
        CustomSensorMixFunctionType::Delta => spec_mix_delta(data),
        CustomSensorMixFunctionType::Avg => spec_mix_avg(data),
        CustomSensorMixFunctionType::WeightedAvg => spec_mix_weighted_avg(data),
    }
}

/// The smallest reading, starting from the sentinel 254 C.
pub fn process_mix_min(temp_data: &Vec<TempData>) -> (r: CentiTemp)
    ensures
        r == spec_mix_min(temp_data@),
{
    let mut acc: CentiTemp = MIX_MIN_START;
    let mut i: usize = 0;
    proof {
        assert(temp_data@.take(0) =~= Seq::<TempData>::empty());
    }
    while i < temp_data.len()
        invariant
            i <= temp_data@.len(),
            acc == spec_mix_min(temp_data@.take(i as int)),
        decreases temp_data@.len() - i,
    {
        proof {
            assert(temp_data@.take(i + 1).drop_last() =~= temp_data@.take(i as int));
            assert(temp_data@.take(i + 1).last() == temp_data@[i as int]);
        }
        if temp_data[i].temp < acc {
            acc = temp_data[i].temp;
        }
        i = i + 1;
    }
    proof {
        assert(temp_data@.take(temp_data@.len() as int) =~= temp_data@);
    }
    acc
}

/// The largest reading, starting from zero.
pub fn process_mix_max(temp_data: &Vec<TempData>) -> (r: CentiTemp)
    ensures
        r == spec_mix_max(temp_data@),
{
    let mut acc: CentiTemp = 0;
    let mut i: usize = 0;
    proof {
        assert(temp_data@.take(0) =~= Seq::<TempData>::empty());
    }
    while i < temp_data.len()
        invariant
            i <= temp_data@.len(),
            acc == spec_mix_max(temp_data@.take(i as int)),
        decreases temp_data@.len() - i,
    {
        proof {
            assert(temp_data@.take(i + 1).drop_last() =~= temp_data@.take(i as int));
            assert(temp_data@.take(i + 1).last() == temp_data@[i as int]);
        }
        if temp_data[i].temp > acc {
            acc = temp_data[i].temp;
        }
        i = i + 1;
    }
    proof {
        assert(temp_data@.take(temp_data@.len() as int) =~= temp_data@);
    }
    acc
}

/// The absolute spread between the largest and smallest reading.
pub fn process_mix_delta(temp_data: &Vec<TempData>) -> (r: CentiTemp)
    requires
        spec_temp_data_bounded(temp_data@),
    ensures
        r == spec_mix_delta(temp_data@),
{
    if temp_data.len() == 0 {
        return 0;
    }
    let mut lo: CentiTemp = MIX_DELTA_MIN_START;
    let mut hi: CentiTemp = 0;
    let mut i: usize = 0;
    proof {
        assert(temp_data@.take(0) =~= Seq::<TempData>::empty());
    }
    while i < temp_data.len()
        invariant
            i <= temp_data@.len(),
            spec_temp_data_bounded(temp_data@),
            lo == spec_delta_min(temp_data@.take(i as int)),
            hi == spec_mix_max(temp_data@.take(i as int)),
            -EMA_TEMP_BOUND <= lo <= MIX_DELTA_MIN_START,
            0 <= hi <= EMA_TEMP_BOUND,
        decreases temp_data@.len() - i,
    {
        proof {
            assert(temp_data@.take(i + 1).drop_last() =~= temp_data@.take(i as int));
            assert(temp_data@.take(i + 1).last() == temp_data@[i as int]);
        }
        if temp_data[i].temp < lo {
            lo = temp_data[i].temp;
        }
        if temp_data[i].temp > hi {
            hi = temp_data[i].temp;
        }
        i = i + 1;
    }
    proof {
        assert(temp_data@.take(temp_data@.len() as int) =~= temp_data@);
    }
    if hi - lo >= 0 {
        hi - lo
    } else {
        lo - hi
    }
}

/// The sum of the readings is bounded by the count times the bound.
proof fn lemma_sum_temps_bounded(data: Seq<TempData>)
    requires
        spec_temp_data_bounded(data),
    ensures
        -((data.len() as int) * EMA_TEMP_BOUND) <= spec_sum_temps(data) <= (data.len() as int)
            * EMA_TEMP_BOUND,
    decreases data.len(),
{
    if data.len() == 0 {
    } else {
        assert(spec_temp_data_bounded(data.drop_last()));
        lemma_sum_temps_bounded(data.drop_last());
        let n = data.len() as int;
        assert((n - 1) * EMA_TEMP_BOUND + EMA_TEMP_BOUND == n * EMA_TEMP_BOUND) by (nonlinear_arith);
        assert(-((n - 1) * EMA_TEMP_BOUND) - EMA_TEMP_BOUND == -(n * EMA_TEMP_BOUND))
            by (nonlinear_arith);
    }
}

/// The arithmetic mean of the readings, rounded to the nearest
/// centidegree; zero on empty input.
pub fn process_mix_avg(temp_data: &Vec<TempData>) -> (r: CentiTemp)
    requires
        spec_temp_data_bounded(temp_data@),
    ensures
        r == spec_mix_avg(temp_data@),
{
    if temp_data.len() == 0 {
        return 0;
    }
    let mut sum: i64 = 0;
    let mut i: usize = 0;
    proof {
        assert(temp_data@.take(0) =~= Seq::<TempData>::empty());
    }
    while i < temp_data.len()
        invariant
            i <= temp_data@.len(),
            spec_temp_data_bounded(temp_data@),
            sum == spec_sum_temps(temp_data@.take(i as int)),
            -((i as int) * EMA_TEMP_BOUND) <= sum <= (i as int) * EMA_TEMP_BOUND,
        decreases temp_data@.len() - i,
    {
        proof {
            assert(temp_data@.take(i + 1).drop_last() =~= temp_data@.take(i as int));
            assert(temp_data@.take(i + 1).last() == temp_data@[i as int]);
            let n = i as int;
            assert(n * EMA_TEMP_BOUND + EMA_TEMP_BOUND == (n + 1) * EMA_TEMP_BOUND)
                by (nonlinear_arith);
            assert(-(n * EMA_TEMP_BOUND) - EMA_TEMP_BOUND == -((n + 1) * EMA_TEMP_BOUND))
                by (nonlinear_arith);
            assert((i as int) * EMA_TEMP_BOUND <= 1000000 * (EMA_TEMP_BOUND as int))
                by (nonlinear_arith)
                requires
                    0 <= i <= 1000000,
            ;
        }
        sum = sum + temp_data[i].temp;
        i = i + 1;
    }
    proof {
        assert(temp_data@.take(temp_data@.len() as int) =~= temp_data@);
        assert((temp_data@.len() as int) * EMA_TEMP_BOUND <= 1000000 * (EMA_TEMP_BOUND as int))
            by (nonlinear_arith)
            requires
                0 <= temp_data@.len() <= 1000000,
        ;
    }
    div_round_i64(sum, temp_data.len() as i64)
}

/// The weight-scaled mean of the readings, rounded to the nearest
/// centidegree; zero on empty input or all-zero weights.
pub fn process_mix_weighted_avg(temp_data: &Vec<TempData>) -> (r: CentiTemp)
    requires
        spec_temp_data_bounded(temp_data@),
    ensures
        r == spec_mix_weighted_avg(temp_data@),
{
    if temp_data.len() == 0 {
        return 0;
    }
    let mut wsum: i64 = 0;
    let mut wtot: i64 = 0;
    let mut i: usize = 0;
    proof {
        assert(temp_data@.take(0) =~= Seq::<TempData>::empty());
    }
    while i < temp_data.len()
        invariant
            i <= temp_data@.len(),
            spec_temp_data_bounded(temp_data@),
            wsum == spec_weighted_sum(temp_data@.take(i as int)),
            wtot == spec_weight_total(temp_data@.take(i as int)),
            -((i as int) * (255 * EMA_TEMP_BOUND as int)) <= wsum <= (i as int) * (255
                * EMA_TEMP_BOUND as int),
            0 <= wtot <= (i as int) * 255,
        decreases temp_data@.len() - i,
    {
        proof {
            assert(temp_data@.take(i + 1).drop_last() =~= temp_data@.take(i as int));
            assert(temp_data@.take(i + 1).last() == temp_data@[i as int]);
            let d = temp_data@[i as int];
            assert(-(255 * EMA_TEMP_BOUND as int) <= d.temp * d.weight <= 255
                * EMA_TEMP_BOUND as int) by (nonlinear_arith)
                requires
                    -EMA_TEMP_BOUND <= d.temp <= EMA_TEMP_BOUND,
                    0 <= d.weight <= 255,
            ;
            let n = i as int;
            let b: int = 255 * EMA_TEMP_BOUND as int;
            assert(n * b + b == (n + 1) * b && -(n * b) - b == -((n + 1) * b)) by (nonlinear_arith);
            assert(n * b <= 1000000 * b) by (nonlinear_arith)
                requires
                    0 <= n <= 1000000,
                    b > 0,
            ;
            assert(n * 255 + 255 == (n + 1) * 255) by (nonlinear_arith);
            assert(n * 255 <= 1000000 * 255) by (nonlinear_arith)
                requires
                    0 <= n <= 1000000,
            ;
        }
        let d = temp_data[i];
        wsum = wsum + d.temp * (d.weight as i64);
        wtot = wtot + (d.weight as i64);
        i = i + 1;
    }
    proof {
        assert(temp_data@.take(temp_data@.len() as int) =~= temp_data@);
        let n = temp_data@.len() as int;
        let b: int = 255 * EMA_TEMP_BOUND as int;
        assert(n * b <= 1000000 * b && n * 255 <= 1000000 * 255) by (nonlinear_arith)
            requires
                0 <= n <= 1000000,
                b > 0,
        ;
    }
    if wtot == 0 {
        return 0;
    }
    div_round_i64(wsum, wtot)
}

/// `num / den` rounded to the nearest integer, halves away from zero.
fn div_round_i64(num: i64, den: i64) -> (r: i64)
    requires
        1 <= den <= 0x1_0000_0000,
        -0x7000_0000_0000_0000 <= num <= 0x7000_0000_0000_0000,
    ensures
        r == spec_div_round(num as int, den as int),
{
    if num >= 0 {
        (num + den / 2) / den
    } else {
        -((-num + den / 2) / den)
    }
}

/// Evaluates a mix function over gathered readings.
pub fn process_temp_data(
    mix_function: CustomSensorMixFunctionType,
    temp_data: &Vec<TempData>,
) -> (r: CentiTemp)
    requires
        spec_temp_data_bounded(temp_data@),
    ensures
        r == spec_process_temp_data(mix_function, temp_data@),
{
    match mix_function {
        CustomSensorMixFunctionType::Min => process_mix_min(temp_data),
        CustomSensorMixFunctionType::Max => process_mix_max(temp_data),
        CustomSensorMixFunctionType::Delta => process_mix_delta(temp_data),
        CustomSensorMixFunctionType::Avg => process_mix_avg(temp_data),
        CustomSensorMixFunctionType::WeightedAvg => process_mix_weighted_avg(temp_data),
    }
}

/// The Min mix never exceeds any input reading (nor its own sentinel).
pub proof fn lemma_mix_min_le_each(data: Seq<TempData>, i: int)
    requires
        0 <= i < data.len(),
    ensures
        spec_mix_min(data) <= data[i].temp,
        spec_mix_min(data) <= MIX_MIN_START,
    decreases data.len(),
{
    if i + 1 < data.len() {
        lemma_mix_min_le_each(data.drop_last(), i);
    } else {
        lemma_mix_min_le_start(data.drop_last());
    }
}

proof fn lemma_mix_min_le_start(data: Seq<TempData>)
    ensures
        spec_mix_min(data) <= MIX_MIN_START,
    decreases data.len(),
{
    if data.len() > 0 {
        lemma_mix_min_le_start(data.drop_last());
    }
}

/// The Max mix is at least every input reading, and never negative.
pub proof fn lemma_mix_max_ge_each(data: Seq<TempData>, i: int)
    requires
        0 <= i < data.len(),
    ensures
        spec_mix_max(data) >= data[i].temp,
        spec_mix_max(data) >= 0,
    decreases data.len(),
{
    if i + 1 < data.len() {
        lemma_mix_max_ge_each(data.drop_last(), i);
    } else {
        lemma_mix_max_ge_zero(data.drop_last());
    }
}

proof fn lemma_mix_max_ge_zero(data: Seq<TempData>)
    ensures
        spec_mix_max(data) >= 0,
    decreases data.len(),
{
    if data.len() > 0 {
        lemma_mix_max_ge_zero(data.drop_last());
    }
}

/// The running Delta minimum stays between the bound and its sentinel.
proof fn lemma_delta_min_bounds(data: Seq<TempData>)
    requires
        spec_temp_data_bounded(data),
    ensures
        -EMA_TEMP_BOUND <= spec_delta_min(data) <= MIX_DELTA_MIN_START,
    decreases data.len(),
{
    if data.len() > 0 {
        assert(spec_temp_data_bounded(data.drop_last()));
        lemma_delta_min_bounds(data.drop_last());
    }
}

/// The Max mix stays between zero and the bound.
proof fn lemma_mix_max_bounds(data: Seq<TempData>)
    requires
        spec_temp_data_bounded(data),
    ensures
        0 <= spec_mix_max(data) <= EMA_TEMP_BOUND,
    decreases data.len(),
{
    if data.len() > 0 {
        assert(spec_temp_data_bounded(data.drop_last()));
        lemma_mix_max_bounds(data.drop_last());
    }
}

/// The Delta mix is never negative.
pub proof fn lemma_mix_delta_nonneg(data: Seq<TempData>)
    requires
        spec_temp_data_bounded(data),
    ensures
        spec_mix_delta(data) >= 0,
{
    if data.len() > 0 {
        lemma_delta_min_bounds(data);
        lemma_mix_max_bounds(data);
    }
}

/// With one uniform positive weight on every reading, the WeightedAvg mix
/// equals the Avg mix: scaling numerator and denominator alike does not
/// change the rounded quotient.
pub proof fn lemma_weighted_avg_uniform(data: Seq<TempData>, w: u64)
    requires
        spec_temp_data_bounded(data),
        1 <= w <= 255,
        forall|i: int| 0 <= i < data.len() ==> (#[trigger] data[i]).weight == w,
    ensures
        spec_mix_weighted_avg(data) == spec_mix_avg(data),
{
    if data.len() == 0 {
    } else {
        lemma_uniform_sums(data, w);
        lemma_sum_temps_bounded(data);
        assert(spec_weight_total(data) == data.len() * w);
        assert(data.len() * w > 0) by (nonlinear_arith)
            requires
                data.len() > 0,
                w >= 1,
        ;
        lemma_div_round_scale(spec_sum_temps(data), data.len() as int, w as int);
    }
}

/// Uniform weights make the weighted sums plain multiples.
proof fn lemma_uniform_sums(data: Seq<TempData>, w: u64)
    requires
        forall|i: int| 0 <= i < data.len() ==> (#[trigger] data[i]).weight == w,
    ensures
        spec_weight_total(data) == data.len() * w,
        spec_weighted_sum(data) == spec_sum_temps(data) * w,
    decreases data.len(),
{
    if data.len() == 0 {
        assert(data.len() * w == 0) by (nonlinear_arith)
            requires
                data.len() == 0,
        ;
        assert(spec_sum_temps(data) * w == 0) by (nonlinear_arith)
            requires
                spec_sum_temps(data) == 0,
        ;
    } else {
        lemma_uniform_sums(data.drop_last(), w);
        let n = data.len() as int;
        let s = spec_sum_temps(data.drop_last());
        assert((n - 1) * w + w == n * w) by (nonlinear_arith);
        assert(s * w + data.last().temp * w == (s + data.last().temp) * w) by (nonlinear_arith);
    }
}

/// Rounding to the nearest is invariant under scaling numerator and
/// denominator by the same positive factor.
proof fn lemma_div_round_scale(a: int, b: int, k: int)
    requires
        b >= 1,
        k >= 1,
    ensures
        spec_div_round(a * k, b * k) == spec_div_round(a, b),
{
    if a >= 0 {
        let q = spec_div_round(a, b);
        lemma_div_round_bracket(a, b);
        assert(a * k >= 0) by (nonlinear_arith)
            requires
                a >= 0,
                k >= 1,
        ;
        assert(b * k >= 1) by (nonlinear_arith)
            requires
                b >= 1,
                k >= 1,
        ;
        assert(2 * (a * k - q * (b * k)) == k * (2 * (a - q * b))) by (nonlinear_arith);
        assert(-(b * k) <= 2 * (a * k - q * (b * k)) < b * k) by (nonlinear_arith)
            requires
                -b <= 2 * (a - q * b) < b,
                k >= 1,
                2 * (a * k - q * (b * k)) == k * (2 * (a - q * b)),
        ;
        lemma_div_round_unique(a * k, b * k, q);
    } else {
        let q = spec_div_round(-a, b);
        lemma_div_round_bracket(-a, b);
        assert((-a) * k >= 0 && b * k >= 1) by (nonlinear_arith)
            requires
                a < 0,
                b >= 1,
                k >= 1,
        ;
        assert(2 * ((-a) * k - q * (b * k)) == k * (2 * ((-a) - q * b))) by (nonlinear_arith);
        assert(-(b * k) <= 2 * ((-a) * k - q * (b * k)) < b * k) by (nonlinear_arith)
            requires
                -b <= 2 * ((-a) - q * b) < b,
                k >= 1,
                2 * ((-a) * k - q * (b * k)) == k * (2 * ((-a) - q * b)),
        ;
        lemma_div_round_unique((-a) * k, b * k, q);
        assert((-a) * k == -(a * k)) by (nonlinear_arith);
        assert(a * k < 0) by (nonlinear_arith)
            requires
                a < 0,
                k >= 1,
        ;
        assert(spec_div_round(a * k, b * k) == -spec_div_round(-(a * k), b * k));
        assert(spec_div_round(a, b) == -spec_div_round(-a, b));
    }
}

/// For non-negative numerators the rounded quotient `q` is bracketed by
/// `-b <= 2(a - qb) < b`.
proof fn lemma_div_round_bracket(a: int, b: int)
    requires
        a >= 0,
        b >= 1,
    ensures
        ({
            let q = spec_div_round(a, b);
            &&& q >= 0
            &&& -b <= 2 * (a - q * b) < b
        }),
{
    let q = (a + b / 2) / b;
    assert(q >= 0 && -b <= 2 * (a - q * b) < b) by (nonlinear_arith)
        requires
            a >= 0,
            b >= 1,
            q == (a + b / 2) / b,
    ;
}

/// The bracket determines the rounded quotient uniquely.
proof fn lemma_div_round_unique(a: int, b: int, q: int)
    requires
        a >= 0,
        b >= 1,
        q >= 0,
        -b <= 2 * (a - q * b) < b,
    ensures
        spec_div_round(a, b) == q,
{
    assert((a + b / 2) / b == q) by (nonlinear_arith)
        requires
            a >= 0,
            b >= 1,
            q >= 0,
            -b <= 2 * (a - q * b) < b,
    ;
}

/// A file-read failure handed in by the caller.
#[derive(Debug)]
pub enum FileReadError {
    /// The configured path does not exist.
    NotFound,
    /// Any other I/O failure, with its message.
    Other(String),
}

/// Classifies a read failure: a missing file is the user's configuration
/// mistake, anything else an internal failure.
pub fn verify_file_exists(err: FileReadError) -> (r: CCError)
    ensures
        err is NotFound ==> r.is_user_error() && r.spec_msg() == "File not found"@,
        (err matches FileReadError::Other(m) ==> r.is_internal_error() && r.spec_msg() == m@),
{
    match err {
        FileReadError::NotFound => CCError::UserError { msg: "File not found".to_owned() },
        FileReadError::Other(msg) => CCError::InternalError { msg },
    }
}

/// Rejects content beyond the accepted size: 15 bytes pass, 16 do not.
pub fn verify_file_size(content: Vec<u8>) -> (r: Result<Vec<u8>, CCError>)
    ensures
        content@.len() <= MAX_CUSTOM_SENSOR_FILE_SIZE_BYTES ==> (r matches Ok(c) && c@
            == content@),
        content@.len() > MAX_CUSTOM_SENSOR_FILE_SIZE_BYTES ==> (r matches Err(e)
            && e.is_user_error() && e.spec_msg() == "File size too large"@),
    {
    if content.len() > MAX_CUSTOM_SENSOR_FILE_SIZE_BYTES {
        Err(CCError::UserError { msg: "File size too large".to_owned() })
    } else {
        Ok(content)
    }
}

/// Parses the trimmed content as an `i32`, with the standard library's
/// error taxonomy surfaced as user errors.
pub fn verify_i32(content: &Vec<u8>) -> (r: Result<i32, CCError>)
    ensures
        ({
            let parsed = text::spec_parse_int(
                text::spec_trim(content@),
                0x7fff_ffff,
                0x8000_0000,
            );
            match r {
                Ok(v) => parsed == Ok::<int, ParseIntErrorKind>(v as int),
                Err(e) => e.is_user_error() && (parsed matches Err(k) && e.spec_msg()
                    == spec_parse_error_msg(k)),
            }
        }),
{
    let trimmed = text::trim_bytes(content.as_slice());
    match text::parse_i32_bytes(trimmed.as_slice()) {
        Ok(v) => Ok(v),
        Err(kind) => Err(CCError::UserError { msg: kind.message().to_owned() }),
    }
}

/// The standard library's message for a parse failure.
pub open spec fn spec_parse_error_msg(k: ParseIntErrorKind) -> Seq<char> {
    match k {
        ParseIntErrorKind::Empty => "cannot parse integer from empty string"@,
        ParseIntErrorKind::InvalidDigit => "invalid digit found in string"@,
        ParseIntErrorKind::PosOverflow => "number too large to fit in target type"@,
        ParseIntErrorKind::NegOverflow => "number too small to fit in target type"@,
    }
}

/// Accepts milli-degrees in 0..=120000 — so exactly up to 120 C — and
/// converts to centidegrees, rounded to the nearest.
pub fn verify_temp_value(temp: i32) -> (r: Result<CentiTemp, CCError>)
    ensures
        0 <= temp <= 120000 ==> (r matches Ok(v) && v == spec_div_round(temp as int, 10)),
        !(0 <= temp <= 120000) ==> (r matches Err(e) && e.is_user_error() && e.spec_msg()
            == "File does not contain a reasonable temperature"@),
{
    if 0 <= temp && temp <= 120000 {
        let v: i64 = ((temp as i64) + 5) / 10;
        Ok(v)
    } else {
        Err(
            CCError::UserError {
                msg: "File does not contain a reasonable temperature".to_owned(),
            },
        )
    }
}


/// The readings a Mix sensor gathers at the current tick: for each source
/// in order, the latest reading of that device's sensor, clamped; sources
/// whose device or sensor is missing are skipped.
pub open spec fn spec_gather_current(
    sources: Seq<CustomTempSourceDataV>,
    all_devices: &AllDevices,
) -> Seq<TempData>
    decreases sources.len(),
{
    if sources.len() == 0 {
        Seq::empty()
    } else {
        let rest = spec_gather_current(sources.drop_last(), all_devices);
        let src = sources.last();
        if !all_devices.spec_has_device(src.temp_source.device_uid) {
            rest
        } else {
            let hist = all_devices.spec_history_of(src.temp_source.device_uid);
            if hist.len() == 0 {
                rest
            } else {
                match spec_temp_in_status(hist.last().temps, src.temp_source.temp_name) {
                    None => rest,
                    Some(t) => rest.push(
                        TempData { temp: spec_clamp_temp(t), weight: src.weight as u64 },
                    ),
                }
            }
        }
    }
}

/// The readings a Mix sensor gathers for the historical snapshot `idx`:
/// sources whose device is missing are skipped, but a missing snapshot or
/// sensor reading is an error.
pub open spec fn spec_gather_indexed(
    sources: Seq<CustomTempSourceDataV>,
    all_devices: &AllDevices,
    idx: int,
) -> Option<Seq<TempData>>
    decreases sources.len(),
{
    if sources.len() == 0 {
        Some(Seq::empty())
    } else {
        match spec_gather_indexed(sources.drop_last(), all_devices, idx) {
            None => None,
            Some(rest) => {
                let src = sources.last();
                if !all_devices.spec_has_device(src.temp_source.device_uid) {
                    Some(rest)
                } else {
                    let hist = all_devices.spec_history_of(src.temp_source.device_uid);
                    if idx < 0 || idx >= hist.len() {
                        None
                    } else {
                        match spec_temp_in_status(hist[idx].temps, src.temp_source.temp_name) {
                            None => None,
                            Some(t) => Some(
                                rest.push(
                                    TempData {
                                        temp: spec_clamp_temp(t),
                                        weight: src.weight as u64,
                                    },
                                ),
                            ),
                        }
                    }
                }
            },
        }
    }
}

/// Gathered readings with the zero default: a sensor with no usable source
/// reads as one zero with weight one.
pub open spec fn spec_gathered_or_default(gathered: Seq<TempData>) -> Seq<TempData> {
    if gathered.len() == 0 {
        seq![TempData { temp: 0, weight: 1 }]
    } else {
        gathered
    }
}

/// The value a Mix sensor shows at the current tick.
pub open spec fn spec_mix_current_value(sensor: CustomSensorV, all_devices: &AllDevices) -> CentiTemp {
    spec_process_temp_data(
        sensor.mix_function,
        spec_gathered_or_default(spec_gather_current(sensor.sources, all_devices)),
    )
}

/// Gathers the current readings of a Mix sensor's sources.
#[verifier::spinoff_prover]
fn gather_current(sensor: &CustomSensor, all_devices: &AllDevices) -> (r: Vec<TempData>)
    requires
        sensor.sources@.len() <= 1000000,
    ensures
        r@ == spec_gather_current(sensor@.sources, all_devices),
        spec_temp_data_bounded(r@),
{
    let mut r: Vec<TempData> = Vec::new();
    let n = sensor.sources.len();
    let mut i: usize = 0;
    proof {
        assert(sensor@.sources.take(0) =~= Seq::<CustomTempSourceDataV>::empty());
    }
    while i < n
        invariant
            i <= n,
            n == sensor.sources@.len(),
            n <= 1000000,
            r@ == spec_gather_current(sensor@.sources.take(i as int), all_devices),
            r@.len() <= i,
            forall|a: int|
                0 <= a < r@.len() ==> -EMA_TEMP_BOUND <= (#[trigger] r@[a]).temp <= EMA_TEMP_BOUND,
            forall|a: int| 0 <= a < r@.len() ==> (#[trigger] r@[a]).weight <= 255,
        decreases n - i,
    {
        proof {
            assert(sensor@.sources.take(i + 1).drop_last() =~= sensor@.sources.take(i as int));
            assert(sensor@.sources.take(i + 1).last() == sensor@.sources[i as int]);
            assert(sensor@.sources[i as int] == sensor.sources@[i as int]@);
        }
        let source = &sensor.sources[i];
        match all_devices.get(&source.temp_source.device_uid) {
            None => {},
            Some(device) => {
                let m = device.status_history.len();
                if m > 0 {
                    let last_status = &device.status_history[m - 1];
                    proof {
                        assert(crate::processors::spec_device_history(device).last()
                            == last_status@);
                    }
                    match crate::device::get_temp_from_status(
                        &source.temp_source.temp_name,
                        last_status,
                    ) {
                        None => {},
                        Some(t) => {
                            let c: CentiTemp = if t < -EMA_TEMP_BOUND {
                                -EMA_TEMP_BOUND
                            } else if t > EMA_TEMP_BOUND {
                                EMA_TEMP_BOUND
                            } else {
                                t
                            };
                            r.push(TempData { temp: c, weight: source.weight as u64 });
                        },
                    }
                }
            },
        }
        i = i + 1;
    }
    proof {
        assert(sensor@.sources.take(n as int) =~= sensor@.sources);
    }
    r
}

/// Gathers a Mix sensor's readings for a historical snapshot.
#[verifier::spinoff_prover]
fn gather_indexed(sensor: &CustomSensor, all_devices: &AllDevices, idx: usize) -> (r: Result<
    Vec<TempData>,
    CCError,
>)
    requires
        sensor.sources@.len() <= 1000000,
    ensures
        match r {
            Ok(v) => spec_gather_indexed(sensor@.sources, all_devices, idx as int) == Some(v@)
                && spec_temp_data_bounded(v@),
            Err(e) => spec_gather_indexed(sensor@.sources, all_devices, idx as int) is None
                && e.is_internal_error(),
        },
{
    let mut r: Vec<TempData> = Vec::new();
    let n = sensor.sources.len();
    let mut i: usize = 0;
    proof {
        assert(sensor@.sources.take(0) =~= Seq::<CustomTempSourceDataV>::empty());
    }
    while i < n
        invariant
            i <= n,
            n == sensor.sources@.len(),
            n <= 1000000,
            spec_gather_indexed(sensor@.sources.take(i as int), all_devices, idx as int) == Some(
                r@,
            ),
            r@.len() <= i,
            forall|a: int|
                0 <= a < r@.len() ==> -EMA_TEMP_BOUND <= (#[trigger] r@[a]).temp <= EMA_TEMP_BOUND,
            forall|a: int| 0 <= a < r@.len() ==> (#[trigger] r@[a]).weight <= 255,
        decreases n - i,
    {
        proof {
            assert(sensor@.sources.take(i + 1).drop_last() =~= sensor@.sources.take(i as int));
            assert(sensor@.sources.take(i + 1).last() == sensor@.sources[i as int]);
            assert(sensor@.sources[i as int] == sensor.sources@[i as int]@);
        }
        let source = &sensor.sources[i];
        match all_devices.get(&source.temp_source.device_uid) {
            None => {},
            Some(device) => {
                let m = device.status_history.len();
                if idx >= m {
                    proof {
                        lemma_gather_indexed_prefix_none(
                            sensor@.sources,
                            all_devices,
                            idx as int,
                            i + 1,
                        );
                    }
                    return Err(
                        CCError::InternalError {
                            msg: "Temp not found for Custom Sensor".to_owned(),
                        },
                    );
                }
                let status = &device.status_history[idx];
                proof {
                    assert(crate::processors::spec_device_history(device)[idx as int] == status@);
                }
                match crate::device::get_temp_from_status(&source.temp_source.temp_name, status) {
                    None => {
                        proof {
                            lemma_gather_indexed_prefix_none(
                                sensor@.sources,
                                all_devices,
                                idx as int,
                                i + 1,
                            );
                        }
                        return Err(
                            CCError::InternalError {
                                msg: "Temp not found for Custom Sensor".to_owned(),
                            },
                        );
                    },
                    Some(t) => {
                        let c: CentiTemp = if t < -EMA_TEMP_BOUND {
                            -EMA_TEMP_BOUND
                        } else if t > EMA_TEMP_BOUND {
                            EMA_TEMP_BOUND
                        } else {
                            t
                        };
                        r.push(TempData { temp: c, weight: source.weight as u64 });
                    },
                }
            },
        }
        i = i + 1;
    }
    proof {
        assert(sensor@.sources.take(n as int) =~= sensor@.sources);
    }
    Ok(r)
}

/// An error at any prefix makes the whole indexed gather an error.
proof fn lemma_gather_indexed_prefix_none(
    sources: Seq<CustomTempSourceDataV>,
    all_devices: &AllDevices,
    idx: int,
    k: int,
)
    requires
        0 <= k <= sources.len(),
        spec_gather_indexed(sources.take(k), all_devices, idx) is None,
    ensures
        spec_gather_indexed(sources, all_devices, idx) is None,
    decreases sources.len() - k,
{
    if k < sources.len() {
        assert(sources.take(k + 1).drop_last() =~= sources.take(k));
        lemma_gather_indexed_prefix_none(sources, all_devices, idx, k + 1);
    } else {
        assert(sources.take(k) =~= sources);
    }
}


/// The temp entries one snapshot gets for the Mix sensors, in sensor
/// order.
pub open spec fn spec_mix_temp_entries(
    sensors: Seq<CustomSensorV>,
    all_devices: &AllDevices,
) -> Seq<TempStatusV>
    decreases sensors.len(),
{
    if sensors.len() == 0 {
        Seq::empty()
    } else {
        let rest = spec_mix_temp_entries(sensors.drop_last(), all_devices);
        let s = sensors.last();
        if s.cs_type == CustomSensorType::Mix {
            rest.push(TempStatusV { name: s.id, temp: spec_mix_current_value(s, all_devices) })
        } else {
            rest
        }
    }
}

/// The first reading named `name` among externally supplied file
/// readings.
pub open spec fn spec_file_reading(file_temps: Seq<TempStatusV>, name: Seq<char>) -> Option<
    CentiTemp,
>
    decreases file_temps.len(),
{
    if file_temps.len() == 0 {
        None
    } else if file_temps[0].name == name {
        Some(file_temps[0].temp)
    } else {
        spec_file_reading(file_temps.drop_first(), name)
    }
}

/// The temp entries one snapshot gets for the File sensors, in sensor
/// order: the supplied reading, or zero where none was supplied (a failed
/// read reports 0 C and does not abort the tick).
pub open spec fn spec_file_temp_entries(
    sensors: Seq<CustomSensorV>,
    file_temps: Seq<TempStatusV>,
) -> Seq<TempStatusV>
    decreases sensors.len(),
{
    if sensors.len() == 0 {
        Seq::empty()
    } else {
        let rest = spec_file_temp_entries(sensors.drop_last(), file_temps);
        let s = sensors.last();
        if s.cs_type == CustomSensorType::File {
            rest.push(
                TempStatusV {
                    name: s.id,
                    temp: match spec_file_reading(file_temps, s.id) {
                        Some(t) => t,
                        None => 0,
                    },
                },
            )
        } else {
            rest
        }
    }
}

/// All temp entries of one synthetic snapshot: the Mix sensors' values,
/// then the File sensors' values.
pub open spec fn spec_update_temps(
    sensors: Seq<CustomSensorV>,
    all_devices: &AllDevices,
    file_temps: Seq<TempStatusV>,
) -> Seq<TempStatusV> {
    spec_mix_temp_entries(sensors, all_devices) + spec_file_temp_entries(sensors, file_temps)
}

/// A history where no snapshot mentions the sensor `id`.
pub open spec fn spec_history_free_of(hist: Seq<StatusV>, id: Seq<char>) -> bool {
    forall|i: int, j: int|
        0 <= i < hist.len() && 0 <= j < hist[i].temps.len() ==> (#[trigger] hist[i].temps[j]).name
            != id
}

/// A history after appending, per snapshot, one entry for sensor `id`
/// with the given values.
pub open spec fn spec_fill_sensor_history(
    hist: Seq<StatusV>,
    id: Seq<char>,
    vals: Seq<CentiTemp>,
) -> Seq<StatusV>
    recommends
        vals.len() == hist.len(),
{
    Seq::new(
        hist.len(),
        |i: int|
            StatusV {
                temps: hist[i].temps.push(TempStatusV { name: id, temp: vals[i] }),
                channels: hist[i].channels,
            },
    )
}

/// A history with every entry for sensor `id` removed from every
/// snapshot.
pub open spec fn spec_remove_sensor_history(hist: Seq<StatusV>, id: Seq<char>) -> Seq<StatusV> {
    hist.map_values(
        |s: StatusV|
            StatusV {
                temps: s.temps.filter(|t: TempStatusV| t.name != id),
                channels: s.channels,
            },
    )
}

/// Filtering keeps a sequence in which every element already satisfies the
/// predicate.
proof fn lemma_filter_all_true<A>(s: Seq<A>, pred: spec_fn(A) -> bool)
    requires
        forall|i: int| 0 <= i < s.len() ==> pred(#[trigger] s[i]),
    ensures
        s.filter(pred) == s,
    decreases s.len(),
{
    reveal(Seq::filter);
    if s.len() > 0 {
        lemma_filter_all_true(s.drop_last(), pred);
        assert(s.filter(pred) =~= s);
    }
}

/// Adding a sensor to the history and deleting it again restores the
/// history exactly, provided the history did not mention the sensor
/// before.
pub proof fn lemma_fill_then_remove_restores(hist: Seq<StatusV>, id: Seq<char>, vals: Seq<CentiTemp>)
    requires
        vals.len() == hist.len(),
        spec_history_free_of(hist, id),
    ensures
        spec_remove_sensor_history(spec_fill_sensor_history(hist, id, vals), id) == hist,
{
    let filled = spec_fill_sensor_history(hist, id, vals);
    let removed = spec_remove_sensor_history(filled, id);
    assert forall|i: int| 0 <= i < hist.len() implies removed[i] == hist[i] by {
        let pred = |t: TempStatusV| t.name != id;
        assert(forall|j: int| 0 <= j < hist[i].temps.len() ==> pred(#[trigger] hist[i].temps[j]));
        lemma_filter_all_true(hist[i].temps, pred);
        Seq::lemma_filter_push(hist[i].temps, TempStatusV { name: id, temp: vals[i] }, pred);
        assert(filled[i].temps == hist[i].temps.push(TempStatusV { name: id, temp: vals[i] }));
        assert(removed[i].temps == hist[i].temps);
    }
    assert(removed =~= hist);
}

/// The repository of user-defined synthetic sensors: owns the one
/// synthetic device and composes its temp readings from the other devices'
/// fresh snapshots and externally read file values.
pub struct CustomSensorsRepo {
    /// The synthetic device; present once initialized.
    pub custom_sensor_device: Option<Device>,
    /// The configured sensors, in display order.
    pub sensors: Vec<CustomSensor>,
    /// The poll rate the device's history ring was sized for.
    pub poll_rate_ms: u64,
}

impl CustomSensorsRepo {
    /// The ghost list of configured sensors.
    pub open spec fn spec_sensors(&self) -> Seq<CustomSensorV> {
        self.sensors@.map_values(|s: CustomSensor| s@)
    }

    /// The ghost history of the synthetic device.
    pub open spec fn spec_history(&self) -> Seq<StatusV>
        recommends
            self.custom_sensor_device is Some,
    {
        self.custom_sensor_device->0.status_history@.map_values(|s: Status| s@)
    }

    pub open spec fn initialized(&self) -> bool {
        &&& self.custom_sensor_device is Some
        &&& self.custom_sensor_device->0.status_history@.len() >= 1
        &&& self.custom_sensor_device->0.status_history_max >= 1
        &&& valid_poll_rate_ms(self.poll_rate_ms)
    }

    pub fn new() -> (r: CustomSensorsRepo)
        ensures
            r.custom_sensor_device is None,
            r.spec_sensors() == Seq::<CustomSensorV>::empty(),
    {
        let r = CustomSensorsRepo {
            custom_sensor_device: None,
            sensors: Vec::new(),
            poll_rate_ms: 1000,
        };
        proof {
            assert(r.spec_sensors() =~= Seq::<CustomSensorV>::empty());
        }
        r
    }

    /// The synthetic device's stable identifier.
    pub fn get_device_uid(&self) -> (u: UID)
        requires
            self.custom_sensor_device is Some,
        ensures
            u@ == self.custom_sensor_device->0.uid@,
    {
        match &self.custom_sensor_device {
            Some(d) => d.uid.clone(),
            None => {
                proof {
                    assert(false);
                }
                String::new()
            },
        }
    }

    /// Finds a sensor by id; a missing id is the caller's mistake.
    #[verifier::spinoff_prover]
    pub fn get_custom_sensor(&self, custom_sensor_id: &String) -> (r: Result<CustomSensor, CCError>)
        ensures
            match r {
                Ok(s) => exists|i: int|
                    0 <= i < self.spec_sensors().len() && self.spec_sensors()[i].id
                        == custom_sensor_id@ && s@ == self.spec_sensors()[i],
                Err(e) => e.is_not_found() && forall|i: int|
                    0 <= i < self.spec_sensors().len() ==> (#[trigger] self.spec_sensors()[i]).id
                        != custom_sensor_id@,
            },
    {
        let n = self.sensors.len();
        let mut i: usize = 0;
        while i < n
            invariant
                i <= n,
                n == self.sensors@.len(),
                forall|j: int| 0 <= j < i ==> (#[trigger] self.spec_sensors()[j]).id
                    != custom_sensor_id@,
            decreases n - i,
        {
            if self.sensors[i].id == *custom_sensor_id {
                proof {
                    assert(self.spec_sensors()[i as int] == self.sensors@[i as int]@);
                }
                return Ok(self.sensors[i].clone());
            }
            proof {
                assert(self.spec_sensors()[i as int] == self.sensors@[i as int]@);
            }
            i = i + 1;
        }
        Err(CCError::NotFound { msg: "Custom Sensor not found".to_owned() })
    }

    /// All configured sensors, in order.
    pub fn get_custom_sensors(&self) -> (r: Vec<CustomSensor>)
        ensures
            r@.map_values(|s: CustomSensor| s@) == self.spec_sensors(),
    {
        let r = self.sensors.clone();
        proof {
            assert(r@.map_values(|s: CustomSensor| s@) =~= self.spec_sensors());
        }
        r
    }

    /// Replaces the sensor list with a reordered one.
    #[verifier::spinoff_prover]
    pub fn set_custom_sensors_order(&mut self, custom_sensors: &Vec<CustomSensor>)
        ensures
            final(self).spec_sensors() == custom_sensors@.map_values(|s: CustomSensor| s@),
            final(self).custom_sensor_device == old(self).custom_sensor_device,
            final(self).poll_rate_ms == old(self).poll_rate_ms,
    {
        let replacement = custom_sensors.clone();
        proof {
            assert(replacement@.map_values(|s: CustomSensor| s@) =~= custom_sensors@.map_values(
                |s: CustomSensor| s@,
            ));
        }
        self.sensors = replacement;
    }
}


/// The value a Mix sensor shows for historical snapshot `idx`, when every
/// source it needs is present there.
pub open spec fn spec_mix_indexed_value(
    sensor: CustomSensorV,
    all_devices: &AllDevices,
    idx: int,
) -> Option<CentiTemp> {
    match spec_gather_indexed(sensor.sources, all_devices, idx) {
        None => None,
        Some(gathered) => Some(
            spec_process_temp_data(sensor.mix_function, spec_gathered_or_default(gathered)),
        ),
    }
}

/// Every sensor's source list is of a workable size.
pub open spec fn spec_sensors_sized(sensors: Seq<CustomSensorV>) -> bool {
    forall|i: int| 0 <= i < sensors.len() ==> (#[trigger] sensors[i]).sources.len() <= 1000000
}

/// The ghost image of a `FileReadError`.
pub enum FileReadErrorV {
    NotFound,
    Other(Seq<char>),
}

impl View for FileReadError {
    type V = FileReadErrorV;

    open spec fn view(&self) -> FileReadErrorV {
        match self {
            FileReadError::NotFound => FileReadErrorV::NotFound,
            FileReadError::Other(m) => FileReadErrorV::Other(m@),
        }
    }
}

/// The ghost outcome of validating a File sensor's content.
pub enum FileTempOutcome {
    Value(CentiTemp),
    UserFailure(Seq<char>),
    InternalFailure(Seq<char>),
}

/// What validating a File sensor's externally read content yields: the
/// path must be configured; the file must exist; the content must be at
/// most 15 bytes, an integer, and within 0..=120000 milli-degrees; the
/// value converts to centidegrees, rounded to the nearest.
pub open spec fn spec_file_temp_outcome(
    sensor: CustomSensorV,
    read: Result<Seq<u8>, FileReadErrorV>,
) -> FileTempOutcome {
    if sensor.file_path is None {
        FileTempOutcome::InternalFailure("File path not present for custom sensor"@)
    } else {
        match read {
            Err(FileReadErrorV::NotFound) => FileTempOutcome::UserFailure("File not found"@),
            Err(FileReadErrorV::Other(m)) => FileTempOutcome::InternalFailure(m),
            Ok(content) => {
                if content.len() > MAX_CUSTOM_SENSOR_FILE_SIZE_BYTES as int {
                    FileTempOutcome::UserFailure("File size too large"@)
                } else {
                    match text::spec_parse_int(
                        text::spec_trim(content),
                        0x7fff_ffff,
                        0x8000_0000,
                    ) {
                        Err(k) => FileTempOutcome::UserFailure(spec_parse_error_msg(k)),
                        Ok(v) => {
                            if 0 <= v <= 120000 {
                                FileTempOutcome::Value(spec_div_round(v, 10) as i64)
                            } else {
                                FileTempOutcome::UserFailure(
                                    "File does not contain a reasonable temperature"@,
                                )
                            }
                        },
                    }
                }
            },
        }
    }
}

/// The ghost image of a read result.
pub open spec fn spec_read_view(read: Result<Vec<u8>, FileReadError>) -> Result<
    Seq<u8>,
    FileReadErrorV,
> {
    match read {
        Ok(c) => Ok(c@),
        Err(e) => Err(e@),
    }
}

/// Validates and converts a File sensor's externally read content, as
/// `spec_file_temp_outcome` says: exactly 15 bytes of content pass the
/// size check, "120000" passes the range check and "120001" does not.
pub fn get_custom_sensor_file_temp(
    sensor: &CustomSensor,
    read: Result<Vec<u8>, FileReadError>,
) -> (r: Result<CentiTemp, CCError>)
    ensures
        ({
            match spec_file_temp_outcome(sensor@, spec_read_view(read)) {
                FileTempOutcome::Value(v) => r matches Ok(rv) && rv == v,
                FileTempOutcome::UserFailure(m) => r matches Err(e) && e.is_user_error()
                    && e.spec_msg() == m,
                FileTempOutcome::InternalFailure(m) => r matches Err(e) && e.is_internal_error()
                    && e.spec_msg() == m,
            }
        }),
{
    if sensor.file_path.is_none() {
        return Err(
            CCError::InternalError {
                msg: "File path not present for custom sensor".to_owned(),
            },
        );
    }
    let content = match read {
        Err(e) => {
            return Err(verify_file_exists(e));
        },
        Ok(c) => c,
    };
    let sized = match verify_file_size(content) {
        Err(e) => {
            return Err(e);
        },
        Ok(c) => c,
    };
    let value = match verify_i32(&sized) {
        Err(e) => {
            return Err(e);
        },
        Ok(v) => v,
    };
    verify_temp_value(value)
}

/// The status entry a File sensor reports for the current tick: the
/// validated reading, or 0 C when the read or validation failed — a bad
/// file never aborts the tick.
pub fn process_custom_sensor_data_file_current(
    sensor: &CustomSensor,
    read: Result<Vec<u8>, FileReadError>,
) -> (r: TempStatus)
    ensures
        r@.name == sensor@.id,
        r@.temp == (match spec_file_temp_outcome(sensor@, spec_read_view(read)) {
            FileTempOutcome::Value(v) => v,
            FileTempOutcome::UserFailure(_) => 0,
            FileTempOutcome::InternalFailure(_) => 0,
        }),
{
    let name = sensor.id.clone();
    match get_custom_sensor_file_temp(sensor, read) {
        Ok(v) => TempStatus { name, temp: v },
        Err(_) => TempStatus { name, temp: 0 },
    }
}

/// Removes every entry named `id` from one snapshot's temps.
fn remove_temps_named(temps: &Vec<TempStatus>, id: &String) -> (r: Vec<TempStatus>)
    ensures
        r@.map_values(|t: TempStatus| t@) == temps@.map_values(|t: TempStatus| t@).filter(
            |t: TempStatusV| t.name != id@,
        ),
{
    let ghost pred = |t: TempStatusV| t.name != id@;
    let ghost tv = temps@.map_values(|t: TempStatus| t@);
    let mut r: Vec<TempStatus> = Vec::new();
    let n = temps.len();
    let mut i: usize = 0;
    proof {
        reveal(Seq::filter);
        assert(tv.take(0) =~= Seq::<TempStatusV>::empty());
        assert(r@.map_values(|t: TempStatus| t@) =~= tv.take(0).filter(pred));
    }
    while i < n
        invariant
            i <= n,
            n == temps@.len(),
            tv == temps@.map_values(|t: TempStatus| t@),
            pred == (|t: TempStatusV| t.name != id@),
            r@.map_values(|t: TempStatus| t@) == tv.take(i as int).filter(pred),
        decreases n - i,
    {
        proof {
            assert(tv.take(i + 1) =~= tv.take(i as int).push(tv[i as int]));
            assert(tv[i as int] == temps@[i as int]@);
            Seq::lemma_filter_push(tv.take(i as int), tv[i as int], pred);
        }
        if !(temps[i].name == *id) {
            let ghost before = r@.map_values(|t: TempStatus| t@);
            r.push(temps[i].clone());
            proof {
                assert(r@.map_values(|t: TempStatus| t@) =~= before.push(tv[i as int]));
            }
        }
        i = i + 1;
    }
    proof {
        assert(tv.take(n as int) =~= tv);
    }
    r
}

impl CustomSensorsRepo {
    /// Rebuilds the synthetic device's temp catalog from the sensor list:
    /// one entry per sensor, labelled with the title-cased id, numbered in
    /// order.
    pub fn update_device_info_temps(&mut self)
        requires
            old(self).custom_sensor_device is Some,
            old(self).sensors@.len() <= 255,
        ensures
            final(self).custom_sensor_device is Some,
            final(self).sensors == old(self).sensors,
            final(self).poll_rate_ms == old(self).poll_rate_ms,
            ({
                let d0 = old(self).custom_sensor_device->0;
                let d1 = final(self).custom_sensor_device->0;
                &&& d1.name == d0.name
                &&& d1.d_type == d0.d_type
                &&& d1.type_index == d0.type_index
                &&& d1.uid == d0.uid
                &&& d1.lc_info == d0.lc_info
                &&& d1.status_history == d0.status_history
                &&& d1.status_history_max == d0.status_history_max
                &&& d1.info.channels == d0.info.channels
                &&& d1.info.lighting_speeds == d0.info.lighting_speeds
                &&& d1.info.temp_min == d0.info.temp_min
                &&& d1.info.temp_max == d0.info.temp_max
                &&& d1.info.profile_max_length == d0.info.profile_max_length
                &&& d1.info.profile_min_length == d0.info.profile_min_length
                &&& d1.info.driver_info == d0.info.driver_info
                &&& d1.info.temps@.len() == old(self).spec_sensors().len()
                &&& forall|i: int|
                    0 <= i < d1.info.temps@.len() ==> (#[trigger] d1.info.temps@[i]).0@ == old(
                        self,
                    ).spec_sensors()[i].id
                &&& forall|i: int|
                    0 <= i < d1.info.temps@.len() ==> (#[trigger] d1.info.temps@[i]).1.label@
                        == crate::case::title_of(old(self).spec_sensors()[i].id)
                &&& forall|i: int|
                    0 <= i < d1.info.temps@.len() ==> (#[trigger] d1.info.temps@[i]).1.number == i
                        + 1
            }),
    {
        let n = self.sensors.len();
        let mut temp_infos: Vec<(String, TempInfo)> = Vec::new();
        let mut i: usize = 0;
        while i < n
            invariant
                i <= n,
                n == self.sensors@.len(),
                n <= 255,
                temp_infos@.len() == i,
                forall|j: int|
                    0 <= j < i ==> (#[trigger] temp_infos@[j]).0@ == self.spec_sensors()[j].id,
                forall|j: int|
                    0 <= j < i ==> (#[trigger] temp_infos@[j]).1.label@ == crate::case::title_of(
                        self.spec_sensors()[j].id,
                    ),
                forall|j: int| 0 <= j < i ==> (#[trigger] temp_infos@[j]).1.number == j + 1,
            decreases n - i,
        {
            let label = crate::case::to_title_case(self.sensors[i].id.as_str());
            let number: u8 = (i as u8) + 1;
            temp_infos.push((self.sensors[i].id.clone(), TempInfo { label, number }));
            proof {
                assert(self.spec_sensors()[i as int] == self.sensors@[i as int]@);
            }
            i = i + 1;
        }
        match &mut self.custom_sensor_device {
            Some(d) => {
                d.info.temps = temp_infos;
            },
            None => {
                proof {
                    assert(false);
                }
            },
        }
    }

    /// The status entry a Mix sensor reports for the current tick.
    pub fn process_custom_sensor_data_mix_current(
        &self,
        sensor: &CustomSensor,
        all_devices: &AllDevices,
    ) -> (r: TempStatus)
        requires
            sensor.sources@.len() <= 1000000,
        ensures
            r@.name == sensor@.id,
            r@.temp == spec_mix_current_value(sensor@, all_devices),
    {
        let gathered = gather_current(sensor, all_devices);
        let temp_data: Vec<TempData> = if gathered.len() == 0 {
            let mut d: Vec<TempData> = Vec::new();
            d.push(TempData { temp: 0, weight: 1 });
            proof {
                assert(d@ =~= seq![TempData { temp: 0, weight: 1 }]);
                assert(spec_temp_data_bounded(d@));
            }
            d
        } else {
            gathered
        };
        let temp = process_temp_data(sensor.mix_function, &temp_data);
        TempStatus { name: sensor.id.clone(), temp }
    }

    /// The status entry a Mix sensor reports for historical snapshot
    /// `index`; an error when a needed reading is missing there.
    pub fn process_custom_sensor_data_mix_indexed(
        &self,
        sensor: &CustomSensor,
        index: usize,
        all_devices: &AllDevices,
    ) -> (r: Result<TempStatus, CCError>)
        requires
            sensor.sources@.len() <= 1000000,
        ensures
            match r {
                Ok(ts) => ts@.name == sensor@.id && Some(ts@.temp) == spec_mix_indexed_value(
                    sensor@,
                    all_devices,
                    index as int,
                ),
                Err(e) => spec_mix_indexed_value(sensor@, all_devices, index as int) is None
                    && e.is_internal_error(),
            },
    {
        let gathered = match gather_indexed(sensor, all_devices, index) {
            Err(e) => {
                return Err(e);
            },
            Ok(g) => g,
        };
        let temp_data: Vec<TempData> = if gathered.len() == 0 {
            let mut d: Vec<TempData> = Vec::new();
            d.push(TempData { temp: 0, weight: 1 });
            proof {
                assert(d@ =~= seq![TempData { temp: 0, weight: 1 }]);
                assert(spec_temp_data_bounded(d@));
            }
            d
        } else {
            gathered
        };
        let temp = process_temp_data(sensor.mix_function, &temp_data);
        Ok(TempStatus { name: sensor.id.clone(), temp })
    }

    /// Composes the synthetic device's snapshot for this tick: the Mix
    /// sensors evaluated over the other devices' fresh snapshots, then the
    /// File sensors' externally read values (0 C where a read failed), and
    /// appends it to the ring.
    pub fn update_statuses(&mut self, all_devices: &AllDevices, file_temps: &Vec<TempStatus>)
        requires
            old(self).custom_sensor_device is Some,
            old(self).custom_sensor_device->0.status_history_max >= 1,
            spec_sensors_sized(old(self).spec_sensors()),
        ensures
            final(self).custom_sensor_device is Some,
            final(self).sensors == old(self).sensors,
            final(self).poll_rate_ms == old(self).poll_rate_ms,
            final(self).custom_sensor_device->0.status_history_max == old(
                self,
            ).custom_sensor_device->0.status_history_max,
            final(self).custom_sensor_device->0.uid == old(self).custom_sensor_device->0.uid,
            final(self).custom_sensor_device->0.name == old(self).custom_sensor_device->0.name,
            final(self).custom_sensor_device->0.d_type == old(self).custom_sensor_device->0.d_type,
            final(self).custom_sensor_device->0.type_index == old(
                self,
            ).custom_sensor_device->0.type_index,
            final(self).custom_sensor_device->0.lc_info == old(
                self,
            ).custom_sensor_device->0.lc_info,
            final(self).custom_sensor_device->0.info == old(self).custom_sensor_device->0.info,
            ({
                let h0 = old(self).spec_history();
                let hmax = old(self).custom_sensor_device->0.status_history_max;
                let entry = StatusV {
                    temps: spec_update_temps(
                        old(self).spec_sensors(),
                        all_devices,
                        file_temps@.map_values(|t: TempStatus| t@),
                    ),
                    channels: Seq::empty(),
                };
                final(self).spec_history() == if h0.len() < hmax {
                    h0.push(entry)
                } else {
                    h0.skip(1).push(entry)
                }
            }),
    {
        let ghost sensors_v = self.spec_sensors();
        let ghost file_v = file_temps@.map_values(|t: TempStatus| t@);
        let mut custom_temps: Vec<TempStatus> = Vec::new();
        let n = self.sensors.len();
        let mut i: usize = 0;
        proof {
            assert(sensors_v.take(0) =~= Seq::<CustomSensorV>::empty());
            assert(custom_temps@.map_values(|t: TempStatus| t@) =~= spec_mix_temp_entries(
                sensors_v.take(0),
                all_devices,
            ));
        }
        while i < n
            invariant
                i <= n,
                n == self.sensors@.len(),
                sensors_v == self.spec_sensors(),
                spec_sensors_sized(sensors_v),
                custom_temps@.map_values(|t: TempStatus| t@) == spec_mix_temp_entries(
                    sensors_v.take(i as int),
                    all_devices,
                ),
            decreases n - i,
        {
            proof {
                assert(sensors_v.take(i + 1).drop_last() =~= sensors_v.take(i as int));
                assert(sensors_v.take(i + 1).last() == sensors_v[i as int]);
                assert(sensors_v[i as int] == self.sensors@[i as int]@);
            }
            let is_mix = match self.sensors[i].cs_type {
                CustomSensorType::Mix => true,
                CustomSensorType::File => false,
            };
            if is_mix {
                let ghost before = custom_temps@.map_values(|t: TempStatus| t@);
                let sensor = self.sensors[i].clone();
                let ts = self.process_custom_sensor_data_mix_current(&sensor, all_devices);
                custom_temps.push(ts);
                proof {
                    assert(custom_temps@.map_values(|t: TempStatus| t@) =~= before.push(
                        TempStatusV {
                            name: sensors_v[i as int].id,
                            temp: spec_mix_current_value(sensors_v[i as int], all_devices),
                        },
                    ));
                }
            }
            i = i + 1;
        }
        proof {
            assert(sensors_v.take(n as int) =~= sensors_v);
        }
        let ghost mix_done = custom_temps@.map_values(|t: TempStatus| t@);
        let mut j: usize = 0;
        proof {
            assert(sensors_v.take(0) =~= Seq::<CustomSensorV>::empty());
            assert(custom_temps@.map_values(|t: TempStatus| t@) =~= mix_done
                + spec_file_temp_entries(sensors_v.take(0), file_v));
        }
        while j < n
            invariant
                j <= n,
                n == self.sensors@.len(),
                sensors_v == self.spec_sensors(),
                file_v == file_temps@.map_values(|t: TempStatus| t@),
                custom_temps@.map_values(|t: TempStatus| t@) == mix_done + spec_file_temp_entries(
                    sensors_v.take(j as int),
                    file_v,
                ),
            decreases n - j,
        {
            proof {
                assert(sensors_v.take(j + 1).drop_last() =~= sensors_v.take(j as int));
                assert(sensors_v.take(j + 1).last() == sensors_v[j as int]);
                assert(sensors_v[j as int] == self.sensors@[j as int]@);
            }
            let is_file = match self.sensors[j].cs_type {
                CustomSensorType::File => true,
                CustomSensorType::Mix => false,
            };
            if is_file {
                let ghost before = custom_temps@.map_values(|t: TempStatus| t@);
                let value = lookup_file_reading(file_temps, &self.sensors[j].id);
                let ts = TempStatus { name: self.sensors[j].id.clone(), temp: value };
                custom_temps.push(ts);
                proof {
                    assert(custom_temps@.map_values(|t: TempStatus| t@) =~= before.push(
                        TempStatusV {
                            name: sensors_v[j as int].id,
                            temp: match spec_file_reading(file_v, sensors_v[j as int].id) {
                                Some(t) => t,
                                None => 0,
                            },
                        },
                    ));
                }
            }
            j = j + 1;
        }
        proof {
            assert(sensors_v.take(n as int) =~= sensors_v);
        }
        let status = Status { temps: custom_temps, channels: Vec::new() };
        proof {
            assert(status@.temps =~= spec_update_temps(sensors_v, all_devices, file_v));
            assert(status@.channels =~= Seq::<crate::device::ChannelStatusV>::empty());
        }
        match &mut self.custom_sensor_device {
            Some(d) => {
                d.set_status(status);
                proof {
                    let h0 = old(self).custom_sensor_device->0.status_history@;
                    if h0.len() < old(self).custom_sensor_device->0.status_history_max {
                        assert(d.status_history@.map_values(|s: Status| s@) =~= h0.map_values(
                            |s: Status| s@,
                        ).push(
                            StatusV {
                                temps: spec_update_temps(sensors_v, all_devices, file_v),
                                channels: Seq::empty(),
                            },
                        ));
                    } else {
                        assert(d.status_history@.map_values(|s: Status| s@) =~= h0.map_values(
                            |s: Status| s@,
                        ).skip(1).push(
                            StatusV {
                                temps: spec_update_temps(sensors_v, all_devices, file_v),
                                channels: Seq::empty(),
                            },
                        ));
                    }
                }
            },
            None => {
                proof {
                    assert(false);
                }
            },
        }
    }
}

/// Looks up the reading supplied for a File sensor; 0 where none was.
fn lookup_file_reading(file_temps: &Vec<TempStatus>, id: &String) -> (r: CentiTemp)
    ensures
        r == (match spec_file_reading(file_temps@.map_values(|t: TempStatus| t@), id@) {
            Some(t) => t,
            None => 0,
        }),
{
    let ghost fv = file_temps@.map_values(|t: TempStatus| t@);
    let n = file_temps.len();
    let mut i: usize = 0;
    proof {
        assert(fv.skip(0) =~= fv);
    }
    while i < n
        invariant
            i <= n,
            n == file_temps@.len(),
            fv == file_temps@.map_values(|t: TempStatus| t@),
            spec_file_reading(fv, id@) == spec_file_reading(fv.skip(i as int), id@),
        decreases n - i,
    {
        proof {
            assert(fv.skip(i as int)[0] == fv[i as int]);
            assert(fv[i as int] == file_temps@[i as int]@);
            assert(fv.skip(i as int).drop_first() =~= fv.skip(i + 1));
        }
        if file_temps[i].name == *id {
            return file_temps[i].temp;
        }
        i = i + 1;
    }
    0
}


impl CustomSensorsRepo {
    /// Creates the one synthetic device — named "Custom Sensors", the only
    /// device of its family — installs the configured sensors, composes
    /// the first snapshot and sizes the history ring for the poll rate.
    #[verifier::spinoff_prover]
    pub fn initialize_devices(
        &mut self,
        custom_sensors: Vec<CustomSensor>,
        all_devices: &AllDevices,
        file_temps: &Vec<TempStatus>,
        poll_rate_ms: u64,
    ) -> (r: Result<(), CCError>)
        requires
            custom_sensors@.len() <= 255,
            spec_sensors_sized(custom_sensors@.map_values(|s: CustomSensor| s@)),
            valid_poll_rate_ms(poll_rate_ms),
        ensures
            r is Ok,
            final(self).initialized(),
            final(self).spec_sensors() == custom_sensors@.map_values(|s: CustomSensor| s@),
            final(self).poll_rate_ms == poll_rate_ms,
            ({
                let d = final(self).custom_sensor_device->0;
                &&& d.name@ == "Custom Sensors"@
                &&& d.uid@ == "Custom Sensors"@
                &&& d.d_type == DeviceType::CustomSensors
                &&& d.type_index == 1
                &&& d.status_history_max == crate::device::spec_history_capacity(poll_rate_ms)
            }),
            final(self).spec_history() =~= seq![
                StatusV {
                    temps: spec_update_temps(
                        custom_sensors@.map_values(|s: CustomSensor| s@),
                        all_devices,
                        file_temps@.map_values(|t: TempStatus| t@),
                    ),
                    channels: Seq::empty(),
                },
            ],
    {
        let info = DeviceInfo {
            channels: Vec::new(),
            temps: Vec::new(),
            lighting_speeds: Vec::new(),
            temp_min: 0,
            temp_max: 100,
            profile_max_length: 21,
            profile_min_length: 2,
            driver_info: DriverInfo {
                drv_type: DriverType::CoolerControl,
                name: Some("CustomSensors".to_owned()),
                version: None,
                locations: Vec::new(),
            },
        };
        let device = Device::new(
            "Custom Sensors".to_owned(),
            DeviceType::CustomSensors,
            1,
            None,
            info,
            None,
        );
        self.custom_sensor_device = Some(device);
        self.sensors = custom_sensors;
        self.poll_rate_ms = poll_rate_ms;
        self.update_device_info_temps();
        self.update_statuses(all_devices, file_temps);
        let ghost entry = StatusV {
            temps: spec_update_temps(
                custom_sensors@.map_values(|s: CustomSensor| s@),
                all_devices,
                file_temps@.map_values(|t: TempStatus| t@),
            ),
            channels: Seq::empty(),
        };
        let ghost mid = self.spec_history();
        proof {
            assert(mid =~= seq![entry]);
            assert(self.custom_sensor_device->0.status_history@.len() == mid.len());
        }
        let recent = match &self.custom_sensor_device {
            Some(d) => match d.status_current() {
                Some(s) => s,
                None => {
                    proof {
                        assert(false);
                    }
                    Status::empty()
                },
            },
            None => {
                proof {
                    assert(false);
                }
                Status::empty()
            },
        };
        proof {
            assert(recent@ == mid.last());
            assert(recent@ == entry);
        }
        match &mut self.custom_sensor_device {
            Some(d) => {
                d.initialize_status_history_with(recent, poll_rate_ms);
                proof {
                    assert(d.status_history@ =~= seq![recent]);
                }
            },
            None => {
                proof {
                    assert(false);
                }
            },
        }
        proof {
            assert(self.spec_history() =~= seq![recent@]);
            assert(self.spec_history() =~= seq![entry]);
        }
        Ok(())
    }

    /// Adds a sensor: back-fills its column through the whole status
    /// history — Mix sensors recomputed per snapshot, File sensors
    /// zero-padded except for the current reading — then installs the
    /// sensor and refreshes the temp catalog. On failure nothing changes.
    #[verifier::spinoff_prover]
    pub fn set_custom_sensor(
        &mut self,
        custom_sensor: CustomSensor,
        file_temp: Option<CentiTemp>,
        all_devices: &AllDevices,
    ) -> (r: Result<(), CCError>)
        requires
            old(self).initialized(),
            old(self).sensors@.len() < 255,
            custom_sensor.sources@.len() <= 1000000,
            custom_sensor@.cs_type == CustomSensorType::File ==> file_temp is Some,
        ensures
            final(self).initialized(),
            final(self).poll_rate_ms == old(self).poll_rate_ms,
            r is Err ==> final(self).spec_sensors() == old(self).spec_sensors() && final(self).spec_history() == old(self).spec_history(),
            r is Err ==> r->Err_0.is_internal_error(),
            r is Err ==> custom_sensor@.cs_type == CustomSensorType::Mix && exists|i: int|
                0 <= i < old(self).spec_history().len() && spec_mix_indexed_value(
                    custom_sensor@,
                    all_devices,
                    i,
                ) is None,
            r is Ok ==> ({
                let vals = Seq::new(
                    old(self).spec_history().len(),
                    |i: int|
                        if custom_sensor@.cs_type == CustomSensorType::Mix {
                            spec_mix_indexed_value(custom_sensor@, all_devices, i)->0
                        } else if i == old(self).spec_history().len() - 1 {
                            file_temp->0
                        } else {
                            0
                        },
                );
                &&& final(self).spec_history() == spec_fill_sensor_history(
                    old(self).spec_history(),
                    custom_sensor@.id,
                    vals,
                )
                &&& final(self).spec_sensors() == old(self).spec_sensors().push(custom_sensor@)
            }),
    {
        let ghost h0 = self.spec_history();
        let hist_len = match &self.custom_sensor_device {
            Some(d) => d.status_history.len(),
            None => {
                proof {
                    assert(false);
                }
                0
            },
        };
        let is_mix = match custom_sensor.cs_type {
            CustomSensorType::Mix => true,
            CustomSensorType::File => false,
        };
        let mut vals: Vec<CentiTemp> = Vec::new();
        let mut i: usize = 0;
        while i < hist_len
            invariant
                i <= hist_len,
                self == old(self),
                old(self).initialized(),
                custom_sensor.sources@.len() <= 1000000,
                hist_len == old(self).spec_history().len(),
                is_mix == (custom_sensor@.cs_type == CustomSensorType::Mix),
                !is_mix ==> file_temp is Some,
                vals@.len() == i,
                forall|j: int|
                    0 <= j < i ==> #[trigger] vals@[j] == (if custom_sensor@.cs_type
                        == CustomSensorType::Mix {
                        spec_mix_indexed_value(custom_sensor@, all_devices, j)->0
                    } else if j == old(self).spec_history().len() - 1 {
                        file_temp->0
                    } else {
                        0
                    }),
                forall|j: int|
                    0 <= j < i && custom_sensor@.cs_type == CustomSensorType::Mix
                        ==> spec_mix_indexed_value(custom_sensor@, all_devices, j) is Some,
            decreases hist_len - i,
        {
            if is_mix {
                match self.process_custom_sensor_data_mix_indexed(&custom_sensor, i, all_devices) {
                    Ok(ts) => {
                        vals.push(ts.temp);
                    },
                    Err(e) => {
                        return Err(e);
                    },
                }
            } else {
                if i + 1 == hist_len {
                    let v = match file_temp {
                        Some(v) => v,
                        None => {
                            proof {
                                assert(false);
                            }
                            0
                        },
                    };
                    vals.push(v);
                } else {
                    vals.push(0);
                }
            }
            i = i + 1;
        }
        let mut new_history: Vec<Status> = Vec::new();
        let mut k: usize = 0;
        match &self.custom_sensor_device {
            Some(d) => {
                while k < hist_len
                    invariant
                        k <= hist_len,
                        d == &old(self).custom_sensor_device->0,
                        hist_len == d.status_history@.len(),
                        vals@.len() == hist_len,
                        new_history@.len() == k,
                        forall|j: int|
                            0 <= j < k ==> (#[trigger] new_history@[j]@).temps == d.status_history@[j]@.temps.push(
                                TempStatusV { name: custom_sensor.id@, temp: vals@[j] },
                            ) && new_history@[j]@.channels == d.status_history@[j]@.channels,
                    decreases hist_len - k,
                {
                    let src_status = &d.status_history[k];
                    let mut temps = src_status.temps.clone();
                    let ghost temps0 = temps@.map_values(|t: TempStatus| t@);
                    proof {
                        assert(temps0 =~= src_status@.temps);
                    }
                    temps.push(TempStatus { name: custom_sensor.id.clone(), temp: vals[k] });
                    let channels = src_status.channels.clone();
                    let st = Status { temps, channels };
                    proof {
                        assert(st@.temps =~= src_status@.temps.push(
                            TempStatusV { name: custom_sensor.id@, temp: vals@[k as int] },
                        ));
                        assert(st@.channels =~= src_status@.channels);
                    }
                    new_history.push(st);
                    k = k + 1;
                }
            },
            None => {
                proof {
                    assert(false);
                }
            },
        }
        match &mut self.custom_sensor_device {
            Some(d) => {
                d.status_history = new_history;
            },
            None => {
                proof {
                    assert(false);
                }
            },
        }
        self.sensors.push(custom_sensor);
        self.update_device_info_temps();
        proof {
            let vals_spec = Seq::new(
                h0.len(),
                |i: int|
                    if old(self).sensors@.len() < self.sensors@.len() && self.sensors@.last()@.cs_type
                        == CustomSensorType::Mix {
                        spec_mix_indexed_value(self.sensors@.last()@, all_devices, i)->0
                    } else if i == h0.len() - 1 {
                        file_temp->0
                    } else {
                        0
                    },
            );
            assert(vals@ =~= Seq::new(
                h0.len(),
                |i: int|
                    if self.sensors@.last()@.cs_type == CustomSensorType::Mix {
                        spec_mix_indexed_value(self.sensors@.last()@, all_devices, i)->0
                    } else if i == h0.len() - 1 {
                        file_temp->0
                    } else {
                        0
                    },
            ));
            assert(self.spec_history() =~= spec_fill_sensor_history(
                h0,
                self.sensors@.last()@.id,
                vals@,
            ));
            assert(self.spec_sensors() =~= old(self).spec_sensors().push(
                self.sensors@.last()@,
            ));
        }
        Ok(())
    }

    /// Replaces the sensor with the same id; a missing id is the caller's
    /// mistake.
    pub fn update_custom_sensor(&mut self, custom_sensor: CustomSensor) -> (r: Result<(), CCError>)
        ensures
            final(self).custom_sensor_device == old(self).custom_sensor_device,
            final(self).poll_rate_ms == old(self).poll_rate_ms,
            match r {
                Ok(_) => exists|i: int|
                    0 <= i < old(self).spec_sensors().len() && old(self).spec_sensors()[i].id
                        == custom_sensor@.id && final(self).spec_sensors() == old(
                        self,
                    ).spec_sensors().update(i, custom_sensor@),
                Err(e) => e.is_not_found() && final(self).spec_sensors() == old(
                    self,
                ).spec_sensors() && forall|i: int|
                    0 <= i < old(self).spec_sensors().len() ==> (#[trigger] old(
                        self,
                    ).spec_sensors()[i]).id != custom_sensor@.id,
            },
    {
        let n = self.sensors.len();
        let mut i: usize = 0;
        while i < n
            invariant
                i <= n,
                n == self.sensors@.len(),
                self == old(self),
                forall|j: int| 0 <= j < i ==> (#[trigger] old(self).spec_sensors()[j]).id
                    != custom_sensor@.id,
            decreases n - i,
        {
            proof {
                assert(old(self).spec_sensors()[i as int] == self.sensors@[i as int]@);
            }
            if self.sensors[i].id == custom_sensor.id {
                self.sensors.set(i, custom_sensor);
                proof {
                    assert(self.spec_sensors() =~= old(self).spec_sensors().update(
                        i as int,
                        self.sensors@[i as int]@,
                    ));
                }
                return Ok(());
            }
            i = i + 1;
        }
        Err(CCError::NotFound { msg: "Custom Sensor not found".to_owned() })
    }

    /// Purges every entry of the named sensor from the whole status
    /// history.
    pub fn remove_status_history_for_sensor(&mut self, sensor_id: &String)
        requires
            old(self).custom_sensor_device is Some,
        ensures
            final(self).custom_sensor_device is Some,
            final(self).sensors == old(self).sensors,
            final(self).poll_rate_ms == old(self).poll_rate_ms,
            final(self).custom_sensor_device->0.uid == old(self).custom_sensor_device->0.uid,
            final(self).custom_sensor_device->0.info == old(self).custom_sensor_device->0.info,
            final(self).custom_sensor_device->0.status_history_max == old(
                self,
            ).custom_sensor_device->0.status_history_max,
            final(self).spec_history() == spec_remove_sensor_history(
                old(self).spec_history(),
                sensor_id@,
            ),
    {
        let hist_len = match &self.custom_sensor_device {
            Some(d) => d.status_history.len(),
            None => {
                proof {
                    assert(false);
                }
                0
            },
        };
        let mut new_history: Vec<Status> = Vec::new();
        let mut k: usize = 0;
        match &self.custom_sensor_device {
            Some(d) => {
                while k < hist_len
                    invariant
                        k <= hist_len,
                        d == &old(self).custom_sensor_device->0,
                        hist_len == d.status_history@.len(),
                        new_history@.len() == k,
                        forall|j: int|
                            0 <= j < k ==> (#[trigger] new_history@[j]@).temps == d.status_history@[j]@.temps.filter(
                                |t: TempStatusV| t.name != sensor_id@,
                            ) && new_history@[j]@.channels == d.status_history@[j]@.channels,
                    decreases hist_len - k,
                {
                    let src_status = &d.status_history[k];
                    let temps = remove_temps_named(&src_status.temps, sensor_id);
                    let channels = src_status.channels.clone();
                    let st = Status { temps, channels };
                    proof {
                        assert(st@.temps =~= src_status@.temps.filter(
                            |t: TempStatusV| t.name != sensor_id@,
                        ));
                        assert(st@.channels =~= src_status@.channels);
                    }
                    new_history.push(st);
                    k = k + 1;
                }
            },
            None => {
                proof {
                    assert(false);
                }
            },
        }
        match &mut self.custom_sensor_device {
            Some(d) => {
                d.status_history = new_history;
            },
            None => {
                proof {
                    assert(false);
                }
            },
        }
        proof {
            assert(self.spec_history() =~= spec_remove_sensor_history(
                old(self).spec_history(),
                sensor_id@,
            ));
        }
    }

    /// Deletes a sensor: purges its column from the whole status history,
    /// removes it from the list and refreshes the temp catalog. A missing
    /// id is the caller's mistake and changes nothing.
    #[verifier::spinoff_prover]
    pub fn delete_custom_sensor(&mut self, custom_sensor_id: &String) -> (r: Result<(), CCError>)
        requires
            old(self).initialized(),
            old(self).sensors@.len() <= 255,
        ensures
            final(self).initialized(),
            final(self).poll_rate_ms == old(self).poll_rate_ms,
            match r {
                Ok(_) => ({
                    &&& final(self).spec_history() == spec_remove_sensor_history(
                        old(self).spec_history(),
                        custom_sensor_id@,
                    )
                    &&& final(self).spec_sensors() == old(self).spec_sensors().filter(
                        |s: CustomSensorV| s.id != custom_sensor_id@,
                    )
                    &&& exists|i: int|
                        0 <= i < old(self).spec_sensors().len() && (#[trigger] old(
                            self,
                        ).spec_sensors()[i]).id == custom_sensor_id@
                }),
                Err(e) => ({
                    &&& e.is_not_found()
                    &&& final(self).spec_sensors() == old(self).spec_sensors()
                    &&& final(self).spec_history() == old(self).spec_history()
                    &&& forall|i: int|
                        0 <= i < old(self).spec_sensors().len() ==> (#[trigger] old(
                            self,
                        ).spec_sensors()[i]).id != custom_sensor_id@
                }),
            },
    {
        let mut found = false;
        let n = self.sensors.len();
        let mut i: usize = 0;
        while i < n
            invariant
                i <= n,
                n == self.sensors@.len(),
                self == old(self),
                found == exists|j: int|
                    0 <= j < i && (#[trigger] old(self).spec_sensors()[j]).id == custom_sensor_id@,
            decreases n - i,
        {
            proof {
                assert(old(self).spec_sensors()[i as int] == self.sensors@[i as int]@);
            }
            if self.sensors[i].id == *custom_sensor_id {
                found = true;
            }
            i = i + 1;
        }
        if !found {
            return Err(CCError::NotFound { msg: "Custom Sensor not found".to_owned() });
        }
        let ghost h0 = self.spec_history();
        self.remove_status_history_for_sensor(custom_sensor_id);
        let mut kept: Vec<CustomSensor> = Vec::new();
        let ghost pred = |s: CustomSensorV| s.id != custom_sensor_id@;
        let ghost sv = old(self).spec_sensors();
        let m = self.sensors.len();
        let mut j: usize = 0;
        proof {
            reveal(Seq::filter);
            assert(sv.take(0) =~= Seq::<CustomSensorV>::empty());
            assert(kept@.map_values(|s: CustomSensor| s@) =~= sv.take(0).filter(pred));
        }
        while j < m
            invariant
                j <= m,
                m == self.sensors@.len(),
                self.sensors == old(self).sensors,
                sv == old(self).spec_sensors(),
                pred == (|s: CustomSensorV| s.id != custom_sensor_id@),
                kept@.map_values(|s: CustomSensor| s@) == sv.take(j as int).filter(pred),
            decreases m - j,
        {
            proof {
                assert(sv.take(j + 1) =~= sv.take(j as int).push(sv[j as int]));
                assert(sv[j as int] == self.sensors@[j as int]@);
                Seq::lemma_filter_push(sv.take(j as int), sv[j as int], pred);
            }
            if !(self.sensors[j].id == *custom_sensor_id) {
                let ghost before = kept@.map_values(|s: CustomSensor| s@);
                kept.push(self.sensors[j].clone());
                proof {
                    assert(kept@.map_values(|s: CustomSensor| s@) =~= before.push(sv[j as int]));
                }
            }
            j = j + 1;
        }
        proof {
            assert(sv.take(m as int) =~= sv);
        }
        self.sensors = kept;
        self.update_device_info_temps();
        proof {
            assert(self.spec_history() =~= spec_remove_sensor_history(h0, custom_sensor_id@));
        }
        Ok(())
    }
}

} // verus!
