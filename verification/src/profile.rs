//! Normalized graph profiles, the per-tick value that flows through the
//! processor chain, and the read-only registry of devices the chain
//! samples temperatures from.

use vstd::prelude::*;

use crate::device::{Device, Status, StatusV, UID};
use crate::device::valid_poll_rate_ms;
use crate::ema::EMA_TEMP_BOUND;
use crate::error::CCError;
use crate::setting::{CentiTemp, Function, ProfileUID, TempSource};
use crate::setting::validate_function;

verus! {

/// A graph profile after normalization: a strictly increasing
/// temperature-to-duty curve, its temp source and its shaping function.
#[derive(Debug, Clone)]
pub struct NormalizedGraphProfile {
    pub profile_uid: ProfileUID,
    pub profile_name: String,
    /// Breakpoints (temperature in centidegrees, duty percent), strictly
    /// increasing in temperature.
    pub speed_profile: Vec<(CentiTemp, u8)>,
    pub temp_source: TempSource,
    pub function: Function,
    pub poll_rate_ms: u64,
}

/// The curve has at least one breakpoint, is sorted and strictly increasing
/// in temperature, every temperature lies in the accepted range, and every
/// duty lies in 0..=100.
pub open spec fn speed_profile_well_formed(curve: Seq<(CentiTemp, u8)>) -> bool {
    &&& curve.len() >= 1
    &&& forall|i: int, j: int| 0 <= i < j < curve.len() ==> curve[i].0 < curve[j].0
    &&& forall|i: int| 0 <= i < curve.len() ==> #[trigger] curve[i].1 <= 100
    &&& forall|i: int|
        0 <= i < curve.len() ==> -EMA_TEMP_BOUND <= (#[trigger] curve[i]).0 <= EMA_TEMP_BOUND
}

/// The shaping parameters lie in the ranges the processors accept: a
/// non-negative hysteresis band within the temperature domain, and a
/// positive smoothing window.
pub open spec fn function_params_valid(f: &Function) -> bool {
    &&& (f.deviance matches Some(d) ==> 0 <= d <= EMA_TEMP_BOUND)
    &&& (f.sample_window matches Some(w) ==> w >= 1)
}

impl NormalizedGraphProfile {
    /// What normalization guarantees: a well-formed curve, legal duty
    /// clamps, shaping parameters in range, and a poll rate the engine
    /// accepts.
    pub open spec fn well_formed(&self) -> bool {
        &&& speed_profile_well_formed(self.speed_profile@)
        &&& self.function.duty_bounds_valid()
        &&& function_params_valid(&self.function)
        &&& valid_poll_rate_ms(self.poll_rate_ms)
    }

    /// Builds a normalized profile, rejecting a curve that is not strictly
    /// increasing in temperature, a duty above 100, an out-of-range duty
    /// clamp, or an unusable poll rate.
    pub fn normalize(
        profile_uid: ProfileUID,
        profile_name: String,
        speed_profile: Vec<(CentiTemp, u8)>,
        temp_source: TempSource,
        function: Function,
        poll_rate_ms: u64,
    ) -> (r: Result<NormalizedGraphProfile, CCError>)
        ensures
            r is Ok <==> speed_profile_well_formed(speed_profile@)
                && function.duty_bounds_valid() && function_params_valid(&function)
                && valid_poll_rate_ms(poll_rate_ms),
            r is Ok ==> {
                let p = r->Ok_0;
                &&& p.well_formed()
                &&& p.profile_uid == profile_uid
                &&& p.profile_name == profile_name
                &&& p.speed_profile == speed_profile
                &&& p.temp_source == temp_source
                &&& p.function == function
                &&& p.poll_rate_ms == poll_rate_ms
            },
            r is Err ==> r->Err_0.is_user_error(),
    {
        if let Err(e) = validate_function(&function) {
            return Err(e);
        }
        if let Some(d) = function.deviance {
            if d < 0 || d > EMA_TEMP_BOUND {
                return Err(CCError::UserError { msg: "deviance out of range".to_owned() });
            }
        }
        if let Some(w) = function.sample_window {
            if w < 1 {
                return Err(CCError::UserError { msg: "sample window must be positive".to_owned() });
            }
        }
        if !(1 <= poll_rate_ms && poll_rate_ms <= 60000) {
            return Err(CCError::UserError { msg: "poll rate out of range".to_owned() });
        }
        let n = speed_profile.len();
        if n == 0 {
            return Err(CCError::UserError { msg: "speed profile must not be empty".to_owned() });
        }
        let mut i: usize = 0;
        while i < n
            invariant
                i <= n,
                n == speed_profile.len(),
                forall|a: int, b: int| 0 <= a < b < i ==> speed_profile@[a].0 < speed_profile@[b].0,
                forall|a: int| 0 <= a < i ==> #[trigger] speed_profile@[a].1 <= 100,
                forall|a: int|
                    0 <= a < i ==> -EMA_TEMP_BOUND <= (#[trigger] speed_profile@[a]).0
                        <= EMA_TEMP_BOUND,
                forall|a: int| 0 <= a && a + 1 < i ==> (#[trigger] speed_profile@[a]).0
                    < speed_profile@[a + 1].0,
            decreases n - i,
        {
            if speed_profile[i].1 > 100 {
                return Err(CCError::UserError { msg: "profile duty above 100".to_owned() });
            }
            if speed_profile[i].0 < -EMA_TEMP_BOUND || speed_profile[i].0 > EMA_TEMP_BOUND {
                return Err(
                    CCError::UserError { msg: "profile temperature out of range".to_owned() },
                );
            }
            if i > 0 && speed_profile[i - 1].0 >= speed_profile[i].0 {
                return Err(
                    CCError::UserError {
                        msg: "speed profile must be strictly increasing in temperature".to_owned(),
                    },
                );
            }
            i = i + 1;
            proof {
                // adjacent order extends to the full order
                assert forall|a: int, b: int| 0 <= a < b < i implies speed_profile@[a].0
                    < speed_profile@[b].0 by {
                    lemma_adjacent_implies_sorted(speed_profile@.map_values(|p: (CentiTemp, u8)| p.0), a, b, i as int);
                }
            }
        }
        Ok(
            NormalizedGraphProfile {
                profile_uid,
                profile_name,
                speed_profile,
                temp_source,
                function,
                poll_rate_ms,
            },
        )
    }
}

proof fn lemma_adjacent_implies_sorted(xs: Seq<CentiTemp>, a: int, b: int, n: int)
    requires
        0 <= a < b < n <= xs.len(),
        forall|k: int| 0 <= k && k + 1 < n ==> #[trigger] xs[k] < xs[k + 1],
    ensures
        xs[a] < xs[b],
    decreases b - a,
{
    if a + 1 < b {
        lemma_adjacent_implies_sorted(xs, a + 1, b, n);
    }
}

/// The value that flows through the processor chain during one tick.
#[derive(Debug, Clone)]
pub struct SpeedProfileData {
    pub profile: NormalizedGraphProfile,
    /// The shaped temperature, set by exactly one pre-processor.
    pub temp: Option<CentiTemp>,
    /// The output duty, set by the graph evaluator, gated by the threshold
    /// post-processor.
    pub duty: Option<u8>,
    /// Set at the start of the chain when the watchdog demands a duty.
    pub safety_latch_triggered: bool,
    /// Whether the safety latch already saw this tick's data.
    pub processing_started: bool,
}

impl SpeedProfileData {
    /// A fresh chain input for one tick of a profile.
    pub fn new_tick(profile: NormalizedGraphProfile) -> (d: SpeedProfileData)
        ensures
            d.profile == profile,
            d.temp is None,
            d.duty is None,
            !d.safety_latch_triggered,
            !d.processing_started,
    {
        SpeedProfileData {
            profile,
            temp: None,
            duty: None,
            safety_latch_triggered: false,
            processing_started: false,
        }
    }
}

/// All discovered devices, keyed by their stable UID. The processor chain
/// reads temperatures out of it and never writes to it.
pub struct AllDevices {
    pub devices: Vec<Device>,
}

impl AllDevices {
    pub open spec fn spec_has_device(&self, uid: Seq<char>) -> bool {
        exists|i: int| 0 <= i < self.devices@.len() && self.devices@[i].uid@ == uid
    }

    /// The status history of the first device with this uid, newest last.
    pub open spec fn spec_history_of(&self, uid: Seq<char>) -> Seq<StatusV>
        recommends
            self.spec_has_device(uid),
    {
        let i = choose|i: int|
            0 <= i < self.devices@.len() && self.devices@[i].uid@ == uid
                && forall|j: int| 0 <= j < i ==> self.devices@[j].uid@ != uid;
        self.devices@[i].status_history@.map_values(|s: Status| s@)
    }

    pub fn new_empty() -> (r: AllDevices)
        ensures
            r.devices@.len() == 0,
    {
        AllDevices { devices: Vec::new() }
    }

    /// Finds the first device with this uid.
    pub fn get(&self, uid: &UID) -> (r: Option<&Device>)
        ensures
            r is Some <==> self.spec_has_device(uid@),
            r is Some ==> {
                let d = r->0;
                &&& d.uid@ == uid@
                &&& d.status_history@.map_values(|s: Status| s@) == self.spec_history_of(uid@)
            },
    {
        let n = self.devices.len();
        let mut i: usize = 0;
        while i < n
            invariant
                i <= n,
                n == self.devices@.len(),
                forall|j: int| 0 <= j < i ==> self.devices@[j].uid@ != uid@,
            decreases n - i,
        {
            if self.devices[i].uid == *uid {
                proof {
                    let w = choose|w: int|
                        0 <= w < self.devices@.len() && self.devices@[w].uid@ == uid@
                            && forall|j: int| 0 <= j < w ==> self.devices@[j].uid@ != uid@;
                    assert(w == i);
                }
                return Some(&self.devices[i]);
            }
            i = i + 1;
        }
        None
    }
}

} // verus!
