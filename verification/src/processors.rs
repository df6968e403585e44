//! The function pre-processors of the processor chain: Identity, Standard
//! (hysteresis) and the exponential moving average, with the temperature
//! gathering they share.

use vstd::prelude::*;

use crate::device::{Device, StatusV, TempStatusV};
use crate::device::{get_temp_from_status, spec_temp_in_status};
use crate::ema;
use crate::ema::{EMA_TEMP_BOUND, TEMP_SAMPLE_SIZE};
use crate::profile::{AllDevices, SpeedProfileData};
use crate::setting::{CentiTemp, FunctionType, ProfileUID};
use crate::statemap::StateMap;

verus! {

/// The sentinel emitted when a required temperature source is missing:
/// 100 C, so fans spin up rather than stall.
pub const EMERGENCY_MISSING_TEMP: CentiTemp = 10000;

/// Every reading of the sensor called `name` within one snapshot, in order.
pub open spec fn spec_matching_temps(temps: Seq<TempStatusV>, name: Seq<char>) -> Seq<CentiTemp>
    decreases temps.len(),
{
    if temps.len() == 0 {
        Seq::empty()
    } else {
        let rest = spec_matching_temps(temps.drop_last(), name);
        if temps.last().name == name {
            rest.push(temps.last().temp)
        } else {
            rest
        }
    }
}

/// Every reading of the sensor called `name` across a history of snapshots,
/// oldest first.
pub open spec fn spec_history_temps(hist: Seq<StatusV>, name: Seq<char>) -> Seq<CentiTemp>
    decreases hist.len(),
{
    if hist.len() == 0 {
        Seq::empty()
    } else {
        spec_history_temps(hist.drop_last(), name) + spec_matching_temps(hist.last().temps, name)
    }
}

/// The most recent `k` snapshots of a history.
pub open spec fn spec_recent_history(hist: Seq<StatusV>, k: int) -> Seq<StatusV> {
    if hist.len() > k {
        hist.skip(hist.len() - k)
    } else {
        hist
    }
}

/// The ghost history of a device.
pub open spec fn spec_device_history(device: &Device) -> Seq<StatusV> {
    device.status_history@.map_values(|s: crate::device::Status| s@)
}

/// Collects every reading of the sensor called `name` from the device's
/// most recent `k` snapshots, oldest first.
pub fn collect_recent_temps(device: &Device, name: &String, k: usize) -> (r: Vec<CentiTemp>)
    requires
        k >= 1,
    ensures
        r@ == spec_history_temps(spec_recent_history(spec_device_history(device), k as int), name@),
{
    let ghost hist = spec_device_history(device);
    let len = device.status_history.len();
    let start: usize = if len > k {
        len - k
    } else {
        0
    };
    let ghost recent = spec_recent_history(hist, k as int);
    proof {
        assert(recent =~= hist.subrange(start as int, hist.len() as int));
    }
    let mut r: Vec<CentiTemp> = Vec::new();
    let mut i: usize = start;
    proof {
        assert(recent.take(0) =~= Seq::<StatusV>::empty());
    }
    while i < len
        invariant
            start <= i <= len,
            len == device.status_history@.len(),
            hist == spec_device_history(device),
            hist.len() == len,
            recent == spec_recent_history(hist, k as int),
            recent =~= hist.subrange(start as int, hist.len() as int),
            r@ == spec_history_temps(recent.take(i - start), name@),
        decreases len - i,
    {
        let status = &device.status_history[i];
        let ghost temps_v = status@.temps;
        proof {
            assert(hist[i as int] == status@);
        }
        let m = status.temps.len();
        let mut j: usize = 0;
        proof {
            assert(temps_v.take(0) =~= Seq::<TempStatusV>::empty());
            assert(r@ =~= spec_history_temps(recent.take(i - start), name@) + spec_matching_temps(
                temps_v.take(0),
                name@,
            ));
        }
        while j < m
            invariant
                j <= m,
                m == status.temps@.len(),
                temps_v == status@.temps,
                temps_v.len() == m,
                r@ == spec_history_temps(recent.take(i - start), name@) + spec_matching_temps(
                    temps_v.take(j as int),
                    name@,
                ),
            decreases m - j,
        {
            proof {
                assert(temps_v.take(j + 1).drop_last() =~= temps_v.take(j as int));
                assert(temps_v.take(j + 1).last() == temps_v[j as int]);
                assert(temps_v[j as int] == status.temps@[j as int]@);
            }
            if status.temps[j].name == *name {
                r.push(status.temps[j].temp);
            }
            j = j + 1;
        }
        proof {
            assert(temps_v.take(m as int) =~= temps_v);
            assert(recent.take(i - start + 1).drop_last() =~= recent.take(i - start));
            assert(recent.take(i - start + 1).last() == recent[i - start]);
            assert(recent[i - start] == hist[i as int]);
        }
        i = i + 1;
    }
    proof {
        assert(recent.take(recent.len() as int) =~= recent);
    }
    r
}

/// A sample clamped into the range the smoothing accepts.
pub open spec fn spec_clamp_temp(t: CentiTemp) -> CentiTemp {
    if t < -EMA_TEMP_BOUND {
        (-EMA_TEMP_BOUND) as i64
    } else if t > EMA_TEMP_BOUND {
        EMA_TEMP_BOUND
    } else {
        t
    }
}

fn clamp_temps(temps: Vec<CentiTemp>) -> (r: Vec<CentiTemp>)
    ensures
        r@ == temps@.map_values(|t: CentiTemp| spec_clamp_temp(t)),
        ema::spec_temps_bounded(r@),
        r@.len() == temps@.len(),
{
    let mut r: Vec<CentiTemp> = Vec::new();
    let mut i: usize = 0;
    while i < temps.len()
        invariant
            i <= temps@.len(),
            r@.len() == i,
            forall|a: int| 0 <= a < i ==> r@[a] == spec_clamp_temp(temps@[a]),
        decreases temps@.len() - i,
    {
        let t = temps[i];
        let c: CentiTemp = if t < -EMA_TEMP_BOUND {
            -EMA_TEMP_BOUND
        } else if t > EMA_TEMP_BOUND {
            EMA_TEMP_BOUND
        } else {
            t
        };
        r.push(c);
        i = i + 1;
    }
    proof {
        assert(r@ =~= temps@.map_values(|t: CentiTemp| spec_clamp_temp(t)));
        assert(forall|a: int| 0 <= a < r@.len() ==> -EMA_TEMP_BOUND <= #[trigger] r@[a]
            <= EMA_TEMP_BOUND);
    }
    r
}

/// What the Identity function leaves in `data.temp`: the source's latest
/// reading; the emergency temperature when the source device or sensor is
/// missing; nothing when the device exists but has no snapshot yet.
pub open spec fn spec_identity_temp(
    all_devices: &AllDevices,
    uid: Seq<char>,
    name: Seq<char>,
) -> Option<CentiTemp> {
    if !all_devices.spec_has_device(uid) {
        Some(EMERGENCY_MISSING_TEMP)
    } else {
        let hist = all_devices.spec_history_of(uid);
        if hist.len() == 0 {
            None
        } else {
            match spec_temp_in_status(hist.last().temps, name) {
                Some(t) => Some(t),
                None => Some(EMERGENCY_MISSING_TEMP),
            }
        }
    }
}

/// The default function: hands the latest observed source temperature on
/// unchanged.
pub struct FunctionIdentityPreProcessor {}

impl FunctionIdentityPreProcessor {
    pub fn new() -> (p: FunctionIdentityPreProcessor) {
        FunctionIdentityPreProcessor {  }
    }

    /// Fires for Identity profiles whose temp is not yet set.
    pub fn is_applicable(&self, data: &SpeedProfileData) -> (r: bool)
        ensures
            r == (data.profile.function.f_type == FunctionType::Identity && data.temp is None),
    {
        data.profile.function.f_type == FunctionType::Identity && data.temp.is_none()
    }

    /// Copies the latest reading of the configured temp source into the
    /// data. A missing source device or sensor reads as the emergency
    /// temperature; only a device with no snapshot at all yields no temp.
    pub fn process(&self, all_devices: &AllDevices, data: &mut SpeedProfileData)
        ensures
            final(data).profile == old(data).profile,
            final(data).duty == old(data).duty,
            final(data).safety_latch_triggered == old(data).safety_latch_triggered,
            final(data).processing_started == old(data).processing_started,
            final(data).temp == {
                match spec_identity_temp(
                    all_devices,
                    old(data).profile.temp_source.device_uid@,
                    old(data).profile.temp_source.temp_name@,
                ) {
                    Some(t) => Some(t),
                    None => old(data).temp,
                }
            },
    {
        let device = all_devices.get(&data.profile.temp_source.device_uid);
        match device {
            None => {
                data.temp = Some(EMERGENCY_MISSING_TEMP);
            },
            Some(device) => {
                let n = device.status_history.len();
                if n > 0 {
                    let last = &device.status_history[n - 1];
                    proof {
                        assert(spec_device_history(device).last() == last@);
                    }
                    match get_temp_from_status(&data.profile.temp_source.temp_name, last) {
                        Some(t) => {
                            data.temp = Some(t);
                        },
                        None => {
                            data.temp = Some(EMERGENCY_MISSING_TEMP);
                        },
                    }
                }
            },
        }
    }
}

/// What the smoothing function leaves in `data.temp`: the smoothed recent
/// history of the source, or the emergency temperature when the source
/// device or sensor is missing.
pub open spec fn spec_ema_temp(
    all_devices: &AllDevices,
    uid: Seq<char>,
    name: Seq<char>,
    sample_window: Option<u8>,
) -> CentiTemp {
    if !all_devices.spec_has_device(uid) {
        EMERGENCY_MISSING_TEMP
    } else {
        let temps = FunctionEMAPreProcessor::spec_gathered_temps(all_devices, uid, name);
        if temps.len() == 0 {
            EMERGENCY_MISSING_TEMP
        } else {
            ema::spec_ema_of(
                ema::spec_ema_window(temps),
                match sample_window {
                    Some(w) => w as int,
                    None => ema::TMA_DEFAULT_WINDOW_SIZE as int,
                },
            ) as CentiTemp
        }
    }
}

/// Shapes the source temperature with a triple exponential moving average
/// over the recent history: good reaction, yet averaged.
pub struct FunctionEMAPreProcessor {}

impl FunctionEMAPreProcessor {
    pub fn new() -> (p: FunctionEMAPreProcessor) {
        FunctionEMAPreProcessor {  }
    }

    /// Fires for ExponentialMovingAvg profiles whose temp is not yet set.
    pub fn is_applicable(&self, data: &SpeedProfileData) -> (r: bool)
        ensures
            r == (data.profile.function.f_type == FunctionType::ExponentialMovingAvg
                && data.temp is None),
    {
        data.profile.function.f_type == FunctionType::ExponentialMovingAvg && data.temp.is_none()
    }

    /// The samples the smoothing reads for a source: its readings from the
    /// most recent snapshots, clamped into the accepted range.
    pub open spec fn spec_gathered_temps(
        all_devices: &AllDevices,
        uid: Seq<char>,
        name: Seq<char>,
    ) -> Seq<CentiTemp> {
        spec_history_temps(
            spec_recent_history(all_devices.spec_history_of(uid), TEMP_SAMPLE_SIZE as int),
            name,
        ).map_values(|t: CentiTemp| spec_clamp_temp(t))
    }

    /// Shapes the temp: the smoothed recent history of the source, or the
    /// emergency temperature when the source device or sensor is missing.
    pub fn process(&self, all_devices: &AllDevices, data: &mut SpeedProfileData)
        requires
            old(data).profile.function.sample_window is Some ==> old(
                data,
            ).profile.function.sample_window->0 >= 1,
        ensures
            final(data).profile == old(data).profile,
            final(data).duty == old(data).duty,
            final(data).safety_latch_triggered == old(data).safety_latch_triggered,
            final(data).processing_started == old(data).processing_started,
            final(data).temp == Some(
                spec_ema_temp(
                    all_devices,
                    old(data).profile.temp_source.device_uid@,
                    old(data).profile.temp_source.temp_name@,
                    old(data).profile.function.sample_window,
                ),
            ),
    {
        let device = all_devices.get(&data.profile.temp_source.device_uid);
        match device {
            None => {
                data.temp = Some(EMERGENCY_MISSING_TEMP);
            },
            Some(device) => {
                let gathered = collect_recent_temps(
                    device,
                    &data.profile.temp_source.temp_name,
                    TEMP_SAMPLE_SIZE,
                );
                let temps = clamp_temps(gathered);
                if temps.len() == 0 {
                    data.temp = Some(EMERGENCY_MISSING_TEMP);
                } else {
                    let shaped = ema::current_temp_from_exponential_moving_average(
                        &temps,
                        data.profile.function.sample_window,
                    );
                    data.temp = Some(shaped);
                }
            },
        }
    }
}

/// The stack never shrinks below this before the hysteresis acts.
pub const MIN_TEMP_HIST_STACK_SIZE: usize = 2;

/// Per-profile state of the Standard (hysteresis) function.
#[derive(Debug)]
pub struct ChannelSettingMetadata {
    /// The delay buffer of recent samples, oldest first.
    pub temp_hist_stack: Vec<CentiTemp>,
    /// The buffer length the delay asks for; 0 until the first run.
    pub ideal_stack_size: usize,
    /// The temperature last propagated; 0 is the never-applied sentinel.
    pub last_applied_temp: CentiTemp,
}

/// The ghost image of a `ChannelSettingMetadata`.
pub struct ChannelSettingMetadataV {
    pub temp_hist_stack: Seq<CentiTemp>,
    pub ideal_stack_size: int,
    pub last_applied_temp: CentiTemp,
}

impl View for ChannelSettingMetadata {
    type V = ChannelSettingMetadataV;

    open spec fn view(&self) -> ChannelSettingMetadataV {
        ChannelSettingMetadataV {
            temp_hist_stack: self.temp_hist_stack@,
            ideal_stack_size: self.ideal_stack_size as int,
            last_applied_temp: self.last_applied_temp,
        }
    }
}

impl ChannelSettingMetadataV {
    /// Every buffered sample and the last applied temperature lie in the
    /// accepted range.
    pub open spec fn bounded(&self) -> bool {
        &&& forall|i: int|
            0 <= i < self.temp_hist_stack.len() ==> -EMA_TEMP_BOUND
                <= #[trigger] self.temp_hist_stack[i] <= EMA_TEMP_BOUND
        &&& -EMA_TEMP_BOUND <= self.last_applied_temp <= EMA_TEMP_BOUND
    }
}

impl ChannelSettingMetadata {
    pub fn new() -> (m: ChannelSettingMetadata)
        ensures
            m@.temp_hist_stack == Seq::<CentiTemp>::empty(),
            m@.ideal_stack_size == 0,
            m@.last_applied_temp == 0,
            m@.bounded(),
    {
        ChannelSettingMetadata {
            temp_hist_stack: Vec::new(),
            ideal_stack_size: 0,
            last_applied_temp: 0,
        }
    }
}

/// `ceil(a / b)` for positive `b`.
pub open spec fn spec_ceil_div(a: int, b: int) -> int {
    (a + b - 1) / b
}

/// The delay buffer length: at least two samples, and one more than the
/// response delay divided by the poll rate.
pub open spec fn spec_ideal_stack_size(delay: u8, poll_rate_ms: u64) -> int {
    let c = spec_ceil_div(delay * 1000, poll_rate_ms as int) + 1;
    if c < MIN_TEMP_HIST_STACK_SIZE as int {
        MIN_TEMP_HIST_STACK_SIZE as int
    } else {
        c
    }
}

/// Whether a sample lies inside the hysteresis band around the last
/// applied temperature.
pub open spec fn spec_within_tolerance(t: CentiTemp, last: CentiTemp, deviance: CentiTemp) -> bool {
    last - deviance <= t <= last + deviance
}

/// The sample the hysteresis pushes each regular tick: the source's latest
/// reading, clamped; a missing snapshot or sensor reads as the emergency
/// temperature.
pub open spec fn spec_current_sample(hist: Seq<StatusV>, name: Seq<char>) -> CentiTemp {
    if hist.len() == 0 {
        EMERGENCY_MISSING_TEMP
    } else {
        match spec_temp_in_status(hist.last().temps, name) {
            Some(t) => spec_clamp_temp(t),
            None => EMERGENCY_MISSING_TEMP,
        }
    }
}

/// How one tick extends the delay buffer: before the first application the
/// buffer is rebuilt from recent history, afterwards the current sample is
/// appended. A missing device or empty history falls back to the emergency
/// temperature.
pub open spec fn spec_fill_stack(
    stack: Seq<CentiTemp>,
    last: CentiTemp,
    ideal: int,
    hist_opt: Option<Seq<StatusV>>,
    name: Seq<char>,
) -> Seq<CentiTemp> {
    match hist_opt {
        None => if last == 0 {
            seq![EMERGENCY_MISSING_TEMP]
        } else {
            stack.push(EMERGENCY_MISSING_TEMP)
        },
        Some(hist) => {
            if last == 0 {
                let latest = spec_history_temps(spec_recent_history(hist, ideal), name).map_values(
                    |t: CentiTemp| spec_clamp_temp(t),
                );
                if latest.len() == 0 {
                    seq![EMERGENCY_MISSING_TEMP]
                } else {
                    latest
                }
            } else {
                stack.push(spec_current_sample(hist, name))
            }
        },
    }
}

/// The hysteresis decision once the buffer is in shape: an upward step is
/// immediate under `only_downward`; inside the band spikes are collapsed
/// and nothing is applied unless the safety latch demands it; outside the
/// band the oldest sample is applied.
pub open spec fn spec_standard_core(
    stack: Seq<CentiTemp>,
    last: CentiTemp,
    deviance: CentiTemp,
    only_downward: bool,
    latched: bool,
) -> (Seq<CentiTemp>, CentiTemp, Option<CentiTemp>)
    recommends
        stack.len() >= 1,
{
    if only_downward && stack.last() > last {
        (seq![stack.last()], stack.last(), Some(stack.last()))
    } else {
        let oldest = stack[0];
        let oldest_within = spec_within_tolerance(oldest, last, deviance);
        let newest_within = spec_within_tolerance(stack.last(), last, deviance);
        let collapsed = if stack.len() > MIN_TEMP_HIST_STACK_SIZE as int && oldest_within
            && newest_within {
            Seq::new(
                stack.len(),
                |i: int|
                    if i < stack.len() - 1 {
                        oldest
                    } else {
                        stack.last()
                    },
            )
        } else {
            stack
        };
        if oldest_within && !latched {
            (collapsed, last, None)
        } else {
            (collapsed, oldest, Some(oldest))
        }
    }
}

/// One full tick of the hysteresis: size the buffer, fill it, drop the
/// oldest sample when over-full, apply immediately on the very first run,
/// then decide.
pub open spec fn spec_standard_step(
    m: ChannelSettingMetadataV,
    hist_opt: Option<Seq<StatusV>>,
    name: Seq<char>,
    delay: u8,
    deviance: CentiTemp,
    only_downward: bool,
    poll_rate_ms: u64,
    latched: bool,
) -> (ChannelSettingMetadataV, Option<CentiTemp>) {
    let ideal = if m.ideal_stack_size == 0 {
        spec_ideal_stack_size(delay, poll_rate_ms)
    } else {
        m.ideal_stack_size
    };
    let filled = spec_fill_stack(m.temp_hist_stack, m.last_applied_temp, ideal, hist_opt, name);
    if filled.len() > ideal {
        let (stack2, last2, out) = spec_standard_core(
            filled.skip(1),
            m.last_applied_temp,
            deviance,
            only_downward,
            latched,
        );
        (
            ChannelSettingMetadataV {
                temp_hist_stack: stack2,
                ideal_stack_size: ideal,
                last_applied_temp: last2,
            },
            out,
        )
    } else if m.last_applied_temp == 0 && filled.len() < ideal {
        (
            ChannelSettingMetadataV {
                temp_hist_stack: filled,
                ideal_stack_size: ideal,
                last_applied_temp: filled[0],
            },
            Some(filled[0]),
        )
    } else {
        let (stack2, last2, out) = spec_standard_core(
            filled,
            m.last_applied_temp,
            deviance,
            only_downward,
            latched,
        );
        (
            ChannelSettingMetadataV {
                temp_hist_stack: stack2,
                ideal_stack_size: ideal,
                last_applied_temp: last2,
            },
            out,
        )
    }
}

/// The hysteresis holds: when the safety latch is not set and every
/// buffered sample — in particular the oldest and the newest — lies within
/// the deviance band around the last applied temperature, the Standard
/// function emits nothing and the applied temperature stays where it was.
/// (Under `only_downward` the newest sample must not exceed the applied
/// temperature: an upward step is applied immediately by design.)
pub proof fn lemma_standard_stable_within_band(
    stack: Seq<CentiTemp>,
    last: CentiTemp,
    deviance: CentiTemp,
    only_downward: bool,
)
    requires
        stack.len() >= 1,
        spec_within_tolerance(stack[0], last, deviance),
        only_downward ==> stack.last() <= last,
    ensures
        spec_standard_core(stack, last, deviance, only_downward, false).2 is None,
        spec_standard_core(stack, last, deviance, only_downward, false).1 == last,
{
}

/// The Standard function: hysteresis around the last applied temperature
/// with a response-delay buffer.
pub struct FunctionStandardPreProcessor {
    pub channel_settings_metadata: StateMap<ChannelSettingMetadata>,
}

impl FunctionStandardPreProcessor {
    /// The state map is well formed and every installed state is bounded.
    pub open spec fn wf(&self) -> bool {
        &&& self.channel_settings_metadata.wf()
        &&& forall|k: Seq<char>|
            self.channel_settings_metadata@.dom().contains(k)
                ==> (#[trigger] self.channel_settings_metadata@[k]).bounded()
    }

    pub fn new() -> (p: FunctionStandardPreProcessor)
        ensures
            p.wf(),
            p.channel_settings_metadata@ == Map::<Seq<char>, ChannelSettingMetadataV>::empty(),
    {
        FunctionStandardPreProcessor { channel_settings_metadata: StateMap::new() }
    }

    /// Fires for Standard profiles whose temp is not yet set.
    pub fn is_applicable(&self, data: &SpeedProfileData) -> (r: bool)
        ensures
            r == (data.profile.function.f_type == FunctionType::Standard && data.temp is None),
    {
        data.profile.function.f_type == FunctionType::Standard && data.temp.is_none()
    }

    /// Installs fresh state when a profile is attached to a channel.
    pub fn init_state(&mut self, profile_uid: &ProfileUID)
        requires
            old(self).wf(),
        ensures
            final(self).wf(),
            final(self).channel_settings_metadata@ == old(self).channel_settings_metadata@.insert(
                profile_uid@,
                ChannelSettingMetadataV {
                    temp_hist_stack: Seq::empty(),
                    ideal_stack_size: 0,
                    last_applied_temp: 0,
                },
            ),
    {
        self.channel_settings_metadata.insert(profile_uid, ChannelSettingMetadata::new());
    }

    /// Clears the state when a profile is detached.
    pub fn clear_state(&mut self, profile_uid: &ProfileUID)
        requires
            old(self).wf(),
        ensures
            final(self).wf(),
            final(self).channel_settings_metadata@ == old(self).channel_settings_metadata@.remove(
                profile_uid@,
            ),
    {
        self.channel_settings_metadata.remove(profile_uid);
    }

    /// Whether the Standard function's required parameters are all set.
    pub open spec fn spec_config_ok(data: &SpeedProfileData) -> bool {
        &&& data.profile.function.response_delay is Some
        &&& data.profile.function.deviance is Some
        &&& data.profile.function.only_downward is Some
    }

    /// Runs one hysteresis tick. Without its required parameters the
    /// function leaves the data and its state untouched.
    #[verifier::rlimit(80)]
    pub fn process(&mut self, all_devices: &AllDevices, data: &mut SpeedProfileData)
        requires
            old(self).wf(),
            old(data).profile.well_formed(),
            Self::spec_config_ok(old(data)) ==> old(self).channel_settings_metadata@.dom().contains(
                old(data).profile.profile_uid@,
            ),
        ensures
            final(self).wf(),
            final(data).profile == old(data).profile,
            final(data).duty == old(data).duty,
            final(data).safety_latch_triggered == old(data).safety_latch_triggered,
            final(data).processing_started == old(data).processing_started,
            !Self::spec_config_ok(old(data)) ==> final(data).temp == old(data).temp && final(self).channel_settings_metadata@ == old(self).channel_settings_metadata@,
            Self::spec_config_ok(old(data)) ==> ({
                let uid = old(data).profile.temp_source.device_uid@;
                let hist_opt = if all_devices.spec_has_device(uid) {
                    Some(all_devices.spec_history_of(uid))
                } else {
                    None::<Seq<StatusV>>
                };
                let (m2, out) = spec_standard_step(
                    old(self).channel_settings_metadata@[old(data).profile.profile_uid@],
                    hist_opt,
                    old(data).profile.temp_source.temp_name@,
                    old(data).profile.function.response_delay->0,
                    old(data).profile.function.deviance->0,
                    old(data).profile.function.only_downward->0,
                    old(data).profile.poll_rate_ms,
                    old(data).safety_latch_triggered,
                );
                &&& final(self).channel_settings_metadata@ == old(
                    self,
                ).channel_settings_metadata@.insert(old(data).profile.profile_uid@, m2)
                &&& final(data).temp == if out is Some {
                    Some(out->0)
                } else {
                    old(data).temp
                }
            }),
    {
        let delay = match data.profile.function.response_delay {
            Some(d) => d,
            None => {
                return ;
            },
        };
        let deviance = match data.profile.function.deviance {
            Some(d) => d,
            None => {
                return ;
            },
        };
        let only_downward = match data.profile.function.only_downward {
            Some(d) => d,
            None => {
                return ;
            },
        };
        let ghost uid_p = data.profile.profile_uid@;
        let mut metadata = match self.channel_settings_metadata.take(&data.profile.profile_uid) {
            Some(m) => m,
            None => {
                proof {
                    assert(false);
                }
                ChannelSettingMetadata::new()
            },
        };
        let ghost m0 = old(self).channel_settings_metadata@[uid_p];
        assert(metadata@ == m0);
        assert(m0.bounded());

        if metadata.ideal_stack_size == 0 {
            let delay_ms: u64 = (delay as u64) * 1000;
            let poll = data.profile.poll_rate_ms;
            let c64: u64 = (delay_ms + poll - 1) / poll + 1;
            proof {
                assert(c64 == spec_ceil_div(delay * 1000, poll as int) + 1);
                assert(c64 <= 255001) by (nonlinear_arith)
                    requires
                        c64 == ((delay as u64) * 1000 + poll - 1) as int / (poll as int) + 1,
                        delay <= 255,
                        1 <= poll <= 60000,
                ;
            }
            let c: usize = c64 as usize;
            metadata.ideal_stack_size = if c < MIN_TEMP_HIST_STACK_SIZE {
                MIN_TEMP_HIST_STACK_SIZE
            } else {
                c
            };
            assert(metadata@.ideal_stack_size == spec_ideal_stack_size(delay, poll));
        }
        let ghost ideal = metadata@.ideal_stack_size;

        let device = all_devices.get(&data.profile.temp_source.device_uid);
        fill_temp_stack(&mut metadata, device, &data.profile.temp_source.temp_name);
        let ghost hist_opt = if all_devices.spec_has_device(
            old(data).profile.temp_source.device_uid@,
        ) {
            Some(all_devices.spec_history_of(old(data).profile.temp_source.device_uid@))
        } else {
            None::<Seq<StatusV>>
        };
        proof {
            assert(metadata@.temp_hist_stack == spec_fill_stack(
                m0.temp_hist_stack,
                m0.last_applied_temp,
                ideal,
                hist_opt,
                old(data).profile.temp_source.temp_name@,
            ));
        }

        if metadata.temp_hist_stack.len() > metadata.ideal_stack_size {
            metadata.temp_hist_stack.remove(0);
            proof {
                assert(metadata@.temp_hist_stack =~= spec_fill_stack(
                    m0.temp_hist_stack,
                    m0.last_applied_temp,
                    ideal,
                    hist_opt,
                    old(data).profile.temp_source.temp_name@,
                ).skip(1));
            }
        } else if metadata.last_applied_temp == 0 && metadata.temp_hist_stack.len()
            < metadata.ideal_stack_size {
            let temp_to_apply = metadata.temp_hist_stack[0];
            data.temp = Some(temp_to_apply);
            metadata.last_applied_temp = temp_to_apply;
            let ghost mv = metadata@;
            self.channel_settings_metadata.insert(&data.profile.profile_uid, metadata);
            proof {
                lemma_insert_after_remove(old(self).channel_settings_metadata@, uid_p, mv);
            }
            return ;
        }

        standard_core(&mut metadata, data, deviance, only_downward);
        let ghost mv = metadata@;
        self.channel_settings_metadata.insert(&data.profile.profile_uid, metadata);
        proof {
            lemma_insert_after_remove(old(self).channel_settings_metadata@, uid_p, mv);
        }
    }
}

/// Inserting over a removed key is inserting over the original map.
proof fn lemma_insert_after_remove<V>(m: Map<Seq<char>, V>, k: Seq<char>, v: V)
    ensures
        m.remove(k).insert(k, v) == m.insert(k, v),
{
    assert(m.remove(k).insert(k, v) =~= m.insert(k, v));
}

/// Extends the delay buffer for one tick, as `spec_fill_stack` says.
fn fill_temp_stack(metadata: &mut ChannelSettingMetadata, device: Option<&Device>, name: &String)
    requires
        old(metadata)@.bounded(),
        old(metadata)@.ideal_stack_size >= 1,
    ensures
        final(metadata)@.temp_hist_stack == spec_fill_stack(
            old(metadata)@.temp_hist_stack,
            old(metadata)@.last_applied_temp,
            old(metadata)@.ideal_stack_size,
            match device {
                Some(d) => Some(spec_device_history(d)),
                None => None::<Seq<StatusV>>,
            },
            name@,
        ),
        final(metadata)@.ideal_stack_size == old(metadata)@.ideal_stack_size,
        final(metadata)@.last_applied_temp == old(metadata)@.last_applied_temp,
        final(metadata)@.bounded(),
{
    match device {
        None => {
            if metadata.last_applied_temp == 0 {
                metadata.temp_hist_stack.clear();
            }
            let ghost pre = metadata@.temp_hist_stack;
            metadata.temp_hist_stack.push(EMERGENCY_MISSING_TEMP);
            proof {
                if old(metadata)@.last_applied_temp == 0 {
                    assert(metadata@.temp_hist_stack =~= seq![EMERGENCY_MISSING_TEMP]);
                }
                assert forall|a: int|
                    0 <= a < metadata@.temp_hist_stack.len() implies -EMA_TEMP_BOUND
                    <= #[trigger] metadata@.temp_hist_stack[a] <= EMA_TEMP_BOUND by {
                    if a < pre.len() {
                        assert(metadata@.temp_hist_stack[a] == pre[a]);
                    }
                }
            }
        },
        Some(dev) => {
            if metadata.last_applied_temp == 0 {
                let gathered = collect_recent_temps(dev, name, metadata.ideal_stack_size);
                let latest = clamp_temps(gathered);
                if latest.len() == 0 {
                    metadata.temp_hist_stack.clear();
                    metadata.temp_hist_stack.push(EMERGENCY_MISSING_TEMP);
                    proof {
                        assert(metadata@.temp_hist_stack =~= seq![EMERGENCY_MISSING_TEMP]);
                    }
                } else {
                    metadata.temp_hist_stack = latest;
                }
            } else {
                let n = dev.status_history.len();
                let current: CentiTemp = if n == 0 {
                    EMERGENCY_MISSING_TEMP
                } else {
                    let last_status = &dev.status_history[n - 1];
                    proof {
                        assert(spec_device_history(dev).last() == last_status@);
                    }
                    match get_temp_from_status(name, last_status) {
                        Some(t) => {
                            if t < -EMA_TEMP_BOUND {
                                -EMA_TEMP_BOUND
                            } else if t > EMA_TEMP_BOUND {
                                EMA_TEMP_BOUND
                            } else {
                                t
                            }
                        },
                        None => EMERGENCY_MISSING_TEMP,
                    }
                };
                let ghost pre = metadata@.temp_hist_stack;
                metadata.temp_hist_stack.push(current);
                proof {
                    assert forall|a: int|
                        0 <= a < metadata@.temp_hist_stack.len() implies -EMA_TEMP_BOUND
                        <= #[trigger] metadata@.temp_hist_stack[a] <= EMA_TEMP_BOUND by {
                        if a < pre.len() {
                            assert(metadata@.temp_hist_stack[a] == pre[a]);
                        }
                    }
                }
            }
        },
    }
}

/// The hysteresis decision of `spec_standard_core`, applied to the
/// metadata and the tick's data.
fn standard_core(
    metadata: &mut ChannelSettingMetadata,
    data: &mut SpeedProfileData,
    deviance: CentiTemp,
    only_downward: bool,
)
    requires
        old(metadata)@.temp_hist_stack.len() >= 1,
        old(metadata)@.bounded(),
        0 <= deviance <= EMA_TEMP_BOUND,
    ensures
        ({
            let (stack2, last2, out) = spec_standard_core(
                old(metadata)@.temp_hist_stack,
                old(metadata)@.last_applied_temp,
                deviance,
                only_downward,
                old(data).safety_latch_triggered,
            );
            &&& final(metadata)@.temp_hist_stack == stack2
            &&& final(metadata)@.last_applied_temp == last2
            &&& final(metadata)@.ideal_stack_size == old(metadata)@.ideal_stack_size
            &&& final(metadata)@.bounded()
            &&& final(data).temp == if out is Some {
                Some(out->0)
            } else {
                old(data).temp
            }
        }),
        final(data).profile == old(data).profile,
        final(data).duty == old(data).duty,
        final(data).safety_latch_triggered == old(data).safety_latch_triggered,
        final(data).processing_started == old(data).processing_started,
{
    let len = metadata.temp_hist_stack.len();
    let newest = metadata.temp_hist_stack[len - 1];
    if only_downward && newest > metadata.last_applied_temp {
        metadata.temp_hist_stack.clear();
        metadata.temp_hist_stack.push(newest);
        data.temp = Some(newest);
        metadata.last_applied_temp = newest;
        proof {
            assert(metadata@.temp_hist_stack =~= seq![
                old(metadata)@.temp_hist_stack.last(),
            ]);
        }
        return ;
    }
    let oldest = metadata.temp_hist_stack[0];
    let oldest_within = temp_within_tolerance(oldest, metadata.last_applied_temp, deviance);
    if len > MIN_TEMP_HIST_STACK_SIZE {
        let newest_within = temp_within_tolerance(newest, metadata.last_applied_temp, deviance);
        if oldest_within && newest_within {
            let mut i: usize = 0;
            while i < len - 1
                invariant
                    i <= len - 1,
                    len == metadata.temp_hist_stack@.len(),
                    len >= 1,
                    oldest == old(metadata)@.temp_hist_stack[0],
                    forall|a: int|
                        0 <= a < i ==> #[trigger] metadata.temp_hist_stack@[a] == oldest,
                    forall|a: int|
                        i <= a < len ==> #[trigger] metadata.temp_hist_stack@[a] == old(
                            metadata,
                        )@.temp_hist_stack[a],
                    metadata.ideal_stack_size == old(metadata).ideal_stack_size,
                    metadata.last_applied_temp == old(metadata).last_applied_temp,
                decreases len - 1 - i,
            {
                metadata.temp_hist_stack.set(i, oldest);
                i = i + 1;
            }
            proof {
                assert(metadata@.temp_hist_stack =~= Seq::new(
                    old(metadata)@.temp_hist_stack.len(),
                    |i: int|
                        if i < old(metadata)@.temp_hist_stack.len() - 1 {
                            old(metadata)@.temp_hist_stack[0]
                        } else {
                            old(metadata)@.temp_hist_stack.last()
                        },
                ));
            }
        }
    }
    if oldest_within && !data.safety_latch_triggered {
        return ;
    }
    data.temp = Some(oldest);
    metadata.last_applied_temp = oldest;
}

/// Whether `t` lies inside the band `last` plus or minus `deviance`.
fn temp_within_tolerance(t: CentiTemp, last: CentiTemp, deviance: CentiTemp) -> (r: bool)
    requires
        -EMA_TEMP_BOUND <= last <= EMA_TEMP_BOUND,
        0 <= deviance <= EMA_TEMP_BOUND,
    ensures
        r == spec_within_tolerance(t, last, deviance),
{
    t <= last + deviance && t >= last - deviance
}

} // verus!
