//! The post-processors of the chain: the duty-change threshold and the
//! safety latch that forces periodic reassertion.

use vstd::prelude::*;
use vstd::math::abs;

use crate::processors::spec_ceil_div;
use crate::profile::SpeedProfileData;
use crate::setting::ProfileUID;
use crate::statemap::StateMap;

verus! {

/// How many applied duties the duty threshold remembers.
pub const MAX_DUTY_SAMPLE_SIZE: usize = 20;

/// Per-profile state of the duty threshold: the duties applied so
/// far, oldest first, at most `MAX_DUTY_SAMPLE_SIZE` of them.
#[derive(Debug)]
pub struct DutySettingMetadata {
    pub last_manual_speeds_set: Vec<u8>,
}

impl View for DutySettingMetadata {
    type V = Seq<u8>;

    open spec fn view(&self) -> Seq<u8> {
        self.last_manual_speeds_set@
    }
}

impl DutySettingMetadata {
    pub fn new() -> (m: DutySettingMetadata)
        ensures
            m@ == Seq::<u8>::empty(),
    {
        DutySettingMetadata { last_manual_speeds_set: Vec::new() }
    }
}

/// The duty the threshold lets through: everything on first application; inside
/// the minimum-change band nothing, unless the safety latch demands it; a
/// change beyond the maximum is clamped to the maximum step.
pub open spec fn spec_duty_within_thresholds(
    speeds: Seq<u8>,
    duty: u8,
    duty_minimum: u8,
    duty_maximum: u8,
    latched: bool,
) -> Option<u8> {
    if speeds.len() == 0 {
        Some(duty)
    } else {
        let last = speeds.last();
        let diff = abs(duty - last);
        if diff < duty_minimum && !latched {
            None
        } else if diff > duty_maximum {
            if duty < last {
                Some((last - duty_maximum) as u8)
            } else {
                Some((last + duty_maximum) as u8)
            }
        } else {
            Some(duty)
        }
    }
}

/// One threshold tick: the let-through duty is appended to the memory,
/// dropping the oldest entry over capacity; a suppressed duty leaves the
/// memory unchanged.
pub open spec fn spec_threshold_step(
    speeds: Seq<u8>,
    duty: u8,
    duty_minimum: u8,
    duty_maximum: u8,
    latched: bool,
) -> (Seq<u8>, Option<u8>) {
    match spec_duty_within_thresholds(speeds, duty, duty_minimum, duty_maximum, latched) {
        None => (speeds, None),
        Some(d) => {
            let pushed = speeds.push(d);
            if pushed.len() > MAX_DUTY_SAMPLE_SIZE as int {
                (pushed.skip(1), Some(d))
            } else {
                (pushed, Some(d))
            }
        },
    }
}

/// What the threshold guarantees of each emitted duty.
///
/// With legal clamps and an incoming duty in range: an emitted duty lies in
/// 0..=100 and within the last applied duty plus or minus `duty_maximum`;
/// when the safety latch is not set, an emitted change is at least
/// `duty_minimum`; and an unchanged duty is suppressed entirely unless the
/// latch is set. The first application, with nothing remembered yet, passes
/// unconditionally.
pub proof fn lemma_duty_threshold_bounds(
    speeds: Seq<u8>,
    duty: u8,
    duty_minimum: u8,
    duty_maximum: u8,
    latched: bool,
)
    requires
        1 <= duty_minimum,
        duty_minimum < duty_maximum,
        duty_maximum <= 100,
        duty <= 100,
        forall|i: int| 0 <= i < speeds.len() ==> #[trigger] speeds[i] <= 100,
    ensures
        ({
            let out = spec_duty_within_thresholds(speeds, duty, duty_minimum, duty_maximum, latched);
            &&& out is Some ==> out->0 <= 100
            &&& speeds.len() > 0 && out is Some ==> abs(out->0 - speeds.last())
                <= duty_maximum
            &&& speeds.len() > 0 && !latched && out is Some ==> abs(out->0 - speeds.last())
                >= duty_minimum
            &&& speeds.len() > 0 && !latched && duty == speeds.last() ==> out is None
        }),
{
    if speeds.len() > 0 {
        let last = speeds.last();
        assert(last <= 100);
    }
}

/// Keeps a memory of applied duties and lets only meaningful changes
/// through.
pub struct FunctionDutyThresholdPostProcessor {
    pub scheduled_settings_metadata: StateMap<DutySettingMetadata>,
}

impl FunctionDutyThresholdPostProcessor {
    /// The state map is well formed and every remembered duty is in range.
    pub open spec fn wf(&self) -> bool {
        &&& self.scheduled_settings_metadata.wf()
        &&& forall|k: Seq<char>|
            self.scheduled_settings_metadata@.dom().contains(k) ==> forall|i: int|
                0 <= i < self.scheduled_settings_metadata@[k].len()
                    ==> (#[trigger] self.scheduled_settings_metadata@[k][i]) <= 100
    }

    pub fn new() -> (p: FunctionDutyThresholdPostProcessor)
        ensures
            p.wf(),
            p.scheduled_settings_metadata@ == Map::<Seq<char>, Seq<u8>>::empty(),
    {
        FunctionDutyThresholdPostProcessor { scheduled_settings_metadata: StateMap::new() }
    }

    /// Fires whenever the graph evaluator produced a duty.
    pub fn is_applicable(&self, data: &SpeedProfileData) -> (r: bool)
        ensures
            r == (data.duty is Some),
    {
        data.duty.is_some()
    }

    /// Installs fresh state when a profile is attached to a channel.
    pub fn init_state(&mut self, profile_uid: &ProfileUID)
        requires
            old(self).wf(),
        ensures
            final(self).wf(),
            final(self).scheduled_settings_metadata@ == old(
                self,
            ).scheduled_settings_metadata@.insert(profile_uid@, Seq::empty()),
    {
        self.scheduled_settings_metadata.insert(profile_uid, DutySettingMetadata::new());
    }

    /// Clears the state when a profile is detached.
    pub fn clear_state(&mut self, profile_uid: &ProfileUID)
        requires
            old(self).wf(),
        ensures
            final(self).wf(),
            final(self).scheduled_settings_metadata@ == old(
                self,
            ).scheduled_settings_metadata@.remove(profile_uid@),
    {
        self.scheduled_settings_metadata.remove(profile_uid);
    }

    /// Runs one threshold tick on the duty the graph produced.
    pub fn process(&mut self, data: &mut SpeedProfileData)
        requires
            old(self).wf(),
            old(data).profile.well_formed(),
            old(data).duty is Some,
            old(data).duty->0 <= 100,
            old(self).scheduled_settings_metadata@.dom().contains(old(data).profile.profile_uid@),
        ensures
            final(self).wf(),
            final(data).profile == old(data).profile,
            final(data).temp == old(data).temp,
            final(data).safety_latch_triggered == old(data).safety_latch_triggered,
            final(data).processing_started == old(data).processing_started,
            ({
                let (speeds2, out) = spec_threshold_step(
                    old(self).scheduled_settings_metadata@[old(data).profile.profile_uid@],
                    old(data).duty->0,
                    old(data).profile.function.duty_minimum,
                    old(data).profile.function.duty_maximum,
                    old(data).safety_latch_triggered,
                );
                &&& final(self).scheduled_settings_metadata@ == old(
                    self,
                ).scheduled_settings_metadata@.insert(old(data).profile.profile_uid@, speeds2)
                &&& final(data).duty == out
            }),
    {
        let duty = match data.duty {
            Some(d) => d,
            None => {
                proof {
                    assert(false);
                }
                0
            },
        };
        let ghost uid_p = data.profile.profile_uid@;
        let mut metadata = match self.scheduled_settings_metadata.take(&data.profile.profile_uid) {
            Some(m) => m,
            None => {
                proof {
                    assert(false);
                }
                DutySettingMetadata::new()
            },
        };
        let ghost speeds0 = metadata@;

        let duty_to_set: Option<u8> = if metadata.last_manual_speeds_set.len() == 0 {
            Some(duty)
        } else {
            let last = metadata.last_manual_speeds_set[metadata.last_manual_speeds_set.len() - 1];
            let diff: u8 = if duty >= last {
                duty - last
            } else {
                last - duty
            };
            proof {
                assert(diff == abs(duty - speeds0.last()));
            }
            if diff < data.profile.function.duty_minimum && !data.safety_latch_triggered {
                None
            } else if diff > data.profile.function.duty_maximum {
                proof {
                    assert(speeds0.last() <= 100);
                }
                if duty < last {
                    Some(last - data.profile.function.duty_maximum)
                } else {
                    Some(last + data.profile.function.duty_maximum)
                }
            } else {
                Some(duty)
            }
        };

        match duty_to_set {
            Some(d) => {
                metadata.last_manual_speeds_set.push(d);
                if metadata.last_manual_speeds_set.len() > MAX_DUTY_SAMPLE_SIZE {
                    metadata.last_manual_speeds_set.remove(0);
                    proof {
                        assert(metadata@ =~= speeds0.push(d).skip(1));
                    }
                }
                data.duty = Some(d);
            },
            None => {
                data.duty = None;
            },
        }
        let ghost mv = metadata@;
        self.scheduled_settings_metadata.insert(&data.profile.profile_uid, metadata);
        proof {
            lemma_insert_over_removed(old(self).scheduled_settings_metadata@, uid_p, mv);
        }
    }
}

/// Inserting over a removed key is inserting over the original map.
proof fn lemma_insert_over_removed<V>(m: Map<Seq<char>, V>, k: Seq<char>, v: V)
    ensures
        m.remove(k).insert(k, v) == m.insert(k, v),
{
    assert(m.remove(k).insert(k, v) =~= m.insert(k, v));
}

/// Per-profile state of the safety latch.
#[derive(Debug, Clone, Copy, PartialEq, Eq, Structural)]
pub struct SafetyLatchMetadata {
    /// How many consecutive ticks ended without a duty; starts at the
    /// maximum so the very first tick is latched.
    pub no_duty_set_counter: u8,
    /// The allowed number of duty-less ticks; 0 until the first tick
    /// computes it from the profile.
    pub max_no_duty_set_count: u8,
}

impl View for SafetyLatchMetadata {
    type V = SafetyLatchMetadata;

    open spec fn view(&self) -> SafetyLatchMetadata {
        *self
    }
}

impl SafetyLatchMetadata {
    pub fn new() -> (m: SafetyLatchMetadata)
        ensures
            m.no_duty_set_counter == 255,
            m.max_no_duty_set_count == 0,
    {
        SafetyLatchMetadata { no_duty_set_counter: 255, max_no_duty_set_count: 0 }
    }
}

/// The watchdog limit for a profile: the response delay in ticks, kept
/// between 30 and 60 seconds' worth of ticks; without a response delay, 30
/// seconds' worth. Capped at 255 ticks.
pub open spec fn spec_initial_max_count(response_delay: Option<u8>, poll_rate_ms: u64) -> u8 {
    let cap = |v: int| if v > 255 { 255 as u8 } else { v as u8 };
    match response_delay {
        Some(d) => {
            let minc = spec_ceil_div(30000, poll_rate_ms as int);
            let maxc = spec_ceil_div(60000, poll_rate_ms as int);
            if d * 1000 <= minc * poll_rate_ms {
                cap(minc)
            } else if d * 1000 >= maxc * poll_rate_ms {
                cap(maxc)
            } else {
                cap(d * 1000 / (poll_rate_ms as int))
            }
        },
        None => cap(spec_ceil_div(30000, poll_rate_ms as int)),
    }
}

/// One run of the safety latch. At the begin of the chain it computes the
/// watchdog limit on first use, latches the tick when the counter has
/// reached the limit, and marks processing as started. At the end of the
/// chain it resets the counter when a duty was emitted and counts on
/// otherwise, saturating at 255.
pub open spec fn spec_latch_step(
    m: SafetyLatchMetadata,
    started: bool,
    duty: Option<u8>,
    latched: bool,
    response_delay: Option<u8>,
    poll_rate_ms: u64,
) -> (SafetyLatchMetadata, bool, bool) {
    if !started {
        let maxc = if m.max_no_duty_set_count == 0 {
            spec_initial_max_count(response_delay, poll_rate_ms)
        } else {
            m.max_no_duty_set_count
        };
        (
            SafetyLatchMetadata { no_duty_set_counter: m.no_duty_set_counter, max_no_duty_set_count: maxc },
            latched || m.no_duty_set_counter >= maxc,
            true,
        )
    } else {
        let c: u8 = if duty is Some {
            0
        } else if m.no_duty_set_counter < 255 {
            (m.no_duty_set_counter + 1) as u8
        } else {
            255
        };
        (
            SafetyLatchMetadata { no_duty_set_counter: c, max_no_duty_set_count: m.max_no_duty_set_count },
            latched,
            started,
        )
    }
}

/// The watchdog that guarantees a duty is re-asserted at least every
/// `max_no_duty_set_count` ticks, whatever the thresholds suppressed.
/// It runs at both the start and the end of the chain.
pub struct FunctionSafetyLatchProcessor {
    pub scheduled_settings_metadata: StateMap<SafetyLatchMetadata>,
}

impl FunctionSafetyLatchProcessor {
    pub open spec fn wf(&self) -> bool {
        self.scheduled_settings_metadata.wf()
    }

    pub fn new() -> (p: FunctionSafetyLatchProcessor)
        ensures
            p.wf(),
            p.scheduled_settings_metadata@ == Map::<Seq<char>, SafetyLatchMetadata>::empty(),
    {
        FunctionSafetyLatchProcessor { scheduled_settings_metadata: StateMap::new() }
    }

    /// The latch applies to every profile.
    pub fn is_applicable(&self, _data: &SpeedProfileData) -> (r: bool)
        ensures
            r,
    {
        true
    }

    /// Installs fresh state when a profile is attached to a channel; the
    /// counter starts at the maximum so the first tick is latched.
    pub fn init_state(&mut self, profile_uid: &ProfileUID)
        requires
            old(self).wf(),
        ensures
            final(self).wf(),
            final(self).scheduled_settings_metadata@ == old(
                self,
            ).scheduled_settings_metadata@.insert(
                profile_uid@,
                SafetyLatchMetadata { no_duty_set_counter: 255, max_no_duty_set_count: 0 },
            ),
    {
        self.scheduled_settings_metadata.insert(profile_uid, SafetyLatchMetadata::new());
    }

    /// Clears the state when a profile is detached.
    pub fn clear_state(&mut self, profile_uid: &ProfileUID)
        requires
            old(self).wf(),
        ensures
            final(self).wf(),
            final(self).scheduled_settings_metadata@ == old(
                self,
            ).scheduled_settings_metadata@.remove(profile_uid@),
    {
        self.scheduled_settings_metadata.remove(profile_uid);
    }

    /// The watchdog limit, executable.
    pub fn initial_max_no_duty_set_count(profile: &crate::profile::NormalizedGraphProfile) -> (r:
        u8)
        requires
            profile.well_formed(),
        ensures
            r == spec_initial_max_count(profile.function.response_delay, profile.poll_rate_ms),
    {
        let poll = profile.poll_rate_ms;
        match profile.function.response_delay {
            Some(d) => {
                let minc: u64 = (30000 + poll - 1) / poll;
                let maxc: u64 = (60000 + poll - 1) / poll;
                let delay_ms: u64 = (d as u64) * 1000;
                proof {
                    assert(minc * poll <= 30000 + poll - 1) by (nonlinear_arith)
                        requires
                            minc == ((30000 + poll - 1) as int) / (poll as int),
                            1 <= poll,
                    ;
                    assert(maxc * poll <= 60000 + poll - 1) by (nonlinear_arith)
                        requires
                            maxc == ((60000 + poll - 1) as int) / (poll as int),
                            1 <= poll,
                    ;
                }
                if delay_ms <= minc * poll {
                    if minc > 255 {
                        255
                    } else {
                        minc as u8
                    }
                } else if delay_ms >= maxc * poll {
                    if maxc > 255 {
                        255
                    } else {
                        maxc as u8
                    }
                } else {
                    let rc: u64 = delay_ms / poll;
                    if rc > 255 {
                        255
                    } else {
                        rc as u8
                    }
                }
            },
            None => {
                let minc: u64 = (30000 + poll - 1) / poll;
                if minc > 255 {
                    255
                } else {
                    minc as u8
                }
            },
        }
    }

    /// Runs the latch once, at the begin or the end of the chain as
    /// `data.processing_started` says.
    pub fn process(&mut self, data: &mut SpeedProfileData)
        requires
            old(self).wf(),
            old(data).profile.well_formed(),
            old(self).scheduled_settings_metadata@.dom().contains(old(data).profile.profile_uid@),
        ensures
            final(self).wf(),
            final(data).profile == old(data).profile,
            final(data).temp == old(data).temp,
            final(data).duty == old(data).duty,
            ({
                let (m2, latched2, started2) = spec_latch_step(
                    old(self).scheduled_settings_metadata@[old(data).profile.profile_uid@],
                    old(data).processing_started,
                    old(data).duty,
                    old(data).safety_latch_triggered,
                    old(data).profile.function.response_delay,
                    old(data).profile.poll_rate_ms,
                );
                &&& final(self).scheduled_settings_metadata@ == old(
                    self,
                ).scheduled_settings_metadata@.insert(old(data).profile.profile_uid@, m2)
                &&& final(data).safety_latch_triggered == latched2
                &&& final(data).processing_started == started2
            }),
    {
        let ghost uid_p = data.profile.profile_uid@;
        let mut metadata = match self.scheduled_settings_metadata.take(&data.profile.profile_uid) {
            Some(m) => m,
            None => {
                proof {
                    assert(false);
                }
                SafetyLatchMetadata::new()
            },
        };
        if !data.processing_started {
            if metadata.max_no_duty_set_count == 0 {
                metadata.max_no_duty_set_count = Self::initial_max_no_duty_set_count(
                    &data.profile,
                );
            }
            if metadata.no_duty_set_counter >= metadata.max_no_duty_set_count {
                data.safety_latch_triggered = true;
            }
            data.processing_started = true;
        } else {
            if data.duty.is_some() {
                metadata.no_duty_set_counter = 0;
            } else if metadata.no_duty_set_counter < 255 {
                metadata.no_duty_set_counter = metadata.no_duty_set_counter + 1;
            }
        }
        let ghost mv = metadata@;
        self.scheduled_settings_metadata.insert(&data.profile.profile_uid, metadata);
        proof {
            lemma_insert_over_removed(old(self).scheduled_settings_metadata@, uid_p, mv);
        }
    }
}

} // verus!
