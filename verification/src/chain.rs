//! The processor chain: the fixed per-tick order
//! safety latch, one function pre-processor, graph evaluation, the duty
//! threshold, and the safety latch again.

use vstd::prelude::*;
use vstd::math::abs;

use crate::device::StatusV;
use crate::graph::{spec_interpolate, GraphProcessor};
use crate::postprocessors::{
    spec_latch_step, spec_threshold_step, FunctionDutyThresholdPostProcessor,
    FunctionSafetyLatchProcessor, SafetyLatchMetadata,
};
use crate::processors::{
    spec_ema_temp, spec_identity_temp, spec_standard_step, ChannelSettingMetadataV,
    FunctionEMAPreProcessor, FunctionIdentityPreProcessor, FunctionStandardPreProcessor,
};
use crate::profile::{AllDevices, NormalizedGraphProfile, SpeedProfileData};
use crate::setting::{FunctionType, ProfileUID};

verus! {

/// Whether a Standard profile carries all the parameters the hysteresis
/// needs; other function types always do.
pub open spec fn spec_function_config_complete(profile: &NormalizedGraphProfile) -> bool {
    profile.function.f_type == FunctionType::Standard ==> {
        &&& profile.function.response_delay is Some
        &&& profile.function.deviance is Some
        &&& profile.function.only_downward is Some
    }
}

/// The temperature the firing pre-processor leaves for the graph, and the
/// hysteresis state after it ran.
pub open spec fn spec_pre_process(
    sm: ChannelSettingMetadataV,
    profile: NormalizedGraphProfile,
    all_devices: &AllDevices,
    latched: bool,
) -> (ChannelSettingMetadataV, Option<i64>) {
    let uid = profile.temp_source.device_uid@;
    let name = profile.temp_source.temp_name@;
    if profile.function.f_type == FunctionType::Identity {
        (sm, spec_identity_temp(all_devices, uid, name))
    } else if profile.function.f_type == FunctionType::Standard {
        if profile.function.response_delay is Some && profile.function.deviance is Some
            && profile.function.only_downward is Some {
            let hist_opt = if all_devices.spec_has_device(uid) {
                Some(all_devices.spec_history_of(uid))
            } else {
                None::<Seq<StatusV>>
            };
            spec_standard_step(
                sm,
                hist_opt,
                name,
                profile.function.response_delay->0,
                profile.function.deviance->0,
                profile.function.only_downward->0,
                profile.poll_rate_ms,
                latched,
            )
        } else {
            (sm, None)
        }
    } else {
        (sm, Some(spec_ema_temp(all_devices, uid, name, profile.function.sample_window)))
    }
}

/// One full tick of the chain for one profile, over the ghost states of the
/// three stateful processors: the final states and the duty the chain
/// hands to the device.
pub open spec fn spec_chain_tick(
    lm: SafetyLatchMetadata,
    sm: ChannelSettingMetadataV,
    dm: Seq<u8>,
    profile: NormalizedGraphProfile,
    all_devices: &AllDevices,
) -> (SafetyLatchMetadata, ChannelSettingMetadataV, Seq<u8>, Option<u8>) {
    let (lm1, latched, _started) = spec_latch_step(
        lm,
        false,
        None,
        false,
        profile.function.response_delay,
        profile.poll_rate_ms,
    );
    let (sm1, temp) = spec_pre_process(sm, profile, all_devices, latched);
    let duty0 = match temp {
        None => None,
        Some(t) => Some(spec_interpolate(profile.speed_profile@, t)),
    };
    let (dm1, duty1) = match duty0 {
        None => (dm, None::<u8>),
        Some(d) => spec_threshold_step(
            dm,
            d,
            profile.function.duty_minimum,
            profile.function.duty_maximum,
            latched,
        ),
    };
    let (lm2, _l2, _s2) = spec_latch_step(
        lm1,
        true,
        duty1,
        latched,
        profile.function.response_delay,
        profile.poll_rate_ms,
    );
    (lm2, sm1, dm1, duty1)
}

/// The fixed chain of processors that turns one profile's tick into an
/// optional duty.
pub struct ProcessorChain {
    pub safety_latch: FunctionSafetyLatchProcessor,
    pub identity_pre: FunctionIdentityPreProcessor,
    pub standard_pre: FunctionStandardPreProcessor,
    pub ema_pre: FunctionEMAPreProcessor,
    pub graph: GraphProcessor,
    pub duty_threshold_post: FunctionDutyThresholdPostProcessor,
}

impl ProcessorChain {
    pub open spec fn wf(&self) -> bool {
        &&& self.safety_latch.wf()
        &&& self.standard_pre.wf()
        &&& self.duty_threshold_post.wf()
    }

    /// All three stateful processors hold state for this profile.
    pub open spec fn spec_states_installed(&self, uid: Seq<char>) -> bool {
        &&& self.safety_latch.scheduled_settings_metadata@.dom().contains(uid)
        &&& self.standard_pre.channel_settings_metadata@.dom().contains(uid)
        &&& self.duty_threshold_post.scheduled_settings_metadata@.dom().contains(uid)
    }

    pub fn new() -> (c: ProcessorChain)
        ensures
            c.wf(),
            c.safety_latch.scheduled_settings_metadata@ == Map::<
                Seq<char>,
                SafetyLatchMetadata,
            >::empty(),
            c.standard_pre.channel_settings_metadata@ == Map::<
                Seq<char>,
                ChannelSettingMetadataV,
            >::empty(),
            c.duty_threshold_post.scheduled_settings_metadata@ == Map::<Seq<char>, Seq<u8>>::empty(),
    {
        ProcessorChain {
            safety_latch: FunctionSafetyLatchProcessor::new(),
            identity_pre: FunctionIdentityPreProcessor::new(),
            standard_pre: FunctionStandardPreProcessor::new(),
            ema_pre: FunctionEMAPreProcessor::new(),
            graph: GraphProcessor::new(),
            duty_threshold_post: FunctionDutyThresholdPostProcessor::new(),
        }
    }

    /// Installs fresh state in every processor when a profile is attached
    /// to a channel.
    pub fn init_state(&mut self, profile_uid: &ProfileUID)
        requires
            old(self).wf(),
        ensures
            final(self).wf(),
            final(self).spec_states_installed(profile_uid@),
            final(self).safety_latch.scheduled_settings_metadata@ == old(
                self,
            ).safety_latch.scheduled_settings_metadata@.insert(
                profile_uid@,
                SafetyLatchMetadata { no_duty_set_counter: 255, max_no_duty_set_count: 0 },
            ),
            final(self).standard_pre.channel_settings_metadata@ == old(
                self,
            ).standard_pre.channel_settings_metadata@.insert(
                profile_uid@,
                ChannelSettingMetadataV {
                    temp_hist_stack: Seq::empty(),
                    ideal_stack_size: 0,
                    last_applied_temp: 0,
                },
            ),
            final(self).duty_threshold_post.scheduled_settings_metadata@ == old(
                self,
            ).duty_threshold_post.scheduled_settings_metadata@.insert(profile_uid@, Seq::empty()),
    {
        self.safety_latch.init_state(profile_uid);
        self.standard_pre.init_state(profile_uid);
        self.duty_threshold_post.init_state(profile_uid);
    }

    /// Clears every processor's state when a profile is detached.
    pub fn clear_state(&mut self, profile_uid: &ProfileUID)
        requires
            old(self).wf(),
        ensures
            final(self).wf(),
            final(self).safety_latch.scheduled_settings_metadata@ == old(
                self,
            ).safety_latch.scheduled_settings_metadata@.remove(profile_uid@),
            final(self).standard_pre.channel_settings_metadata@ == old(
                self,
            ).standard_pre.channel_settings_metadata@.remove(profile_uid@),
            final(self).duty_threshold_post.scheduled_settings_metadata@ == old(
                self,
            ).duty_threshold_post.scheduled_settings_metadata@.remove(profile_uid@),
    {
        self.safety_latch.clear_state(profile_uid);
        self.standard_pre.clear_state(profile_uid);
        self.duty_threshold_post.clear_state(profile_uid);
    }

    /// Runs one tick of the chain for one profile and returns the duty to
    /// dispatch, if any. Every emitted duty lies in 0..=100.
    #[verifier::rlimit(100)]
    pub fn process_tick(&mut self, all_devices: &AllDevices, profile: NormalizedGraphProfile) -> (r:
        Option<u8>)
        requires
            old(self).wf(),
            profile.well_formed(),
            old(self).spec_states_installed(profile.profile_uid@),
        ensures
            final(self).wf(),
            final(self).spec_states_installed(profile.profile_uid@),
            ({
                let uid = profile.profile_uid@;
                let (lm2, sm1, dm1, out) = spec_chain_tick(
                    old(self).safety_latch.scheduled_settings_metadata@[uid],
                    old(self).standard_pre.channel_settings_metadata@[uid],
                    old(self).duty_threshold_post.scheduled_settings_metadata@[uid],
                    profile,
                    all_devices,
                );
                &&& final(self).safety_latch.scheduled_settings_metadata@ == old(
                    self,
                ).safety_latch.scheduled_settings_metadata@.insert(uid, lm2)
                &&& final(self).standard_pre.channel_settings_metadata@ == old(
                    self,
                ).standard_pre.channel_settings_metadata@.insert(uid, sm1)
                &&& final(self).duty_threshold_post.scheduled_settings_metadata@ == old(
                    self,
                ).duty_threshold_post.scheduled_settings_metadata@.insert(uid, dm1)
                &&& r == out
            }),
            r is Some ==> r->0 <= 100,
    {
        let ghost uid = profile.profile_uid@;
        let ghost lm0 = old(self).safety_latch.scheduled_settings_metadata@[uid];
        let ghost sm0 = old(self).standard_pre.channel_settings_metadata@[uid];
        let ghost dm0 = old(self).duty_threshold_post.scheduled_settings_metadata@[uid];
        let mut data = SpeedProfileData::new_tick(profile);
        self.safety_latch.process(&mut data);
        let ghost step_begin = spec_latch_step(
            lm0,
            false,
            None,
            false,
            profile.function.response_delay,
            profile.poll_rate_ms,
        );
        let ghost latched = step_begin.1;
        proof {
            assert(self.safety_latch.scheduled_settings_metadata@ == old(
                self,
            ).safety_latch.scheduled_settings_metadata@.insert(uid, step_begin.0));
            assert(data.safety_latch_triggered == latched);
            assert(data.processing_started);
            assert(data.temp is None);
            assert(data.duty is None);
            assert(data.profile == profile);
        }
        if self.identity_pre.is_applicable(&data) {
            self.identity_pre.process(all_devices, &mut data);
        }
        if self.standard_pre.is_applicable(&data) {
            self.standard_pre.process(all_devices, &mut data);
        }
        if self.ema_pre.is_applicable(&data) {
            self.ema_pre.process(all_devices, &mut data);
        }
        let ghost pre = spec_pre_process(sm0, profile, all_devices, latched);
        proof {
            lemma_insert_same(old(self).standard_pre.channel_settings_metadata@, uid);
            assert(self.standard_pre.channel_settings_metadata@ == old(
                self,
            ).standard_pre.channel_settings_metadata@.insert(uid, pre.0));
            assert(data.temp == pre.1);
            assert(data.duty is None);
            assert(data.safety_latch_triggered == latched);
            assert(data.processing_started);
            assert(data.profile == profile);
        }
        if self.graph.is_applicable(&data) {
            self.graph.process(&mut data);
        }
        let ghost duty0 = match pre.1 {
            None => None::<u8>,
            Some(t) => Some(spec_interpolate(profile.speed_profile@, t)),
        };
        proof {
            assert(data.duty == duty0);
            assert(data.temp == pre.1);
            assert(duty0 is Some ==> duty0->0 <= 100);
        }
        if self.duty_threshold_post.is_applicable(&data) {
            self.duty_threshold_post.process(&mut data);
        }
        let ghost gated = match duty0 {
            None => (dm0, None::<u8>),
            Some(d) => spec_threshold_step(
                dm0,
                d,
                profile.function.duty_minimum,
                profile.function.duty_maximum,
                latched,
            ),
        };
        proof {
            lemma_insert_same(old(self).duty_threshold_post.scheduled_settings_metadata@, uid);
            assert(self.duty_threshold_post.scheduled_settings_metadata@ == old(
                self,
            ).duty_threshold_post.scheduled_settings_metadata@.insert(uid, gated.0));
            assert(data.duty == gated.1);
            assert(data.safety_latch_triggered == latched);
            assert(data.processing_started);
            assert(data.profile == profile);
        }
        self.safety_latch.process(&mut data);
        let ghost step_end = spec_latch_step(
            step_begin.0,
            true,
            gated.1,
            latched,
            profile.function.response_delay,
            profile.poll_rate_ms,
        );
        proof {
            lemma_insert_twice(
                old(self).safety_latch.scheduled_settings_metadata@,
                uid,
                step_begin.0,
                step_end.0,
            );
            assert(self.safety_latch.scheduled_settings_metadata@ == old(
                self,
            ).safety_latch.scheduled_settings_metadata@.insert(uid, step_end.0));
            assert(data.duty == gated.1);
            let (lm2, sm1, dm1, out) = spec_chain_tick(lm0, sm0, dm0, profile, all_devices);
            assert(lm2 == step_end.0);
            assert(sm1 == pre.0);
            assert(dm1 == gated.0);
            assert(out == gated.1);
        }
        data.duty
    }
}

/// Re-inserting a key's own value leaves a map unchanged.
proof fn lemma_insert_same<V>(m: Map<Seq<char>, V>, k: Seq<char>)
    requires
        m.dom().contains(k),
    ensures
        m.insert(k, m[k]) == m,
{
    assert(m.insert(k, m[k]) =~= m);
}

/// Two inserts at one key keep the later value.
proof fn lemma_insert_twice<V>(m: Map<Seq<char>, V>, k: Seq<char>, v1: V, v2: V)
    ensures
        m.insert(k, v1).insert(k, v2) == m.insert(k, v2),
{
    assert(m.insert(k, v1).insert(k, v2) =~= m.insert(k, v2));
}

/// The safety latch guarantees liveness: on a tick whose duty-less counter
/// has reached the watchdog limit, the chain emits a duty — whatever the
/// hysteresis band or the duty thresholds would otherwise suppress — and
/// the counter restarts at zero. On a tick that emits nothing the counter
/// grows by one, so a duty is emitted at least once every
/// `max_no_duty_set_count + 1` ticks.
///
/// The Identity function needs a source with at least one snapshot (or a
/// missing source, which reads as the emergency temperature): a present
/// device with an empty history yields no temperature and no duty.
pub proof fn lemma_safety_latch_forces_duty(
    lm: SafetyLatchMetadata,
    sm: ChannelSettingMetadataV,
    dm: Seq<u8>,
    profile: NormalizedGraphProfile,
    all_devices: &AllDevices,
)
    requires
        profile.well_formed(),
        spec_function_config_complete(&profile),
        profile.function.f_type == FunctionType::Identity
            && all_devices.spec_has_device(profile.temp_source.device_uid@)
            ==> all_devices.spec_history_of(profile.temp_source.device_uid@).len() > 0,
        lm.no_duty_set_counter >= (if lm.max_no_duty_set_count == 0 {
            crate::postprocessors::spec_initial_max_count(
                profile.function.response_delay,
                profile.poll_rate_ms,
            )
        } else {
            lm.max_no_duty_set_count
        }),
    ensures
        spec_chain_tick(lm, sm, dm, profile, all_devices).3 is Some,
        spec_chain_tick(lm, sm, dm, profile, all_devices).0.no_duty_set_counter == 0,
{
}

/// A tick that emits no duty advances the watchdog counter by exactly one
/// (saturating at 255), and never touches the limit once set.
pub proof fn lemma_latch_counter_advances(
    lm: SafetyLatchMetadata,
    sm: ChannelSettingMetadataV,
    dm: Seq<u8>,
    profile: NormalizedGraphProfile,
    all_devices: &AllDevices,
)
    requires
        profile.well_formed(),
    ensures
        ({
            let (lm2, _sm1, _dm1, out) = spec_chain_tick(lm, sm, dm, profile, all_devices);
            &&& out is Some ==> lm2.no_duty_set_counter == 0
            &&& out is None ==> lm2.no_duty_set_counter == (if lm.no_duty_set_counter < 255 {
                lm.no_duty_set_counter + 1
            } else {
                255
            })
        }),
{
}

/// Re-evaluating an unchanged situation yields no further duty change:
/// when the tick is not latched and the evaluated duty equals the last
/// applied one, the chain emits nothing and the duty memory is unchanged.
pub proof fn lemma_unchanged_duty_suppressed(
    lm: SafetyLatchMetadata,
    sm: ChannelSettingMetadataV,
    dm: Seq<u8>,
    profile: NormalizedGraphProfile,
    all_devices: &AllDevices,
)
    requires
        profile.well_formed(),
        lm.max_no_duty_set_count > 0,
        lm.no_duty_set_counter < lm.max_no_duty_set_count,
        dm.len() > 0,
        ({
            let (lm1, latched, _s) = spec_latch_step(
                lm,
                false,
                None,
                false,
                profile.function.response_delay,
                profile.poll_rate_ms,
            );
            let (_sm1, temp) = spec_pre_process(sm, profile, all_devices, latched);
            temp matches Some(t) && spec_interpolate(profile.speed_profile@, t) == dm.last()
        }),
    ensures
        spec_chain_tick(lm, sm, dm, profile, all_devices).3 is None,
        spec_chain_tick(lm, sm, dm, profile, all_devices).2 == dm,
{
    let (lm1, latched, _s) = spec_latch_step(
        lm,
        false,
        None,
        false,
        profile.function.response_delay,
        profile.poll_rate_ms,
    );
    assert(!latched);
    let (_sm1, temp) = spec_pre_process(sm, profile, all_devices, latched);
    let t = temp->0;
    let d = spec_interpolate(profile.speed_profile@, t);
    assert(abs(d - dm.last()) == 0);
}

/// Every duty the chain emits respects the channel's change thresholds:
/// it never moves more than `duty_maximum` away from the last applied
/// duty, and when the safety latch is not set it moves at least
/// `duty_minimum`. The first application, with nothing remembered yet, is
/// unconstrained.
pub proof fn lemma_chain_duty_thresholds(
    lm: SafetyLatchMetadata,
    sm: ChannelSettingMetadataV,
    dm: Seq<u8>,
    profile: NormalizedGraphProfile,
    all_devices: &AllDevices,
)
    requires
        profile.well_formed(),
        forall|i: int| 0 <= i < dm.len() ==> #[trigger] dm[i] <= 100,
    ensures
        ({
            let (lm1, latched, _s) = spec_latch_step(
                lm,
                false,
                None,
                false,
                profile.function.response_delay,
                profile.poll_rate_ms,
            );
            let (lm2, sm1, dm1, out) = spec_chain_tick(lm, sm, dm, profile, all_devices);
            &&& out is Some ==> out->0 <= 100
            &&& dm.len() > 0 && out is Some ==> abs(out->0 - dm.last()) <= profile.function.duty_maximum
            &&& dm.len() > 0 && !latched && out is Some ==> abs(out->0 - dm.last())
                >= profile.function.duty_minimum
        }),
{
    let (lm1, latched, _s) = spec_latch_step(
        lm,
        false,
        None,
        false,
        profile.function.response_delay,
        profile.poll_rate_ms,
    );
    let (_sm1, temp) = spec_pre_process(sm, profile, all_devices, latched);
    match temp {
        None => {},
        Some(t) => {
            let d = spec_interpolate(profile.speed_profile@, t);
            crate::graph::lemma_interpolate_bounds(profile.speed_profile@, t);
            crate::postprocessors::lemma_duty_threshold_bounds(
                dm,
                d,
                profile.function.duty_minimum,
                profile.function.duty_maximum,
                latched,
            );
        },
    }
}


/// A run of consecutive chain ticks for one profile: the device snapshots
/// each tick observes, applied in order, and the duty each tick emitted.
pub open spec fn spec_chain_run(
    lm: SafetyLatchMetadata,
    sm: ChannelSettingMetadataV,
    dm: Seq<u8>,
    profile: NormalizedGraphProfile,
    envs: Seq<AllDevices>,
) -> (SafetyLatchMetadata, ChannelSettingMetadataV, Seq<u8>, Seq<Option<u8>>)
    decreases envs.len(),
{
    if envs.len() == 0 {
        (lm, sm, dm, Seq::empty())
    } else {
        let first = spec_chain_tick(lm, sm, dm, profile, &envs[0]);
        let rest = spec_chain_run(first.0, first.1, first.2, profile, envs.drop_first());
        (rest.0, rest.1, rest.2, seq![first.3] + rest.3)
    }
}

/// The per-tick premise the liveness law needs of each observed snapshot:
/// an Identity profile's present source must have some history (a missing
/// source reads as the emergency temperature and is fine).
pub open spec fn spec_tick_env_ok(profile: NormalizedGraphProfile, env: &AllDevices) -> bool {
    profile.function.f_type == FunctionType::Identity && env.spec_has_device(
        profile.temp_source.device_uid@,
    ) ==> env.spec_history_of(profile.temp_source.device_uid@).len() > 0
}

/// The liveness law of the safety latch, over whole runs: once the
/// watchdog limit is set, every window of `max_no_duty_set_count + 1`
/// consecutive ticks emits at least one duty, however stable the input
/// and whatever the thresholds suppressed.
pub proof fn lemma_duty_emitted_within_window(
    lm: SafetyLatchMetadata,
    sm: ChannelSettingMetadataV,
    dm: Seq<u8>,
    profile: NormalizedGraphProfile,
    envs: Seq<AllDevices>,
)
    requires
        profile.well_formed(),
        spec_function_config_complete(&profile),
        forall|i: int| 0 <= i < envs.len() ==> spec_tick_env_ok(profile, &envs[i]),
        lm.max_no_duty_set_count > 0,
        envs.len() >= lm.max_no_duty_set_count + 1,
    ensures
        exists|i: int|
            0 <= i < envs.len() && (#[trigger] spec_chain_run(lm, sm, dm, profile, envs).3[i])
                is Some,
{
    lemma_duty_emitted_before_deadline(lm, sm, dm, profile, envs);
}

/// The counter-measured core of the liveness law: a duty is emitted
/// within `max - counter + 1` ticks (one tick, when the counter has
/// already reached the limit).
proof fn lemma_duty_emitted_before_deadline(
    lm: SafetyLatchMetadata,
    sm: ChannelSettingMetadataV,
    dm: Seq<u8>,
    profile: NormalizedGraphProfile,
    envs: Seq<AllDevices>,
)
    requires
        profile.well_formed(),
        spec_function_config_complete(&profile),
        forall|i: int| 0 <= i < envs.len() ==> spec_tick_env_ok(profile, &envs[i]),
        lm.max_no_duty_set_count > 0,
        envs.len() >= (if lm.no_duty_set_counter >= lm.max_no_duty_set_count {
            1int
        } else {
            lm.max_no_duty_set_count - lm.no_duty_set_counter + 1
        }),
    ensures
        exists|i: int|
            0 <= i < envs.len() && (#[trigger] spec_chain_run(lm, sm, dm, profile, envs).3[i])
                is Some,
    decreases envs.len(),
{
    let run = spec_chain_run(lm, sm, dm, profile, envs);
    let first = spec_chain_tick(lm, sm, dm, profile, &envs[0]);
    lemma_run_outputs_len(lm, sm, dm, profile, envs);
    if lm.no_duty_set_counter >= lm.max_no_duty_set_count {
        lemma_safety_latch_forces_duty(lm, sm, dm, profile, &envs[0]);
        assert(run.3[0] == first.3);
        assert(run.3[0] is Some);
    } else if first.3 is Some {
        assert(run.3[0] == first.3);
        assert(run.3[0] is Some);
    } else {
        lemma_latch_counter_advances(lm, sm, dm, profile, &envs[0]);
        assert(first.0.no_duty_set_counter == lm.no_duty_set_counter + 1);
        assert(first.0.max_no_duty_set_count == lm.max_no_duty_set_count);
        assert(forall|i: int|
            0 <= i < envs.drop_first().len() ==> spec_tick_env_ok(
                profile,
                &envs.drop_first()[i],
            ));
        lemma_duty_emitted_before_deadline(
            first.0,
            first.1,
            first.2,
            profile,
            envs.drop_first(),
        );
        let rest = spec_chain_run(first.0, first.1, first.2, profile, envs.drop_first());
        let w = choose|w: int| 0 <= w < envs.drop_first().len() && (#[trigger] rest.3[w]) is Some;
        assert(run.3[w + 1] == rest.3[w]);
        assert(run.3[w + 1] is Some);
    }
}

/// A run emits one output per tick.
proof fn lemma_run_outputs_len(
    lm: SafetyLatchMetadata,
    sm: ChannelSettingMetadataV,
    dm: Seq<u8>,
    profile: NormalizedGraphProfile,
    envs: Seq<AllDevices>,
)
    ensures
        spec_chain_run(lm, sm, dm, profile, envs).3.len() == envs.len(),
    decreases envs.len(),
{
    if envs.len() > 0 {
        let first = spec_chain_tick(lm, sm, dm, profile, &envs[0]);
        lemma_run_outputs_len(first.0, first.1, first.2, profile, envs.drop_first());
    }
}


/// The duty memory carries each emission to the next: a tick that emits
/// leaves its duty as the last remembered one, a silent tick leaves the
/// memory untouched, and remembered duties stay within 0..=100. Together
/// with the threshold bounds this pins every change between successive
/// emitted duties on a channel: at most `duty_maximum` apart, at least
/// `duty_minimum` apart unless the tick was safety-latched.
pub proof fn lemma_tick_duty_memory(
    lm: SafetyLatchMetadata,
    sm: ChannelSettingMetadataV,
    dm: Seq<u8>,
    profile: NormalizedGraphProfile,
    all_devices: &AllDevices,
)
    requires
        profile.well_formed(),
        forall|i: int| 0 <= i < dm.len() ==> #[trigger] dm[i] <= 100,
    ensures
        ({
            let (lm2, sm2, dm2, out) = spec_chain_tick(lm, sm, dm, profile, all_devices);
            &&& (out matches Some(d) ==> dm2.len() > 0 && dm2.last() == d)
            &&& (out is None ==> dm2 == dm)
            &&& forall|i: int| 0 <= i < dm2.len() ==> #[trigger] dm2[i] <= 100
        }),
{
    let (lm1, latched, _s) = spec_latch_step(
        lm,
        false,
        None,
        false,
        profile.function.response_delay,
        profile.poll_rate_ms,
    );
    let (_sm1, temp) = spec_pre_process(sm, profile, all_devices, latched);
    match temp {
        None => {},
        Some(t) => {
            let d = spec_interpolate(profile.speed_profile@, t);
            crate::graph::lemma_interpolate_bounds(profile.speed_profile@, t);
            crate::postprocessors::lemma_duty_threshold_bounds(
                dm,
                d,
                profile.function.duty_minimum,
                profile.function.duty_maximum,
                latched,
            );
            let (dm2, out) = spec_threshold_step(
                dm,
                d,
                profile.function.duty_minimum,
                profile.function.duty_maximum,
                latched,
            );
            match out {
                None => {},
                Some(v) => {
                    assert(dm.push(v).last() == v);
                    if dm.push(v).len() > crate::postprocessors::MAX_DUTY_SAMPLE_SIZE as int {
                        assert(dm2 == dm.push(v).skip(1));
                        assert(dm2.last() == v);
                        assert(forall|i: int|
                            0 <= i < dm2.len() ==> #[trigger] dm2[i] == dm.push(v)[i + 1]);
                    }
                },
            }
        },
    }
}

} // verus!
