//! End-to-end ticks of the processor chain: hysteresis, the duty
//! thresholds, and the safety latch. Temperatures are centidegrees.

use coolercontrold::chain::ProcessorChain;
use coolercontrold::device::{
    Device, DeviceInfo, DeviceType, DriverInfo, DriverType, Status, TempStatus,
};
use coolercontrold::profile::{AllDevices, NormalizedGraphProfile};
use coolercontrold::setting::{Function, FunctionType, TempSource};

fn empty_info() -> DeviceInfo {
    DeviceInfo {
        channels: Vec::new(),
        temps: Vec::new(),
        lighting_speeds: Vec::new(),
        temp_min: 0,
        temp_max: 100,
        profile_max_length: 21,
        profile_min_length: 2,
        driver_info: DriverInfo {
            drv_type: DriverType::Kernel,
            name: None,
            version: None,
            locations: Vec::new(),
        },
    }
}

fn status_with(temp: i64) -> Status {
    Status {
        temps: vec![TempStatus { name: "temp1".to_string(), temp }],
        channels: Vec::new(),
    }
}

fn source_device(initial_temp: i64) -> AllDevices {
    let mut device = Device::new(
        "source".to_string(),
        DeviceType::Hwmon,
        1,
        None,
        empty_info(),
        Some("source-uid".to_string()),
    );
    device.initialize_status_history_with(status_with(initial_temp), 1000);
    AllDevices { devices: vec![device] }
}

fn standard_function(response_delay: u8, deviance: i64, only_downward: bool) -> Function {
    Function {
        uid: "f1".to_string(),
        f_type: FunctionType::Standard,
        response_delay: Some(response_delay),
        deviance: Some(deviance),
        only_downward: Some(only_downward),
        sample_window: None,
        duty_minimum: 2,
        duty_maximum: 20,
    }
}

fn identity_function() -> Function {
    Function {
        uid: "f2".to_string(),
        f_type: FunctionType::Identity,
        response_delay: None,
        deviance: None,
        only_downward: None,
        sample_window: None,
        duty_minimum: 2,
        duty_maximum: 100,
    }
}

fn graph_profile(function: Function) -> NormalizedGraphProfile {
    NormalizedGraphProfile::normalize(
        "p1".to_string(),
        "Profile One".to_string(),
        vec![(3000, 20), (6000, 80)],
        TempSource {
            device_uid: "source-uid".to_string(),
            temp_name: "temp1".to_string(),
        },
        function,
        1000,
    )
    .unwrap()
}

/// A temperature step must persist for the response delay before it
/// propagates: the cold start applies immediately, the band suppresses
/// the ramp, and the first sample to leave the delay buffer outside the
/// band is applied.
#[test]
fn hysteresis_step_response() {
    let mut devices = source_device(3000);
    let profile = graph_profile(standard_function(4, 100, false));
    let mut chain = ProcessorChain::new();
    chain.init_state(&"p1".to_string());

    let ramp: Vec<i64> = vec![3000, 3500, 3600, 3600, 3600, 3600, 3600];
    let mut duties: Vec<Option<u8>> = Vec::new();
    for (tick, temp) in ramp.iter().enumerate() {
        if tick > 0 {
            devices.devices[0].set_status(status_with(*temp));
        }
        duties.push(chain.process_tick(&devices, profile.clone()));
    }
    // Cold start: 30.00 C interpolates to duty 20.
    assert_eq!(duties[0], Some(20));
    // Within the five-sample delay buffer nothing changes.
    assert_eq!(duties[1], None);
    assert_eq!(duties[2], None);
    assert_eq!(duties[3], None);
    assert_eq!(duties[4], None);
    // The 35.00 C sample leaves the buffer outside the band: duty 30.
    assert_eq!(duties[5], Some(30));
    // 36.00 C is within one degree of 35.00 C: held by the band.
    assert_eq!(duties[6], None);
}

/// With a stable input every duty repeats and is suppressed, until the
/// safety latch forces a reassertion after thirty duty-less ticks.
#[test]
fn safety_latch_forces_periodic_duty() {
    let mut devices = source_device(4000);
    let profile = graph_profile(identity_function());
    let mut chain = ProcessorChain::new();
    chain.init_state(&"p1".to_string());

    let mut duties: Vec<Option<u8>> = Vec::new();
    for tick in 0..33 {
        if tick > 0 {
            devices.devices[0].set_status(status_with(4000));
        }
        duties.push(chain.process_tick(&devices, profile.clone()));
    }
    // 40.00 C interpolates to duty 40.
    assert_eq!(duties[0], Some(40));
    for tick in 1..=30 {
        assert_eq!(duties[tick], None, "tick {tick} should be suppressed");
    }
    // Thirty duty-less ticks reach the watchdog limit: reassert.
    assert_eq!(duties[31], Some(40));
    assert_eq!(duties[32], None);
}

/// Re-running an unchanged profile on an unchanged reading emits nothing.
#[test]
fn unchanged_profile_emits_no_further_duty() {
    let devices = source_device(4000);
    let profile = graph_profile(identity_function());
    let mut chain = ProcessorChain::new();
    chain.init_state(&"p1".to_string());

    assert_eq!(chain.process_tick(&devices, profile.clone()), Some(40));
    assert_eq!(chain.process_tick(&devices, profile.clone()), None);
    assert_eq!(chain.process_tick(&devices, profile), None);
}

/// A missing source device reads as the emergency temperature, well above
/// the curve: the duty pegs at the top breakpoint.
#[test]
fn missing_device_emits_emergency_duty() {
    let devices = AllDevices { devices: Vec::new() };
    let profile = graph_profile(identity_function());
    let mut chain = ProcessorChain::new();
    chain.init_state(&"p1".to_string());
    assert_eq!(chain.process_tick(&devices, profile), Some(80));
}

/// An upward step beyond the maximum change is clamped to the maximum.
#[test]
fn duty_threshold_clamps_large_changes() {
    let mut devices = source_device(3000);
    let profile = graph_profile(standard_function(0, 0, false));
    let mut chain = ProcessorChain::new();
    chain.init_state(&"p1".to_string());

    assert_eq!(chain.process_tick(&devices, profile.clone()), Some(20));
    // The step enters the two-sample delay buffer first.
    devices.devices[0].set_status(status_with(6000));
    assert_eq!(chain.process_tick(&devices, profile.clone()), None);
    devices.devices[0].set_status(status_with(6000));
    // 60.00 C asks for duty 80; the change is clamped to 20 + 20 = 40.
    assert_eq!(chain.process_tick(&devices, profile.clone()), Some(40));
}
