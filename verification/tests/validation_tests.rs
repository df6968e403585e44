//! Configuration-time validation: function duty clamps and profile
//! normalization.

use coolercontrold::device::{clamp_duty_to_channel, SpeedOptions};
use coolercontrold::graph::interpolate_profile;
use coolercontrold::profile::NormalizedGraphProfile;
use coolercontrold::setting::{validate_function, Function, FunctionType, TempSource};

fn function(duty_minimum: u8, duty_maximum: u8) -> Function {
    Function {
        uid: "f".to_string(),
        f_type: FunctionType::Identity,
        response_delay: None,
        deviance: None,
        only_downward: None,
        sample_window: None,
        duty_minimum,
        duty_maximum,
    }
}

#[test]
fn legal_duty_extremes_are_accepted() {
    assert!(validate_function(&function(1, 100)).is_ok());
    assert!(validate_function(&function(1, 2)).is_ok());
    assert!(validate_function(&function(99, 100)).is_ok());
}

#[test]
fn inverted_or_out_of_range_clamps_are_rejected() {
    assert!(validate_function(&function(0, 100)).is_err());
    assert!(validate_function(&function(1, 101)).is_err());
    assert!(validate_function(&function(1, 1)).is_err());
    assert!(validate_function(&function(50, 50)).is_err());
    assert!(validate_function(&function(60, 50)).is_err());
}

fn normalize(curve: Vec<(i64, u8)>) -> Result<NormalizedGraphProfile, coolercontrold::CCError> {
    NormalizedGraphProfile::normalize(
        "p".to_string(),
        "P".to_string(),
        curve,
        TempSource { device_uid: "d".to_string(), temp_name: "t".to_string() },
        function(1, 100),
        1000,
    )
}

#[test]
fn speed_profile_must_increase_strictly() {
    assert!(normalize(vec![(3000, 20), (6000, 80)]).is_ok());
    assert!(normalize(vec![(3000, 20), (3000, 80)]).is_err());
    assert!(normalize(vec![(6000, 20), (3000, 80)]).is_err());
    assert!(normalize(vec![]).is_err());
    assert!(normalize(vec![(3000, 101)]).is_err());
}

#[test]
fn interpolation_clamps_and_rounds() {
    let curve = vec![(3000i64, 20u8), (6000, 80)];
    assert_eq!(interpolate_profile(&curve, 2000), 20);
    assert_eq!(interpolate_profile(&curve, 3000), 20);
    assert_eq!(interpolate_profile(&curve, 3600), 32);
    assert_eq!(interpolate_profile(&curve, 4500), 50);
    assert_eq!(interpolate_profile(&curve, 6000), 80);
    assert_eq!(interpolate_profile(&curve, 9000), 80);
    // 33.33 C: 20 + 333.33.. / 3000 * 60 rounds from 26.66.. to 27.
    assert_eq!(interpolate_profile(&curve, 3333), 27);
}

#[test]
fn dispatched_duty_respects_channel_speed_options() {
    let options = SpeedOptions {
        min_duty: 20,
        max_duty: 90,
        profiles_enabled: true,
        fixed_enabled: true,
        manual_profiles_enabled: true,
    };
    assert_eq!(clamp_duty_to_channel(5, &options), 20);
    assert_eq!(clamp_duty_to_channel(50, &options), 50);
    assert_eq!(clamp_duty_to_channel(100, &options), 90);
}
