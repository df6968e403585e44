//! The exponential-moving-average shaping, in centidegrees: 2005 stands
//! for 20.05 degrees.

use coolercontrold::ema::current_temp_from_exponential_moving_average;
use yata::methods::TMA;
use yata::prelude::Method;

#[test]
fn functions_current_temp_from_exponential_moving_average_test() {
    let given_expected: Vec<(Vec<i64>, i64)> = vec![
        (vec![2000, 2500], 2005),
        (
            vec![2000, 2500, 3000, 9000, 9000, 9000, 3000, 3000, 3000, 3000],
            3586,
        ),
        (vec![3000, 3000, 3000, 3000], 3000),
    ];
    for (given, expected) in given_expected {
        assert_eq!(
            current_temp_from_exponential_moving_average(&given, None),
            expected
        );
    }
}

#[test]
fn function_processors_current_temp_from_exponential_moving_average_test() {
    let given_expected: Vec<(Vec<i64>, i64)> = vec![
        (vec![2000, 2500], 2005),
        (
            vec![2000, 2500, 3000, 9000, 9000, 9000, 3000, 3000, 3000, 3000],
            3586,
        ),
        (vec![3000, 3000, 3000, 3000], 3000),
    ];
    for (given, expected) in given_expected {
        assert_eq!(
            current_temp_from_exponential_moving_average(&given, None),
            expected
        );
    }
}

/// The fixed-point smoothing agrees with the floating-point triple
/// exponential moving average it models, rounded to two decimals.
#[test]
fn ema_matches_floating_point_reference() {
    let samples: Vec<Vec<f64>> = vec![
        vec![20.0, 25.0],
        vec![20.0, 25.0, 30.0, 90.0, 90.0, 90.0, 30.0, 30.0, 30.0, 30.0],
        vec![30.0, 30.0, 30.0, 30.0],
        vec![21.37, 22.5, 19.99, 45.03, 44.44],
        vec![55.5],
    ];
    for temps in samples {
        let reference =
            (TMA::new_over(8, temps.as_slice()).unwrap().last().copied().unwrap() * 100.0)
                .round() as i64;
        let centi: Vec<i64> = temps.iter().map(|t| (t * 100.0).round() as i64).collect();
        let ours = current_temp_from_exponential_moving_average(&centi, None);
        assert_eq!(ours, reference, "for input {temps:?}");
    }
}

#[test]
fn ema_of_constant_signal_is_the_constant() {
    let temps = vec![4217; 20];
    assert_eq!(current_temp_from_exponential_moving_average(&temps, Some(5)), 4217);
}

#[test]
fn ema_uses_only_the_latest_sixteen_samples() {
    let mut long = vec![9999; 30];
    long.extend(vec![2000; 16]);
    let short = vec![2000; 16];
    assert_eq!(
        current_temp_from_exponential_moving_average(&long, None),
        current_temp_from_exponential_moving_average(&short, None)
    );
}
