//! The Mix custom-sensor functions, over centidegree readings:
//! 1000 stands for 10.00 degrees.

use coolercontrold::custom_sensors::{
    process_mix_avg, process_mix_delta, process_mix_max, process_mix_min,
    process_mix_weighted_avg, TempData,
};

fn data(temps_and_weights: &[(i64, u64)]) -> Vec<TempData> {
    temps_and_weights
        .iter()
        .map(|&(temp, weight)| TempData { temp, weight })
        .collect()
}

#[test]
fn test_calculate_delta() {
    let temp_data = data(&[(1000, 1), (500, 1), (800, 1)]);
    let result = process_mix_delta(&temp_data);
    assert_eq!(result, 500);
}

#[test]
fn test_absolute_value() {
    let temp_data = data(&[(1000, 1), (500, 1), (800, 1)]);
    let result = process_mix_delta(&temp_data);
    assert_eq!(result.abs(), result);
}

#[test]
fn test_empty_vector() {
    let temp_data = data(&[]);
    let result = process_mix_delta(&temp_data);
    assert_eq!(result, 0);
}

#[test]
fn test_same_temperatures() {
    let temp_data = data(&[(1000, 1), (1000, 1), (1000, 1)]);
    let result = process_mix_delta(&temp_data);
    assert_eq!(result, 0);
}

#[test]
fn test_two_elements() {
    let temp_data = data(&[(1000, 1), (500, 1)]);
    let result = process_mix_delta(&temp_data);
    assert_eq!(result, 500);
}

#[test]
fn returns_minimum_temperature() {
    let temp_data = data(&[(2500, 1), (2000, 1), (3000, 1)]);
    let result = process_mix_min(&temp_data);
    assert_eq!(result, 2000);
}

#[test]
fn returns_zero_when_all_temperatures_are_zero() {
    let temp_data = data(&[(0, 1), (0, 1), (0, 1)]);
    let result = process_mix_min(&temp_data);
    assert_eq!(result, 0);
}

#[test]
fn returns_single_temperature_when_only_one_temperature() {
    let temp_data = data(&[(2500, 1)]);
    let result = process_mix_min(&temp_data);
    assert_eq!(result, 2500);
}

#[test]
fn returns_minimum_temperature_with_multiple_same_temperatures() {
    let temp_data = data(&[(2500, 1), (2000, 1), (2000, 1)]);
    let result = process_mix_min(&temp_data);
    assert_eq!(result, 2000);
}

#[test]
fn returns_max_temp_from_positive_values() {
    let temp_data = data(&[(2500, 1), (3000, 1), (2800, 1)]);
    let result = process_mix_max(&temp_data);
    assert_eq!(result, 3000);
}

#[test]
fn returns_0_when_all_temps_are_0() {
    let temp_data = data(&[(0, 1), (0, 1), (0, 1)]);
    let result = process_mix_max(&temp_data);
    assert_eq!(result, 0);
}

#[test]
fn returns_max_temp_when_all_temps_are_same() {
    let temp_data = data(&[(2500, 1), (2500, 1), (2500, 1)]);
    let result = process_mix_max(&temp_data);
    assert_eq!(result, 2500);
}

#[test]
fn returns_0_when_vector_is_empty() {
    let temp_data = data(&[]);
    let result = process_mix_max(&temp_data);
    assert_eq!(result, 0);
}

#[test]
fn returns_max_temp_when_vector_has_one_element() {
    let temp_data = data(&[(3000, 1)]);
    let result = process_mix_max(&temp_data);
    assert_eq!(result, 3000);
}

#[test]
fn returns_max_temp_when_vector_has_two_elements_with_different_temps() {
    let temp_data = data(&[(2500, 1), (3000, 1)]);
    let result = process_mix_max(&temp_data);
    assert_eq!(result, 3000);
}

// 22.22222... degrees rounds to 22.22 in the centidegree model.
#[test]
fn calculates_weighted_average() {
    let temp_data = data(&[(1000, 2), (2000, 3), (3000, 4)]);
    let result = process_mix_weighted_avg(&temp_data);
    assert_eq!(result, 2222);
}

// 11.66666... degrees rounds to 11.67 in the centidegree model.
#[test]
fn returns_correct_weighted_average() {
    let temp_data = data(&[(500, 1), (1000, 2), (1500, 3)]);
    let result = process_mix_weighted_avg(&temp_data);
    assert_eq!(result, 1167);
}

#[test]
fn returns_zero_for_empty_list() {
    let temp_data = data(&[]);
    let result = process_mix_weighted_avg(&temp_data);
    assert_eq!(result, 0);
}

#[test]
fn calculates_average_temperature_correctly() {
    let temp_data = data(&[(1000, 1), (2000, 1), (3000, 1)]);
    let result = process_mix_avg(&temp_data);
    assert_eq!(result, 2000);
}

#[test]
fn returns_zero_for_empty_vector() {
    let temp_data = data(&[]);
    let result = process_mix_avg(&temp_data);
    assert_eq!(result, 0);
}

#[test]
fn returns_single_value_for_vector_of_length_one() {
    let temp_data = data(&[(1500, 1)]);
    let result = process_mix_avg(&temp_data);
    assert_eq!(result, 1500);
}

#[test]
fn weighted_average_with_uniform_weights_equals_average() {
    let temp_data_w = data(&[(1000, 3), (2000, 3), (3100, 3)]);
    let temp_data_a = data(&[(1000, 1), (2000, 1), (3100, 1)]);
    assert_eq!(
        process_mix_weighted_avg(&temp_data_w),
        process_mix_avg(&temp_data_a)
    );
}

#[test]
fn min_of_empty_input_is_the_sentinel() {
    assert_eq!(process_mix_min(&data(&[])), 25400);
}
