//! The File custom-sensor validation pipeline. The file read itself is
//! the caller's; these tests hand the outcome in.

use coolercontrold::custom_sensors::{
    get_custom_sensor_file_temp, process_custom_sensor_data_file_current, FileReadError,
};
use coolercontrold::setting::{
    CustomSensor, CustomSensorMixFunctionType, CustomSensorType,
};

fn file_sensor(id: &str, path: Option<&str>) -> CustomSensor {
    CustomSensor {
        id: id.to_string(),
        cs_type: CustomSensorType::File,
        mix_function: CustomSensorMixFunctionType::Min,
        sources: Vec::new(),
        file_path: path.map(|p| p.to_string()),
    }
}

#[test]
fn test_file_temp_status_valid() {
    let cs_name = "test_sensor1".to_string();
    let sensor = file_sensor(&cs_name, Some("/tmp/test_file"));
    let temp = process_custom_sensor_data_file_current(&sensor, Ok(b"30000".to_vec()));
    assert_eq!(temp.name, cs_name);
    assert_eq!(temp.temp, 3000);
}

#[test]
fn test_file_temp_status_invalid() {
    let cs_name = "test_sensor1".to_string();
    let sensor = file_sensor(&cs_name, Some("/tmp/does_not_exist"));
    let temp = process_custom_sensor_data_file_current(&sensor, Err(FileReadError::NotFound));
    assert_eq!(temp.name, cs_name);
    assert_eq!(temp.temp, 0);
}

#[test]
fn test_file_temp_valid() {
    let sensor = file_sensor("", Some("/tmp/test_file"));
    let temp_result = get_custom_sensor_file_temp(&sensor, Ok(b"30000".to_vec()));
    assert!(temp_result.is_ok());
    assert_eq!(temp_result.unwrap(), 3000);
}

#[test]
fn test_file_temp_valid_with_return() {
    let sensor = file_sensor("", Some("/tmp/test_file"));
    let temp_result = get_custom_sensor_file_temp(&sensor, Ok(b" 30000\n\r".to_vec()));
    assert!(temp_result.is_ok());
    assert_eq!(temp_result.unwrap(), 3000);
}

#[test]
fn test_file_temp_not_exist() {
    let sensor = file_sensor("test_sensor1", Some("/tmp/does_not_exist"));
    let temp_result = get_custom_sensor_file_temp(&sensor, Err(FileReadError::NotFound));
    assert!(temp_result.is_err());
    assert!(temp_result
        .map_err(|err| err.message().contains("File not found"))
        .unwrap_err());
}

#[test]
fn test_file_temp_not_present() {
    let sensor = file_sensor("test_sensor1", None);
    let temp_result = get_custom_sensor_file_temp(&sensor, Ok(b"30000".to_vec()));
    assert!(temp_result.is_err());
    assert!(temp_result
        .map_err(|err| err.message().contains("File path not present for custom sensor"))
        .unwrap_err());
}

#[test]
fn test_file_temp_invalid_out_of_range_1() {
    let sensor = file_sensor("", Some("/tmp/test_file"));
    let temp_result = get_custom_sensor_file_temp(&sensor, Ok(b"-1000".to_vec()));
    assert!(temp_result.is_err());
    assert!(temp_result
        .map_err(|err| err.message().contains("File does not contain a reasonable temperature"))
        .unwrap_err());
}

#[test]
fn test_file_temp_invalid_out_of_range_2() {
    let sensor = file_sensor("", Some("/tmp/test_file"));
    let temp_result = get_custom_sensor_file_temp(&sensor, Ok(b"1000000".to_vec()));
    assert!(temp_result.is_err());
    assert!(temp_result
        .map_err(|err| err.message().contains("File does not contain a reasonable temperature"))
        .unwrap_err());
}

#[test]
fn test_file_temp_invalid_format() {
    let sensor = file_sensor("", Some("/tmp/test_file"));
    let temp_result = get_custom_sensor_file_temp(&sensor, Ok(b"asdf".to_vec()));
    assert!(temp_result.is_err());
    assert!(temp_result
        .map_err(|err| err.message().contains("invalid digit"))
        .unwrap_err());
}

#[test]
fn test_file_temp_invalid_too_large_for_i32() {
    let sensor = file_sensor("", Some("/tmp/test_file"));
    let content = (i64::from(i32::MAX) + 1).to_string().into_bytes();
    let temp_result = get_custom_sensor_file_temp(&sensor, Ok(content));
    assert!(temp_result.is_err());
    assert!(temp_result
        .map_err(|err| err.message().contains("number too large"))
        .unwrap_err());
}

#[test]
fn test_file_temp_invalid_file_size_too_large() {
    let sensor = file_sensor("", Some("/tmp/test_file"));
    let content =
        b"100000000000000000000000000000000000000000000000000000000000000000000000000".to_vec();
    let temp_result = get_custom_sensor_file_temp(&sensor, Ok(content));
    assert!(temp_result.is_err());
    assert!(temp_result
        .map_err(|err| err.message().contains("File size too large"))
        .unwrap_err());
}

#[test]
fn test_file_temp_invalid_number_format() {
    let sensor = file_sensor("", Some("/tmp/test_file"));
    let temp_result = get_custom_sensor_file_temp(&sensor, Ok(b"32.5".to_vec()));
    assert!(temp_result.is_err());
    assert!(temp_result
        .map_err(|err| err.message().contains("invalid digit"))
        .unwrap_err());
}

#[test]
fn test_file_temp_invalid_empty() {
    let sensor = file_sensor("", Some("/tmp/test_file"));
    let temp_result = get_custom_sensor_file_temp(&sensor, Ok(b"".to_vec()));
    assert!(temp_result.is_err());
    assert!(temp_result
        .map_err(|err| err.message().contains("empty string"))
        .unwrap_err());
}

#[test]
fn test_file_temp_invalid_blank() {
    let sensor = file_sensor("", Some("/tmp/test_file"));
    let temp_result = get_custom_sensor_file_temp(&sensor, Ok(b" ".to_vec()));
    assert!(temp_result.is_err());
    assert!(temp_result
        .map_err(|err| err.message().contains("empty string"))
        .unwrap_err());
}

/// Content of exactly 15 bytes passes the size check.
#[test]
fn fifteen_byte_content_is_accepted() {
    let sensor = file_sensor("", Some("/tmp/test_file"));
    let content = b"         30000".to_vec();
    assert_eq!(content.len(), 14);
    let padded = b"          30000".to_vec();
    assert_eq!(padded.len(), 15);
    assert_eq!(get_custom_sensor_file_temp(&sensor, Ok(padded)), Ok(3000));
}

/// Content of 16 bytes is rejected for its size alone.
#[test]
fn sixteen_byte_content_is_rejected() {
    let sensor = file_sensor("", Some("/tmp/test_file"));
    let content = b"           30000".to_vec();
    assert_eq!(content.len(), 16);
    let result = get_custom_sensor_file_temp(&sensor, Ok(content));
    assert!(result
        .map_err(|err| err.message().contains("File size too large"))
        .unwrap_err());
}

/// 120000 milli-degrees - 120.0 degrees - is the highest accepted value.
#[test]
fn temperature_range_boundary() {
    let sensor = file_sensor("", Some("/tmp/test_file"));
    assert_eq!(get_custom_sensor_file_temp(&sensor, Ok(b"120000".to_vec())), Ok(12000));
    let rejected = get_custom_sensor_file_temp(&sensor, Ok(b"120001".to_vec()));
    assert!(rejected
        .map_err(|err| err.message().contains("File does not contain a reasonable temperature"))
        .unwrap_err());
}
