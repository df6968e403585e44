use coolercontrold::liquidctl::{
    check_for_legacy_690, dec_string, get_unique_identifiers, pump_mode_for,
    temp_sensor_number_of, DeviceProperties, DeviceResponse, Legacy690Action,
};
use coolercontrold::device::BaseDriver;

fn dev_props() -> DeviceProperties {
    DeviceProperties {
        speed_channels: Vec::new(),
        color_channels: Vec::new(),
        supports_cooling: None,
        supports_cooling_profiles: None,
        supports_lighting: None,
        led_count: None,
        lcd_resolution: None,
    }
}

fn response(id: u8, description: &str, serial: Option<&str>) -> DeviceResponse {
    DeviceResponse {
        id,
        description: description.to_string(),
        device_type: "DeviceType".to_string(),
        serial_number: serial.map(|s| s.to_string()),
        properties: dev_props(),
        liquidctl_version: None,
        hid_address: None,
        hwmon_address: None,
    }
}

fn get(identifiers: &[(u8, String)], id: u8) -> Option<&String> {
    identifiers.iter().find(|(i, _)| *i == id).map(|(_, s)| s)
}

#[test]
fn test_no_devices() {
    let devices_response = vec![];
    let returned_identifiers = get_unique_identifiers(&devices_response);
    assert!(returned_identifiers.is_empty());
}

#[test]
fn test_all_serials_unique() {
    let devices_response = vec![
        response(1, "3", Some("serial1")),
        response(2, "3", Some("serial2")),
    ];
    let returned_identifiers = get_unique_identifiers(&devices_response);
    assert_eq!(returned_identifiers.len(), 2);
    assert_eq!(get(&returned_identifiers, 1), Some(&"serial1".to_string()));
    assert_eq!(get(&returned_identifiers, 2), Some(&"serial2".to_string()));
}

#[test]
fn test_duplicate_serial_unique_names() {
    let devices_response = vec![
        response(1, "name1", Some("serial")),
        response(2, "name2", Some("serial")),
    ];
    let returned_identifiers = get_unique_identifiers(&devices_response);
    assert_eq!(returned_identifiers.len(), 2);
    assert_eq!(get(&returned_identifiers, 1), Some(&"serialname1".to_string()));
    assert_eq!(get(&returned_identifiers, 2), Some(&"serialname2".to_string()));
}

#[test]
fn test_duplicate_serial_duplicate_names() {
    let devices_response = vec![
        response(1, "name", Some("serial")),
        response(2, "name", Some("serial")),
    ];
    let returned_identifiers = get_unique_identifiers(&devices_response);
    assert_eq!(returned_identifiers.len(), 2);
    assert_eq!(get(&returned_identifiers, 1), Some(&"name1".to_string()));
    assert_eq!(get(&returned_identifiers, 2), Some(&"name2".to_string()));
}

#[test]
fn test_mix_of_duplicates() {
    let devices_response = vec![
        response(1, "name1", Some("serial1")),
        response(2, "name", Some("serial")),
        response(3, "othername", Some("serial")),
        response(4, "name", Some("serial")),
    ];
    let returned_identifiers = get_unique_identifiers(&devices_response);
    assert_eq!(returned_identifiers.len(), 4);
    assert_eq!(get(&returned_identifiers, 1), Some(&"serial1".to_string()));
    assert_eq!(get(&returned_identifiers, 2), Some(&"name2".to_string()));
    assert_eq!(get(&returned_identifiers, 3), Some(&"serialothername".to_string()));
    assert_eq!(get(&returned_identifiers, 4), Some(&"name4".to_string()));
}

#[test]
fn dec_string_renders_decimal() {
    assert_eq!(dec_string(0), "0");
    assert_eq!(dec_string(7), "7");
    assert_eq!(dec_string(42), "42");
    assert_eq!(dec_string(255), "255");
}

#[test]
fn pump_mode_thresholds_hydro_platinum() {
    let pump = "pump".to_string();
    assert_eq!(
        pump_mode_for(BaseDriver::HydroPlatinum, &pump, 55),
        Some("quiet".to_string())
    );
    assert_eq!(
        pump_mode_for(BaseDriver::HydroPlatinum, &pump, 56),
        Some("balanced".to_string())
    );
    assert_eq!(
        pump_mode_for(BaseDriver::HydroPlatinum, &pump, 76),
        Some("extreme".to_string())
    );
    assert_eq!(pump_mode_for(BaseDriver::KrakenZ3, &pump, 50), None);
    let fan = "fan1".to_string();
    assert_eq!(pump_mode_for(BaseDriver::HydroPlatinum, &fan, 50), None);
}

#[test]
fn pump_mode_thresholds_hydro_pro() {
    let pump = "pump".to_string();
    assert_eq!(
        pump_mode_for(BaseDriver::HydroPro, &pump, 33),
        Some("quiet".to_string())
    );
    assert_eq!(
        pump_mode_for(BaseDriver::HydroPro, &pump, 50),
        Some("balanced".to_string())
    );
    assert_eq!(
        pump_mode_for(BaseDriver::HydroPro, &pump, 67),
        Some("performance".to_string())
    );
}

#[test]
fn temp_sensor_number_from_trailing_digits() {
    assert_eq!(temp_sensor_number_of(&b"temp3".to_vec()), Ok(Some(3)));
    assert_eq!(temp_sensor_number_of(&b"sensor 12".to_vec()), Ok(Some(12)));
    assert_eq!(temp_sensor_number_of(&b"liquid".to_vec()), Ok(None));
    assert!(temp_sensor_number_of(&b"t999".to_vec()).is_err());
}

#[test]
fn legacy_690_decision_preserves_unknown() {
    assert_eq!(
        check_for_legacy_690(BaseDriver::Modern690Lc, Some(true)),
        Legacy690Action::RequestHelperSwap
    );
    assert_eq!(
        check_for_legacy_690(BaseDriver::Modern690Lc, Some(false)),
        Legacy690Action::NoChange
    );
    assert_eq!(
        check_for_legacy_690(BaseDriver::Modern690Lc, None),
        Legacy690Action::MarkUnknown
    );
    assert_eq!(
        check_for_legacy_690(BaseDriver::KrakenZ3, None),
        Legacy690Action::NoChange
    );
}
