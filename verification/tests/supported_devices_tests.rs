//! The liquidctl device-support builders and the screen-request plan.

use coolercontrold::device::BaseDriver;
use coolercontrold::liquidctl::{
    create_status_map, map_driver_type, screen_requests_for, DeviceProperties, DeviceResponse,
    LiquidctlRepo,
};
use coolercontrold::setting::LcdSettings;
use coolercontrold::supported_devices::{HydroPlatinumSupport, SmartDevice2Support};
use coolercontrold::device::{Device, DeviceType, LcInfo};

fn response_with_channels(speed: &[&str], color: &[&str]) -> DeviceResponse {
    DeviceResponse {
        id: 1,
        description: "Cooler".to_string(),
        device_type: "HydroPlatinum".to_string(),
        serial_number: None,
        properties: DeviceProperties {
            speed_channels: speed.iter().map(|s| s.to_string()).collect(),
            color_channels: color.iter().map(|s| s.to_string()).collect(),
            supports_cooling: Some(true),
            supports_cooling_profiles: None,
            supports_lighting: Some(true),
            led_count: Some(16),
            lcd_resolution: None,
        },
        liquidctl_version: Some("1.13.0".to_string()),
        hid_address: Some("/dev/hidraw2".to_string()),
        hwmon_address: None,
    }
}

#[test]
fn map_driver_type_knows_the_supported_families() {
    let mut resp = response_with_channels(&[], &[]);
    assert_eq!(map_driver_type(&resp), Some(BaseDriver::HydroPlatinum));
    resp.device_type = "SmartDevice2".to_string();
    assert_eq!(map_driver_type(&resp), Some(BaseDriver::SmartDevice2));
    resp.device_type = "SomethingElse".to_string();
    assert_eq!(map_driver_type(&resp), None);
}

#[test]
fn hydro_platinum_catalog() {
    let mut support = HydroPlatinumSupport::new();
    let resp = response_with_channels(&["fan1", "fan2"], &["led"]);
    let info = support.extract_info(&resp);
    assert_eq!(support.led_count, 16);
    assert_eq!(info.temp_min, 20);
    assert_eq!(info.temp_max, 60);
    assert_eq!(info.profile_max_length, 7);
    assert_eq!(info.channels.len(), 4);
    assert_eq!(info.channels[0].0, "pump");
    let pump = info.channels[0].1.speed_options.unwrap();
    assert_eq!(pump.min_duty, 20);
    assert!(!pump.profiles_enabled);
    let fan = info.channels[1].1.speed_options.unwrap();
    assert_eq!(fan.min_duty, 0);
    assert!(fan.profiles_enabled);
    assert_eq!(info.channels[3].1.lighting_modes.len(), 3);
    assert_eq!(info.channels[3].1.lighting_modes[2].max_colors, 16);
    assert_eq!(info.driver_info.name, Some("HydroPlatinum".to_string()));
    assert_eq!(info.driver_info.locations, vec!["/dev/hidraw2".to_string()]);
}

#[test]
fn smart_device_2_catalog_remembers_speed_channels() {
    let mut support = SmartDevice2Support::new();
    let mut resp = response_with_channels(&["fan1", "fan2", "fan3"], &["led1"]);
    resp.device_type = "SmartDevice2".to_string();
    let info = support.extract_info(&resp);
    assert_eq!(info.channels.len(), 4);
    let fan = info.channels[0].1.speed_options.unwrap();
    assert!(fan.fixed_enabled);
    assert!(!fan.profiles_enabled);
    assert_eq!(info.channels[3].1.lighting_modes.len(), 27);
    assert_eq!(info.lighting_speeds.len(), 5);
    assert_eq!(support.init_speed_channel_map.len(), 1);
    assert_eq!(support.init_speed_channel_map[0].0, 1);
    assert_eq!(support.init_speed_channel_map[0].1.len(), 3);
}

#[test]
fn status_map_lowercases_keys() {
    let statuses = vec![
        ("Liquid Temperature".to_string(), "33.1".to_string()),
        ("Fan Speed".to_string(), "980".to_string()),
    ];
    let mapped = create_status_map(&statuses);
    assert_eq!(mapped[0].0, "liquid temperature");
    assert_eq!(mapped[0].1, "33.1");
    assert_eq!(mapped[1].0, "fan speed");
}

#[test]
fn screen_requests_follow_the_settings() {
    let lcd = LcdSettings {
        mode: "image".to_string(),
        brightness: Some(50),
        orientation: Some(90),
        image_file_processed: Some("/tmp/image.gif".to_string()),
    };
    let requests = screen_requests_for(&lcd);
    assert_eq!(requests.len(), 3);
    assert_eq!(requests[0].mode, "brightness");
    assert_eq!(requests[0].value, Some("50".to_string()));
    assert_eq!(requests[1].mode, "orientation");
    assert_eq!(requests[1].value, Some("90".to_string()));
    assert_eq!(requests[2].mode, "gif");
    assert_eq!(requests[2].value, Some("/tmp/image.gif".to_string()));

    let liquid = LcdSettings {
        mode: "liquid".to_string(),
        brightness: None,
        orientation: None,
        image_file_processed: None,
    };
    let requests = screen_requests_for(&liquid);
    assert_eq!(requests.len(), 1);
    assert_eq!(requests[0].mode, "liquid");
    assert_eq!(requests[0].value, None);

    let static_image = LcdSettings {
        mode: "image".to_string(),
        brightness: None,
        orientation: None,
        image_file_processed: Some("/tmp/cover.png".to_string()),
    };
    let requests = screen_requests_for(&static_image);
    assert_eq!(requests.len(), 1);
    assert_eq!(requests[0].mode, "static");
}

#[test]
fn repo_collects_driver_locations_and_caches_device_data() {
    let mut support = HydroPlatinumSupport::new();
    let resp = response_with_channels(&["fan1"], &[]);
    let info = support.extract_info(&resp);
    let device = Device::new(
        "Cooler".to_string(),
        DeviceType::Liquidctl,
        1,
        Some(LcInfo {
            driver_type: BaseDriver::HydroPlatinum,
            firmware_version: None,
            unknown_asetek: false,
        }),
        info,
        Some("cooler-uid".to_string()),
    );
    let mut repo = LiquidctlRepo::new(1000);
    repo.devices.push(device);
    assert_eq!(repo.get_all_driver_locations(), vec!["/dev/hidraw2".to_string()]);
    let cached = repo.cache_device_data(&"cooler-uid".to_string()).unwrap();
    assert_eq!(cached.type_index, 1);
    assert_eq!(cached.driver_type, BaseDriver::HydroPlatinum);
    assert!(repo.cache_device_data(&"missing".to_string()).is_err());
}
