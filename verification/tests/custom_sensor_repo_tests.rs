//! The custom-sensor repository: composing the synthetic device's
//! snapshots and keeping its history consistent through sensor changes.

use coolercontrold::custom_sensors::CustomSensorsRepo;
use coolercontrold::device::{
    Device, DeviceInfo, DeviceType, DriverInfo, DriverType, Status, TempStatus,
};
use coolercontrold::profile::AllDevices;
use coolercontrold::setting::{
    CustomSensor, CustomSensorMixFunctionType, CustomSensorType, CustomTempSourceData, TempSource,
};

fn empty_info() -> DeviceInfo {
    DeviceInfo {
        channels: Vec::new(),
        temps: Vec::new(),
        lighting_speeds: Vec::new(),
        temp_min: 0,
        temp_max: 100,
        profile_max_length: 21,
        profile_min_length: 2,
        driver_info: DriverInfo {
            drv_type: DriverType::Kernel,
            name: None,
            version: None,
            locations: Vec::new(),
        },
    }
}

fn status_with(name: &str, temp: i64) -> Status {
    Status {
        temps: vec![TempStatus { name: name.to_string(), temp }],
        channels: Vec::new(),
    }
}

fn one_source_registry(temp: i64) -> AllDevices {
    let mut device = Device::new(
        "cpu".to_string(),
        DeviceType::CPU,
        1,
        None,
        empty_info(),
        Some("cpu-uid".to_string()),
    );
    device.initialize_status_history_with(status_with("temp1", temp), 1000);
    AllDevices { devices: vec![device] }
}

fn mix_sensor(id: &str, mix: CustomSensorMixFunctionType) -> CustomSensor {
    CustomSensor {
        id: id.to_string(),
        cs_type: CustomSensorType::Mix,
        mix_function: mix,
        sources: vec![CustomTempSourceData {
            temp_source: TempSource {
                device_uid: "cpu-uid".to_string(),
                temp_name: "temp1".to_string(),
            },
            weight: 1,
        }],
        file_path: None,
    }
}

fn history_snapshot(repo: &CustomSensorsRepo) -> Vec<Vec<(String, i64)>> {
    repo.custom_sensor_device
        .as_ref()
        .unwrap()
        .status_history
        .iter()
        .map(|s| s.temps.iter().map(|t| (t.name.clone(), t.temp)).collect())
        .collect()
}

#[test]
fn initialize_composes_the_first_snapshot() {
    let devices = one_source_registry(4200);
    let mut repo = CustomSensorsRepo::new();
    let sensors = vec![mix_sensor("sensor_a", CustomSensorMixFunctionType::Max)];
    repo.initialize_devices(sensors, &devices, &Vec::new(), 1000)
        .unwrap();
    assert_eq!(repo.get_device_uid(), "Custom Sensors".to_string());
    let history = history_snapshot(&repo);
    assert_eq!(history, vec![vec![("sensor_a".to_string(), 4200)]]);
    let infos = &repo.custom_sensor_device.as_ref().unwrap().info.temps;
    assert_eq!(infos.len(), 1);
    assert_eq!(infos[0].0, "sensor_a");
    assert_eq!(infos[0].1.label, "Sensor A");
    assert_eq!(infos[0].1.number, 1);
}

#[test]
fn update_statuses_appends_mix_then_file_entries() {
    let devices = one_source_registry(2500);
    let mut repo = CustomSensorsRepo::new();
    let sensors = vec![
        mix_sensor("mix_one", CustomSensorMixFunctionType::Avg),
        CustomSensor {
            id: "file_one".to_string(),
            cs_type: CustomSensorType::File,
            mix_function: CustomSensorMixFunctionType::Min,
            sources: Vec::new(),
            file_path: Some("/tmp/some_path".to_string()),
        },
    ];
    repo.initialize_devices(sensors, &devices, &Vec::new(), 1000)
        .unwrap();
    let file_temps = vec![TempStatus { name: "file_one".to_string(), temp: 3000 }];
    repo.update_statuses(&devices, &file_temps);
    let history = history_snapshot(&repo);
    assert_eq!(
        history.last().unwrap(),
        &vec![
            ("mix_one".to_string(), 2500),
            ("file_one".to_string(), 3000),
        ]
    );
}

/// Adding a sensor back-fills its column; deleting it restores the
/// history to exactly the pre-add state.
#[test]
fn add_then_delete_restores_history() {
    let mut devices = one_source_registry(2500);
    let mut repo = CustomSensorsRepo::new();
    repo.initialize_devices(
        vec![mix_sensor("mix_one", CustomSensorMixFunctionType::Avg)],
        &devices,
        &Vec::new(),
        1000,
    )
    .unwrap();
    // The source device's ring advances in lockstep with the synthetic one.
    devices.devices[0].set_status(status_with("temp1", 2600));
    repo.update_statuses(&devices, &Vec::new());
    devices.devices[0].set_status(status_with("temp1", 2700));
    repo.update_statuses(&devices, &Vec::new());
    let before = history_snapshot(&repo);

    let added = mix_sensor("mix_two", CustomSensorMixFunctionType::Min);
    repo.set_custom_sensor(added, None, &devices).unwrap();
    let with_added = history_snapshot(&repo);
    assert_ne!(before, with_added);
    assert!(with_added
        .iter()
        .all(|temps| temps.iter().any(|(name, _)| name == "mix_two")));

    repo.delete_custom_sensor(&"mix_two".to_string()).unwrap();
    let after = history_snapshot(&repo);
    assert_eq!(before, after);
}

#[test]
fn get_and_update_and_order() {
    let mut repo = CustomSensorsRepo::new();
    let devices = one_source_registry(2000);
    repo.initialize_devices(
        vec![
            mix_sensor("alpha", CustomSensorMixFunctionType::Min),
            mix_sensor("beta", CustomSensorMixFunctionType::Max),
        ],
        &devices,
        &Vec::new(),
        1000,
    )
    .unwrap();

    let fetched = repo.get_custom_sensor(&"beta".to_string()).unwrap();
    assert_eq!(fetched.id, "beta");
    assert!(repo.get_custom_sensor(&"gamma".to_string()).is_err());

    let mut updated = mix_sensor("beta", CustomSensorMixFunctionType::Delta);
    updated.sources.clear();
    repo.update_custom_sensor(updated).unwrap();
    let fetched = repo.get_custom_sensor(&"beta".to_string()).unwrap();
    assert!(fetched.sources.is_empty());

    let reordered = vec![
        mix_sensor("beta", CustomSensorMixFunctionType::Max),
        mix_sensor("alpha", CustomSensorMixFunctionType::Min),
    ];
    repo.set_custom_sensors_order(&reordered);
    let ids: Vec<String> = repo.get_custom_sensors().iter().map(|s| s.id.clone()).collect();
    assert_eq!(ids, vec!["beta".to_string(), "alpha".to_string()]);
}

/// A sensor whose sources are all missing reads as one zero-weighted
/// entry: the tick continues and reports 0 degrees (or the Min sentinel).
#[test]
fn missing_sources_fill_with_zeros() {
    let devices = AllDevices { devices: Vec::new() };
    let mut repo = CustomSensorsRepo::new();
    repo.initialize_devices(
        vec![mix_sensor("lonely", CustomSensorMixFunctionType::Avg)],
        &devices,
        &Vec::new(),
        1000,
    )
    .unwrap();
    let history = history_snapshot(&repo);
    assert_eq!(history, vec![vec![("lonely".to_string(), 0)]]);
}
