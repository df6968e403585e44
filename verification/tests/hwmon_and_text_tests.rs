//! The hwmon decisions and the byte-level text utilities under them.

use coolercontrold::hwmon::{
    device_needs_pwm_fallback, find_duplicate_device_names, get_alternative_device_name,
    parse_uevent, HwmonChannelInfo, HwmonDriverInfo,
};
use coolercontrold::text::{parse_i32_bytes, parse_uint_bytes, split_lines, trim_bytes};

#[test]
fn laptop_drivers_need_the_fallback() {
    assert!(device_needs_pwm_fallback(&"thinkpad".to_string()));
    assert!(device_needs_pwm_fallback(&"asus-nb-wmi".to_string()));
    assert!(device_needs_pwm_fallback(&"asus_fan".to_string()));
    assert!(!device_needs_pwm_fallback(&"k10temp".to_string()));
}

#[test]
fn uevent_parses_key_value_lines() {
    let content = b"DRIVER=nvme\nPCI_ID=8086:0a54\nboring line\nMINOR = 3\n".to_vec();
    let pairs = parse_uevent(&content);
    assert_eq!(pairs.len(), 3);
    assert_eq!(pairs[0], (b"DRIVER".to_vec(), b"nvme".to_vec()));
    assert_eq!(pairs[1], (b"PCI_ID".to_vec(), b"8086:0a54".to_vec()));
    assert_eq!(pairs[2], (b"MINOR".to_vec(), b"3".to_vec()));
}

#[test]
fn alternative_name_prefers_devname_then_minor_then_model() {
    let with_devname = parse_uevent(&b"DEVNAME=nvme0\nMINOR=5\n".to_vec());
    assert_eq!(
        get_alternative_device_name(&with_devname, &"nvme".to_string(), &None),
        b"nvme0".to_vec()
    );
    let with_minor = parse_uevent(&b"MINOR=5\n".to_vec());
    assert_eq!(
        get_alternative_device_name(&with_minor, &"nvme".to_string(), &None),
        b"nvme5".to_vec()
    );
    let empty = parse_uevent(&Vec::new());
    assert_eq!(
        get_alternative_device_name(&empty, &"nvme".to_string(), &Some("SSD Model".to_string())),
        b"SSD Model".to_vec()
    );
    assert_eq!(
        get_alternative_device_name(&empty, &"nvme".to_string(), &None),
        b"nvme".to_vec()
    );
}

fn driver(name: &str) -> HwmonDriverInfo {
    HwmonDriverInfo {
        name: name.to_string(),
        path: "/sys/class/hwmon/hwmon0".to_string(),
        model: None,
        u_id: name.to_string(),
        channels: Vec::<HwmonChannelInfo>::new(),
    }
}

#[test]
fn duplicate_names_are_flagged_pairwise() {
    let drivers = vec![driver("nvme"), driver("k10temp"), driver("nvme")];
    assert_eq!(find_duplicate_device_names(&drivers), vec![true, false, true]);
}

#[test]
fn trim_removes_ascii_whitespace() {
    assert_eq!(trim_bytes(b" \t 30000\r\n"), b"30000".to_vec());
    assert_eq!(trim_bytes(b""), Vec::<u8>::new());
    assert_eq!(trim_bytes(b"  "), Vec::<u8>::new());
}

#[test]
fn split_lines_strips_carriage_returns() {
    let lines = split_lines(b"one\r\ntwo\nthree");
    assert_eq!(lines, vec![b"one".to_vec(), b"two".to_vec(), b"three".to_vec()]);
    assert_eq!(split_lines(b"last\n"), vec![b"last".to_vec()]);
}

#[test]
fn integer_parsing_follows_the_standard_taxonomy() {
    assert_eq!(parse_i32_bytes(b"120000"), Ok(120000));
    assert_eq!(parse_i32_bytes(b"-2147483648"), Ok(i32::MIN));
    assert_eq!(parse_i32_bytes(b"2147483647"), Ok(i32::MAX));
    assert!(parse_i32_bytes(b"2147483648").is_err());
    assert!(parse_i32_bytes(b"").is_err());
    assert!(parse_i32_bytes(b"12x").is_err());
    assert_eq!(parse_uint_bytes(b"+42", 255), Ok(42));
    assert!(parse_uint_bytes(b"-1", 255).is_err());
    assert!(parse_uint_bytes(b"256", 255).is_err());
}
