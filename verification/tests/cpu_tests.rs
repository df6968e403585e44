//! The CPU adapter's cpuinfo parsing and package matching.

use coolercontrold::cpu::{collect_freq, CpuRepo};
use coolercontrold::hwmon::{HwmonChannelInfo, HwmonChannelType};

fn amd_single_cpuinfo() -> Vec<u8> {
    let mut text = String::new();
    for processor in 0..4 {
        text.push_str(&format!("processor\t: {processor}\n"));
        text.push_str("model name\t: Example Eight-Core Processor\n");
        text.push_str("physical id\t: 0\n");
        text.push_str(&format!("cpu MHz\t\t: {}.123\n", 3000 + processor));
        text.push('\n');
    }
    text.into_bytes()
}

fn dual_package_cpuinfo() -> Vec<u8> {
    let mut text = String::new();
    for processor in 0..4 {
        let physical = processor / 2;
        text.push_str(&format!("processor\t: {processor}\n"));
        text.push_str(&format!("model name\t: Example Processor {physical}\n"));
        text.push_str(&format!("physical id\t: {physical}\n"));
        text.push_str(&format!("cpu MHz\t\t: {}.0\n", 2000 + 100 * physical));
        text.push('\n');
    }
    text.into_bytes()
}

fn raspberry_pi_cpuinfo() -> Vec<u8> {
    let mut text = String::new();
    for processor in 0..4 {
        text.push_str(&format!("processor\t: {processor}\n"));
        text.push_str("BogoMIPS\t: 108.00\n");
        text.push('\n');
    }
    text.push_str("Model\t\t: Example Compute Module\n");
    text.into_bytes()
}

#[test]
fn set_cpu_infos_groups_by_physical_id() {
    let mut repo = CpuRepo::new(1000);
    repo.set_cpu_infos(&amd_single_cpuinfo()).unwrap();
    assert_eq!(repo.cpu_infos.len(), 1);
    assert_eq!(repo.cpu_infos[0].0, 0);
    assert_eq!(repo.cpu_infos[0].1, vec![0, 1, 2, 3]);
    assert_eq!(repo.cpu_model_names.len(), 1);
    assert_eq!(
        repo.cpu_model_names[0].1,
        b"Example Eight-Core Processor".to_vec()
    );
}

#[test]
fn set_cpu_infos_handles_two_packages() {
    let mut repo = CpuRepo::new(1000);
    repo.set_cpu_infos(&dual_package_cpuinfo()).unwrap();
    assert_eq!(repo.cpu_infos.len(), 2);
    assert_eq!(repo.cpu_infos[0], (0, vec![0, 1]));
    assert_eq!(repo.cpu_infos[1], (1, vec![2, 3]));
}

#[test]
fn set_cpu_infos_uses_raspberry_pi_fallback() {
    let mut repo = CpuRepo::new(1000);
    repo.set_cpu_infos(&raspberry_pi_cpuinfo()).unwrap();
    assert_eq!(repo.cpu_infos.len(), 1);
    assert_eq!(repo.cpu_infos[0], (0, vec![0, 1, 2, 3]));
    assert_eq!(repo.cpu_model_names[0].1, b"Example Compute Module".to_vec());
}

#[test]
fn set_cpu_infos_rejects_empty_content() {
    let mut repo = CpuRepo::new(1000);
    assert!(repo.set_cpu_infos(&Vec::new()).is_err());
}

#[test]
fn collect_freq_averages_and_truncates() {
    let freqs = collect_freq(&amd_single_cpuinfo());
    // (3000 + 3001 + 3002 + 3003) / 4 = 3001, fractions truncated away.
    assert_eq!(freqs, vec![(0, 3001)]);
}

#[test]
fn collect_freq_keeps_packages_apart() {
    let freqs = collect_freq(&dual_package_cpuinfo());
    assert_eq!(freqs, vec![(0, 2000), (1, 2100)]);
}

#[test]
fn collect_freq_of_unparsable_content_is_empty() {
    let text = b"physical id\t: 0\ncpu MHz\t\t: fast\n".to_vec();
    assert_eq!(collect_freq(&text), Vec::new());
    assert_eq!(collect_freq(&raspberry_pi_cpuinfo()), Vec::new());
}

fn temp_channel(label: Option<&str>) -> HwmonChannelInfo {
    HwmonChannelInfo {
        hwmon_type: HwmonChannelType::Temp,
        number: 1,
        name: "temp1".to_string(),
        label: label.map(|l| l.to_string()),
    }
}

#[test]
fn intel_package_label_selects_the_package() {
    let mut repo = CpuRepo::new(1000);
    repo.set_cpu_infos(&dual_package_cpuinfo()).unwrap();
    let channels = vec![
        temp_channel(Some("Core 0")),
        temp_channel(Some("Package id 1")),
    ];
    assert_eq!(repo.parse_intel_physical_id(&channels), Ok(1));
}

#[test]
fn intel_single_package_falls_back_without_labels() {
    let mut repo = CpuRepo::new(1000);
    repo.set_cpu_infos(&amd_single_cpuinfo()).unwrap();
    let channels = vec![temp_channel(None)];
    assert_eq!(repo.parse_intel_physical_id(&channels), Ok(0));
}

#[test]
fn amd_heuristic_matches_index_to_package() {
    let mut repo = CpuRepo::new(1000);
    repo.set_cpu_infos(&dual_package_cpuinfo()).unwrap();
    assert_eq!(repo.parse_amd_physical_id(1), Ok(1));
    assert!(repo.parse_amd_physical_id(7).is_err());
}

#[test]
fn amd_single_package_wins_whatever_its_id() {
    let mut text = String::new();
    text.push_str("processor\t: 0\n");
    text.push_str("model name\t: Example APU\n");
    text.push_str("physical id\t: 1\n");
    let mut repo = CpuRepo::new(1000);
    repo.set_cpu_infos(&text.into_bytes()).unwrap();
    assert_eq!(repo.parse_amd_physical_id(0), Ok(1));
}

#[test]
fn collect_load_averages_a_package() {
    let mut repo = CpuRepo::new(1000);
    repo.set_cpu_infos(&dual_package_cpuinfo()).unwrap();
    // readings in centi-percent, indexed by logical processor id
    let percents: Vec<u64> = vec![1000, 3000, 5000, 7000];
    let status = repo
        .collect_load(0, &percents, &"CPU Load".to_string())
        .unwrap();
    assert_eq!(status.name, "CPU Load");
    assert_eq!(status.duty, Some(2000));
    let status = repo
        .collect_load(1, &percents, &"CPU Load".to_string())
        .unwrap();
    assert_eq!(status.duty, Some(6000));
    // an unknown package or a short reading list yields nothing
    assert!(repo.collect_load(9, &percents, &"CPU Load".to_string()).is_none());
    let short: Vec<u64> = vec![1000, 3000];
    assert!(repo.collect_load(1, &short, &"CPU Load".to_string()).is_none());
}
