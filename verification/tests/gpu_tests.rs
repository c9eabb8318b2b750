use gpu_fanctl::gpu::{detect, is_wanted_card, no_card_error, DeviceReport, GpuInfo};
use gpu_fanctl::status::{is_fresh_at, FRESH_FOR_MS, LINUX_STATUS_PATH};

fn strix() -> DeviceReport {
    DeviceReport {
        name: Some("NVIDIA GeForce RTX 2080 Ti".to_string()),
        pci_device_id: 0x1E07_10DE,
        pci_sub_system_id: Some(0x866A_1043),
        bus_id: "00000000:0A:00.0".to_string(),
        bus: 10,
        vbios: Some("90.02.0B.40.AD".to_string()),
        memory_total: Some(11_811_160_064),
    }
}

#[test]
fn reports_become_card_information() {
    let g = GpuInfo::from_report(&strix());
    assert_eq!(g.name, "NVIDIA GeForce RTX 2080 Ti");
    assert_eq!(g.subsystem_id, 0x866A_1043);
    assert_eq!(g.pci_address, "00000000:0A:00.0");
    assert_eq!(g.pci_bus, 10);
    assert_eq!(g.vbios.as_deref(), Some("90.02.0B.40.AD"));
    assert_eq!(g.memory_bytes, Some(11_811_160_064));
    assert_eq!(g.supported.map(|c| c.name), Some("ASUS ROG Strix GeForce RTX 2080 Ti"));
}

#[test]
fn missing_values_get_defaults() {
    let report = DeviceReport { name: None, pci_sub_system_id: None, vbios: None, memory_total: None, ..strix() };
    let g = GpuInfo::from_report(&report);
    assert_eq!(g.name, "Unknown NVIDIA GPU");
    assert_eq!(g.subsystem_id, 0);
    assert!(g.supported.is_none());
    assert!(g.vbios.is_none());
}

#[test]
fn detect_keeps_nvml_order() {
    let other = DeviceReport { pci_sub_system_id: Some(0x1234_1462), bus: 11, ..strix() };
    let system = detect(Some("560.35".to_string()), &[other, strix()]);
    assert_eq!(system.driver_version.as_deref(), Some("560.35"));
    assert_eq!(system.gpus.len(), 2);
    assert!(system.gpus[0].supported.is_none());
    assert!(system.gpus[1].supported.is_some());
}

#[test]
fn the_temperature_comes_from_the_supported_card_on_the_controller_bus() {
    assert!(is_wanted_card(0x1E07_10DE, Some(0x866A_1043), 10, Some(10)));
    assert!(is_wanted_card(0x1E07_10DE, Some(0x866A_1043), 10, None));
    assert!(!is_wanted_card(0x1E07_10DE, Some(0x866A_1043), 10, Some(11)));
    assert!(!is_wanted_card(0x1E07_10DE, None, 10, None));
    assert_eq!(no_card_error(Some(10)), "NVML: no supported graphics card on PCI bus 0a");
    assert_eq!(no_card_error(None), "NVML: no supported graphics card found");
}

#[test]
fn status_stays_fresh_for_four_seconds() {
    assert!(is_fresh_at(10_000, 10_000));
    assert!(is_fresh_at(10_000, 10_000 + FRESH_FOR_MS));
    assert!(!is_fresh_at(10_000, 10_001 + FRESH_FOR_MS));
    assert!(is_fresh_at(20_000, 10_000), "from the future");
    assert!(!is_fresh_at(0, 10_000));
}

#[test]
fn freshness_follows_age() {
    let now = std::time::SystemTime::now().duration_since(std::time::UNIX_EPOCH).unwrap().as_millis() as u64;
    let mut updated_ms = now;
    assert!(is_fresh_at(updated_ms, now));
    updated_ms -= 10_000;
    assert!(!is_fresh_at(updated_ms, now));
}

#[test]
fn linux_status_lives_in_the_runtime_directory() {
    assert_eq!(LINUX_STATUS_PATH, "/run/gpu-fanctl/status.json");
}
