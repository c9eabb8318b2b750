use gpu_fanctl::locate::{bus_number, check, describe_i2c, describe_nvapi, find_nvapi_card, locate, sysfs_id, AdapterEntry};

fn entry(file_name: &str, name: &str, pci: Option<&str>, ids: [&str; 4]) -> AdapterEntry {
    AdapterEntry {
        file_name: file_name.to_string(),
        name: name.to_string(),
        pci: pci.map(str::to_string),
        vendor: ids[0].to_string(),
        device: ids[1].to_string(),
        subsystem_vendor: ids[2].to_string(),
        subsystem_device: ids[3].to_string(),
    }
}

const STRIX: [&str; 4] = ["0x10de\n", "0x1e07\n", "0x1043\n", "0x866a\n"];
const OTHER: [&str; 4] = ["0x10de\n", "0x1e07\n", "0x1462\n", "0x1234\n"];

#[test]
fn sysfs_ids_are_hexadecimal() {
    assert_eq!(sysfs_id("0x10de\n"), Some(0x10de));
    assert_eq!(sysfs_id("  1E07 "), Some(0x1e07));
    assert_eq!(sysfs_id("0x0x10"), Some(0x10));
    assert_eq!(sysfs_id(""), None);
    assert_eq!(sysfs_id("0x"), None);
    assert_eq!(sysfs_id("0xg1"), None);
    assert_eq!(sysfs_id("0x100000000"), None);
}

#[test]
fn bus_numbers_come_from_the_pci_address() {
    assert_eq!(bus_number("0000:0a:00.0"), 10);
    assert_eq!(bus_number("0000:41:00.0"), 0x41);
    assert_eq!(bus_number("nonsense"), 0);
    assert_eq!(bus_number("0000:zz:00.0"), 0);
    assert_eq!(bus_number("0000:0b"), 11);
}

#[test]
fn the_controller_adapter_on_the_supported_card_is_found() {
    let entries = vec![
        entry("i2c-0", "SMBus I801 adapter at f000", Some("0000:00:1f.4"), STRIX),
        entry("i2c-3", "NVIDIA i2c adapter 0 at 1:00.0\n", Some("0000:0a:00.0"), STRIX),
        entry("i2c-4", "NVIDIA i2c adapter 1 at 1:00.0\n", Some("0000:0a:00.0"), STRIX),
        entry("i2c-5", "NVIDIA i2c adapter 1 at 2:00.0\n", Some("0000:0b:00.0"), STRIX),
    ];
    let found = locate(&entries).unwrap();
    assert_eq!(found.bus, 4);
    assert_eq!(found.pci, "0000:0a:00.0");
    assert_eq!(found.card.name, "ASUS ROG Strix GeForce RTX 2080 Ti");
    assert_eq!(describe_i2c(found.bus, &found.pci), "i2c-4, GPU 0000:0a:00.0");
}

#[test]
fn unsupported_cards_are_listed() {
    let entries = vec![
        entry("i2c-4", "NVIDIA i2c adapter 1 at 1:00.0", Some("0000:0a:00.0"), OTHER),
        entry("i2c-7", "NVIDIA i2c adapter 1 at 2:00.0", Some("0000:0b:00.0"), ["", "", "", ""]),
    ];
    assert_eq!(
        locate(&entries).err(),
        Some(
            "no supported graphics card found; not supported: 0000:0a:00.0 (10de:1e07, subsystem 1462:1234); 0000:0b:00.0 (0000:0000, subsystem 0000:0000)"
                .to_string()
        )
    );
}

#[test]
fn no_adapter_means_no_driver_or_no_i2c_dev() {
    let entries = vec![
        entry("i2c-0", "SMBus I801 adapter at f000", Some("0000:00:1f.4"), STRIX),
        entry("i2c-x", "NVIDIA i2c adapter 1 at 1:00.0", Some("0000:0a:00.0"), STRIX),
        entry("i2c-4", "NVIDIA i2c adapter 1 at 1:00.0", None, STRIX),
    ];
    assert_eq!(
        locate(&entries).err(),
        Some("no \"NVIDIA i2c adapter 1 at\" found. Is the nvidia driver loaded and i2c-dev available (modprobe i2c-dev)?".to_string())
    );
}

#[test]
fn nvapi_picks_the_supported_gpu() {
    let ids = [None, Some((0x1E07_10DE, 0x1234_1462)), Some((0x1E07_10DE, 0x866A_1043))];
    let (index, card) = find_nvapi_card(&ids).unwrap();
    assert_eq!(index, 2);
    assert_eq!(card.subsystem_id, 0x866A_1043);
    assert_eq!(
        find_nvapi_card(&ids[..2]).err(),
        Some("no supported graphics card found; not supported: 10de:1e07, subsystem 1462:1234".to_string())
    );
    assert_eq!(find_nvapi_card(&[None]).err(), Some("no NVIDIA graphics card found through NVAPI".to_string()));
}

#[test]
fn nvapi_status_and_location_texts() {
    assert_eq!(check(0, "NvAPI_Initialize"), Ok(()));
    assert_eq!(check(-6, "NvAPI_Initialize"), Err("NvAPI_Initialize failed with NVAPI status -6".to_string()));
    assert_eq!(check(2, "x"), Err("x failed with NVAPI status 2".to_string()));
    assert_eq!(describe_nvapi(10), "NVAPI I2C port 1, GPU bus 0a");
    assert_eq!(describe_nvapi(0x1ff), "NVAPI I2C port 1, GPU bus 1ff");
}
