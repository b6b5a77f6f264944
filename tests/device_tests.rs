use idevice_lib::device::{battery_registry_key, model_meaning, region_name, select_first_device, Hardware, Storage, OS};

#[test]
fn storage_in_whole_gigabytes() {
    let s = Storage::from_disk_usage(128_000_000_000, 41_500_000_000);
    assert_eq!(s.total, 128);
    assert_eq!(s.available, 41);
    assert_eq!(s.used, 87);
}

#[test]
fn first_device_or_error() {
    assert_eq!(select_first_device(vec![3, 4]), Ok(3));
    assert_eq!(select_first_device(Vec::<u8>::new()), Err("devices are empty".to_string()));
}

#[test]
fn region_codes() {
    assert_eq!(region_name(&"LL/A".to_string()), "United States");
    assert_eq!(region_name(&"ZP/A".to_string()), "Global/International");
    assert_eq!(region_name(&"R/A".to_string()), "Russia");
    assert_eq!(region_name(&"Q/A".to_string()), "unknown");
    assert_eq!(region_name(&"".to_string()), "unknown");
}

#[test]
fn model_number_meanings() {
    assert_eq!(model_meaning(&"MQ3D2".to_string()), "New Device");
    assert_eq!(model_meaning(&"FQ3D2".to_string()), "Refurbished Device");
    assert_eq!(model_meaning(&"3A".to_string()), "Demo Device");
    assert_eq!(model_meaning(&"".to_string()), "Unknown");
}

#[test]
fn hardware_from_values() {
    let h = Hardware::from_values(Some("B/A".to_string()), Some("NQ1".to_string()), None);
    assert_eq!(h.region, "Canada");
    assert_eq!(h.model_number, "NQ1 (Warranty Replacement Device)");
    assert_eq!(h.model, "Unknown");
    let e = Hardware::from_values(None, None, Some("iPhone12,1".to_string()));
    assert_eq!(e.region, "unknown");
    assert_eq!(e.model_number, " (Unknown)");
    assert_eq!(e.model, "iPhone12,1");
}

#[test]
fn os_from_values() {
    let o = OS::from_values(Some("17.2".to_string()), None);
    assert_eq!(o.ios_ver, "17.2");
    assert_eq!(o.build_num, "");
}

#[test]
fn battery_key_by_generation() {
    assert_eq!(battery_registry_key("iPhone9,3"), "AppleARMPMUCharger");
    assert_eq!(battery_registry_key("iPhone10,6"), "AppleSmartBattery");
    assert_eq!(battery_registry_key("iPhone12,1"), "AppleSmartBattery");
    assert_eq!(battery_registry_key("iPhoneiPhone11,2"), "AppleSmartBattery");
    assert_eq!(battery_registry_key("iPhone+12,1"), "AppleSmartBattery");
}

#[test]
fn battery_key_falls_back_to_charger_entry() {
    assert_eq!(battery_registry_key("Unknown"), "AppleARMPMUCharger");
    assert_eq!(battery_registry_key("iPhone300,1"), "AppleARMPMUCharger");
    assert_eq!(battery_registry_key("iPad13,1"), "AppleARMPMUCharger");
    assert_eq!(battery_registry_key("iPhone,1"), "AppleARMPMUCharger");
    assert_eq!(battery_registry_key(""), "AppleARMPMUCharger");
}
