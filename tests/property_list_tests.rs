use idevice_lib::property_list::{device_info_json, registry_number, value_to_dict, PlistEntry, PlistField};

fn field(key: &str, value: PlistEntry) -> PlistField {
    PlistField { key: key.to_string(), value }
}

fn text(s: &str) -> PlistEntry {
    PlistEntry::Text(s.to_string())
}

fn pairs(v: &[(&str, &str)]) -> Vec<(String, String)> {
    v.iter().map(|(a, b)| (a.to_string(), b.to_string())).collect()
}

#[test]
fn flattening_keeps_text_and_inlines_dictionaries() {
    let info = PlistEntry::Dict(vec![
        field("DeviceName", text("phone")),
        field("Count", PlistEntry::Unsigned(3)),
        field("Nested", PlistEntry::Dict(vec![field("Inner", text("x")), field("Skip", PlistEntry::Other)])),
        field("After", text("y")),
    ]);
    assert_eq!(value_to_dict(&info), pairs(&[("DeviceName", "phone"), ("Inner", "x"), ("After", "y")]));
}

#[test]
fn non_dictionary_has_no_entries() {
    assert!(value_to_dict(&text("alone")).is_empty());
    assert!(value_to_dict(&PlistEntry::Unsigned(1)).is_empty());
}

#[test]
fn registry_lookup_is_depth_first() {
    let fields = vec![
        field("Outer", PlistEntry::Dict(vec![field("CycleCount", PlistEntry::Unsigned(42))])),
        field("CycleCount", PlistEntry::Unsigned(7)),
        field("DesignCapacity", text("not a number")),
    ];
    assert_eq!(registry_number(&fields, &"CycleCount".to_string()), 42);
    assert_eq!(registry_number(&fields, &"DesignCapacity".to_string()), 0);
    assert_eq!(registry_number(&fields, &"Missing".to_string()), 0);
}

#[test]
fn registry_lookup_takes_first_match_at_same_level() {
    let fields = vec![field("CurrentCapacity", PlistEntry::Unsigned(80)), field("CurrentCapacity", PlistEntry::Unsigned(10))];
    assert_eq!(registry_number(&fields, &"CurrentCapacity".to_string()), 80);
}

#[test]
fn device_info_as_json_object() {
    let info = PlistEntry::Dict(vec![
        field("A", text("1")),
        field("Sub", PlistEntry::Dict(vec![field("B", text("2"))])),
    ]);
    assert_eq!(device_info_json(&info), "{\"A\":\"1\",\"B\":\"2\"}");
}

#[test]
fn device_info_later_key_wins() {
    let info = PlistEntry::Dict(vec![
        field("K", text("old")),
        field("Sub", PlistEntry::Dict(vec![field("K", text("new"))])),
    ]);
    assert_eq!(device_info_json(&info), "{\"K\":\"new\"}");
    assert_eq!(device_info_json(&PlistEntry::Other), "{}");
}
