use spackle::data::DataMap;
use spackle::slot::Slot;
use spackle::slot::SlotType;
use spackle::slot::validate_data;

fn data_of(pairs: &[(&str, &str)]) -> DataMap {
    let mut data = DataMap::new();
    for (k, v) in pairs {
        data.insert(k.to_string(), v.to_string());
    }
    data
}

fn described(key: &str, name: &str, description: &str, slot_type: SlotType) -> Slot {
    Slot {
        key: key.to_string(),
        slot_type,
        name: Some(name.to_string()),
        description: Some(description.to_string()),
        ..Default::default()
    }
}

#[test]
fn validate_empty() {
    let slots = vec![];
    let data = DataMap::new();
    assert!(validate_data(&data, &slots).is_ok());
}

#[test]
fn validate_valid() {
    let slots = vec![
        described("key", "name", "description", SlotType::String),
        described("key2", "name2", "description2", SlotType::String),
    ];
    let data = data_of(&[("key", "value"), ("key2", "value2")]);
    assert!(validate_data(&data, &slots).is_ok());
}

#[test]
fn validate_missing_data() {
    let slots = vec![
        described("key", "name", "description", SlotType::String),
        described("key2", "name2", "description2", SlotType::String),
    ];
    let data = data_of(&[("key", "value")]);
    assert!(validate_data(&data, &slots).is_err());
}

#[test]
fn validate_extra_data() {
    let slots = vec![described("key", "name", "description", SlotType::String)];
    let data = data_of(&[("key", "value"), ("key2", "value2")]);
    assert!(validate_data(&data, &slots).is_err());
}

#[test]
fn validate_non_string_type() {
    let slots = vec![
        described("key", "name", "description", SlotType::Number),
        described("key2", "name", "description", SlotType::Boolean),
    ];
    let data = data_of(&[("key", "3.14"), ("key2", "true")]);
    assert!(validate_data(&data, &slots).is_ok());
}

#[test]
fn validate_wrong_type() {
    let slots = vec![described("key", "name", "description", SlotType::Number)];
    let data = data_of(&[("key", "value")]);
    assert!(validate_data(&data, &slots).is_err());
}
