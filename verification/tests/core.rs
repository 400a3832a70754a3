use spackle::data::DataMap;
use spackle::slot::Slot;
use spackle::slot::SlotType;
use spackle::slot::validate_data;
use spackle::template::TemplateFile;
use spackle::template::fill;
use spackle::template::validate;

fn data_of(pairs: &[(&str, &str)]) -> DataMap {
    let mut data = DataMap::new();
    for (k, v) in pairs {
        data.insert(k.to_string(), v.to_string());
    }
    data
}

fn slot(key: &str, slot_type: SlotType) -> Slot {
    Slot {
        key: key.to_string(),
        slot_type,
        ..Default::default()
    }
}

#[test]
fn empty() {
    assert!(validate_data(&DataMap::new(), &Vec::new()).is_ok());
}

#[test]
fn valid() {
    let slots = vec![slot("key", SlotType::String), slot("key2", SlotType::String)];
    let data = data_of(&[("key", "value"), ("key2", "value2")]);
    assert!(validate_data(&data, &slots).is_ok());
}

#[test]
fn missing_data() {
    let slots = vec![slot("key", SlotType::String), slot("key2", SlotType::String)];
    let data = data_of(&[("key", "value")]);
    assert!(validate_data(&data, &slots).is_err());
}

#[test]
fn extra_data() {
    let slots = vec![slot("key", SlotType::String)];
    let data = data_of(&[("key", "value"), ("key2", "value2")]);
    assert!(validate_data(&data, &slots).is_err());
}

#[test]
fn non_string_type() {
    let slots = vec![slot("key", SlotType::Number), slot("key2", SlotType::Boolean)];
    let data = data_of(&[("key", "3.14"), ("key2", "true")]);
    assert!(validate_data(&data, &slots).is_ok());
}

#[test]
fn wrong_type() {
    let slots = vec![slot("key", SlotType::Number)];
    let data = data_of(&[("key", "value")]);
    assert!(validate_data(&data, &slots).is_err());
}

#[test]
fn fill_proj1() {
    let templates = vec![
        TemplateFile {
            name: "{{ file_name }}.rs.j2".to_string(),
            contents: "// by {{ person_name }}, age {{ person_age }}".to_string(),
        },
    ];
    let result = fill(
        &templates,
        &data_of(&[
            ("person_name", "Joe Bloggs"),
            ("person_age", "42"),
            ("file_name", "main"),
        ]),
    );
    assert!(result.iter().all(|r| r.is_ok()));
}

#[test]
fn validate_dir_proj1() {
    let templates = vec![TemplateFile {
        name: "page.html.j2".to_string(),
        contents: "{{ undefined_field }}".to_string(),
    }];
    let result = validate(&templates, &vec![slot("defined_field", SlotType::String)]);
    assert!(result.is_err());
}

#[test]
fn validate_dir_proj2() {
    let templates = vec![TemplateFile {
        name: "page.html.j2".to_string(),
        contents: "{{ defined_field }}".to_string(),
    }];
    let result = validate(&templates, &vec![slot("defined_field", SlotType::String)]);
    assert!(result.is_ok());
}
