use spackle::data::DataMap;
use spackle::slot::Error;
use spackle::slot::Slot;
use spackle::slot::SlotType;
use spackle::slot::validate;
use spackle::slot::validate_data;

fn data_of(pairs: &[(&str, &str)]) -> DataMap {
    let mut data = DataMap::new();
    for (k, v) in pairs {
        data.insert(k.to_string(), v.to_string());
    }
    data
}

#[test]
fn slot_empty() {
    let slots = vec![];
    let data = DataMap::new();
    assert!(validate_data(&data, &slots).is_ok());
}

#[test]
fn slot_valid() {
    let slots = vec![
        Slot {
            key: "key".to_string(),
            ..Default::default()
        },
        Slot {
            key: "key2".to_string(),
            ..Default::default()
        },
    ];
    let data = data_of(&[("key", "value"), ("key2", "value2")]);
    assert!(validate_data(&data, &slots).is_ok());
}

#[test]
fn slot_missing_data() {
    let slots = vec![
        Slot {
            key: "key".to_string(),
            ..Default::default()
        },
        Slot {
            key: "key2".to_string(),
            ..Default::default()
        },
    ];
    let data = data_of(&[("key", "value")]);
    assert!(validate_data(&data, &slots).is_err());
}

#[test]
fn slot_extra_data() {
    let slots = vec![Slot {
        key: "key".to_string(),
        ..Default::default()
    }];
    let data = data_of(&[("key", "value"), ("key2", "value2")]);
    assert!(validate_data(&data, &slots).is_err());
}

#[test]
fn slot_non_string_type() {
    let slots = vec![
        Slot {
            key: "key".to_string(),
            slot_type: SlotType::Number,
            ..Default::default()
        },
        Slot {
            key: "key2".to_string(),
            slot_type: SlotType::Boolean,
            ..Default::default()
        },
    ];
    let data = data_of(&[("key", "3.14"), ("key2", "true")]);
    assert!(validate_data(&data, &slots).is_ok());
}

#[test]
fn slot_wrong_type() {
    let slots = vec![Slot {
        key: "key".to_string(),
        slot_type: SlotType::Number,
        ..Default::default()
    }];
    let data = data_of(&[("key", "value")]);
    assert!(validate_data(&data, &slots).is_err());
}

#[test]
fn slot_error_variants() {
    let slots = vec![Slot {
        key: "key".to_string(),
        slot_type: SlotType::Number,
        ..Default::default()
    }];

    let unknown = validate_data(&data_of(&[("other", "1")]), &slots);
    assert!(matches!(unknown, Err(Error::UnknownSlot(k)) if k == "other"));

    let mismatch = validate_data(&data_of(&[("key", "value")]), &slots);
    assert!(matches!(mismatch, Err(Error::TypeMismatch(k, t)) if k == "key" && t == "Number"));

    let undefined = validate_data(&DataMap::new(), &slots);
    assert!(matches!(undefined, Err(Error::UndefinedSlot(k)) if k == "key"));
}

#[test]
fn slot_default_values() {
    let ok = vec![
        Slot {
            key: "n".to_string(),
            slot_type: SlotType::Number,
            default: Some("3.14".to_string()),
            ..Default::default()
        },
        Slot {
            key: "b".to_string(),
            slot_type: SlotType::Boolean,
            default: Some("true".to_string()),
            ..Default::default()
        },
        Slot {
            key: "s".to_string(),
            slot_type: SlotType::String,
            default: Some("anything".to_string()),
            ..Default::default()
        },
    ];
    assert!(validate(&ok).is_ok());

    let bad_number = vec![Slot {
        key: "n".to_string(),
        slot_type: SlotType::Number,
        default: Some("not a number".to_string()),
        ..Default::default()
    }];
    assert!(
        matches!(validate(&bad_number), Err(Error::TypeMismatch(k, t)) if k == "n" && t == "number")
    );

    let bad_bool = vec![Slot {
        key: "b".to_string(),
        slot_type: SlotType::Boolean,
        default: Some("yes".to_string()),
        ..Default::default()
    }];
    assert!(
        matches!(validate(&bad_bool), Err(Error::TypeMismatch(k, t)) if k == "b" && t == "boolean")
    );
}

#[test]
fn slot_number_grammar() {
    let number = |text: &str| Slot {
        key: "n".to_string(),
        slot_type: SlotType::Number,
        default: Some(text.to_string()),
        ..Default::default()
    };
    for good in ["0", "3.14", "-.5", "+1.", "2e10", "1.5E-3", "inf", "-Infinity", "NaN"] {
        assert!(validate(&vec![number(good)]).is_ok(), "expected {} to be a number", good);
    }
    for bad in ["", ".", "1.2.3", "e5", "1e", "--1", "0x10", " 1"] {
        assert!(validate(&vec![number(bad)]).is_err(), "expected {} to be no number", bad);
    }
}

#[test]
fn slot_get_name() {
    let named = Slot {
        key: "key".to_string(),
        name: Some("pretty".to_string()),
        ..Default::default()
    };
    assert_eq!(named.get_name(), "pretty");
    let unnamed = Slot {
        key: "key".to_string(),
        ..Default::default()
    };
    assert_eq!(unnamed.get_name(), "key");
}
