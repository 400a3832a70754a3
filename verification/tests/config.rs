use spackle::config::Config;
use spackle::config::Error;
use spackle::hook::Hook;
use spackle::slot::Slot;

#[test]
fn dup_key() {
    let config = Config {
        name: None,
        ignore: vec![],
        slots: vec![Slot {
            key: "shared".to_string(),
            ..Default::default()
        }],
        hooks: vec![Hook {
            key: "shared".to_string(),
            command: vec!["true".to_string()],
            ..Hook::default()
        }],
    };

    config.validate().expect_err("Expected error");
}

#[test]
fn config_valid_namespace() {
    let config = Config {
        name: None,
        ignore: vec![],
        slots: vec![Slot {
            key: "a".to_string(),
            ..Default::default()
        }],
        hooks: vec![Hook {
            key: "b".to_string(),
            command: vec!["true".to_string()],
            ..Hook::default()
        }],
    };
    assert!(config.validate().is_ok());
}

#[test]
fn config_dup_hook_keys() {
    let hook = |key: &str| Hook {
        key: key.to_string(),
        command: vec!["true".to_string()],
        ..Hook::default()
    };
    let config = Config {
        name: None,
        ignore: vec![],
        slots: vec![],
        hooks: vec![hook("same"), hook("same")],
    };
    let result = config.validate();
    assert!(
        matches!(result, Err(Error::DuplicateKey(msg)) if msg == "Duplicate keys found in hooks")
    );
}

#[test]
fn config_dup_slot_keys() {
    let slot = |key: &str| Slot {
        key: key.to_string(),
        ..Default::default()
    };
    let config = Config {
        name: None,
        ignore: vec![],
        slots: vec![slot("same"), slot("same")],
        hooks: vec![],
    };
    let result = config.validate();
    assert!(
        matches!(result, Err(Error::DuplicateKey(msg)) if msg == "Duplicate keys found in slots")
    );
}
