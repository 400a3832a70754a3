use spackle::data::DataMap;
use spackle::hook::Hook;
use spackle::needs::Needy;
use spackle::needs::Node;
use spackle::needs::is_satisfied;
use spackle::slot::Slot;

fn data_of(pairs: &[(&str, &str)]) -> DataMap {
    let mut data = DataMap::new();
    for (k, v) in pairs {
        data.insert(k.to_string(), v.to_string());
    }
    data
}

#[test]
fn needs_of_enabled_slot() {
    let slot = Slot {
        key: "s".to_string(),
        ..Default::default()
    };
    let items = vec![Node::Slot(slot)];
    let needs = vec!["s".to_string()];
    assert!(is_satisfied(&needs, &items, &data_of(&[("s", "yes")])));
    assert!(!is_satisfied(&needs, &items, &data_of(&[("s", "0")])));
    assert!(!is_satisfied(&needs, &items, &DataMap::new()));
}

#[test]
fn needs_of_unknown_key() {
    let needs = vec!["nowhere".to_string()];
    assert!(!is_satisfied(&needs, &Vec::new(), &DataMap::new()));
}

// A dependency cycle resolves to unsatisfied instead of descending forever.
#[test]
fn needs_cycle_resolves() {
    let a = Hook {
        key: "a".to_string(),
        command: vec!["true".to_string()],
        needs: vec!["b".to_string()],
        ..Hook::default()
    };
    let b = Hook {
        key: "b".to_string(),
        command: vec!["true".to_string()],
        needs: vec!["a".to_string()],
        ..Hook::default()
    };
    let items = vec![Node::Hook(a.clone()), Node::Hook(b.clone())];
    assert!(!a.is_satisfied(&items, &DataMap::new()));
    assert!(!b.is_satisfied(&items, &DataMap::new()));
}

// A node needing itself is unsatisfied rather than a crash.
#[test]
fn needs_self_cycle_resolves() {
    let h = Hook {
        key: "me".to_string(),
        command: vec!["true".to_string()],
        needs: vec!["me".to_string()],
        ..Hook::default()
    };
    let items = vec![Node::Hook(h.clone())];
    assert!(!h.is_satisfied(&items, &DataMap::new()));
}

#[test]
fn needy_interface() {
    let slot = Slot {
        key: "s".to_string(),
        ..Default::default()
    };
    assert_eq!(slot.key(), "s");
    assert!(slot.is_enabled(&data_of(&[("s", "on")])));
    assert!(!slot.is_enabled(&data_of(&[("s", "FaLsE")])));

    let hook = Hook {
        key: "h".to_string(),
        command: vec!["true".to_string()],
        ..Hook::default()
    };
    assert_eq!(hook.key(), "h");
    assert!(hook.is_enabled(&DataMap::new()));
}
