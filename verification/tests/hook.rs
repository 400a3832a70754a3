use spackle::data::DataMap;
use spackle::hook::Error;
use spackle::hook::Hook;
use spackle::hook::HookConfigOptional;
use spackle::hook::HookError;
use spackle::hook::HookResult;
use spackle::hook::HookResultKind;
use spackle::hook::run_hooks;
use spackle::hook::validate_data;
use spackle::slot::Slot;
use spackle::slot::SlotType;

fn data_of(pairs: &[(&str, &str)]) -> DataMap {
    let mut data = DataMap::new();
    for (k, v) in pairs {
        data.insert(k.to_string(), v.to_string());
    }
    data
}

#[test]
fn hook_basic() {
    let hooks = vec![Hook {
        key: "hello world".to_string(),
        command: vec!["echo".to_string(), "hello world".to_string()],
        ..Hook::default()
    }];

    assert!(run_hooks(&hooks, ".", &Vec::new(), &DataMap::new(), None).is_ok());
}

#[test]
fn hook_command_fail() {
    let hooks = vec![
        Hook {
            key: "hello world".to_string(),
            command: vec!["echo".to_string(), "hello world".to_string()],
            ..Hook::default()
        },
        Hook {
            key: "error".to_string(),
            command: vec!["false".to_string()],
            ..Hook::default()
        },
    ];

    let results = run_hooks(&hooks, ".", &Vec::new(), &DataMap::new(), None)
        .expect("run_hooks failed, should have succeeded");

    assert_eq!(results.len(), 2, "Expected 2 results, got {:?}", results.len());
    assert!(matches!(results[0].kind, HookResultKind::Completed { .. }));
    assert!(
        results.iter().any(|x| matches!(x, HookResult {
            hook,
            kind: HookResultKind::Failed { .. },
        } if hook.key == "error")),
        "Expected error hook to fail"
    );
}

#[test]
fn hook_error_executing() {
    let hooks = vec![
        Hook {
            key: "1".to_string(),
            command: vec!["echo".to_string(), "hello world".to_string()],
            ..Hook::default()
        },
        Hook {
            key: "2".to_string(),
            command: vec!["invalid_cmd".to_string()],
            ..Hook::default()
        },
    ];

    let results = run_hooks(&hooks, ".", &Vec::new(), &DataMap::new(), None)
        .expect("run_hooks failed, should have succeeded");

    assert!(results.iter().any(|x| matches!(x, HookResult {
        hook,
        kind: HookResultKind::Completed { .. },
    } if hook.key == "1")));

    assert!(results.iter().any(|x| matches!(x, HookResult {
        hook,
        kind: HookResultKind::Failed(HookError::CommandLaunchFailed(_)),
    } if hook.key == "2")));
}

#[test]
fn hook_conditional() {
    let hooks = vec![
        Hook {
            key: "1".to_string(),
            command: vec!["echo".to_string(), "hello world".to_string()],
            if_cond: Some("true".to_string()),
            ..Hook::default()
        },
        Hook {
            key: "2".to_string(),
            command: vec!["echo".to_string(), "hello world".to_string()],
            if_cond: Some("false".to_string()),
            ..Hook::default()
        },
        Hook {
            key: "3".to_string(),
            command: vec!["echo".to_string(), "hello world".to_string()],
            ..Hook::default()
        },
        Hook {
            key: "4".to_string(),
            command: vec!["echo".to_string(), "hello world".to_string()],
            if_cond: Some("{{ hook_ran_1 }}".to_string()),
            ..Hook::default()
        },
    ];

    let results = run_hooks(&hooks, ".", &Vec::new(), &DataMap::new(), None)
        .expect("run_hooks failed, should have succeeded");

    let skipped: Vec<_> = results
        .iter()
        .filter(|r| matches!(r.kind, HookResultKind::Skipped { .. }))
        .collect();
    assert_eq!(skipped.len(), 1);

    assert!(
        results.iter().any(|x| matches!(x, HookResult {
            hook,
            kind: HookResultKind::Completed { .. },
        } if hook.key == "4")),
        "Expected hook 4 to be completed, got {:?}",
        results.len()
    );
}

// A guard reading a completion flag of a hook declared later sees it false:
// re-ordering the dependent hook before its dependency skips it.
#[test]
fn hook_conditional_reordered() {
    let hooks = vec![
        Hook {
            key: "4".to_string(),
            command: vec!["echo".to_string(), "hello world".to_string()],
            if_cond: Some("{{ hook_ran_1 }}".to_string()),
            ..Hook::default()
        },
        Hook {
            key: "1".to_string(),
            command: vec!["echo".to_string(), "hello world".to_string()],
            ..Hook::default()
        },
    ];

    let results = run_hooks(&hooks, ".", &Vec::new(), &DataMap::new(), None)
        .expect("run_hooks failed, should have succeeded");

    assert!(results.iter().any(|x| matches!(x, HookResult {
        hook,
        kind: HookResultKind::Skipped(_),
    } if hook.key == "4")));
    assert!(results.iter().any(|x| matches!(x, HookResult {
        hook,
        kind: HookResultKind::Completed { .. },
    } if hook.key == "1")));
}

#[test]
fn hook_bad_conditional_template() {
    let hooks = vec![
        Hook {
            key: "1".to_string(),
            command: vec!["echo".to_string(), "hello world".to_string()],
            if_cond: Some("{{ good_var }}".to_string()),
            ..Hook::default()
        },
        Hook {
            key: "2".to_string(),
            command: vec!["echo".to_string(), "hello world".to_string()],
            if_cond: Some("{{ bad_var }}".to_string()),
            ..Hook::default()
        },
    ];

    let results = run_hooks(&hooks, ".", &Vec::new(), &data_of(&[("good_var", "true")]), None)
        .expect("run_hooks failed, should have succeeded");

    assert!(results.iter().any(|x| matches!(x, HookResult {
        hook,
        kind: HookResultKind::Completed { .. },
    } if hook.key == "1")));

    assert!(results.iter().any(|x| matches!(x, HookResult {
        hook,
        kind: HookResultKind::Failed(HookError::ConditionalFailed(
            spackle::hook::ConditionalError::InvalidTemplate(_)
        )),
    } if hook.key == "2")));
}

#[test]
fn hook_bad_conditional_value() {
    let hooks = vec![Hook {
        key: "1".to_string(),
        command: vec!["echo".to_string(), "hello world".to_string()],
        if_cond: Some("lorem ipsum".to_string()),
        ..Hook::default()
    }];

    let results = run_hooks(&hooks, ".", &Vec::new(), &data_of(&[("", "")]), None)
        .expect("run_hooks failed, should have succeeded");

    assert!(results.iter().any(|x| matches!(x, HookResult {
        hook,
        kind: HookResultKind::Failed(HookError::ConditionalFailed(
            spackle::hook::ConditionalError::NotBoolean(_)
        )),
    } if hook.key == "1")));
}

#[test]
fn hook_optional() {
    let hooks = vec![
        Hook {
            key: "1".to_string(),
            command: vec!["echo".to_string(), "hello world".to_string()],
            ..Hook::default()
        },
        Hook {
            key: "2".to_string(),
            command: vec!["echo".to_string(), "hello world".to_string()],
            optional: Some(HookConfigOptional { default: false }),
            ..Hook::default()
        },
        Hook {
            key: "3".to_string(),
            command: vec!["echo".to_string(), "hello world".to_string()],
            optional: Some(HookConfigOptional { default: false }),
            ..Hook::default()
        },
    ];

    let results = run_hooks(&hooks, ".", &Vec::new(), &data_of(&[("3", "true")]), None)
        .expect("run_hooks failed, should have succeeded");

    assert_eq!(results.len(), 3, "Expected 3 results, got {:?}", results.len());

    assert!(results.iter().any(|x| matches!(x, HookResult {
        hook,
        kind: HookResultKind::Completed { .. },
    } if hook.key == "1")));

    assert!(results.iter().any(|x| matches!(x, HookResult {
        hook,
        kind: HookResultKind::Skipped(spackle::hook::SkipReason::UserDisabled),
    } if hook.key == "2")));

    assert!(results.iter().any(|x| matches!(x, HookResult {
        hook,
        kind: HookResultKind::Completed { .. },
    } if hook.key == "3")));
}

#[test]
fn hook_templated_cmd() {
    let hooks = vec![
        Hook {
            key: "1".to_string(),
            command: vec!["{{ field_1 }}".to_string(), "{{ field_2 }}".to_string()],
            ..Hook::default()
        },
        Hook {
            key: "2".to_string(),
            command: vec!["echo".to_string(), "out2".to_string()],
            ..Hook::default()
        },
    ];

    let results = run_hooks(
        &hooks,
        ".",
        &Vec::new(),
        &data_of(&[("field_1", "echo"), ("field_2", "out1")]),
        None,
    )
    .expect("run_hooks failed, should have succeeded");

    match &results[0].kind {
        HookResultKind::Completed { stdout, .. } => {
            assert_eq!(stdout, b"out1\n");
        }
        other => panic!("Expected HookResult::Completed, got {:?}", result_kind_name(other)),
    }
}

fn result_kind_name(kind: &HookResultKind) -> &'static str {
    match kind {
        HookResultKind::Skipped(_) => "skipped",
        HookResultKind::Completed { .. } => "completed",
        HookResultKind::Failed(_) => "failed",
    }
}

#[test]
fn hook_invalid_templated_cmd() {
    let hooks = vec![Hook {
        key: "1".to_string(),
        command: vec!["{{ field_1 }}".to_string(), "{{ field_2 }}".to_string()],
        ..Hook::default()
    }];

    let results = run_hooks(&hooks, ".", &Vec::new(), &data_of(&[("field_1", "echo")]), None)
        .expect_err("run_hooks succeeded, should have failed");

    match results {
        Error::ErrorRenderingTemplate(_, _) => {}
    }
}

// A command that does not render aborts the run before any process is
// spawned for that hook or later hooks.
#[test]
fn hook_invalid_templated_cmd_aborts() {
    let hooks = vec![
        Hook {
            key: "bad".to_string(),
            command: vec!["{{ missing }}".to_string()],
            ..Hook::default()
        },
        Hook {
            key: "later".to_string(),
            command: vec!["echo".to_string(), "never".to_string()],
            ..Hook::default()
        },
    ];

    let result = run_hooks(&hooks, ".", &Vec::new(), &DataMap::new(), None);
    assert!(matches!(result, Err(Error::ErrorRenderingTemplate(h, _)) if h.key == "bad"));
}

#[test]
fn hook_needs_satisfied_multi() {
    let hooks = vec![
        Hook {
            key: "hook".to_string(),
            command: vec!["true".to_string()],
            ..Hook::default()
        },
        Hook {
            key: "needy".to_string(),
            command: vec!["true".to_string()],
            needs: vec![
                "hook".to_string(),
                "string_slot".to_string(),
                "number_slot".to_string(),
                "bool_slot".to_string(),
            ],
            ..Hook::default()
        },
    ];

    let slots = vec![
        Slot {
            key: "string_slot".to_string(),
            slot_type: SlotType::String,
            ..Default::default()
        },
        Slot {
            key: "number_slot".to_string(),
            slot_type: SlotType::Number,
            ..Default::default()
        },
        Slot {
            key: "bool_slot".to_string(),
            slot_type: SlotType::Boolean,
            ..Default::default()
        },
    ];

    let results = run_hooks(
        &hooks,
        ".",
        &slots,
        &data_of(&[("string_slot", "foo"), ("number_slot", "1"), ("bool_slot", "true")]),
        None,
    )
    .expect("run_hooks failed, should have succeeded");

    assert!(
        results.iter().any(|x| matches!(x, HookResult {
            hook,
            kind: HookResultKind::Completed { .. },
        } if hook.key == "needy")),
        "Expected hook 'needy' to be completed"
    );
}

#[test]
fn hook_needs_unsatisfied() {
    let hooks = vec![
        Hook {
            key: "hook".to_string(),
            command: vec!["true".to_string()],
            optional: Some(HookConfigOptional { default: false }),
            ..Hook::default()
        },
        Hook {
            key: "needy".to_string(),
            command: vec!["true".to_string()],
            needs: vec!["hook".to_string()],
            ..Hook::default()
        },
    ];

    let results = run_hooks(&hooks, ".", &Vec::new(), &DataMap::new(), None)
        .expect("run_hooks failed, should have succeeded");

    assert!(
        results.iter().any(|x| matches!(x, HookResult {
            hook,
            kind: HookResultKind::Skipped(_),
        } if hook.key == "needy")),
        "Expected hook 'needy' to be skipped"
    );
}

#[test]
fn hook_needs_invalid_key() {
    let hooks = vec![Hook {
        key: "hook".to_string(),
        command: vec!["true".to_string()],
        needs: vec!["invalid_key".to_string()],
        ..Hook::default()
    }];

    let results = run_hooks(&hooks, ".", &Vec::new(), &DataMap::new(), None)
        .expect("run_hooks failed, should have succeeded");

    assert!(
        results.iter().any(|x| matches!(x, HookResult {
            hook,
            kind: HookResultKind::Skipped(spackle::hook::SkipReason::UnmetDependency),
        } if hook.key == "hook")),
        "Expected hook 'hook' to be skipped"
    );
}

#[test]
fn hook_needs_transitive() {
    let hooks = vec![
        Hook {
            key: "a".to_string(),
            command: vec!["echo".to_string(), "a".to_string()],
            ..Hook::default()
        },
        Hook {
            key: "b".to_string(),
            command: vec!["echo".to_string(), "b".to_string()],
            needs: vec!["a".to_string()],
            ..Hook::default()
        },
        Hook {
            key: "c".to_string(),
            command: vec!["echo".to_string(), "c".to_string()],
            needs: vec!["b".to_string()],
            ..Hook::default()
        },
    ];

    let results = run_hooks(&hooks, ".", &Vec::new(), &DataMap::new(), None)
        .expect("run_hooks failed, should have succeeded");

    assert!(
        results.iter().any(|x| matches!(x, HookResult {
            hook,
            kind: HookResultKind::Completed { .. },
        } if hook.key == "c")),
        "Expected hook 'c' to be completed"
    );

    // all three complete, in declaration order
    assert_eq!(results.len(), 3);
    let keys: Vec<&str> = results.iter().map(|r| r.hook.key.as_str()).collect();
    assert_eq!(keys, vec!["a", "b", "c"]);
    assert!(results.iter().all(|r| matches!(r.kind, HookResultKind::Completed { .. })));
}

#[test]
fn hook_needs_transitive_unsatisfied() {
    let hooks = vec![
        Hook {
            key: "hook_a".to_string(),
            command: vec!["true".to_string()],
            optional: Some(HookConfigOptional { default: false }),
            needs: vec!["slot_a".to_string()],
            ..Hook::default()
        },
        Hook {
            key: "hook_b".to_string(),
            command: vec!["true".to_string()],
            needs: vec!["hook_a".to_string()],
            ..Hook::default()
        },
    ];

    let results = run_hooks(&hooks, ".", &Vec::new(), &data_of(&[("slot_a", "false")]), None)
        .expect("run_hooks failed, should have succeeded");

    assert!(
        results.iter().any(|x| matches!(x, HookResult {
            hook,
            kind: HookResultKind::Skipped(_),
        } if hook.key == "hook_b")),
        "Expected hook 'hook_b' to be skipped"
    );
}

// A hook whose `needs` names a slot holding a default-like value is skipped,
// whatever its guard says.
#[test]
fn hook_needs_falsy_slot_values() {
    for falsy in ["", "0", "false", "FALSE"] {
        let hooks = vec![Hook {
            key: "h".to_string(),
            command: vec!["true".to_string()],
            needs: vec!["s".to_string()],
            if_cond: Some("true".to_string()),
            ..Hook::default()
        }];
        let slots = vec![Slot {
            key: "s".to_string(),
            ..Default::default()
        }];
        let results = run_hooks(&hooks, ".", &slots, &data_of(&[("s", falsy)]), None)
            .expect("run_hooks failed, should have succeeded");
        assert!(
            matches!(results[0].kind, HookResultKind::Skipped(_)),
            "expected a skip for slot value {:?}",
            falsy
        );
    }
}

// A hook whose command exits with status 2 fails with that exit code, and no
// later hook is attempted.
#[test]
fn hook_exit_code_aborts() {
    let hooks = vec![
        Hook {
            key: "two".to_string(),
            command: vec!["sh".to_string(), "-c".to_string(), "exit 2".to_string()],
            ..Hook::default()
        },
        Hook {
            key: "later".to_string(),
            command: vec!["echo".to_string(), "never".to_string()],
            ..Hook::default()
        },
    ];

    let results = run_hooks(&hooks, ".", &Vec::new(), &DataMap::new(), None)
        .expect("run_hooks failed, should have succeeded");

    assert_eq!(results.len(), 1);
    assert!(matches!(
        &results[0].kind,
        HookResultKind::Failed(HookError::CommandExited { exit_code: 2, .. })
    ));
}

// Rendering a command of template tokens yields the substituted argv, and
// running it captures its output.
#[test]
fn hook_rendered_argv_runs() {
    let hooks = vec![Hook {
        key: "h".to_string(),
        command: vec!["{{a}}".to_string(), "{{b}}".to_string()],
        ..Hook::default()
    }];

    let results = run_hooks(&hooks, ".", &Vec::new(), &data_of(&[("a", "echo"), ("b", "hi")]), None)
        .expect("run_hooks failed, should have succeeded");

    match &results[0].kind {
        HookResultKind::Completed { stdout, .. } => assert_eq!(stdout, b"hi\n"),
        _ => panic!("expected the rendered command to complete"),
    }
}

// A guard's rendered text is trimmed before it is read as a boolean, and the
// reading is case-sensitive.
#[test]
fn hook_guard_trimming_and_case() {
    let spaced = vec![Hook {
        key: "h".to_string(),
        command: vec!["echo".to_string(), "ok".to_string()],
        if_cond: Some("  true  ".to_string()),
        ..Hook::default()
    }];
    let results = run_hooks(&spaced, ".", &Vec::new(), &DataMap::new(), None)
        .expect("run_hooks failed, should have succeeded");
    assert!(matches!(results[0].kind, HookResultKind::Completed { .. }));

    let cased = vec![Hook {
        key: "h".to_string(),
        command: vec!["echo".to_string(), "ok".to_string()],
        if_cond: Some("True".to_string()),
        ..Hook::default()
    }];
    let results = run_hooks(&cased, ".", &Vec::new(), &DataMap::new(), None)
        .expect("run_hooks failed, should have succeeded");
    assert!(matches!(
        results[0].kind,
        HookResultKind::Failed(HookError::ConditionalFailed(
            spackle::hook::ConditionalError::NotBoolean(_)
        ))
    ));
}

// Two runs over the same hooks and data report the same outcomes.
#[test]
fn hook_runs_agree() {
    let hooks = vec![
        Hook {
            key: "a".to_string(),
            command: vec!["echo".to_string(), "{{ x }}".to_string()],
            ..Hook::default()
        },
        Hook {
            key: "b".to_string(),
            command: vec!["echo".to_string(), "{{ hook_ran_a }}".to_string()],
            ..Hook::default()
        },
    ];
    let data = data_of(&[("x", "value")]);
    let r1 = run_hooks(&hooks, ".", &Vec::new(), &data, None).expect("first run failed");
    let r2 = run_hooks(&hooks, ".", &Vec::new(), &data, None).expect("second run failed");
    assert_eq!(r1.len(), r2.len());
    for (a, b) in r1.iter().zip(r2.iter()) {
        assert_eq!(a.hook.key, b.hook.key);
        match (&a.kind, &b.kind) {
            (
                HookResultKind::Completed { stdout: s1, stderr: e1 },
                HookResultKind::Completed { stdout: s2, stderr: e2 },
            ) => {
                assert_eq!(s1, s2);
                assert_eq!(e1, e2);
            }
            _ => panic!("expected both runs to complete each hook"),
        }
    }
}

#[test]
fn test_validate_data_non_boolean() {
    let data = data_of(&[("hook_a", "foo")]);
    let hooks = vec![Hook {
        key: "hook_a".to_string(),
        optional: Some(HookConfigOptional { default: false }),
        ..Hook::default()
    }];
    validate_data(&data, &hooks).expect_err("validate_data should have failed");
}

#[test]
fn test_validate_data_missing_key() {
    let data = data_of(&[("hook_a", "true")]);
    let hooks = Vec::new();
    validate_data(&data, &hooks).expect_err("validate_data should have failed");
}

#[test]
fn test_validate_data_not_optional() {
    let data = data_of(&[("hook_a", "true")]);
    let hooks = vec![Hook {
        key: "hook_a".to_string(),
        ..Hook::default()
    }];
    validate_data(&data, &hooks).expect_err("validate_data should have failed");
}
