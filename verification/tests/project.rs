use spackle::CheckError;
use spackle::GenerateError;
use spackle::config::Config;
use spackle::copy::SourceEntry;
use spackle::data::DataMap;
use spackle::get_output_name;
use spackle::load_project;
use spackle::slot::Slot;
use spackle::slot::SlotType;
use spackle::template::TemplateFile;

fn data_of(pairs: &[(&str, &str)]) -> DataMap {
    let mut data = DataMap::new();
    for (k, v) in pairs {
        data.insert(k.to_string(), v.to_string());
    }
    data
}

fn file(name: &str, contents: &str) -> TemplateFile {
    TemplateFile {
        name: name.to_string(),
        contents: contents.to_string(),
    }
}

fn project_with(slots: Vec<Slot>, path: &str) -> spackle::Project {
    let config = Config {
        name: None,
        ignore: vec![],
        slots,
        hooks: vec![],
    };
    load_project(config, path.to_string()).expect("the manifest should validate")
}

#[test]
fn test_get_output_name() {
    assert_eq!(get_output_name("/path/to/output.name"), "output.name");
}

#[test]
fn output_name_edges() {
    assert_eq!(get_output_name("dir/"), "dir");
    assert_eq!(get_output_name(""), "project");
    assert_eq!(get_output_name("a/.."), "project");
    assert_eq!(get_output_name("./x"), "x");
}

#[test]
fn test_check_pass() {
    let project = project_with(
        vec![Slot {
            key: "defined_field".to_string(),
            ..Default::default()
        }],
        "tests/data/proj2",
    );
    let templates = vec![file("readme.md.j2", "{{ defined_field }}")];
    assert!(project.check(&templates).is_ok());
}

#[test]
fn test_check_slot_error() {
    let project = project_with(
        vec![Slot {
            key: "n".to_string(),
            slot_type: SlotType::Number,
            default: Some("not a number".to_string()),
            ..Default::default()
        }],
        "tests/data/bad_default_slot_val",
    );
    let result = project.check(&Vec::new());
    assert!(matches!(result, Err(CheckError::SlotError(_))));
}

#[test]
fn test_check_template_error() {
    let project = project_with(Vec::new(), "tests/data/bad_template");
    let templates = vec![file("readme.md.j2", "{{ undefined_field }}")];
    let result = project.check(&templates);
    assert!(matches!(result, Err(CheckError::TemplateError(_))));
}

#[test]
fn project_generate() {
    let project = project_with(
        vec![Slot {
            key: "who".to_string(),
            ..Default::default()
        }],
        "/projects/greeting",
    );
    let templates = vec![file("hello.txt.j2", "hello {{ who }} from {{ _project_name }}")];
    let data = data_of(&[("who", "world")]);

    let rendered = project
        .generate(&templates, "/tmp/out", false, &data)
        .expect("generation should succeed");
    assert_eq!(rendered.len(), 1);
    assert_eq!(rendered[0].path, "hello.txt");
    assert_eq!(rendered[0].contents, "hello world from greeting");
}

#[test]
fn project_generate_already_exists() {
    let project = project_with(Vec::new(), "/projects/greeting");
    let result = project.generate(&Vec::new(), "/tmp/out", true, &DataMap::new());
    assert!(matches!(result, Err(GenerateError::AlreadyExists(p)) if p == "/tmp/out"));
}

#[test]
fn project_generate_deterministic() {
    let project = project_with(
        vec![Slot {
            key: "who".to_string(),
            ..Default::default()
        }],
        "/projects/greeting",
    );
    let templates = vec![file("hello.txt.j2", "hello {{ who }}")];
    let data = data_of(&[("who", "world")]);
    let first = project.generate(&templates, "/tmp/a", false, &data).expect("first run");
    let second = project.generate(&templates, "/tmp/b", false, &data).expect("second run");
    assert_eq!(first.len(), second.len());
    for (a, b) in first.iter().zip(second.iter()) {
        assert_eq!(a.path, b.path);
        assert_eq!(a.contents, b.contents);
    }
}

#[test]
fn project_reserved_keys_win() {
    // caller-supplied values cannot shadow the reserved names
    let project = project_with(Vec::new(), "/projects/greeting");
    let templates = vec![file("n.txt.j2", "{{ _project_name }}")];
    let data = data_of(&[("_project_name", "impostor")]);
    let rendered = project
        .generate(&templates, "/tmp/out", false, &data)
        .expect("generation should succeed");
    assert_eq!(rendered[0].contents, "greeting");
}

#[test]
fn project_copy_files_plan() {
    let config = Config {
        name: None,
        ignore: vec!["ignored.txt".to_string()],
        slots: vec![],
        hooks: vec![],
    };
    let project = load_project(config, "/projects/greeting".to_string()).expect("valid");
    let entries = vec![
        SourceEntry {
            rel_path: "keep.txt".to_string(),
            is_dir: false,
        },
        SourceEntry {
            rel_path: "ignored.txt".to_string(),
            is_dir: false,
        },
        SourceEntry {
            rel_path: "spackle.toml".to_string(),
            is_dir: false,
        },
        SourceEntry {
            rel_path: "tmpl.j2".to_string(),
            is_dir: false,
        },
        SourceEntry {
            rel_path: "sub".to_string(),
            is_dir: true,
        },
        SourceEntry {
            rel_path: "ignored.txt/nested.txt".to_string(),
            is_dir: false,
        },
        SourceEntry {
            rel_path: "{{ dir }}/file.txt".to_string(),
            is_dir: false,
        },
    ];
    let data = data_of(&[("dir", "rendered")]);
    let (actions, counts) = project
        .copy_files(&entries, "/out", &data)
        .expect("the plan should succeed");

    let dests: Vec<&str> = actions.iter().map(|a| a.dest.as_str()).collect();
    assert_eq!(dests, vec!["/out/keep.txt", "/out/sub", "/out/rendered/file.txt"]);
    assert_eq!(counts.copied_count, 2);
    // only `ignored.txt` itself matches the ignore list by name; the nested
    // file is excluded through its parent without being counted
    assert_eq!(counts.skipped_count, 1);
}

#[test]
fn project_run_hooks_sees_reserved_keys() {
    let config = Config {
        name: Some("demo".to_string()),
        ignore: vec![],
        slots: vec![],
        hooks: vec![spackle::hook::Hook {
            key: "say".to_string(),
            command: vec!["echo".to_string(), "{{ _project_name }}".to_string()],
            if_cond: None,
            optional: None,
            needs: vec![],
            name: None,
            description: None,
        }],
    };
    let project = load_project(config, "/projects/demo".to_string()).expect("valid");
    let results = project
        .run_hooks(".", &DataMap::new(), None)
        .expect("the run should succeed");
    assert_eq!(results.len(), 1);
    match &results[0].kind {
        spackle::hook::HookResultKind::Completed { stdout, .. } => {
            assert_eq!(stdout, b"demo\n");
        }
        _ => panic!("expected the hook to complete"),
    }
}

#[test]
fn project_name_fallback() {
    let project = project_with(Vec::new(), "/srv/templates/web-app.d");
    assert_eq!(project.get_name(), "web-app");

    let named = load_project(
        Config {
            name: Some("fancy".to_string()),
            ignore: vec![],
            slots: vec![],
            hooks: vec![],
        },
        "/srv/templates/web-app".to_string(),
    )
    .expect("valid");
    assert_eq!(named.get_name(), "fancy");
}
