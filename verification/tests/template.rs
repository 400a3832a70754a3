use spackle::data::DataMap;
use spackle::slot::Slot;
use spackle::template::FileError;
use spackle::template::FileErrorKind;
use spackle::template::RenderedFile;
use spackle::template::TemplateFile;
use spackle::template::fill;
use spackle::template::validate;

fn data_of(pairs: &[(&str, &str)]) -> DataMap {
    let mut data = DataMap::new();
    for (k, v) in pairs {
        data.insert(k.to_string(), v.to_string());
    }
    data
}

fn file(name: &str, contents: &str) -> TemplateFile {
    TemplateFile {
        name: name.to_string(),
        contents: contents.to_string(),
    }
}

#[test]
fn template_fill_proj1() {
    let templates = vec![
        file("{{ file_name }}.rs.j2", "fn main() { println!(\"Hello, {{ person_name }}!\"); }"),
        file("age.txt.j2", "{{ person_name }} is {{ person_age }}"),
    ];

    let result = fill(
        &templates,
        &data_of(&[
            ("person_name", "Joe Bloggs"),
            ("person_age", "42"),
            ("file_name", "main"),
        ]),
    );

    assert!(result.iter().all(|r| r.is_ok()));
    match &result[0] {
        Ok(RenderedFile { path, contents }) => {
            assert_eq!(path, "main.rs");
            assert_eq!(contents, "fn main() { println!(\"Hello, Joe Bloggs!\"); }");
        }
        Err(_) => panic!("expected the first file to render"),
    }
    match &result[1] {
        Ok(RenderedFile { path, contents }) => {
            assert_eq!(path, "age.txt");
            assert_eq!(contents, "Joe Bloggs is 42");
        }
        Err(_) => panic!("expected the second file to render"),
    }
}

#[test]
fn template_validate_dir_proj1() {
    // a template referencing a field no slot defines fails validation
    let templates = vec![file("readme.md.j2", "{{ undefined_field }}")];
    let result = validate(
        &templates,
        &vec![Slot {
            key: "defined_field".to_string(),
            ..Default::default()
        }],
    );
    assert!(result.is_err());
}

#[test]
fn template_validate_dir_proj2() {
    // templates referencing only declared slots and reserved names validate
    let templates = vec![
        file("readme.md.j2", "{{ defined_field }} in {{ _project_name }}"),
        file("out.txt.j2", "{{ _output_name }}"),
    ];
    let result = validate(
        &templates,
        &vec![Slot {
            key: "defined_field".to_string(),
            ..Default::default()
        }],
    );
    assert!(result.is_ok());
}

#[test]
fn template_fill_error_kinds() {
    let bad_contents = vec![file("a.txt.j2", "{{ nope }}")];
    let r = fill(&bad_contents, &DataMap::new());
    assert!(matches!(
        &r[0],
        Err(FileError { kind: FileErrorKind::ErrorRenderingContents(_), file }) if file == "a.txt.j2"
    ));

    let bad_name = vec![file("{{ nope }}.txt.j2", "fixed")];
    let r = fill(&bad_name, &DataMap::new());
    assert!(matches!(
        &r[0],
        Err(FileError { kind: FileErrorKind::ErrorRenderingName(_), file }) if file == "{{ nope }}.txt.j2"
    ));
}

#[test]
fn template_fill_renders_names() {
    let templates = vec![file("{{ kind }}-notes.md.j2", "body")];
    let r = fill(&templates, &data_of(&[("kind", "daily")]));
    match &r[0] {
        Ok(RenderedFile { path, contents }) => {
            assert_eq!(path, "daily-notes.md");
            assert_eq!(contents, "body");
        }
        Err(_) => panic!("expected the file to render"),
    }
}

#[test]
fn template_plain_name_kept() {
    // a file without the template extension keeps its name untouched
    let templates = vec![file("static.txt", "{{ x }}")];
    let r = fill(&templates, &data_of(&[("x", "1")]));
    match &r[0] {
        Ok(RenderedFile { path, contents }) => {
            assert_eq!(path, "static.txt");
            assert_eq!(contents, "1");
        }
        Err(_) => panic!("expected the file to render"),
    }
}
