use volt::classes::init_data::{InitData, License};

fn oracle(data: &InitData) -> String {
    let mut object = serde_json::Map::new();
    object.insert("name".to_string(), serde_json::Value::String(data.name.clone()));
    object.insert("version".to_string(), serde_json::Value::String(data.version.clone()));
    if let Some(description) = &data.description {
        object.insert("description".to_string(), serde_json::Value::String(description.clone()));
    }
    object.insert("main".to_string(), serde_json::Value::String(data.main.clone()));
    if let Some(repository) = &data.repository {
        object.insert("repository".to_string(), serde_json::Value::String(repository.clone()));
    }
    if let Some(author) = &data.author {
        object.insert("author".to_string(), serde_json::Value::String(author.clone()));
    }
    object.insert("license".to_string(), serde_json::Value::String(data.license.tag()));
    if let Some(private) = data.private {
        object.insert("private".to_string(), serde_json::Value::Bool(private));
    }
    serde_json::to_string_pretty(&serde_json::Value::Object(object)).unwrap()
}

fn minimal() -> InitData {
    InitData {
        name: "project".to_string(),
        version: "0.1.0".to_string(),
        description: None,
        main: "index.js".to_string(),
        repository: None,
        author: None,
        license: License::MIT,
        private: None,
    }
}

#[test]
fn dump_of_the_required_answers() {
    let expected = "{\n  \"name\": \"project\",\n  \"version\": \"0.1.0\",\n  \"main\": \"index.js\",\n  \"license\": \"MIT\"\n}";
    assert_eq!(minimal().dump(), expected);
    assert_eq!(minimal().dump(), oracle(&minimal()));
}

#[test]
fn dump_of_every_answer() {
    let data = InitData {
        name: "project".to_string(),
        version: "1.0.0".to_string(),
        description: Some("says \"hello\"\n".to_string()),
        main: "src/index.js".to_string(),
        repository: Some("https://example.org/project.git".to_string()),
        author: Some("J\u{f6}rg \\ co".to_string()),
        license: License::Apache2,
        private: Some(true),
    };
    let expected = "{\n  \"name\": \"project\",\n  \"version\": \"1.0.0\",\n  \"description\": \"says \\\"hello\\\"\\n\",\n  \"main\": \"src/index.js\",\n  \"repository\": \"https://example.org/project.git\",\n  \"author\": \"J\u{f6}rg \\\\ co\",\n  \"license\": \"Apache2\",\n  \"private\": true\n}";
    assert_eq!(data.dump(), expected);
    assert_eq!(data.dump(), oracle(&data));
}

#[test]
fn dump_leaves_out_what_was_not_answered() {
    let mut data = minimal();
    data.author = Some("someone".to_string());
    data.private = Some(false);
    let text = data.dump();
    assert_eq!(text, oracle(&data));
    assert!(text.contains("\"author\": \"someone\""));
    assert!(text.contains("\"private\": false"));
    assert!(!text.contains("description"));
    assert!(!text.contains("repository"));
}

#[test]
fn dump_names_each_license() {
    let tags = [
        (License::MIT, "MIT"),
        (License::Apache2, "Apache2"),
        (License::BSD3, "BSD3"),
        (License::BSD2, "BSD2"),
        (License::GPL, "GPL"),
        (License::LGPL, "LGPL"),
        (License::MPL, "MPL"),
        (License::CDDL, "CDDL"),
        (License::Unlicense, "Unlicense"),
        (License::Other, "Other"),
    ];
    for (license, tag) in tags {
        assert_eq!(license.tag(), tag);
        let mut data = minimal();
        data.license = license;
        assert!(data.dump().contains(&format!("\"license\": \"{}\"", tag)));
        assert_eq!(data.dump(), oracle(&data));
    }
}
