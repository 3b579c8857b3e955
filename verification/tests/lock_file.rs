use std::io;
use std::path::PathBuf;
use volt::model::dependencies::DependenciesMap;
use volt::model::dependency::{DependencyID, DependencyLock};
use volt::model::errors::{DecodeError, LockFileError};
use volt::model::lock_file::LockFile;

fn id(name: &str, version: &str) -> DependencyID {
    DependencyID::from((name.to_string(), version.to_string()))
}

fn record(name: &str, version: &str) -> DependencyLock {
    DependencyLock {
        name: name.to_string(),
        version: version.to_string(),
        tarball: format!("https://registry.example/{}/-/{}-{}.tgz", name, name, version),
        sha1: format!("sha1-{}{}", name, version),
    }
}

fn text_of(lock_file: &LockFile) -> String {
    String::from_utf8(lock_file.save()).unwrap()
}

fn same(a: &DependencyLock, b: &DependencyLock) -> bool {
    a.name == b.name && a.version == b.version && a.tarball == b.tarball && a.sha1 == b.sha1
}

fn oracle(entries: &[(String, DependencyLock)]) -> String {
    let mut object = serde_json::Map::new();
    for (key, lock) in entries {
        let mut fields = serde_json::Map::new();
        fields.insert("name".to_string(), serde_json::Value::String(lock.name.clone()));
        fields.insert("version".to_string(), serde_json::Value::String(lock.version.clone()));
        fields.insert("tarball".to_string(), serde_json::Value::String(lock.tarball.clone()));
        fields.insert("sha1".to_string(), serde_json::Value::String(lock.sha1.clone()));
        object.insert(key.clone(), serde_json::Value::Object(fields));
    }
    serde_json::to_string_pretty(&serde_json::Value::Object(object)).unwrap()
}

#[test]
fn new_lock_file_is_empty() {
    let lock_file = LockFile::new(PathBuf::from("volt.lock"));
    assert_eq!(lock_file.path, PathBuf::from("volt.lock"));
    assert_eq!(lock_file.dependencies.len(), 0);
    assert_eq!(text_of(&lock_file), "{}");
}

#[test]
fn add_then_get() {
    let mut lock_file = LockFile::new(PathBuf::from("volt.lock"));
    lock_file.add(("react".to_string(), "^1.0.0".to_string()), record("react", "1.2.6"));
    assert_eq!(lock_file.dependencies.len(), 1);
    let found = lock_file.dependencies.get(&id("react", "^1.0.0")).unwrap();
    assert!(same(found, &record("react", "1.2.6")));
    assert!(lock_file.dependencies.get(&id("react", "^2.0.0")).is_none());
    assert!(lock_file.dependencies.get(&id("vue", "^1.0.0")).is_none());
    assert_eq!(lock_file.path, PathBuf::from("volt.lock"));
}

#[test]
fn add_twice_keeps_the_second_record() {
    let mut lock_file = LockFile::new(PathBuf::from("volt.lock"));
    lock_file.add(id("react", "^1.0.0"), record("react", "1.2.6"));
    lock_file.add(id("react", "^1.0.0"), record("react", "1.9.0"));
    assert_eq!(lock_file.dependencies.len(), 1);
    let found = lock_file.dependencies.get(&id("react", "^1.0.0")).unwrap();
    assert!(same(found, &record("react", "1.9.0")));
    let list = lock_file.dependencies.sorted_entries();
    assert_eq!(list.len(), 1);
    assert_eq!(list[0].0, "react@^1.0.0");
    assert!(same(&list[0].1, &record("react", "1.9.0")));
}

#[test]
fn keys_with_one_canonical_text_share_an_entry() {
    let mut lock_file = LockFile::new(PathBuf::from("volt.lock"));
    lock_file.add(id("a@b", "c"), record("a", "1.0.0"));
    lock_file.add(id("a", "b@c"), record("a", "2.0.0"));
    assert_eq!(lock_file.dependencies.len(), 1);
    assert!(same(lock_file.dependencies.get(&id("a@b", "c")).unwrap(), &record("a", "2.0.0")));
}

#[test]
fn save_writes_the_exact_text() {
    let mut lock_file = LockFile::new(PathBuf::from("volt.lock"));
    lock_file.add(
        id("react", "^1.0.0"),
        DependencyLock {
            name: "react".to_string(),
            version: "1.2.6".to_string(),
            tarball: "https://r.example/react.tgz".to_string(),
            sha1: "sha1-abc=".to_string(),
        },
    );
    let expected = "{\n  \"react@^1.0.0\": {\n    \"name\": \"react\",\n    \"version\": \"1.2.6\",\n    \"tarball\": \"https://r.example/react.tgz\",\n    \"sha1\": \"sha1-abc=\"\n  }\n}";
    assert_eq!(text_of(&lock_file), expected);
    lock_file.add(
        id("lodash", "4.x"),
        DependencyLock {
            name: "lodash".to_string(),
            version: "4.17.21".to_string(),
            tarball: String::new(),
            sha1: String::new(),
        },
    );
    let expected = "{\n  \"lodash@4.x\": {\n    \"name\": \"lodash\",\n    \"version\": \"4.17.21\",\n    \"tarball\": \"\",\n    \"sha1\": \"\"\n  },\n  \"react@^1.0.0\": {\n    \"name\": \"react\",\n    \"version\": \"1.2.6\",\n    \"tarball\": \"https://r.example/react.tgz\",\n    \"sha1\": \"sha1-abc=\"\n  }\n}";
    assert_eq!(text_of(&lock_file), expected);
}

#[test]
fn save_orders_the_keys_by_raw_bytes() {
    let mut lock_file = LockFile::new(PathBuf::from("volt.lock"));
    for (name, version) in [("react", "1"), ("react-dom", "1"), ("a", "10"), ("a", "2"), ("Z", "0"), ("\u{e9}t\u{e9}", "1")] {
        lock_file.add(id(name, version), record(name, version));
    }
    let keys: Vec<String> =
        lock_file.dependencies.sorted_entries().into_iter().map(|entry| entry.0).collect();
    assert_eq!(keys, vec!["Z@0", "a@10", "a@2", "react-dom@1", "react@1", "\u{e9}t\u{e9}@1"]);
    let mut sorted = keys.clone();
    sorted.sort();
    assert_eq!(keys, sorted);
}

#[test]
fn save_does_not_depend_on_the_order_of_insertion() {
    let entries = [
        ("react", "^17.0.0", "17.0.2"),
        ("react-dom", "^17.0.0", "17.0.2"),
        ("lodash", "^4.0.0", "4.17.21"),
        ("left-pad", "*", "1.3.0"),
        ("@scope/pkg", "~2", "2.0.1"),
    ];
    let mut forward = LockFile::new(PathBuf::from("a.lock"));
    for (name, spec, version) in entries.iter() {
        forward.add(id(name, spec), record(name, version));
    }
    let mut backward = LockFile::new(PathBuf::from("b.lock"));
    for (name, spec, version) in entries.iter().rev() {
        backward.add(id(name, spec), record(name, version));
    }
    let mut replaced = LockFile::new(PathBuf::from("c.lock"));
    for (name, spec, _) in entries.iter() {
        replaced.add(id(name, spec), record(name, "0.0.0"));
    }
    for (name, spec, version) in [entries[3], entries[0], entries[4], entries[2], entries[1]] {
        replaced.add(id(name, spec), record(name, version));
    }
    assert_eq!(forward.save(), backward.save());
    assert_eq!(forward.save(), replaced.save());
}

#[test]
fn save_agrees_with_a_json_library() {
    let mut lock_file = LockFile::new(PathBuf::from("volt.lock"));
    assert_eq!(text_of(&lock_file), oracle(&[]));
    lock_file.add(id("react", "^1.0.0"), record("react", "1.2.6"));
    assert_eq!(text_of(&lock_file), oracle(&lock_file.dependencies.sorted_entries()));
    lock_file.add(id("lodash", "4.x"), record("lodash", "4.17.21"));
    lock_file.add(
        id("we\"ird\\", "\u{1}\u{8}\u{c}\n\r\t\u{1f}\u{7f}"),
        DependencyLock {
            name: "quote \" backslash \\ slash / bell \u{7}".to_string(),
            version: "\u{0}\u{b}\u{e}\u{1b}".to_string(),
            tarball: "caf\u{e9} \u{4e2d}\u{6587} \u{1f600}".to_string(),
            sha1: "\u{2028}\u{2029}".to_string(),
        },
    );
    assert_eq!(text_of(&lock_file), oracle(&lock_file.dependencies.sorted_entries()));
}

#[test]
fn load_gives_back_what_was_saved() {
    let mut lock_file = LockFile::new(PathBuf::from("volt.lock"));
    lock_file.add(id("react", "^1.0.0"), record("react", "1.2.6"));
    lock_file.add(id("lodash", "4.x"), record("lodash", "4.17.21"));
    lock_file.add(id("@scope/pkg", "~2"), record("@scope/pkg", "2.0.1"));
    lock_file.add(
        id("odd", "\"\\\u{0}\n"),
        DependencyLock {
            name: "tab\there".to_string(),
            version: "\u{1f}".to_string(),
            tarball: "\u{1f600}".to_string(),
            sha1: "\\u0041".to_string(),
        },
    );
    let bytes = lock_file.save();
    let loaded = match LockFile::load(PathBuf::from("other.lock"), Ok(bytes.clone())) {
        Ok(loaded) => loaded,
        Err(e) => panic!("unexpected failure: {:?}", e),
    };
    assert_eq!(loaded.path, PathBuf::from("other.lock"));
    assert_eq!(loaded.dependencies.len(), 4);
    let before = lock_file.dependencies.sorted_entries();
    let after = loaded.dependencies.sorted_entries();
    assert_eq!(before.len(), after.len());
    for (x, y) in before.iter().zip(after.iter()) {
        assert_eq!(x.0, y.0);
        assert!(same(&x.1, &y.1));
    }
    assert_eq!(loaded.save(), bytes);
}

#[test]
fn load_of_an_empty_lock_file() {
    let saved = LockFile::new(PathBuf::from("volt.lock")).save();
    match LockFile::load(PathBuf::from("volt.lock"), Ok(saved)) {
        Ok(loaded) => assert_eq!(loaded.dependencies.len(), 0),
        Err(e) => panic!("unexpected failure: {:?}", e),
    }
}

#[test]
fn load_reports_a_failed_read() {
    let missing = io::Error::new(io::ErrorKind::NotFound, "no such file");
    match LockFile::load(PathBuf::from("missing.lock"), Err(missing)) {
        Err(LockFileError::IO(e)) => {
            assert_eq!(e.kind(), io::ErrorKind::NotFound);
            assert_eq!(e.to_string(), "no such file");
        }
        Err(other) => panic!("unexpected failure: {:?}", other),
        Ok(_) => panic!("a failed read gave a lock file"),
    }
    let denied = io::Error::from(io::ErrorKind::PermissionDenied);
    match LockFile::load(PathBuf::from("locked.lock"), Err(denied)) {
        Err(LockFileError::IO(e)) => assert_eq!(e.kind(), io::ErrorKind::PermissionDenied),
        _ => panic!("expected an input/output error"),
    }
}

fn decode_failure(content: &[u8]) -> DecodeError {
    match LockFile::load(PathBuf::from("volt.lock"), Ok(content.to_vec())) {
        Err(LockFileError::Decode(e)) => e,
        Err(other) => panic!("unexpected failure: {:?}", other),
        Ok(_) => panic!("invalid content gave a lock file"),
    }
}

#[test]
fn load_reports_invalid_content() {
    assert_eq!(decode_failure(b"not json"), DecodeError::Syntax);
    assert_eq!(decode_failure(b""), DecodeError::Syntax);
    assert_eq!(decode_failure(b"   "), DecodeError::Syntax);
    assert_eq!(decode_failure(b"{"), DecodeError::Syntax);
    assert_eq!(decode_failure(b"[]"), DecodeError::Syntax);
    assert_eq!(decode_failure(b"{} x"), DecodeError::Syntax);
    assert_eq!(decode_failure(b"{}{}"), DecodeError::Syntax);
    assert_eq!(decode_failure(b"{\"a@1\"}"), DecodeError::Syntax);
    assert_eq!(decode_failure(b"{\"a@1\": 1}"), DecodeError::Syntax);
    assert_eq!(decode_failure(b"{\"a@1\": null}"), DecodeError::Syntax);
    assert_eq!(decode_failure(b"{'a@1': {}}"), DecodeError::Syntax);
    assert_eq!(decode_failure(b"{\"a@1\": {\"name\": 1}}"), DecodeError::Syntax);
    assert_eq!(decode_failure(b"{\"a@1\": {\"name\": \"a\",}}"), DecodeError::Syntax);
    assert_eq!(decode_failure(b"{\"a@1\" {\"name\": \"a\"}}"), DecodeError::Syntax);
    assert_eq!(decode_failure(b"\xff\xfe"), DecodeError::Syntax);
    assert_eq!(decode_failure(b"{\"a@1\xff\": {}}"), DecodeError::Syntax);
}

const RECORD: &str = "{\"name\": \"a\", \"version\": \"1\", \"tarball\": \"t\", \"sha1\": \"s\"}";

#[test]
fn load_reports_malformed_records() {
    assert_eq!(decode_failure(b"{\"a@1\": {}}"), DecodeError::Field);
    assert_eq!(
        decode_failure(b"{\"a@1\": {\"name\": \"a\", \"version\": \"1\", \"tarball\": \"t\"}}"),
        DecodeError::Field
    );
    assert_eq!(
        decode_failure(b"{\"a@1\": {\"name\": \"a\", \"name\": \"b\", \"version\": \"1\", \"tarball\": \"t\", \"sha1\": \"s\"}}"),
        DecodeError::Field
    );
    assert_eq!(
        decode_failure(b"{\"a@1\": {\"name\": \"a\", \"version\": \"1\", \"tarball\": \"t\", \"sha1\": \"s\", \"extra\": \"x\"}}"),
        DecodeError::Field
    );
    assert_eq!(
        decode_failure(b"{\"a@1\": {\"Name\": \"a\", \"version\": \"1\", \"tarball\": \"t\", \"sha1\": \"s\"}}"),
        DecodeError::Field
    );
}

#[test]
fn load_reports_keys_without_version() {
    assert_eq!(decode_failure(format!("{{\"react\": {}}}", RECORD).as_bytes()), DecodeError::MissingVersion);
    assert_eq!(decode_failure(format!("{{\"\": {}}}", RECORD).as_bytes()), DecodeError::MissingVersion);
    assert_eq!(decode_failure(b"{\"react\": 1}"), DecodeError::MissingVersion);
}

#[test]
fn load_keeps_the_halves_of_each_key() {
    let text = format!("{{\"@babel/core@^7.0.0\": {}}}", RECORD);
    let loaded = DependenciesMap::from_text(&text).unwrap();
    assert!(loaded.get(&id("", "babel/core@^7.0.0")).is_some());
    assert!(loaded.get(&id("@babel/core", "^7.0.0")).is_some());
    assert_eq!(loaded.sorted_entries()[0].0, "@babel/core@^7.0.0");
}

#[test]
fn load_accepts_any_order_and_spacing() {
    let text = " \t\r\n{ \"b@2\" :{\"sha1\":\"s2\",\n\"tarball\":\"t2\" , \"version\":\"2.0.0\",\"name\":\"b\"}\n,\"a@1\":\n\n{\"name\":\"a\",\"version\":\"1.0.0\",\"tarball\":\"t1\",\"sha1\":\"s1\"\t} }\r\n";
    let loaded = DependenciesMap::from_text(text).unwrap();
    assert_eq!(loaded.len(), 2);
    let a = loaded.get(&id("a", "1")).unwrap();
    assert_eq!((a.name.as_str(), a.version.as_str(), a.tarball.as_str(), a.sha1.as_str()), ("a", "1.0.0", "t1", "s1"));
    let b = loaded.get(&id("b", "2")).unwrap();
    assert_eq!((b.name.as_str(), b.version.as_str(), b.tarball.as_str(), b.sha1.as_str()), ("b", "2.0.0", "t2", "s2"));
    let keys: Vec<String> = loaded.sorted_entries().into_iter().map(|entry| entry.0).collect();
    assert_eq!(keys, vec!["a@1", "b@2"]);
}

#[test]
fn load_lets_the_later_entry_win() {
    let text = "{\"a@1\": {\"name\":\"first\",\"version\":\"1\",\"tarball\":\"\",\"sha1\":\"\"}, \"a@1\": {\"name\":\"second\",\"version\":\"2\",\"tarball\":\"\",\"sha1\":\"\"}}";
    let loaded = DependenciesMap::from_text(text).unwrap();
    assert_eq!(loaded.len(), 1);
    assert_eq!(loaded.get(&id("a", "1")).unwrap().name, "second");
}

#[test]
fn load_reads_every_escape() {
    let text = "{\"a@\\u0031\": {\"name\":\"\\\"\\\\\\/\\b\\f\\n\\r\\t\",\"version\":\"\\u00e9\\u00E9\\u4e2D\",\"tarball\":\"\\ud83d\\ude00\\uD83D\\uDE00\",\"sha1\":\"\\u0000\\uffff\"}}";
    let loaded = DependenciesMap::from_text(text).unwrap();
    let found = loaded.get(&id("a", "1")).unwrap();
    assert_eq!(found.name, "\"\\/\u{8}\u{c}\n\r\t");
    assert_eq!(found.version, "\u{e9}\u{e9}\u{4e2d}");
    assert_eq!(found.tarball, "\u{1f600}\u{1f600}");
    assert_eq!(found.sha1, "\u{0}\u{ffff}");
    let value: serde_json::Value = serde_json::from_str(text).unwrap();
    assert_eq!(value["a@1"]["name"].as_str().unwrap(), found.name);
    assert_eq!(value["a@1"]["version"].as_str().unwrap(), found.version);
    assert_eq!(value["a@1"]["tarball"].as_str().unwrap(), found.tarball);
    assert_eq!(value["a@1"]["sha1"].as_str().unwrap(), found.sha1);
}

fn with_name(name: &str) -> String {
    format!("{{\"a@1\": {{\"name\":\"{}\",\"version\":\"\",\"tarball\":\"\",\"sha1\":\"\"}}}}", name)
}

#[test]
fn load_refuses_bad_strings() {
    for bad in [
        "\\x", "\\u12", "\\u12g4", "\\ud83d", "\\ud83dx", "\\ud83d\\n", "\\ud83d\\u0041",
        "\\ude00", "\\ud83d\\ud83d", "\n", "\t", "\u{0}", "\u{1f}", "\\",
    ] {
        let text = with_name(bad);
        assert!(serde_json::from_str::<serde_json::Value>(&text).is_err(), "{:?}", bad);
        match DependenciesMap::from_text(&text) {
            Err(e) => assert_eq!(e, DecodeError::Syntax, "{:?}", bad),
            Ok(_) => panic!("{:?} was accepted", bad),
        }
    }
    for good in ["\u{7f}", "\u{80}", "/", "'", "\u{1f600}", "\\u0020", " "] {
        let text = with_name(good);
        assert!(serde_json::from_str::<serde_json::Value>(&text).is_ok(), "{:?}", good);
        assert!(DependenciesMap::from_text(&text).is_ok(), "{:?}", good);
    }
}

#[test]
fn text_round_trip_of_the_map() {
    let mut map = DependenciesMap::new();
    assert_eq!(map.to_text(), "{}");
    map.insert(&id("b", "2"), record("b", "2.0.0"));
    map.insert(&id("a", "1"), record("a", "1.0.0"));
    let text = map.to_text();
    let back = DependenciesMap::from_text(&text).unwrap();
    assert_eq!(back.len(), 2);
    assert_eq!(back.to_text(), text);
    assert!(same(back.get(&id("a", "1")).unwrap(), &record("a", "1.0.0")));
    assert!(same(back.get(&id("b", "2")).unwrap(), &record("b", "2.0.0")));
}

#[test]
fn default_map_is_empty() {
    let map = DependenciesMap::default();
    assert_eq!(map.len(), 0);
    assert!(map.sorted_entries().is_empty());
    assert!(map.get(&id("a", "1")).is_none());
}

#[test]
fn many_entries_come_out_sorted() {
    let mut lock_file = LockFile::new(PathBuf::from("volt.lock"));
    let mut expected = Vec::new();
    for i in 0..200u32 {
        let name = format!("pkg-{}", (i * 7919) % 1000);
        lock_file.add(id(&name, "*"), record(&name, "1.0.0"));
        expected.push(format!("{}@*", name));
    }
    expected.sort();
    expected.dedup();
    let keys: Vec<String> =
        lock_file.dependencies.sorted_entries().into_iter().map(|entry| entry.0).collect();
    assert_eq!(keys, expected);
    assert_eq!(lock_file.dependencies.len(), expected.len());
}

#[test]
fn error_messages() {
    assert_eq!(DecodeError::Syntax.message(), "malformed lock file");
    assert_eq!(DecodeError::Field.message(), "malformed dependency record");
    assert_eq!(DecodeError::MissingVersion.message(), "missing dependency version");
    assert_eq!(
        LockFileError::IO(io::Error::from(io::ErrorKind::NotFound)).message(),
        "unable to read lock file"
    );
    assert_eq!(
        LockFileError::Decode(DecodeError::Syntax).message(),
        "unable to deserialize lock file"
    );
    assert_eq!(LockFileError::Encode(String::new()).message(), "unable to serialize lock file");
}
