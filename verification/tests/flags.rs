use std::path::PathBuf;
use volt::utils::app::{strip_dashes, App, AppFlag};

#[test]
fn flags_by_name() {
    assert_eq!(AppFlag::get(&"--help".to_string()), Some(AppFlag::Help));
    assert_eq!(AppFlag::get(&"-h".to_string()), Some(AppFlag::Help));
    assert_eq!(AppFlag::get(&"--version".to_string()), Some(AppFlag::Version));
    assert_eq!(AppFlag::get(&"--yes".to_string()), Some(AppFlag::Yes));
    assert_eq!(AppFlag::get(&"-y".to_string()), Some(AppFlag::Yes));
    assert_eq!(AppFlag::get(&"--depth".to_string()), Some(AppFlag::Depth));
    assert_eq!(AppFlag::get(&"--verbose".to_string()), Some(AppFlag::Verbose));
    assert_eq!(AppFlag::get(&"--no-progress".to_string()), Some(AppFlag::NoProgress));
}

#[test]
fn flags_ignore_case_and_dashes() {
    assert_eq!(AppFlag::get(&"--VERBOSE".to_string()), Some(AppFlag::Verbose));
    assert_eq!(AppFlag::get(&"verbose".to_string()), Some(AppFlag::Verbose));
    assert_eq!(AppFlag::get(&"-----Help".to_string()), Some(AppFlag::Help));
    assert_eq!(AppFlag::get(&"--No-Progress".to_string()), Some(AppFlag::NoProgress));
}

#[test]
fn unknown_flags() {
    assert_eq!(AppFlag::get(&"--dev".to_string()), None);
    assert_eq!(AppFlag::get(&"".to_string()), None);
    assert_eq!(AppFlag::get(&"--".to_string()), None);
    assert_eq!(AppFlag::get(&"--help-me".to_string()), None);
    assert_eq!(AppFlag::get(&"he-lp".to_string()), None);
    assert_eq!(AppFlag::get(&"--noprogress".to_string()), None);
}

#[test]
fn from_name_is_exact() {
    assert_eq!(AppFlag::from_name(&"help".to_string()), Some(AppFlag::Help));
    assert_eq!(AppFlag::from_name(&"Help".to_string()), None);
    assert_eq!(AppFlag::from_name(&"-h".to_string()), None);
    assert_eq!(AppFlag::from_name(&"y".to_string()), Some(AppFlag::Yes));
}

#[test]
fn stripping_dashes() {
    assert_eq!(strip_dashes("--verbose"), "verbose");
    assert_eq!(strip_dashes("no-progress"), "no-progress");
    assert_eq!(strip_dashes("---"), "");
    assert_eq!(strip_dashes(""), "");
    assert_eq!(strip_dashes("-a-"), "a-");
}

#[test]
fn app_keeps_its_directories_and_arguments() {
    let app = App::with_directories(
        PathBuf::from("/work/project"),
        PathBuf::from("/home/user"),
        vec!["verbose".to_string(), "yes".to_string()],
    );
    assert_eq!(app.current_dir, PathBuf::from("/work/project"));
    assert_eq!(app.home_dir, PathBuf::from("/home/user"));
    assert_eq!(app.node_modules_dir, PathBuf::from("/work/project").join("node_modules"));
    assert_eq!(app.volt_dir, PathBuf::from("/home/user").join(".volt"));
    assert_eq!(app.lock_file_path, PathBuf::from("/work/project").join("volt.lock"));
    assert!(app.has_flag("verbose"));
    assert!(app.has_flag("yes"));
    assert!(!app.has_flag("depth"));
    assert!(!app.has_flag("Verbose"));
    assert!(!app.has_flag(""));
}
