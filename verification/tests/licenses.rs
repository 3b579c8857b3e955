use volt::classes::init_data::License;

#[test]
fn license_names() {
    assert_eq!(License::MIT.to_string(), "MIT License");
    assert_eq!(License::Apache2.to_string(), "Apache License 2.0");
    assert_eq!(License::BSD3.to_string(), "BSD 3-Clause \"New\" or \"Revised\" License");
    assert_eq!(License::BSD2.to_string(), "BSD 2-Clause \"Simplified\" or \"FreeBSD\" License");
    assert_eq!(License::GPL.to_string(), "GNU General Public License (GPL)");
    assert_eq!(
        License::LGPL.to_string(),
        "GNU Library or \"Lesser\" General Public License (LGPL)"
    );
    assert_eq!(License::MPL.to_string(), "Mozilla Public License 2.0");
    assert_eq!(License::CDDL.to_string(), "Common Development and Distribution License");
    assert_eq!(License::Unlicense.to_string(), "The Unlicense");
    assert_eq!(License::Other.to_string(), "Other");
}

#[test]
fn license_options() {
    let options = License::options();
    assert_eq!(options.len(), 10);
    assert_eq!(options[0], "MIT License");
    assert_eq!(options[1], "Apache License 2.0");
    assert_eq!(options[2], License::BSD3.to_string());
    assert_eq!(options[3], License::BSD2.to_string());
    assert_eq!(options[4], License::GPL.to_string());
    assert_eq!(options[5], License::LGPL.to_string());
    assert_eq!(options[6], License::MPL.to_string());
    assert_eq!(options[7], License::CDDL.to_string());
    assert_eq!(options[8], "The Unlicense");
    assert_eq!(options[9], License::BSD3.to_string());
}

#[test]
fn license_from_index() {
    assert_eq!(License::from_index(0), Some(License::MIT));
    assert_eq!(License::from_index(1), Some(License::Apache2));
    assert_eq!(License::from_index(2), Some(License::BSD3));
    assert_eq!(License::from_index(3), Some(License::BSD2));
    assert_eq!(License::from_index(4), Some(License::GPL));
    assert_eq!(License::from_index(5), Some(License::LGPL));
    assert_eq!(License::from_index(6), Some(License::MPL));
    assert_eq!(License::from_index(7), Some(License::CDDL));
    assert_eq!(License::from_index(8), Some(License::Unlicense));
    assert_eq!(License::from_index(9), Some(License::Other));
    assert_eq!(License::from_index(10), None);
    assert_eq!(License::from_index(usize::MAX), None);
}

#[test]
fn license_default_is_mit() {
    assert_eq!(License::default(), License::MIT);
}
