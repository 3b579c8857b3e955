use volt::classes::package::{Dist, Maintainer, Package, Version};

#[test]
fn package_defaults_are_empty() {
    let package = Package::default();
    assert_eq!(package.name, "");
    assert_eq!(package.dist_tags.latest, "");
    assert!(package.versions.is_empty());
    assert!(package.maintainers.is_empty());
    assert_eq!(package, Package::default());
}

#[test]
fn versions_compare_field_by_field() {
    let mut version = Version::default();
    version.name = "react".to_string();
    version.dist = Dist { tarball: "https://r.example/react.tgz".to_string(), file_count: 3, ..Dist::default() };
    version.maintainers.push(Maintainer { name: "a".to_string(), email: "a@example.org".to_string() });
    let copy = version.clone();
    assert_eq!(copy, version);
    let mut other = version.clone();
    other.dist.file_count = 4;
    assert_ne!(other, version);
    let mut package = Package::default();
    package.versions.insert("1.0.0".to_string(), version);
    assert_eq!(package.versions["1.0.0"].dist.file_count, 3);
    assert!(!package.versions["1.0.0"].has_shrinkwrap);
}
