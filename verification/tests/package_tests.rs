use io_lang::error::IoError;
use io_lang::package::registry::{checksum, matching_version, verify_checksum, PackageRegistry, PackageVersion};
use io_lang::package::{is_valid_package_name, is_valid_version, DependencyResolution, Package};

#[test]
fn package_names_and_versions_are_checked() {
    assert!(is_valid_package_name("my_pkg-2"));
    assert!(!is_valid_package_name("1abc"));
    assert!(!is_valid_package_name("Upper"));
    assert!(is_valid_version("1.2.3"));
    assert!(is_valid_version("1.2.3-beta1"));
    assert!(!is_valid_version("1.2"));
}

#[test]
fn validation_reports_the_first_failing_check() {
    let mut p = Package::new("demo");
    assert!(p.validate(true).is_ok());
    assert_eq!(p.validate(false).unwrap_err().message(), "Entry point file not found");
    p.version = "one".to_string();
    assert_eq!(p.validate(true).unwrap_err().message(), "Invalid version format");
    p.name = "Bad Name".to_string();
    assert_eq!(p.validate(true).unwrap_err().message(), "Invalid package name");
}

#[test]
fn adding_a_dependency_twice_replaces_its_version() {
    let mut p = Package::new("demo");
    p.add_dependency("util", "1.0.0");
    p.add_dependency("util", "2.0.0");
    assert_eq!(p.dependencies, vec![("util".to_string(), "2.0.0".to_string())]);
}

#[test]
fn dependencies_resolve_transitively() {
    let mut root = Package::new("app");
    root.add_dependency("a", "1.0.0");
    let fetch = |name: &str, version: &str| -> Result<Package, IoError> {
        let mut p = Package::new(name);
        p.version = version.to_string();
        if name == "a" {
            p.add_dependency("b", "1.0.0");
        }
        Ok(p)
    };
    let res = root.resolve_dependencies(&fetch).unwrap();
    assert!(res.contains("a"));
    assert!(res.contains("b"));
    assert_eq!(res.len(), 2);
    assert_eq!(res.max_depth(), 100);
}

#[test]
fn failed_fetch_fails_the_resolution() {
    let mut root = Package::new("app");
    root.add_dependency("a", "1.0.0");
    let fetch = |_: &str, _: &str| -> Result<Package, IoError> { Err(IoError::not_found("offline")) };
    let err = root.resolve_dependencies(&fetch).unwrap_err();
    assert_eq!(err.message(), "Not found: offline");
}

#[test]
fn checksum_is_the_sha256_digest() {
    let sum = checksum(b"abc");
    assert_eq!(sum, "ba7816bf8f01cfea414140de5dae2223b00361a396177a9cb410ff61f20015ad");
    assert!(verify_checksum(b"abc", &sum).is_ok());
    assert_eq!(verify_checksum(b"abd", &sum).unwrap_err().message(), "Package checksum mismatch");
}

#[test]
fn best_published_version_is_found() {
    let mut registry = PackageRegistry::new("index".to_string());
    for v in ["1.0.0", "1.2.0", "2.0.0"] {
        let mut p = Package::new("demo");
        p.version = v.to_string();
        registry.publish_package(&p).unwrap();
    }
    assert_eq!(registry.find_best_version("demo", "^1.0").unwrap().version, "1.2.0");
    assert_eq!(registry.find_best_version("demo", ">=1.0.0").unwrap().version, "2.0.0");
    assert!(registry.find_best_version("demo", "not a req").is_err());
    assert_eq!(
        registry.find_best_version("other", "^1.0").unwrap_err().message(),
        "Not found: Package other not found"
    );
    let p = registry.get_package("demo", "1.2.0").unwrap();
    assert_eq!(p.name, "demo");
    assert!(registry.get_package("demo", "9.9.9").is_none());
}

#[test]
fn publishing_an_invalid_name_is_refused() {
    let mut registry = PackageRegistry::new("index".to_string());
    let p = Package::new("Bad");
    assert_eq!(registry.publish_package(&p).unwrap_err().message(), "Invalid package name");
}

fn published(version: &str) -> PackageVersion {
    PackageVersion { version: version.to_string(), dependencies: vec![], checksum: String::new() }
}

#[test]
fn matching_version_picks_the_greatest_match() {
    let versions = vec![published("1.4.0"), published("2.1.0"), published("bad"), published("1.9.3")];
    assert_eq!(matching_version(&versions, "^1").unwrap(), Some(3));
    assert_eq!(matching_version(&versions, "^3").unwrap(), None);
    assert!(matching_version(&versions, "~~").unwrap_err().message().starts_with("Invalid version requirement: "));
}

#[test]
fn a_dependency_cycle_exceeds_the_depth_limit() {
    let mut root = Package::new("app");
    root.add_dependency("a", "1.0.0");
    let fetch = |name: &str, _: &str| -> Result<Package, IoError> {
        let mut p = Package::new(name);
        if name == "a" {
            p.add_dependency("b", "1.0.0");
        } else {
            p.add_dependency("a", "1.0.0");
        }
        Ok(p)
    };
    let err = root.resolve_dependencies(&fetch).unwrap_err();
    assert_eq!(err.message(), "Maximum dependency depth exceeded");
}

#[test]
fn a_package_without_dependencies_resolves_to_nothing() {
    let root = Package::new("app");
    let fetch = |_: &str, _: &str| -> Result<Package, IoError> { Err(IoError::not_found("offline")) };
    let res = root.resolve_dependencies(&fetch).unwrap();
    assert_eq!(res.len(), 0);
}

#[test]
fn each_dependency_is_fetched_once_at_its_own_requirement() {
    let asked = std::cell::RefCell::new(Vec::new());
    let mut root = Package::new("app");
    root.add_dependency("a", "^1.2");
    root.add_dependency("b", "=2.0.0");
    let fetch = |name: &str, version: &str| -> Result<Package, IoError> {
        asked.borrow_mut().push((name.to_string(), version.to_string()));
        let mut p = Package::new(name);
        if name == "b" {
            p.add_dependency("a", "~1.0");
        }
        Ok(p)
    };
    let res = root.resolve_dependencies(&fetch).unwrap();
    assert_eq!(res.len(), 2);
    assert_eq!(
        *asked.borrow(),
        vec![("a".to_string(), "^1.2".to_string()), ("b".to_string(), "=2.0.0".to_string())]
    );
}

#[test]
fn a_resolved_name_keeps_its_package() {
    let mut res = DependencyResolution::new();
    let fetch = |name: &str, _: &str| -> Result<Package, IoError> {
        let mut p = Package::new(name);
        p.add_dependency("x", "1.0.0");
        Ok(p)
    };
    let first = res.add_dependency("a", "1.0.0", &fetch).unwrap();
    assert_eq!(first.dependencies, vec![("x".to_string(), "1.0.0".to_string())]);
    let offline = |_: &str, _: &str| -> Result<Package, IoError> { Err(IoError::not_found("offline")) };
    let again = res.add_dependency("a", "2.0.0", &offline).unwrap();
    assert_eq!(again.name, "a");
    assert_eq!(res.len(), 1);
    assert_eq!(res.add_dependency("b", "1.0.0", &offline).unwrap_err().message(), "Not found: offline");
    assert_eq!(res.len(), 1);
}

fn publish(registry: &mut PackageRegistry, name: &str, version: &str, deps: &[(&str, &str)]) {
    let mut p = Package::new(name);
    p.version = version.to_string();
    for (n, r) in deps {
        p.add_dependency(n, r);
    }
    registry.publish_package(&p).unwrap();
}

fn resolved_pairs(versions: &[PackageVersion]) -> Vec<String> {
    versions.iter().map(|v| v.version.clone()).collect()
}

#[test]
fn registry_resolution_takes_the_greatest_matching_versions() {
    let mut registry = PackageRegistry::new("index".to_string());
    publish(&mut registry, "alpha", "1.0.0", &[("beta", "^1.0")]);
    publish(&mut registry, "alpha", "1.2.0", &[("beta", "^1.0")]);
    publish(&mut registry, "beta", "1.0.0", &[]);
    publish(&mut registry, "beta", "1.5.0", &[]);
    publish(&mut registry, "beta", "2.0.0", &[]);
    let mut root = Package::new("app");
    root.add_dependency("alpha", "^1.0");
    let out = registry.resolve_dependencies(&root).unwrap();
    assert_eq!(resolved_pairs(&out), vec!["1.2.0".to_string(), "1.5.0".to_string()]);
}

#[test]
fn registry_resolution_keeps_the_greatest_of_conflicting_choices() {
    let mut registry = PackageRegistry::new("index".to_string());
    publish(&mut registry, "alpha", "1.0.0", &[]);
    publish(&mut registry, "alpha", "1.2.0", &[]);
    publish(&mut registry, "gamma", "1.0.0", &[("alpha", "^1.0")]);
    let mut root = Package::new("app");
    root.add_dependency("alpha", "=1.0.0");
    root.add_dependency("gamma", "^1.0");
    let out = registry.resolve_dependencies(&root).unwrap();
    assert_eq!(resolved_pairs(&out), vec!["1.2.0".to_string(), "1.0.0".to_string()]);
}

#[test]
fn registry_resolution_skips_a_requirement_seen_before() {
    let mut registry = PackageRegistry::new("index".to_string());
    publish(&mut registry, "alpha", "1.0.0", &[("beta", "=1.0.0")]);
    publish(&mut registry, "beta", "1.0.0", &[("alpha", "=1.0.0")]);
    let mut root = Package::new("app");
    root.add_dependency("alpha", "=1.0.0");
    let out = registry.resolve_dependencies(&root).unwrap();
    assert_eq!(resolved_pairs(&out), vec!["1.0.0".to_string(), "1.0.0".to_string()]);
}

#[test]
fn registry_resolution_reports_a_missing_package() {
    let registry = PackageRegistry::new("index".to_string());
    let mut root = Package::new("app");
    root.add_dependency("zeta", "^1.0");
    assert_eq!(registry.resolve_dependencies(&root).unwrap_err().message(), "Not found: Package zeta not found");
}
