use indexmap::IndexMap;
use serde_json::Value;
use vpm::json::{load_json_or_default, strip_byte_order_mark};
use vpm::manifest::{manifest_section, VpmManifest};
use vpm::structs::{PackageJson, VpmDependency, VpmLockedDependency};
use vpm::version::{Version, VersionRange};

fn object(text: &str) -> vpm::json::JsonMap {
    load_json_or_default(Some(text.as_bytes())).unwrap()
}

fn needs(names: &[&str]) -> IndexMap<String, VersionRange> {
    names
        .iter()
        .map(|x| (x.to_string(), VersionRange::exactly(Version::new(1, 0, 0))))
        .collect()
}

fn asked(names: &[&str]) -> IndexMap<String, VpmDependency> {
    names
        .iter()
        .map(|x| (x.to_string(), VpmDependency::new(Version::new(1, 0, 0))))
        .collect()
}

fn locked(list: &[(&str, &[&str])]) -> IndexMap<String, VpmLockedDependency> {
    list.iter()
        .map(|(name, list)| {
            let entry = VpmLockedDependency::new(Version::new(1, 0, 0), needs(list));
            (name.to_string(), entry)
        })
        .collect()
}

fn package(name: &str, dependencies: &[&str]) -> PackageJson {
    PackageJson {
        name: name.to_string(),
        version: Version::new(1, 0, 0),
        vpm_dependencies: needs(dependencies),
        legacy_packages: vec![],
        legacy_folders: vec![],
        legacy_files: vec![],
    }
}

fn document(manifest: &mut VpmManifest) -> Value {
    // any removal counts as a change, so that there is something to save
    manifest.remove_packages(&[]);
    serde_json::from_slice(&manifest.save_to().unwrap().unwrap()).unwrap()
}

fn value(text: &str) -> Value {
    serde_json::from_slice(text.as_bytes()).unwrap()
}

fn lock_names(manifest: &VpmManifest) -> Vec<&str> {
    manifest.locked().keys().map(String::as_str).collect()
}

#[test]
fn byte_order_mark_is_passed_over() {
    assert_eq!(strip_byte_order_mark(b"\xEF\xBB\xBF{}"), b"{}");
    assert_eq!(strip_byte_order_mark(b"{}"), b"{}");
    assert_eq!(strip_byte_order_mark(b"\xEF\xBB"), b"\xEF\xBB");
    assert_eq!(strip_byte_order_mark(b"\xEF\xBB\xBF\xEF\xBB\xBF"), b"\xEF\xBB\xBF");
    let marked = load_json_or_default(Some(b"\xEF\xBB\xBF{\"a\": 1}")).unwrap();
    assert_eq!(marked, object("{\"a\": 1}"));
}

#[test]
fn missing_file_is_an_empty_object() {
    assert!(load_json_or_default(None).unwrap().is_empty());
    assert!(load_json_or_default(Some(b"")).is_err());
    assert!(load_json_or_default(Some(b"[]")).is_err());
    assert!(load_json_or_default(Some(b"{")).is_err());
}

#[test]
fn missing_section_is_an_empty_object() {
    let json = object("{\"locked\": {\"a\": 1}, \"odd\": 3}");
    assert_eq!(manifest_section(&json, "locked"), value("{\"a\": 1}"));
    assert_eq!(manifest_section(&json, "odd"), value("3"));
    assert_eq!(manifest_section(&json, "dependencies"), value("{}"));
}

#[test]
fn unchanged_manifest_is_not_written() {
    let manifest = VpmManifest::new(object("{}"), asked(&[]), locked(&[]));
    assert!(manifest.save_to().unwrap().is_none());
}

#[test]
fn added_packages_are_in_both_forms() {
    let mut manifest = VpmManifest::new(object("{\"locked\": 7}"), asked(&[]), locked(&[]));
    assert!(!manifest.sections_present());
    assert!(!manifest.locked_present());
    manifest.add_dependency(
        "a".to_string(),
        VpmDependency::new(Version::new(1, 2, 3)),
        value("\"1.2.3\""),
    );
    manifest.add_locked(
        "b",
        VpmLockedDependency::new(Version::new(2, 0, 0), needs(&["a"])),
        value("{\"version\": \"2.0.0\"}"),
    );
    assert!(manifest.sections_present());
    assert!(manifest.locked_present());
    assert!(manifest.dependencies()["a"].version.matches(&Version::new(1, 2, 3)));
    assert!(manifest.locked()["b"].version == Version::new(2, 0, 0));
    let text = manifest.save_to().unwrap().unwrap();
    assert_eq!(
        String::from_utf8(text).unwrap(),
        "{\n  \"dependencies\": {\n    \"a\": \"1.2.3\"\n  },\n  \"locked\": {\n    \"b\": {\n      \"version\": \"2.0.0\"\n    }\n  }\n}"
    );
}

#[test]
fn adding_again_replaces_in_place() {
    let mut manifest = VpmManifest::new(
        object("{\"locked\": {\"a\": 1, \"b\": 2}}"),
        asked(&[]),
        locked(&[("a", &[]), ("b", &[])]),
    );
    manifest.add_locked(
        "a",
        VpmLockedDependency::new(Version::new(3, 0, 0), needs(&[])),
        value("9"),
    );
    assert_eq!(lock_names(&manifest), vec!["a", "b"]);
    assert!(manifest.locked()["a"].version == Version::new(3, 0, 0));
    assert_eq!(document(&mut manifest), value("{\"locked\": {\"a\": 9, \"b\": 2}}"));
}

#[test]
fn removed_packages_are_gone_from_both_forms() {
    let mut manifest = VpmManifest::new(
        object("{\"locked\": {\"a\": 1, \"b\": 2, \"c\": 3}, \"dependencies\": {\"a\": 4}, \"x\": 5}"),
        asked(&["a"]),
        locked(&[("a", &[]), ("b", &[]), ("c", &[])]),
    );
    manifest.remove_packages(&["a", "unknown"]);
    assert_eq!(lock_names(&manifest), vec!["c", "b"]);
    assert!(manifest.dependencies().is_empty());
    assert_eq!(
        document(&mut manifest),
        value("{\"locked\": {\"b\": 2, \"c\": 3}, \"dependencies\": {}, \"x\": 5}")
    );
}

#[test]
fn removing_undoes_adding() {
    let start = "{\"locked\": {\"a\": 1}, \"dependencies\": {}}";
    let mut manifest = VpmManifest::new(object(start), asked(&[]), locked(&[("a", &[])]));
    manifest.add_locked(
        "new",
        VpmLockedDependency::new(Version::new(1, 0, 0), needs(&[])),
        value("1"),
    );
    manifest.remove_packages(&["new"]);
    assert_eq!(lock_names(&manifest), vec!["a"]);
    assert_eq!(document(&mut manifest), value(start));
}

#[test]
fn removing_nothing_counts_as_a_change() {
    let mut manifest = VpmManifest::new(object("{}"), asked(&[]), locked(&[]));
    manifest.remove_packages(&[]);
    assert_eq!(manifest.save_to().unwrap().unwrap(), b"{}");
}

#[test]
fn sweep_takes_out_what_nothing_needs() {
    let mut manifest = VpmManifest::new(
        object("{\"locked\": {\"a\": 1, \"b\": 2, \"c\": 3, \"d\": 4, \"e\": 5, \"f\": 6}}"),
        asked(&["a", "elsewhere"]),
        locked(&[
            ("a", &["b"]),
            ("b", &["a", "missing"]),
            ("c", &["d"]),
            ("d", &["c"]),
            ("e", &["f"]),
            ("f", &[]),
        ]),
    );
    let unlocked = vec![
        ("broken".to_string(), None),
        ("u".to_string(), Some(package("u", &["e"]))),
    ];
    let gone = manifest.mark_and_sweep_packages(&unlocked);
    assert_eq!(gone, vec!["c", "d"]);
    let mut left = lock_names(&manifest);
    left.sort();
    assert_eq!(left, vec!["a", "b", "e", "f"]);
    // a sweep alone is no change that would be saved
    assert!(manifest.save_to().unwrap().is_none());
    assert!(manifest.mark_and_sweep_packages(&unlocked).is_empty());
    assert_eq!(
        document(&mut manifest),
        value("{\"locked\": {\"a\": 1, \"b\": 2, \"e\": 5, \"f\": 6}}")
    );
}

#[test]
fn asking_for_more_sweeps_no_more() {
    let sweep = |names: &[&str], unlocked: Vec<(String, Option<PackageJson>)>| {
        let mut manifest = VpmManifest::new(
            object("{\"locked\": {\"a\": 1, \"b\": 2, \"c\": 3}}"),
            asked(names),
            locked(&[("a", &["b"]), ("b", &[]), ("c", &[])]),
        );
        manifest.mark_and_sweep_packages(&unlocked)
    };
    assert_eq!(sweep(&[], vec![]), vec!["a", "b", "c"]);
    assert_eq!(sweep(&["a"], vec![]), vec!["c"]);
    let other = vec![("u".to_string(), Some(package("u", &["c"])))];
    assert!(sweep(&["a"], other).is_empty());
}
