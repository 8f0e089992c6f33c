use indexmap::IndexMap;
use serde_json::Value;
use std::path::PathBuf;
use vpm::environment::Environment;
use vpm::errors::{AddPackageErr, RemovePackageErr};
use vpm::json::load_json_or_default;
use vpm::manifest::VpmManifest;
use vpm::package_info::PackageInfo;
use vpm::project::UnityProject;
use vpm::request::{
    locked_dependency, AddPackageRequest, PackageResolution, Removal, RequestStep,
};
use vpm::resolve::{any_prerelease, conflict_error};
use vpm::structs::{PackageJson, VpmDependency, VpmLockedDependency};
use vpm::version::{Comparator, Identifier, Operator, Version, VersionRange};

fn at_least(major: u64) -> VersionRange {
    VersionRange {
        alternatives: vec![vec![Comparator {
            operator: Operator::GreaterOrEqual,
            version: Version::new(major, 0, 0),
        }]],
    }
}

fn below(major: u64) -> VersionRange {
    VersionRange {
        alternatives: vec![vec![Comparator {
            operator: Operator::Less,
            version: Version::new(major, 0, 0),
        }]],
    }
}

fn needs(names: &[&str]) -> IndexMap<String, VersionRange> {
    names.iter().map(|x| (x.to_string(), at_least(1))).collect()
}

fn package(name: &str, version: Version, dependencies: IndexMap<String, VersionRange>) -> PackageJson {
    PackageJson {
        name: name.to_string(),
        version,
        vpm_dependencies: dependencies,
        legacy_packages: vec![],
        legacy_folders: vec![],
        legacy_files: vec![],
    }
}

fn value(text: &str) -> Value {
    serde_json::from_slice(text.as_bytes()).unwrap()
}

/// A project that asks for `asked` and has `locked` at version 1.0.0.
fn project(
    asked: Vec<(&str, VersionRange)>,
    locked: Vec<(&str, &[&str])>,
    entries: Vec<(&str, Option<PackageJson>)>,
) -> UnityProject {
    let section = |names: Vec<&str>| {
        Value::Object(names.iter().map(|x| (x.to_string(), Value::Null)).collect())
    };
    let mut json = load_json_or_default(None).unwrap();
    json.insert(
        "dependencies".to_string(),
        section(asked.iter().map(|x| x.0).collect()),
    );
    json.insert(
        "locked".to_string(),
        section(locked.iter().map(|x| x.0).collect()),
    );
    let dependencies: IndexMap<String, VpmDependency> = asked
        .into_iter()
        .map(|(name, version)| (name.to_string(), VpmDependency { version }))
        .collect();
    let locked: IndexMap<String, VpmLockedDependency> = locked
        .into_iter()
        .map(|(name, list)| {
            (
                name.to_string(),
                VpmLockedDependency::new(Version::new(1, 0, 0), needs(list)),
            )
        })
        .collect();
    UnityProject::find_unity_project(
        PathBuf::from("/project"),
        VpmManifest::new(json, dependencies, locked),
        entries
            .into_iter()
            .map(|(name, package)| (name.to_string(), package))
            .collect(),
    )
}

fn saved(project: &UnityProject) -> Value {
    serde_json::from_slice(&project.save().unwrap().unwrap()).unwrap()
}

fn lock_names(project: &UnityProject) -> Vec<&str> {
    project.locked_packages().keys().map(String::as_str).collect()
}

#[test]
fn folder_is_divided_into_installed_and_unlocked() {
    let v1 = || Version::new(1, 0, 0);
    let project = project(
        vec![],
        vec![("a", &[]), ("b", &[])],
        vec![
            ("a", Some(package("a", v1(), needs(&[])))),
            ("other-folder", Some(package("b", v1(), needs(&[])))),
            ("c", Some(package("c", v1(), needs(&[])))),
            ("broken", None),
        ],
    );
    assert_eq!(project.project_dir(), &PathBuf::from("/project"));
    let unlocked: Vec<&str> =
        project.unlocked_packages().iter().map(|x| x.0.as_str()).collect();
    assert_eq!(unlocked, vec!["other-folder", "c", "broken"]);
    assert_eq!(project.get_installed_package("a").unwrap().name, "a");
    assert!(project.get_installed_package("b").is_none());
    assert!(project.get_installed_package("c").is_none());
    assert_eq!(lock_names(&project), vec!["a", "b"]);
    assert!(project.save().unwrap().is_none());
}

#[test]
fn last_installed_package_of_a_name_counts() {
    let project = project(
        vec![],
        vec![("a", &[])],
        vec![
            ("a", Some(package("a", Version::new(1, 0, 0), needs(&[])))),
            ("a", Some(package("a", Version::new(2, 0, 0), needs(&[])))),
        ],
    );
    assert!(project.get_installed_package("a").unwrap().version == Version::new(2, 0, 0));
}

#[test]
fn dependencies_are_those_of_locked_then_unlocked_packages() {
    let project = project(
        vec![],
        vec![("a", &["b"]), ("b", &[])],
        vec![
            ("broken", None),
            ("folder", Some(package("c", Version::new(1, 0, 0), needs(&["a"])))),
        ],
    );
    let seen: Vec<(&str, usize)> =
        project.all_dependencies().iter().map(|x| (x.0.as_str(), x.1.len())).collect();
    assert_eq!(seen, vec![("a", 1), ("b", 0), ("c", 1)]);
}

#[test]
fn packages_that_are_not_locked_cannot_be_removed() {
    let mut project = project(vec![], vec![("a", &[])], vec![]);
    match project.remove(&["x", "a", "y", "x"]) {
        Err(RemovePackageErr::NotInstalled(names)) => assert_eq!(names, vec!["x", "y", "x"]),
        other => panic!("{other:?}"),
    }
    assert_eq!(lock_names(&project), vec!["a"]);
    assert!(project.save().unwrap().is_none());
}

#[test]
fn packages_that_others_need_cannot_be_removed() {
    let mut project = project(
        vec![],
        vec![("a", &[]), ("b", &["a"]), ("c", &["b"])],
        vec![("folder", Some(package("u", Version::new(1, 0, 0), needs(&["a"]))))],
    );
    match project.remove(&["a"]) {
        Err(RemovePackageErr::ConflictsWith(names)) => assert_eq!(names, vec!["b", "u"]),
        other => panic!("{other:?}"),
    }
    assert!(project.check_removal(&["b", "c"]).is_ok());
    assert_eq!(lock_names(&project), vec!["a", "b", "c"]);
    assert!(project.save().unwrap().is_none());
}

#[test]
fn packages_are_removed_together() {
    let mut project = project(
        vec![("c", at_least(1))],
        vec![("a", &[]), ("b", &["a"]), ("c", &["b"])],
        vec![],
    );
    project.remove(&["b", "c"]).unwrap();
    assert_eq!(lock_names(&project), vec!["a"]);
    assert!(project.manifest().dependencies().is_empty());
    assert_eq!(saved(&project), value("{\"dependencies\": {}, \"locked\": {\"a\": null}}"));
    assert!(project
        .all_dependencies()
        .iter()
        .all(|x| !x.1.contains_key("b") && !x.1.contains_key("c")));
}

#[test]
fn sweep_removes_what_the_project_does_not_need() {
    let mut project = project(
        vec![("a", at_least(1))],
        vec![("a", &["b"]), ("b", &[]), ("c", &["a"])],
        vec![],
    );
    assert_eq!(project.mark_and_sweep(), vec!["c"]);
    assert_eq!(lock_names(&project), vec!["a", "b"]);
    assert!(project.mark_and_sweep().is_empty());
}

#[test]
fn request_keeps_what_the_project_accepts() {
    let project = project(
        vec![("a", below(2)), ("b", at_least(1))],
        vec![("b", &[]), ("c", &[])],
        vec![],
    );
    let a = package("a", Version::new(2, 0, 0), needs(&[]));
    let b = package("b", Version::new(1, 0, 0), needs(&[]));
    let c = package("c", Version::new(1, 0, 1), needs(&[]));
    let d = package("d", Version::new(1, 0, 0), needs(&[]));
    let path = PathBuf::from("/p");
    let infos = vec![
        PackageInfo::local(&a, &path),
        PackageInfo::local(&b, &path),
        PackageInfo::local(&c, &path),
        PackageInfo::local(&d, &path),
    ];
    match project.add_package_request(infos, true) {
        RequestStep::Resolve { dependencies, adding } => {
            let asked: Vec<&str> = dependencies.iter().map(|x| x.0).collect();
            assert_eq!(asked, vec!["b", "c", "d"]);
            assert!(dependencies[1].1.version.matches(&Version::new(1, 0, 1)));
            assert!(!dependencies[1].1.version.matches(&Version::new(1, 0, 2)));
            let adding: Vec<&str> = adding.iter().map(|x| x.name()).collect();
            assert_eq!(adding, vec!["c", "d"]);
        }
        RequestStep::Complete(_) => panic!("there is something to install"),
    }
}

#[test]
fn request_without_updates_is_complete() {
    let project = project(vec![], vec![("a", &[])], vec![]);
    let same = package("a", Version::new(1, 0, 0), needs(&[]));
    let older = package("a", Version::new(0, 9, 0), needs(&[]));
    let path = PathBuf::from("/p");
    let infos = vec![PackageInfo::local(&same, &path), PackageInfo::local(&older, &path)];
    match project.add_package_request(infos.clone(), true) {
        RequestStep::Complete(request) => {
            assert_eq!(request.dependencies().len(), 2);
            assert!(request.locked().is_empty());
            assert!(request.legacy_files().is_empty());
            assert!(request.legacy_folders().is_empty());
            assert!(request.legacy_packages().is_empty());
            assert!(request.conflicts().is_empty());
        }
        RequestStep::Resolve { .. } => panic!("there is nothing to install"),
    }
    match project.add_package_request(infos, false) {
        RequestStep::Complete(request) => assert!(request.dependencies().is_empty()),
        RequestStep::Resolve { .. } => panic!("there is nothing to install"),
    }
}

#[test]
fn request_is_completed_and_carried_out() {
    let mut project = project(
        vec![("old", at_least(1))],
        vec![("old", &[]), ("kept", &[])],
        vec![],
    );
    let a = package("a", Version::new(2, 0, 0), needs(&["kept"]));
    let path = PathBuf::from("/p");
    let infos = vec![PackageInfo::local(&a, &path)];
    let step = project.add_package_request(infos, true);
    let RequestStep::Resolve { dependencies, adding } = step else {
        panic!("there is something to install");
    };
    let resolution = PackageResolution {
        new_packages: adding,
        conflicts: vec![],
        found_legacy_packages: vec!["old".to_string(), "never".to_string()],
    };
    assert!(resolution.is_well_formed());
    let request = project.complete_request(
        dependencies,
        resolution,
        vec![PathBuf::from("a.txt")],
        vec![PathBuf::from("A")],
    );
    assert_eq!(request.legacy_packages(), ["old".to_string()]);
    assert_eq!(request.legacy_files(), [PathBuf::from("a.txt")]);
    assert_eq!(request.legacy_folders(), [PathBuf::from("A")]);
    assert_eq!(request.locked()[0].name(), "a");

    let removals = request.removals();
    assert_eq!(removals.len(), 3);
    assert!(matches!(&removals[0], Removal::File(path) if path == &PathBuf::from("a.txt")));
    assert!(matches!(&removals[1], Removal::Folder(path) if path == &PathBuf::from("A")));
    assert!(matches!(&removals[2], Removal::Package(name) if name == "old"));
    let described: Vec<bool> = removals.iter().map(|x| x.takes_description()).collect();
    assert_eq!(described, vec![true, true, false]);

    project.do_add_package_request(&request, vec![value("\"2.0.0\"")], vec![value("{}")]);
    assert!(project.manifest().dependencies()["a"].version.matches(&Version::new(2, 0, 0)));
    let locked = &project.locked_packages()["a"];
    assert!(locked.version == Version::new(2, 0, 0));
    assert!(locked.dependencies["kept"].matches(&Version::new(1, 0, 0)));
    assert!(!locked.dependencies["kept"].matches(&Version::new(0, 9, 0)));
    assert_eq!(locked.dependencies.len(), 1);

    project.remove_legacy_packages(&request.legacy_packages);
    assert_eq!(
        saved(&project),
        value("{\"dependencies\": {\"a\": \"2.0.0\"}, \"locked\": {\"a\": {}, \"kept\": null}}")
    );
    assert!(!project.manifest().dependencies().contains_key("old"));
}

#[test]
fn locked_entry_has_version_and_needs_in_order() {
    let a = package("a", Version::new(2, 1, 0), needs(&["z", "b"]));
    let path = PathBuf::from("/p");
    let locked = locked_dependency(PackageInfo::local(&a, &path));
    assert!(locked.version == Version::new(2, 1, 0));
    let names: Vec<&str> = locked.dependencies.keys().map(String::as_str).collect();
    assert_eq!(names, vec!["z", "b"]);
}

fn stock(packages: Vec<PackageJson>) -> Environment {
    let mut environment = Environment::load_default(false, serde_json::Map::new());
    environment.load_user_package_infos(
        packages
            .into_iter()
            .enumerate()
            .map(|(i, x)| (PathBuf::from(format!("/p/{i}")), Some(x)))
            .collect(),
    );
    environment
}

#[test]
fn missing_needs_of_unlocked_packages_are_grouped() {
    let v1 = || Version::new(1, 0, 0);
    let ranges = |list: Vec<(&str, VersionRange)>| {
        list.into_iter().map(|(name, x)| (name.to_string(), x)).collect::<IndexMap<_, _>>()
    };
    let project = project(
        vec![],
        vec![("locked", &[])],
        vec![
            (
                "u",
                Some(package(
                    "u",
                    v1(),
                    ranges(vec![
                        ("y", at_least(1)),
                        ("locked", at_least(1)),
                        ("x", at_least(1)),
                        ("w", at_least(1)),
                    ]),
                )),
            ),
            ("broken", None),
            ("folder", Some(package("w", v1(), ranges(vec![("x", below(3))])))),
        ],
    );
    let groups: Vec<(&str, usize)> = project
        .missing_dependencies()
        .into_iter()
        .map(|(name, ranges)| (name.as_str(), ranges.len()))
        .collect();
    assert_eq!(groups, vec![("y", 1), ("x", 2)]);

    let environment = stock(vec![
        package("x", Version::new(2, 0, 0), needs(&[])),
        package("x", Version::new(3, 0, 0), needs(&[])),
        package("y", Version::new(7, 0, 0), needs(&[])),
        package("locked", Version::new(1, 0, 0), needs(&[])),
        package("locked", Version::new(2, 0, 0), needs(&[])),
    ]);
    let found = project.find_missing_packages(&environment).unwrap();
    assert_eq!(found.len(), 2);
    assert_eq!(found[0].name(), "y");
    assert_eq!(found[1].name(), "x");
    assert!(*found[1].version() == Version::new(2, 0, 0));
    assert!(!any_prerelease(&found));

    let locked = project.find_locked_package(&environment, 0).unwrap();
    assert!(*locked.version() == Version::new(1, 0, 0));

    match project.resolve(&environment).ok().unwrap() {
        (RequestStep::Resolve { dependencies, adding }, allow_prerelease) => {
            assert!(dependencies.is_empty());
            assert_eq!(adding.len(), 2);
            assert!(!allow_prerelease);
        }
        (RequestStep::Complete(_), _) => panic!("there is something to install"),
    }

    let poor = stock(vec![package("y", Version::new(7, 0, 0), needs(&[]))]);
    assert_eq!(project.find_missing_packages(&poor).err().unwrap(), "x");
    assert_eq!(project.resolve(&poor).err().unwrap(), "x");
    assert!(project.find_locked_package(&poor, 0).is_none());
}

#[test]
fn pre_release_among_packages_is_noticed() {
    let beta = Version {
        pre: vec![Identifier::Text("beta".to_string())],
        ..Version::new(1, 0, 0)
    };
    let one = package("a", Version::new(1, 0, 0), needs(&[]));
    let two = package("b", beta, needs(&[]));
    let path = PathBuf::from("/p");
    assert!(any_prerelease(&vec![
        PackageInfo::local(&one, &path),
        PackageInfo::local(&two, &path),
    ]));
    assert!(!any_prerelease(&vec![PackageInfo::local(&one, &path)]));
    assert!(!any_prerelease(&vec![]));
}

#[test]
fn conflicts_listed_twice_are_recognised() {
    let resolution = |names: &[&str]| PackageResolution {
        new_packages: vec![],
        conflicts: names.iter().map(|x| (x.to_string(), vec!["z".to_string()])).collect(),
        found_legacy_packages: vec![],
    };
    assert!(resolution(&["a", "b"]).is_well_formed());
    assert!(!resolution(&["a", "b", "a"]).is_well_formed());
}

#[test]
fn first_conflict_becomes_the_error() {
    let mut request = AddPackageRequest {
        dependencies: vec![],
        locked: vec![],
        legacy_files: vec![],
        legacy_folders: vec![],
        legacy_packages: vec![],
        conflicts: vec![],
    };
    assert!(conflict_error(&request).is_none());
    request.conflicts = vec![
        ("a".to_string(), vec!["b".to_string(), "c".to_string()]),
        ("x".to_string(), vec!["y".to_string()]),
    ];
    match conflict_error(&request) {
        Some(AddPackageErr::ConflictWithDependencies { conflict, dependency_name }) => {
            assert_eq!(conflict, "a");
            assert_eq!(dependency_name, "b");
        }
        other => panic!("{other:?}"),
    }
}
