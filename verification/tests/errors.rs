use std::io;
use vpm::errors::{AddPackageErr, AddRepositoryErr, RemovePackageErr};

fn io_error() -> io::Error {
    io::Error::new(io::ErrorKind::Other, "disk on fire")
}

#[test]
fn repository_errors_are_told() {
    assert_eq!(AddRepositoryErr::AlreadyAdded.message(), "already repository added");
    assert_eq!(
        AddRepositoryErr::OfflineMode.message(),
        "you can't add remote repo in offline mode"
    );
    let error = AddRepositoryErr::from(io_error());
    assert!(matches!(error, AddRepositoryErr::Io(_)));
    assert_eq!(error.message(), "disk on fire");
}

#[test]
fn json_error_becomes_an_io_error() {
    let json = serde_json::from_slice::<serde_json::Value>(b"{").unwrap_err();
    let words = json.to_string();
    match AddRepositoryErr::from(json) {
        AddRepositoryErr::Io(error) => {
            assert_eq!(error.kind(), io::ErrorKind::UnexpectedEof);
            assert!(error.to_string().contains(&words));
        }
        other => panic!("{other:?}"),
    }
}

#[test]
fn package_errors_are_told() {
    let conflict = AddPackageErr::ConflictWithDependencies {
        conflict: "a".to_string(),
        dependency_name: "b".to_string(),
    };
    assert_eq!(conflict.message(), "a conflicts with b");
    let missing = AddPackageErr::DependencyNotFound { dependency_name: "c".to_string() };
    assert_eq!(
        missing.message(),
        "Package c (maybe dependencies of the package) not found"
    );
    assert_eq!(AddPackageErr::from(io_error()).message(), "disk on fire");
}

#[test]
fn removal_errors_list_the_names() {
    let names = |list: &[&str]| list.iter().map(|x| x.to_string()).collect::<Vec<_>>();
    assert_eq!(
        RemovePackageErr::NotInstalled(names(&["a"])).message(),
        "the following packages are not installed: a"
    );
    assert_eq!(
        RemovePackageErr::NotInstalled(names(&["a", "b", "c"])).message(),
        "the following packages are not installed: a, b, c"
    );
    assert_eq!(
        RemovePackageErr::ConflictsWith(names(&["x", "y"])).message(),
        "removing packages conflicts with the following packages: x, y"
    );
    assert_eq!(RemovePackageErr::from(io_error()).message(), "disk on fire");
}
