use indexmap::IndexMap;
use serde_json::Value;
use std::path::PathBuf;
use vpm::environment::{newest_of, Environment, RepoSource};
use vpm::errors::AddRepositoryErr;
use vpm::json::load_json_or_default;
use vpm::package_info::PackageInfo;
use vpm::selector::VersionSelector;
use vpm::structs::{
    LocalCachedRepository, PackageJson, PackageVersions, Repository, UserRepoSetting,
};
use vpm::user_repos::with_identity;
use vpm::version::{Identifier, Version};

fn beta(major: u64) -> Version {
    Version {
        pre: vec![Identifier::Text("beta".to_string())],
        ..Version::new(major, 0, 0)
    }
}

fn package(name: &str, version: Version) -> PackageJson {
    PackageJson {
        name: name.to_string(),
        version,
        vpm_dependencies: IndexMap::new(),
        legacy_packages: vec!["old".to_string()],
        legacy_folders: vec![],
        legacy_files: vec![],
    }
}

fn cached(
    id: Option<&str>,
    url: Option<&str>,
    packages: Vec<(&str, Vec<Version>)>,
) -> LocalCachedRepository {
    let packages = packages
        .into_iter()
        .map(|(name, versions)| {
            let versions = versions.into_iter().map(|x| package(name, x)).collect();
            (name.to_string(), PackageVersions { versions })
        })
        .collect();
    LocalCachedRepository::new(
        Repository {
            name: None,
            id: id.map(str::to_string),
            url: url.map(str::to_string),
            packages,
        },
        IndexMap::new(),
    )
}

fn environment(settings: &str) -> Environment {
    Environment::load_default(true, load_json_or_default(Some(settings.as_bytes())).unwrap())
}

fn setting(path: &str, url: Option<&str>, id: Option<&str>) -> UserRepoSetting {
    UserRepoSetting::new(
        PathBuf::from(path),
        None,
        url.map(str::to_string),
        id.map(str::to_string),
    )
}

fn value(text: &str) -> Value {
    serde_json::from_slice(text.as_bytes()).unwrap()
}

fn saved(environment: &Environment) -> Value {
    serde_json::from_slice(&environment.save().unwrap().unwrap()).unwrap()
}

#[test]
fn settings_without_lists_have_empty_ones() {
    let environment = environment("{}");
    assert_eq!(environment.get_user_repos(), value("[]"));
    assert!(environment.get_user_package_folders().unwrap().is_empty());
    assert_eq!(environment.count_user_repos(), None);
    assert!(environment.can_add_user_repo());
    assert!(environment.get_repos().is_empty());
}

#[test]
fn settings_lists_are_given_as_they_are() {
    let environment =
        environment("{\"userRepos\": [1, 2], \"userPackageFolders\": [\"/p\", \"/q\"]}");
    assert_eq!(environment.get_user_repos(), value("[1, 2]"));
    assert_eq!(
        environment.get_user_package_folders().unwrap(),
        vec![PathBuf::from("/p"), PathBuf::from("/q")]
    );
    assert_eq!(environment.count_user_repos(), Some(2));
}

#[test]
fn odd_settings_are_recognised() {
    let environment = environment("{\"userRepos\": {}}");
    assert_eq!(environment.get_user_repos(), value("{}"));
    assert_eq!(environment.count_user_repos(), None);
    assert!(!environment.can_add_user_repo());
}

#[test]
fn odd_package_folders_are_an_error() {
    assert!(environment("{\"userPackageFolders\": 1}").get_user_package_folders().is_err());
    assert!(environment("{\"userPackageFolders\": [1]}").get_user_package_folders().is_err());
    assert!(environment("{\"userPackageFolders\": []}")
        .get_user_package_folders()
        .unwrap()
        .is_empty());
}

#[test]
fn unchanged_settings_are_not_written() {
    let mut environment = environment("{\"a\": 1}");
    assert!(environment.save().unwrap().is_none());
    environment.add_user_repo(value("{\"x\": 1}"));
    assert_eq!(saved(&environment), value("{\"a\": 1, \"userRepos\": [{\"x\": 1}]}"));
    environment.mark_saved();
    assert!(environment.save().unwrap().is_none());
    environment.add_user_repo(value("2"));
    assert_eq!(saved(&environment), value("{\"a\": 1, \"userRepos\": [{\"x\": 1}, 2]}"));
}

#[test]
fn predefined_repositories_come_first() {
    let environment = environment("{}");
    let sources = environment.get_repo_sources(
        PathBuf::from("/r/official"),
        PathBuf::from("/r/curated"),
        vec![setting("/r/a.json", None, None)],
    );
    assert_eq!(sources.len(), 3);
    match &sources[0] {
        RepoSource::PreDefined(source, path) => {
            assert_eq!(path, &PathBuf::from("/r/official"));
            assert_eq!(source.file_name, "vrc-official.json");
            assert_eq!(source.url, "https://packages.vrchat.com/official?download");
            assert_eq!(source.name, "Official");
        }
        other => panic!("{other:?}"),
    }
    match &sources[1] {
        RepoSource::PreDefined(source, path) => {
            assert_eq!(path, &PathBuf::from("/r/curated"));
            assert_eq!(source.file_name, "vrc-curated.json");
            assert_eq!(source.url, "https://packages.vrchat.com/curated?download");
            assert_eq!(source.name, "Curated");
        }
        other => panic!("{other:?}"),
    }
    assert!(matches!(
        &sources[2],
        RepoSource::UserRepo(repo) if repo.local_path == PathBuf::from("/r/a.json")
    ));
}

#[test]
fn repositories_are_kept_by_path() {
    let mut environment = environment("{}");
    environment.put_repo(PathBuf::from("/r/a.json"), cached(Some("one"), None, vec![]));
    environment.put_repo(PathBuf::from("/r/b.json"), cached(Some("two"), None, vec![]));
    environment.put_repo(PathBuf::from("/r/a.json"), cached(Some("three"), None, vec![]));
    let ids: Vec<_> = environment.get_repos().iter().map(|x| x.repo.id.as_deref()).collect();
    assert_eq!(ids, vec![Some("three"), Some("two")]);
    let paths: Vec<_> =
        environment.get_repo_with_path().into_iter().map(|(path, _)| path.clone()).collect();
    assert_eq!(paths, vec![PathBuf::from("/r/a.json"), PathBuf::from("/r/b.json")]);
    let found = environment.get_repo(&PathBuf::from("/r/b.json")).unwrap();
    assert_eq!(found.repo.id.as_deref(), Some("two"));
    assert!(environment.get_repo(&PathBuf::from("/r/c.json")).is_none());
}

#[test]
fn identities_are_brought_up_to_date() {
    let mut environment = environment("{\"userRepos\": [0, 1, 2, 3]}");
    environment.put_repo(
        PathBuf::from("/0"),
        cached(Some("own"), Some("https://repo"), vec![]),
    );
    environment.put_repo(PathBuf::from("/1"), cached(None, Some("https://repo"), vec![]));
    environment.put_repo(PathBuf::from("/2"), cached(None, None, vec![]));
    environment.put_repo(PathBuf::from("/3"), cached(None, None, vec![]));
    let list = vec![
        setting("/0", Some("https://user"), Some("own")),
        setting("/1", Some("https://user"), None),
        setting("/2", Some("https://user"), Some("stale")),
        setting("/3", None, Some("stale")),
    ];
    let updates = environment.update_user_repo_id(&list);
    assert_eq!(
        updates,
        vec![
            (1, Some("https://repo".to_string())),
            (2, Some("https://user".to_string())),
            (3, None),
        ]
    );
    environment.replace_user_repos(vec![(1, value("\"one\"")), (3, value("\"three\""))]);
    assert_eq!(saved(&environment), value("{\"userRepos\": [0, \"one\", 2, \"three\"]}"));

    let updated: Vec<UserRepoSetting> = list
        .into_iter()
        .enumerate()
        .map(|(i, repo)| match updates.iter().find(|x| x.0 == i) {
            Some((_, id)) => with_identity(repo, id.clone()),
            None => repo,
        })
        .collect();
    assert!(environment.update_user_repo_id(&updated).is_empty());
}

#[test]
fn replacing_nothing_changes_nothing() {
    let mut environment = environment("{}");
    environment.replace_user_repos(vec![]);
    assert!(environment.save().unwrap().is_none());
}

#[test]
fn repeated_identities_are_dropped() {
    let mut environment = environment("{\"userRepos\": [0, 1, 2, 3, 4]}");
    for path in ["/0", "/1", "/2", "/3", "/4"] {
        environment.put_repo(PathBuf::from(path), cached(None, None, vec![]));
    }
    let list = vec![
        setting("/0", None, Some("a")),
        setting("/1", None, None),
        setting("/2", None, Some("a")),
        setting("/3", None, None),
        setting("/4", None, Some("b")),
    ];
    environment.remove_id_duplication(&list);
    assert_eq!(saved(&environment), value("{\"userRepos\": [0, 1, 3, 4]}"));
    assert!(environment.get_repo(&PathBuf::from("/2")).is_none());
    assert_eq!(environment.get_repos().len(), 4);

    // a second pass finds nothing more
    environment.mark_saved();
    let left: Vec<UserRepoSetting> =
        [0, 1, 3, 4].iter().map(|i: &usize| list[*i].clone()).collect();
    environment.remove_id_duplication(&left);
    assert!(environment.save().unwrap().is_none());
}

#[test]
fn equal_paths_name_one_repository() {
    let mut environment = environment("{\"userRepos\": [0, 1]}");
    environment.put_repo(PathBuf::from("/r//a"), cached(Some("one"), None, vec![]));
    environment.put_repo(PathBuf::from("/r/./a"), cached(Some("two"), None, vec![]));
    assert_eq!(environment.get_repos().len(), 1);
    environment.put_repo(PathBuf::from("/r/b"), cached(Some("three"), None, vec![]));
    environment.remove_id_duplication(&vec![
        setting("/r/b", None, Some("x")),
        setting("/r/a/", None, Some("x")),
    ]);
    assert!(environment.get_repo(&PathBuf::from("/r/a")).is_none());
    assert_eq!(environment.get_repos().len(), 1);
}

#[test]
fn clones_of_sources_say_the_same() {
    let environment = environment("{}");
    let sources = environment.get_repo_sources(
        PathBuf::from("/o"),
        PathBuf::from("/c"),
        vec![setting("/r/a.json", Some("https://a"), Some("id"))],
    );
    assert!(matches!(
        sources[0].clone(),
        RepoSource::PreDefined(source, path) if source.name == "Official" && path == PathBuf::from("/o")
    ));
    match sources[2].clone() {
        RepoSource::UserRepo(repo) => {
            assert_eq!(repo.local_path, PathBuf::from("/r/a.json"));
            assert_eq!(repo.url.as_deref(), Some("https://a"));
            assert_eq!(repo.id.as_deref(), Some("id"));
            assert_eq!(repo.name, None);
        }
        other => panic!("{other:?}"),
    }
}

#[test]
fn repository_with_a_package_twice_is_recognised() {
    assert!(cached(None, None, vec![("a", vec![]), ("b", vec![])]).repo.is_well_formed());
    assert!(cached(None, None, vec![]).repo.is_well_formed());
    let twice = vec![("a", vec![]), ("b", vec![]), ("a", vec![])];
    assert!(!cached(None, None, twice).repo.is_well_formed());
}

#[test]
fn different_identities_are_all_kept() {
    let mut environment = environment("{\"userRepos\": [0, 1]}");
    environment.remove_id_duplication(&vec![
        setting("/0", None, Some("a")),
        setting("/1", None, Some("b")),
    ]);
    assert!(environment.save().unwrap().is_none());
    assert_eq!(environment.count_user_repos(), Some(2));
    let mut empty = self::environment("{}");
    empty.remove_id_duplication(&vec![]);
    assert!(empty.save().unwrap().is_none());
}

#[test]
fn remote_repository_is_refused_when_known_or_offline() {
    let online = environment("{}");
    let list = vec![setting("/0", Some("https://known"), None)];
    assert!(online.add_remote_repo(&list, "https://new").is_ok());
    assert!(matches!(
        online.add_remote_repo(&list, "https://known"),
        Err(AddRepositoryErr::AlreadyAdded)
    ));
    let offline = Environment::load_default(false, serde_json::Map::new());
    assert!(matches!(
        offline.add_remote_repo(&list, "https://new"),
        Err(AddRepositoryErr::OfflineMode)
    ));
    assert!(matches!(
        offline.add_remote_repo(&list, "https://known"),
        Err(AddRepositoryErr::AlreadyAdded)
    ));
}

#[test]
fn local_repository_is_refused_when_known() {
    let environment = environment("{}");
    let list = vec![setting("/0", None, None)];
    assert!(matches!(
        environment.add_local_repo(&list, PathBuf::from("/0"), None),
        Err(AddRepositoryErr::AlreadyAdded)
    ));
    let new = environment
        .add_local_repo(&list, PathBuf::from("/1"), Some("name".to_string()))
        .unwrap();
    assert_eq!(new.local_path, PathBuf::from("/1"));
    assert_eq!(new.name.as_deref(), Some("name"));
    assert!(new.url.is_none() && new.id.is_none());
    let longer = vec![setting("/0", None, None), new];
    assert!(matches!(
        environment.add_local_repo(&longer, PathBuf::from("/1"), None),
        Err(AddRepositoryErr::AlreadyAdded)
    ));
}

#[test]
fn remote_repository_is_refused_the_second_time() {
    let environment = environment("{}");
    assert!(environment.add_remote_repo(&vec![], "https://a").is_ok());
    let list = vec![setting("/a", Some("https://a"), None)];
    assert!(matches!(
        environment.add_remote_repo(&list, "https://a"),
        Err(AddRepositoryErr::AlreadyAdded)
    ));
}

#[test]
fn repositories_are_removed_by_condition() {
    let mut environment = environment("{\"userRepos\": [0, 1, 2], \"x\": 1}");
    let list = vec![
        setting("/0", Some("go"), None),
        setting("/1", None, None),
        setting("/2", Some("go"), None),
    ];
    let none = environment.remove_repo(&list, |repo: &UserRepoSetting| repo.id.is_some());
    assert!(none.is_empty());
    assert!(environment.save().unwrap().is_none());
    let gone =
        environment.remove_repo(&list, |repo: &UserRepoSetting| repo.url.as_deref() == Some("go"));
    assert_eq!(gone, vec![PathBuf::from("/2"), PathBuf::from("/0")]);
    assert_eq!(saved(&environment), value("{\"userRepos\": [1], \"x\": 1}"));
}

fn stocked() -> Environment {
    let mut environment = environment("{}");
    environment.put_repo(
        PathBuf::from("/0"),
        cached(
            None,
            None,
            vec![
                ("a", vec![Version::new(1, 0, 0), Version::new(2, 0, 0), beta(3)]),
                ("b", vec![beta(1)]),
            ],
        ),
    );
    environment.put_repo(
        PathBuf::from("/1"),
        cached(None, None, vec![("a", vec![Version::new(2, 0, 0), Version::new(1, 5, 0)])]),
    );
    environment.load_user_package_infos(vec![
        (PathBuf::from("/p/a"), Some(package("a", Version::new(2, 0, 0)))),
        (PathBuf::from("/p/none"), None),
        (PathBuf::from("/p/c"), Some(package("c", beta(9)))),
        (PathBuf::from("/p/d"), Some(package("d", Version::new(5, 0, 0)))),
    ]);
    environment
}

#[test]
fn versions_come_from_repositories_and_folders() {
    let environment = stocked();
    let found = environment.find_packages("a");
    assert_eq!(found.len(), 6);
    assert!(found[..5].iter().all(|x| x.is_remote() && !x.is_local()));
    assert!(found[5].is_local() && !found[5].is_remote());
    assert!(*found[3].version() == Version::new(2, 0, 0));
    assert_eq!(found[0].name(), "a");
    assert_eq!(found[0].legacy_packages(), &vec!["old".to_string()]);
    assert!(found[0].vpm_dependencies().is_empty());
    assert_eq!(found[0].package_json().name, "a");
    assert!(environment.find_packages("unknown").is_empty());
}

#[test]
fn newest_version_that_is_asked_for_is_found() {
    let environment = stocked();
    let latest = environment.find_package_by_name("a", VersionSelector::Latest).unwrap();
    assert!(*latest.version() == Version::new(2, 0, 0));
    assert!(std::ptr::eq(latest.package_json(), environment.find_packages("a")[1].package_json()));
    let any =
        environment.find_package_by_name("a", VersionSelector::LatestIncluidingPrerelease).unwrap();
    assert!(*any.version() == beta(3));
    let wanted = Version::new(1, 5, 0);
    let exact = environment.find_package_by_name("a", VersionSelector::Specific(&wanted)).unwrap();
    assert!(*exact.version() == wanted);
    assert!(environment.find_package_by_name("b", VersionSelector::Latest).is_none());
    assert!(environment.find_package_by_name("unknown", VersionSelector::Latest).is_none());
}

#[test]
fn first_of_equally_new_packages_is_taken() {
    let one = package("a", Version::new(1, 0, 0));
    let two = package("a", Version::new(2, 0, 0));
    let three = package("a", Version::new(2, 0, 0));
    let path = PathBuf::from("/p");
    let list = vec![
        PackageInfo::local(&one, &path),
        PackageInfo::local(&two, &path),
        PackageInfo::local(&three, &path),
    ];
    let found = newest_of(&list, VersionSelector::Latest).unwrap();
    assert!(std::ptr::eq(found.package_json(), &two));
}

#[test]
fn listing_is_sorted_without_repetition() {
    let environment = stocked();
    let list = environment.find_whole_all_packages(|_: &PackageJson| true);
    let seen: Vec<(&str, u64)> = list.iter().map(|x| (x.name.as_str(), x.version.major)).collect();
    assert_eq!(seen, vec![("c", 9), ("a", 2)]);
    assert!(std::ptr::eq(list[1], environment.find_packages("a")[1].package_json()));
    let filtered = environment.find_whole_all_packages(|x: &PackageJson| x.name == "a");
    assert_eq!(filtered.len(), 1);
}

#[test]
fn loading_folders_again_forgets_the_old_ones() {
    let mut environment = stocked();
    environment.load_user_package_infos(vec![]);
    assert!(environment.find_packages("d").is_empty());
    assert_eq!(environment.find_packages("a").len(), 5);
}

#[test]
fn new_identity_leaves_the_rest_as_it_is() {
    let old = UserRepoSetting::new(
        PathBuf::from("/r"),
        Some("name".to_string()),
        Some("https://r".to_string()),
        Some("old".to_string()),
    );
    let new = with_identity(old, Some("new".to_string()));
    assert_eq!(new.local_path, PathBuf::from("/r"));
    assert_eq!(new.name.as_deref(), Some("name"));
    assert_eq!(new.url.as_deref(), Some("https://r"));
    assert_eq!(new.id.as_deref(), Some("new"));
    assert_eq!(with_identity(new, None).id, None);
}
