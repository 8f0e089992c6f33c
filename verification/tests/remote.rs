use indexmap::IndexMap;
use std::path::PathBuf;
use vpm::errors::AddRepositoryErr;
use vpm::remote::{
    accept_downloaded_repo, cache_file, downloaded_repository, fallback_file,
    is_id_name_for_file, is_not_modified, request_headers, update_address, update_from_remote, DownloadOutcome,
};
use vpm::structs::{LocalCachedRepository, Repository, UserRepoSetting};

fn repo(name: Option<&str>, id: Option<&str>, url: Option<&str>) -> Repository {
    Repository {
        name: name.map(str::to_string),
        id: id.map(str::to_string),
        url: url.map(str::to_string),
        packages: vec![],
    }
}

fn headers() -> IndexMap<String, String> {
    let mut headers = IndexMap::new();
    headers.insert("X-Two".to_string(), "2".to_string());
    headers.insert("X-One".to_string(), "1".to_string());
    headers
}

#[test]
fn headers_are_sent_in_order_after_the_entity_tag() {
    let own = |list: &[(&str, &str)]| {
        list.iter().map(|(a, b)| (a.to_string(), b.to_string())).collect::<Vec<_>>()
    };
    assert_eq!(
        request_headers(Some(&headers()), Some("tag")),
        own(&[("If-None-Match", "tag"), ("X-Two", "2"), ("X-One", "1")])
    );
    assert_eq!(
        request_headers(Some(&headers()), None),
        own(&[("X-Two", "2"), ("X-One", "1")])
    );
    assert_eq!(request_headers(None, Some("tag")), own(&[("If-None-Match", "tag")]));
    assert_eq!(request_headers(None, None), own(&[]));
}

#[test]
fn not_modified_needs_an_entity_tag() {
    assert!(is_not_modified(true, 304));
    assert!(!is_not_modified(false, 304));
    assert!(!is_not_modified(true, 200));
}

#[test]
fn downloaded_repository_knows_its_address() {
    let without = downloaded_repository(repo(None, None, None), "https://a".to_string());
    assert_eq!(without.url.as_deref(), Some("https://a"));
    let with = downloaded_repository(repo(None, None, Some("https://b")), "https://a".to_string());
    assert_eq!(with.url.as_deref(), Some("https://b"));
}

#[test]
fn cached_repository_is_updated() {
    let mut cached = LocalCachedRepository::new(repo(None, None, Some("https://a")), headers());
    assert_eq!(update_address(&cached).as_deref(), Some("https://a"));

    update_from_remote(
        &mut cached,
        DownloadOutcome::Downloaded(repo(Some("plain"), None, None), None),
    );
    assert_eq!(cached.repo.name.as_deref(), Some("plain"));
    assert!(cached.vrc_get.is_none());
    assert_eq!(update_address(&cached), None);

    update_from_remote(
        &mut cached,
        DownloadOutcome::Downloaded(repo(Some("new"), None, None), Some("tag".to_string())),
    );
    assert_eq!(cached.repo.name.as_deref(), Some("new"));
    assert_eq!(cached.vrc_get.as_ref().unwrap().etag, "tag");

    update_from_remote(&mut cached, DownloadOutcome::NotModified);
    update_from_remote(&mut cached, DownloadOutcome::Failed);
    assert_eq!(cached.repo.name.as_deref(), Some("new"));
    assert_eq!(cached.vrc_get.as_ref().unwrap().etag, "tag");

    update_from_remote(
        &mut cached,
        DownloadOutcome::Downloaded(repo(Some("newer"), None, None), None),
    );
    assert_eq!(cached.repo.name.as_deref(), Some("newer"));
    assert_eq!(cached.vrc_get.as_ref().unwrap().etag, "");
    assert_eq!(cached.headers.len(), 2);
}

#[test]
fn file_names_have_no_separator() {
    assert!(is_id_name_for_file("com.example_repo-1"));
    assert!(is_id_name_for_file("Az09"));
    for id in ["", "a/b", "a\\b", "a b", "a:b", "\u{e9}"] {
        assert!(!is_id_name_for_file(id), "{id}");
    }
}

#[test]
fn new_repository_is_accepted_once() {
    let listed = vec![UserRepoSetting::new(
        PathBuf::from("/repos/a.json"),
        None,
        None,
        Some("known".to_string()),
    )];
    let refused = accept_downloaded_repo(
        &listed,
        None,
        headers(),
        repo(None, Some("known"), None),
        None,
    );
    assert!(matches!(refused, Err(AddRepositoryErr::AlreadyAdded)));

    let new = accept_downloaded_repo(
        &listed,
        None,
        headers(),
        repo(Some("Own name"), Some("com.example"), None),
        Some("tag".to_string()),
    )
    .unwrap();
    assert_eq!(new.name.as_deref(), Some("Own name"));
    assert_eq!(new.id.as_deref(), Some("com.example"));
    assert_eq!(new.file_name.as_deref(), Some("com.example.json"));
    assert_eq!(new.cache.vrc_get.as_ref().unwrap().etag, "tag");
    assert_eq!(new.cache.headers, headers());
    let setting = new.into_setting(PathBuf::from("/repos/x.json"), "https://x".to_string());
    assert_eq!(setting.local_path, PathBuf::from("/repos/x.json"));
    assert_eq!(setting.url.as_deref(), Some("https://x"));
    assert_eq!(setting.id.as_deref(), Some("com.example"));
    assert_eq!(setting.name.as_deref(), Some("Own name"));

    let named = accept_downloaded_repo(
        &listed,
        Some("Given".to_string()),
        IndexMap::new(),
        repo(Some("Own name"), Some("a/b"), None),
        None,
    )
    .unwrap();
    assert_eq!(named.name.as_deref(), Some("Given"));
    assert_eq!(named.file_name, None);
    assert!(named.cache.vrc_get.is_none());

    let anonymous =
        accept_downloaded_repo(&listed, None, headers(), repo(None, None, None), None).unwrap();
    assert_eq!(anonymous.id, None);
    assert_eq!(anonymous.file_name, None);
}

#[test]
fn cached_copy_falls_back_to_a_new_name() {
    assert_eq!(fallback_file("u-1"), "u-1.json");
    assert_eq!(cache_file(Some("com.example.json"), true, "u-1"), "com.example.json");
    assert_eq!(cache_file(Some("com.example.json"), false, "u-1"), "u-1.json");
    assert_eq!(cache_file(None, false, "u-1"), "u-1.json");
    assert_eq!(cache_file(None, true, "u-1"), "u-1.json");
}
