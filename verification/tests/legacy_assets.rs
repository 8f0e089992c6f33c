use indexmap::IndexMap;
use std::path::PathBuf;
use vpm::legacy::{
    asset_path, legacy_assets, legacy_info, meta_line_guid, path_to_look_at, try_parse_guid,
    AssetLookup, Guid, LegacyAsset, LegacyInfo, LegacyScan,
};
use vpm::package_info::PackageInfo;
use vpm::structs::PackageJson;
use vpm::version::Version;

fn package(
    name: &str,
    folders: Vec<(&str, Option<&str>)>,
    files: Vec<(&str, Option<&str>)>,
) -> PackageJson {
    let own = |list: Vec<(&str, Option<&str>)>| {
        list.into_iter()
            .map(|(path, guid)| (path.to_string(), guid.map(str::to_string)))
            .collect::<Vec<_>>()
    };
    PackageJson {
        name: name.to_string(),
        version: Version::new(1, 0, 0),
        vpm_dependencies: IndexMap::new(),
        legacy_packages: vec![],
        legacy_folders: own(folders),
        legacy_files: own(files),
    }
}

const DIGITS: &str = "0123456789abcdef0123456789ABCDEF";
const NUMBER: u128 = 0x0123456789abcdef0123456789abcdef;

#[test]
fn guid_is_thirty_two_hexadecimal_digits() {
    assert_eq!(try_parse_guid(DIGITS).unwrap().number, NUMBER);
    assert_eq!(
        try_parse_guid("ffffffffffffffffffffffffffffffff").unwrap().number,
        u128::MAX
    );
    assert!(try_parse_guid("").is_none());
    assert!(try_parse_guid("0123456789abcdef0123456789abcde").is_none());
    assert!(try_parse_guid("0123456789abcdef0123456789abcdef0").is_none());
    assert!(try_parse_guid("g123456789abcdef0123456789abcdef").is_none());
    // 32 bytes, but fewer characters
    assert!(try_parse_guid("\u{e9}23456789abcdef0123456789abcdef").is_none());
}

#[test]
fn guid_ignores_the_case_of_digits_only() {
    let lower = try_parse_guid(&DIGITS.to_lowercase()).unwrap();
    let upper = try_parse_guid(&DIGITS.to_uppercase()).unwrap();
    assert_eq!(lower.number, upper.number);
    let other = try_parse_guid("0123456789abcdef0123456789ABCDEE").unwrap();
    assert_ne!(lower.number, other.number);
}

#[test]
fn guid_line_is_found_behind_its_prefix() {
    let line = format!("guid: {DIGITS}\r\n");
    assert_eq!(meta_line_guid(&line).unwrap().number, NUMBER);
    let spaced = format!("guid: \t\u{3000}{DIGITS}\u{a0}");
    assert_eq!(meta_line_guid(&spaced).unwrap().number, NUMBER);
    assert!(meta_line_guid(&format!(" guid: {DIGITS}")).is_none());
    assert!(meta_line_guid(&format!("guid:{DIGITS}")).is_none());
    assert!(meta_line_guid("guid: ").is_none());
    assert!(meta_line_guid("guid").is_none());
    assert!(meta_line_guid("").is_none());
}

#[test]
fn white_space_is_that_of_the_standard_library() {
    for code in 0..=0x10ffffu32 {
        if let Some(c) = char::from_u32(code) {
            let trimmed = meta_line_guid(&format!("guid: {DIGITS}{c}")).is_some();
            assert_eq!(trimmed, c.is_whitespace(), "{code:x}");
        }
    }
}

#[test]
fn backslashes_become_slashes() {
    assert_eq!(asset_path("Assets\\A\\b.txt").unwrap(), "Assets/A/b.txt");
    assert_eq!(asset_path("Assets/A").unwrap(), "Assets/A");
    assert_eq!(asset_path("").unwrap(), "");
    assert_eq!(asset_path("c").unwrap(), "c");
}

#[test]
fn rooted_paths_are_refused() {
    assert!(asset_path("/etc/passwd").is_none());
    assert!(asset_path("\\Windows").is_none());
    assert!(asset_path("\\\\server\\share").is_none());
}

#[test]
fn folders_of_all_packages_come_before_files() {
    let a = package("a", vec![("A1", Some("x"))], vec![("a1.txt", None)]);
    let b = package("b", vec![("B1", None), ("B2", None)], vec![("b1.txt", Some("y"))]);
    let path = PathBuf::from("/packages");
    let infos = [PackageInfo::local(&a, &path), PackageInfo::local(&b, &path)];
    let assets = legacy_assets(&infos);
    let seen: Vec<(&str, Option<&str>, bool)> = assets
        .iter()
        .map(|x| (x.path.as_str(), x.guid.as_deref(), x.is_file))
        .collect();
    assert_eq!(
        seen,
        vec![
            ("A1", Some("x"), false),
            ("B1", None, false),
            ("B2", None, false),
            ("a1.txt", None, true),
            ("b1.txt", Some("y"), true),
        ]
    );
}

#[test]
fn asset_at_its_path_is_found_as_what_it_is() {
    let path = String::from("A");
    let none = None;
    let guid = Some(DIGITS.to_string());
    let bad = Some("no guid".to_string());
    let at = PathBuf::from("A");
    let file = LegacyAsset { path: &path, guid: &none, is_file: true };
    let folder = LegacyAsset { path: &path, guid: &guid, is_file: false };
    let odd = LegacyAsset { path: &path, guid: &bad, is_file: true };
    assert!(matches!(
        legacy_info(file, at.clone(), Some(true)),
        LegacyInfo::FoundFile(found) if found == at
    ));
    assert!(matches!(
        legacy_info(folder, at.clone(), Some(false)),
        LegacyInfo::FoundFolder(found) if found == at
    ));
    assert!(matches!(legacy_info(file, at.clone(), Some(false)), LegacyInfo::NotFound));
    assert!(matches!(legacy_info(file, at.clone(), None), LegacyInfo::NotFound));
    assert!(matches!(legacy_info(odd, at.clone(), None), LegacyInfo::NotFound));
    assert!(matches!(
        legacy_info(folder, at.clone(), Some(true)),
        LegacyInfo::GuidFolder(Guid { number: NUMBER })
    ));
    let moved = LegacyAsset { is_file: true, ..folder };
    assert!(matches!(
        legacy_info(moved, at, None),
        LegacyInfo::GuidFile(Guid { number: NUMBER })
    ));
}

#[test]
fn scan_finds_each_path_once() {
    let mut scan = LegacyScan::new();
    scan.record(LegacyInfo::FoundFile(PathBuf::from("a.txt")));
    scan.record(LegacyInfo::FoundFile(PathBuf::from("b.txt")));
    scan.record(LegacyInfo::FoundFile(PathBuf::from("a.txt")));
    scan.record(LegacyInfo::FoundFolder(PathBuf::from("a.txt")));
    scan.record(LegacyInfo::NotFound);
    assert!(!scan.is_searching());
    let (files, folders) = scan.into_found();
    assert_eq!(files, vec![PathBuf::from("a.txt"), PathBuf::from("b.txt")]);
    assert_eq!(folders, vec![PathBuf::from("a.txt")]);
}

#[test]
fn scan_finds_a_guid_once_and_as_what_it_is() {
    let mut scan = LegacyScan::new();
    scan.record(LegacyInfo::GuidFile(Guid { number: 1 }));
    scan.record(LegacyInfo::GuidFolder(Guid { number: 2 }));
    assert!(scan.is_searching());
    scan.record_asset(Guid { number: 1 }, false, PathBuf::from("wrong kind"));
    scan.record_asset(Guid { number: 3 }, true, PathBuf::from("unknown"));
    scan.record_asset(Guid { number: 1 }, true, PathBuf::from("one"));
    scan.record_asset(Guid { number: 1 }, true, PathBuf::from("again"));
    assert!(scan.is_searching());
    scan.record_asset(Guid { number: 2 }, false, PathBuf::from("two"));
    assert!(!scan.is_searching());
    let (files, folders) = scan.into_found();
    assert_eq!(files, vec![PathBuf::from("one")]);
    assert_eq!(folders, vec![PathBuf::from("two")]);
}

#[test]
fn later_word_on_a_guid_counts() {
    let mut scan = LegacyScan::new();
    scan.record(LegacyInfo::GuidFile(Guid { number: 1 }));
    scan.record(LegacyInfo::GuidFolder(Guid { number: 1 }));
    scan.record_asset(Guid { number: 1 }, true, PathBuf::from("file"));
    scan.record_asset(Guid { number: 1 }, false, PathBuf::from("folder"));
    let (files, folders) = scan.into_found();
    assert!(files.is_empty());
    assert_eq!(folders, vec![PathBuf::from("folder")]);
}

#[test]
fn answer_of_the_system_decides_on_a_path() {
    assert_eq!(path_to_look_at("C:\\A", true), None);
    assert_eq!(path_to_look_at("C:\\A", false).unwrap(), "C:/A");
    let rooted = std::path::Path::new("C:/A").has_root();
    assert_eq!(asset_path("C:\\A").is_none(), rooted);
    let path = "C:\\A".to_string();
    let guid = Some(DIGITS.to_string());
    let asset = LegacyAsset { path: &path, guid: &guid, is_file: true };
    assert_eq!(AssetLookup::with_answer(asset, true).relative(), None);
    assert_eq!(AssetLookup::with_answer(asset, false).relative().unwrap(), "C:/A");
}

#[test]
fn refused_asset_is_dropped_with_its_guid() {
    let package = package(
        "a",
        vec![],
        vec![("\\Assets\\A.cs", Some(DIGITS)), ("Assets\\B.cs", None)],
    );
    let at = PathBuf::from("/q");
    let infos = [PackageInfo::local(&package, &at)];
    let mut scan = LegacyScan::new();
    for asset in legacy_assets(&infos) {
        let lookup = AssetLookup::new(asset);
        // both files are there
        let path = match lookup.relative() {
            Some(relative) => PathBuf::from(relative),
            None => PathBuf::from("Assets/A.cs"),
        };
        assert!(lookup.is_file());
        scan.record(lookup.info(path, Some(true)));
    }
    assert!(!scan.is_searching());
    let guid = meta_line_guid(&format!("guid: {DIGITS}\n")).unwrap();
    scan.record_asset(guid, true, PathBuf::from("Assets/A.cs"));
    assert_eq!(scan.into_found(), (vec![PathBuf::from("Assets/B.cs")], vec![]));
}

#[test]
fn moved_asset_is_looked_for_unless_it_is_refused() {
    let guid = Some(DIGITS.to_string());
    let good = "Assets/A".to_string();
    let bad = "/Assets/A".to_string();
    let moved = AssetLookup::new(LegacyAsset { path: &good, guid: &guid, is_file: false });
    assert!(matches!(
        moved.info(PathBuf::from("Assets/A"), None),
        LegacyInfo::GuidFolder(Guid { number: NUMBER })
    ));
    let refused = AssetLookup::new(LegacyAsset { path: &bad, guid: &guid, is_file: false });
    assert_eq!(refused.relative(), None);
    assert!(matches!(refused.info(PathBuf::from("Assets/A"), None), LegacyInfo::NotFound));
}
