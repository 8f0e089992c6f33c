use std::io;
use vpm::files::{opened_or_missing, removed_or_missing};
use vpm::layout::{
    assets_folder, meta_extension, package_file, packages_folder, repos_folder, settings_file,
    settings_folder,
};
use vpm::search::{config_root, search_step, ConfigRoot, Marker, SearchStep};

#[test]
fn data_home_goes_before_home() {
    assert_eq!(config_root(true, true), Some(ConfigRoot::DataHome));
    assert_eq!(config_root(true, false), Some(ConfigRoot::DataHome));
    assert_eq!(config_root(false, true), Some(ConfigRoot::HomeShare));
    assert_eq!(config_root(false, false), None);
}

#[test]
fn markers_have_their_file_names() {
    assert_eq!(Marker::VpmManifest.file_stem(), "vpm-manifest");
    assert_eq!(Marker::Manifest.file_stem(), "manifest");
}

/// Walks up from the first folder; each folder says which of the files it holds.
fn search(folders: &[(bool, bool)]) -> Option<usize> {
    let mut at = 0;
    let mut marker = Marker::VpmManifest;
    while at < folders.len() {
        let exists = match marker {
            Marker::VpmManifest => folders[at].0,
            Marker::Manifest => folders[at].1,
        };
        match search_step(marker, exists) {
            SearchStep::Found => return Some(at),
            SearchStep::LookFor(next) => marker = next,
            SearchStep::GoUp => {
                at += 1;
                marker = Marker::VpmManifest;
            }
        }
    }
    None
}

#[test]
fn nearest_project_is_found() {
    assert_eq!(search(&[(false, false), (false, true), (true, false)]), Some(1));
    assert_eq!(search(&[(false, false), (true, false), (false, true)]), Some(1));
    assert_eq!(search(&[(true, true)]), Some(0));
    assert_eq!(search(&[(false, false), (false, false)]), None);
    assert_eq!(search(&[]), None);
}

#[test]
fn settings_lie_below_the_variable() {
    assert_eq!(ConfigRoot::DataHome.below(), "");
    assert_eq!(ConfigRoot::HomeShare.below(), ".local/share");
}

#[test]
fn files_and_folders_have_their_names() {
    assert_eq!(settings_folder(), "VRChatCreatorCompanion");
    assert_eq!(settings_file(), "settings.json");
    assert_eq!(repos_folder(), "Repos");
    assert_eq!(packages_folder(), "Packages");
    assert_eq!(assets_folder(), "Assets");
    assert_eq!(package_file(), "package.json");
    assert_eq!(meta_extension(), "meta");
}

#[test]
fn missing_file_is_no_error() {
    let error = |kind: io::ErrorKind| io::Error::new(kind, "words");
    assert_eq!(opened_or_missing(Ok(7)).unwrap(), Some(7));
    assert_eq!(opened_or_missing::<u8>(Err(error(io::ErrorKind::NotFound))).unwrap(), None);
    let denied = opened_or_missing::<u8>(Err(error(io::ErrorKind::PermissionDenied)));
    assert_eq!(denied.unwrap_err().kind(), io::ErrorKind::PermissionDenied);
}

#[test]
fn missing_folder_is_as_good_as_removed() {
    let error = |kind: io::ErrorKind| io::Error::new(kind, "words");
    assert!(removed_or_missing(Ok(())).is_ok());
    assert!(removed_or_missing(Err(error(io::ErrorKind::NotFound))).is_ok());
    let denied = removed_or_missing(Err(error(io::ErrorKind::PermissionDenied)));
    assert_eq!(denied.unwrap_err().to_string(), "words");
}
