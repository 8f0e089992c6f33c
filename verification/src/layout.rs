//! The names of files and folders.
use vstd::prelude::*;

verus! {

/// The folder of the settings, in that of all settings of the user.
pub fn settings_folder() -> (name: &'static str)
    ensures
        name@ == "VRChatCreatorCompanion"@,
{
    "VRChatCreatorCompanion"
}

/// The file of the settings, in their folder.
pub fn settings_file() -> (name: &'static str)
    ensures
        name@ == "settings.json"@,
{
    "settings.json"
}

/// The folder of the cached repositories, in that of the settings.
pub fn repos_folder() -> (name: &'static str)
    ensures
        name@ == "Repos"@,
{
    "Repos"
}

/// The folder of the packages, in that of a project.
pub fn packages_folder() -> (name: &'static str)
    ensures
        name@ == "Packages"@,
{
    "Packages"
}

/// The folder of the assets, in that of a project.
pub fn assets_folder() -> (name: &'static str)
    ensures
        name@ == "Assets"@,
{
    "Assets"
}

/// The file that describes a package, in its folder.
pub fn package_file() -> (name: &'static str)
    ensures
        name@ == "package.json"@,
{
    "package.json"
}

/// The extension of the file that describes an asset: it follows the whole name of the asset.
pub fn meta_extension() -> (extension: &'static str)
    ensures
        extension@ == "meta"@,
{
    "meta"
}

} // verus!
