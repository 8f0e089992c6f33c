//! Finding folders: that of the user's settings, and that of the project.
use vstd::prelude::*;

verus! {

/// The folder that the user's settings lie under.
#[derive(Clone, Copy, PartialEq, Eq, Debug, Structural)]
pub enum ConfigRoot {
    /// What `XDG_DATA_HOME` says.
    DataHome,
    /// `.local/share` in what `HOME` says.
    HomeShare,
}

/// Which of the two it is, where `data_home` and `home` say which of the variables are set;
/// `None` where neither is.
pub fn config_root(data_home: bool, home: bool) -> (root: Option<ConfigRoot>)
    ensures
        root == (if data_home {
            Some(ConfigRoot::DataHome)
        } else if home {
            Some(ConfigRoot::HomeShare)
        } else {
            None
        }),
{
    if data_home {
        Some(ConfigRoot::DataHome)
    } else if home {
        Some(ConfigRoot::HomeShare)
    } else {
        None
    }
}

impl ConfigRoot {
    /// The folder of all settings of the user, from what the variable says on.
    pub fn below(self) -> (folder: &'static str)
        ensures
            folder@ == (match self {
                ConfigRoot::DataHome => ""@,
                ConfigRoot::HomeShare => ".local/share"@,
            }),
    {
        match self {
            ConfigRoot::DataHome => "",
            ConfigRoot::HomeShare => ".local/share",
        }
    }
}

/// A JSON file in the `Packages` folder of a project.
#[derive(Clone, Copy, PartialEq, Eq, Debug, Structural)]
pub enum Marker {
    /// The manifest of this package manager.
    VpmManifest,
    /// The manifest of Unity's own package manager.
    Manifest,
}

impl Marker {
    /// The name of the file, without the extension `json`.
    pub fn file_stem(self) -> (stem: &'static str)
        ensures
            stem@ == (match self {
                Marker::VpmManifest => "vpm-manifest"@,
                Marker::Manifest => "manifest"@,
            }),
    {
        match self {
            Marker::VpmManifest => "vpm-manifest",
            Marker::Manifest => "manifest",
        }
    }
}

/// How the search for the project goes on.
#[derive(Clone, Copy, PartialEq, Eq, Debug, Structural)]
pub enum SearchStep {
    /// The folder is that of a project.
    Found,
    /// Look for the other file in the same folder.
    LookFor(Marker),
    /// Look for the first file in the folder above.
    GoUp,
}

/// How the search goes on once it is known whether the file is there.
pub open spec fn next_step(marker: Marker, exists: bool) -> SearchStep {
    if exists {
        SearchStep::Found
    } else {
        match marker {
            Marker::VpmManifest => SearchStep::LookFor(Marker::Manifest),
            Marker::Manifest => SearchStep::GoUp,
        }
    }
}

/// How the search goes on once it is known whether the file is there.
pub fn search_step(marker: Marker, exists: bool) -> (step: SearchStep)
    ensures
        step == next_step(marker, exists),
{
    if exists {
        SearchStep::Found
    } else {
        match marker {
            Marker::VpmManifest => SearchStep::LookFor(Marker::Manifest),
            Marker::Manifest => SearchStep::GoUp,
        }
    }
}

/// Which of the files a folder holds.
pub struct FolderFiles {
    pub vpm_manifest: bool,
    pub manifest: bool,
}

impl FolderFiles {
    /// Whether the file is there.
    pub open spec fn has(self, marker: Marker) -> bool {
        match marker {
            Marker::VpmManifest => self.vpm_manifest,
            Marker::Manifest => self.manifest,
        }
    }

    /// The folder is that of a project.
    pub open spec fn is_project(self) -> bool {
        self.vpm_manifest || self.manifest
    }
}

/// Where a search ends that looks for `marker` in the folder at `index`, each folder of the
/// list being in the next one; `None` where it goes up from the last one.
pub open spec fn search_ends(folders: Seq<FolderFiles>, index: int, marker: Marker) -> Option<int>
    decreases
            folders.len() - index,
            (match marker {
                Marker::VpmManifest => 1int,
                Marker::Manifest => 0int,
            }),
{
    if index < 0 || index >= folders.len() {
        None
    } else {
        match next_step(marker, folders[index].has(marker)) {
            SearchStep::Found => Some(index),
            SearchStep::LookFor(Marker::Manifest) => if marker == Marker::VpmManifest {
                search_ends(folders, index, Marker::Manifest)
            } else {
                None
            },
            SearchStep::LookFor(Marker::VpmManifest) => None,
            SearchStep::GoUp => search_ends(folders, index + 1, Marker::VpmManifest),
        }
    }
}

/// A search ends in the nearest folder that is that of a project, and finds none only where
/// there is none.
pub proof fn law_search_finds_the_nearest_project(folders: Seq<FolderFiles>)
    ensures
        (match search_ends(folders, 0, Marker::VpmManifest) {
            Some(index) => {
                &&& 0 <= index < folders.len()
                &&& folders[index].is_project()
                &&& forall|i: int| 0 <= i < index ==> !(#[trigger] folders[i]).is_project()
            },
            None => forall|i: int|
                0 <= i < folders.len() ==> !(#[trigger] folders[i]).is_project(),
        }),
{
    lemma_search_from(folders, 0);
}

proof fn lemma_search_from(folders: Seq<FolderFiles>, from: int)
    requires
        0 <= from <= folders.len(),
    ensures
        (match search_ends(folders, from, Marker::VpmManifest) {
            Some(index) => {
                &&& from <= index < folders.len()
                &&& folders[index].is_project()
                &&& forall|i: int| from <= i < index ==> !(#[trigger] folders[i]).is_project()
            },
            None => forall|i: int|
                from <= i < folders.len() ==> !(#[trigger] folders[i]).is_project(),
        }),
    decreases folders.len() - from,
{
    if from < folders.len() {
        reveal_with_fuel(search_ends, 3);
        lemma_search_from(folders, from + 1);
    }
}

} // verus!
