//! The documents that the library works on: packages, repositories, manifests and settings.
use crate::ordered_map::{has_key, inserted, lookup, modelled, names, removed, Entries};
use crate::text::same_text;
use crate::version::{exact_range, RangeView, Version, VersionRange, VersionView};
use indexmap::IndexMap;
use std::path::PathBuf;
use vstd::prelude::*;

verus! {

/// The `package.json` of one version of a package.
#[derive(Debug)]
pub struct PackageJson {
    pub name: String,
    pub version: Version,
    /// The packages that this one needs, each with the versions that will do.
    pub vpm_dependencies: IndexMap<String, VersionRange>,
    /// The names of packages that this one replaces.
    pub legacy_packages: Vec<String>,
    /// Folders that this package replaces, each with the GUID of the asset if known.
    pub legacy_folders: Vec<(String, Option<String>)>,
    /// Files that this package replaces, each with the GUID of the asset if known.
    pub legacy_files: Vec<(String, Option<String>)>,
}

/// All versions of one package in a repository.
#[derive(Debug)]
pub struct PackageVersions {
    pub versions: Vec<PackageJson>,
}

/// A repository: its own description and its packages by name.
#[derive(Debug)]
pub struct Repository {
    pub name: Option<String>,
    pub id: Option<String>,
    pub url: Option<String>,
    pub packages: Vec<(String, PackageVersions)>,
}

/// The versions of the package `name`: those of the first entry of that name.
pub open spec fn versions_of(packages: Seq<(String, PackageVersions)>, name: Seq<char>) -> Seq<
    PackageJson,
>
    decreases packages.len(),
{
    if packages.len() == 0 {
        seq![]
    } else if packages[0].0@ == name {
        packages[0].1.versions@
    } else {
        versions_of(packages.drop_first(), name)
    }
}

/// The model of an optional string.
pub open spec fn optional_text(text: Option<String>) -> Option<Seq<char>> {
    match text {
        Some(inner) => Some(inner@),
        None => None,
    }
}

/// No name occurs twice.
pub open spec fn names_differ<T>(list: Seq<(String, T)>) -> bool {
    forall|i: int, j: int|
        0 <= i < j < list.len() ==> (#[trigger] list[i]).0@ != (#[trigger] list[j]).0@
}

/// Whether no name occurs twice.
pub fn have_different_names<T>(list: &Vec<(String, T)>) -> (different: bool)
    ensures
        different == names_differ(list@),
{
    let mut j: usize = 0;
    while j < list.len()
        invariant
            j <= list@.len(),
            names_differ(list@.take(j as int)),
        decreases list@.len() - j,
    {
        let mut i: usize = 0;
        while i < j
            invariant
                i <= j < list@.len(),
                forall|k: int| 0 <= k < i ==> (#[trigger] list@[k]).0@ != list@[j as int].0@,
            decreases j - i,
        {
            if same_text(list[i].0.as_str(), list[j].0.as_str()) {
                return false;
            }
            i += 1;
        }
        proof {
            let longer = list@.take(j + 1);
            assert forall|a: int, b: int| 0 <= a < b < longer.len() implies (
            #[trigger] longer[a]).0@ != (#[trigger] longer[b]).0@ by {
                if b < j {
                    assert(list@.take(j as int)[a] == longer[a]);
                    assert(list@.take(j as int)[b] == longer[b]);
                } else {
                    assert(longer[a] == list@[a]);
                }
            }
        }
        j += 1;
    }
    proof {
        assert(list@.take(j as int) =~= list@);
    }
    true
}

/// Where no name occurs twice, the versions of a package are those of its one entry.
pub proof fn law_package_has_one_entry(packages: Seq<(String, PackageVersions)>, index: int)
    requires
        names_differ(packages),
        0 <= index < packages.len(),
    ensures
        versions_of(packages, packages[index].0@) == packages[index].1.versions@,
    decreases packages.len(),
{
    if index > 0 {
        let rest = packages.drop_first();
        assert(packages[0].0@ != packages[index].0@);
        assert forall|i: int, j: int| 0 <= i < j < rest.len() implies (#[trigger] rest[i]).0@ != (
        #[trigger] rest[j]).0@ by {
            assert(packages[i + 1].0@ != packages[j + 1].0@);
        }
        law_package_has_one_entry(rest, index - 1);
        assert(rest[index - 1] == packages[index]);
    }
}

impl Repository {
    /// No package occurs twice.
    pub open spec fn well_formed(self) -> bool {
        names_differ(self.packages@)
    }

    /// Whether no package occurs twice.
    pub fn is_well_formed(&self) -> (good: bool)
        ensures
            good == self.well_formed(),
    {
        have_different_names(&self.packages)
    }

    /// Gives the repository the address `url` unless it has one.
    pub fn set_url_if_none(&mut self, url: String)
        ensures
            final(self).url == (match old(self).url {
                Some(known) => Some(known),
                None => Some(url),
            }),
            final(self).name == old(self).name,
            final(self).id == old(self).id,
            final(self).packages == old(self).packages,
    {
        if self.url.is_none() {
            self.url = Some(url);
        }
    }
}

/// What is kept about the download of a cached repository.
#[derive(Debug)]
pub struct DownloadRecord {
    /// The entity tag of the last download; empty if the server sent none.
    pub etag: String,
}

/// A repository as it is kept on disk, with what is needed to download it again.
#[derive(Debug)]
pub struct LocalCachedRepository {
    pub repo: Repository,
    /// Header fields to send with each download.
    pub headers: IndexMap<String, String>,
    pub vrc_get: Option<DownloadRecord>,
}

impl LocalCachedRepository {
    /// A fresh copy of `repo`, with no record of its download.
    pub fn new(repo: Repository, headers: IndexMap<String, String>) -> (cached: Self)
        ensures
            cached.repo == repo,
            cached.headers == headers,
            cached.vrc_get is None,
    {
        LocalCachedRepository { repo, headers, vrc_get: None }
    }

    /// The entity tag that is recorded; `None` where nothing is.
    pub open spec fn etag(self) -> Option<Seq<char>> {
        match self.vrc_get {
            Some(record) => Some(record.etag@),
            None => None,
        }
    }

    /// Records the entity tag `etag`.
    pub fn set_etag(&mut self, etag: String)
        ensures
            final(self).etag() == Some(etag@),
            final(self).repo == old(self).repo,
            final(self).headers == old(self).headers,
    {
        self.vrc_get = Some(DownloadRecord { etag });
    }

    /// The versions of the package `package` in this repository.
    pub fn get_versions_of(&self, package: &str) -> (versions: &[PackageJson])
        ensures
            versions@ == versions_of(self.repo.packages@, package@),
    {
        let mut i: usize = 0;
        proof {
            assert(self.repo.packages@.skip(0) =~= self.repo.packages@);
        }
        while i < self.repo.packages.len()
            invariant
                i <= self.repo.packages.len(),
                versions_of(self.repo.packages@, package@) == versions_of(
                    self.repo.packages@.skip(i as int),
                    package@,
                ),
            decreases self.repo.packages.len() - i,
        {
            proof {
                assert(self.repo.packages@.skip(i as int).drop_first()
                    =~= self.repo.packages@.skip(i + 1));
            }
            let entry = &self.repo.packages[i];
            if same_text(entry.0.as_str(), package) {
                return entry.1.versions.as_slice();
            }
            i += 1;
        }
        &[]
    }
}

/// An entry of the `dependencies` section of a manifest: the versions that the project accepts.
#[derive(Debug)]
pub struct VpmDependency {
    pub version: VersionRange,
}

impl VpmDependency {
    /// The dependency on one version.
    pub fn new(version: Version) -> (dependency: Self)
        ensures
            dependency.version@ == exact_range(version@),
    {
        VpmDependency { version: VersionRange::exactly(version) }
    }
}

/// An entry of the `locked` section of a manifest: the version that is installed, and what it
/// needs in turn.
#[derive(Debug)]
pub struct VpmLockedDependency {
    pub version: Version,
    pub dependencies: IndexMap<String, VersionRange>,
}

/// The model of a [`VpmLockedDependency`].
pub struct LockedView {
    pub version: VersionView,
    pub needs: Entries<RangeView>,
}

impl View for VpmLockedDependency {
    type V = LockedView;

    open spec fn view(&self) -> LockedView {
        LockedView { version: self.version@, needs: needs(self.dependencies) }
    }
}

impl VpmLockedDependency {
    /// The entry for `version` with its `dependencies`.
    pub fn new(version: Version, dependencies: IndexMap<String, VersionRange>) -> (locked: Self)
        ensures
            locked.version == version,
            locked.dependencies == dependencies,
    {
        VpmLockedDependency { version, dependencies }
    }
}

/// An entry of the user's list of repositories.
#[derive(Debug)]
pub struct UserRepoSetting {
    /// Where the cached copy lies.
    pub local_path: PathBuf,
    pub name: Option<String>,
    pub url: Option<String>,
    pub id: Option<String>,
}

/// Copies an optional string.
fn clone_optional(text: &Option<String>) -> (copy: Option<String>)
    ensures
        optional_text(copy) == optional_text(*text),
{
    match text {
        Some(inner) => Some(inner.clone()),
        None => None,
    }
}

impl UserRepoSetting {
    /// The two entries say the same.
    pub open spec fn says_the_same(self, other: UserRepoSetting) -> bool {
        &&& self.local_path == other.local_path
        &&& optional_text(self.name) == optional_text(other.name)
        &&& optional_text(self.url) == optional_text(other.url)
        &&& optional_text(self.id) == optional_text(other.id)
    }
}

impl Clone for UserRepoSetting {
    fn clone(&self) -> (copy: Self)
        ensures
            copy.says_the_same(*self),
    {
        UserRepoSetting {
            local_path: self.local_path.clone(),
            name: clone_optional(&self.name),
            url: clone_optional(&self.url),
            id: clone_optional(&self.id),
        }
    }
}

impl UserRepoSetting {
    /// The entry made of these parts.
    pub fn new(
        local_path: PathBuf,
        name: Option<String>,
        url: Option<String>,
        id: Option<String>,
    ) -> (setting: Self)
        ensures
            setting == (UserRepoSetting { local_path, name, url, id }),
    {
        UserRepoSetting { local_path, name, url, id }
    }
}

/// The entries of a map of dependencies, in order.
pub uninterp spec fn dependency_entries(map: IndexMap<String, VpmDependency>) -> Entries<
    VpmDependency,
>;

/// The entries of a map of locked packages, in order.
pub uninterp spec fn locked_entries(map: IndexMap<String, VpmLockedDependency>) -> Entries<
    VpmLockedDependency,
>;

/// The entries of a map of version ranges, in order.
pub uninterp spec fn range_entries(map: IndexMap<String, VersionRange>) -> Entries<VersionRange>;

/// The entries of a map of strings, in order.
pub uninterp spec fn text_entries(map: IndexMap<String, String>) -> Entries<String>;

/// `IndexMap::len`: how many dependencies there are, all of different names.
#[verifier::external_body]
pub(crate) fn count_dependencies(map: &IndexMap<String, VpmDependency>) -> (count: usize)
    ensures
        count == dependency_entries(*map).len(),
        count == names(dependency_entries(*map)).to_set().len(),
{
    map.len()
}

/// `IndexMap::len`: how many locked packages there are, all of different names.
#[verifier::external_body]
pub(crate) fn count_locked(map: &IndexMap<String, VpmLockedDependency>) -> (count: usize)
    ensures
        count == locked_entries(*map).len(),
        count == names(locked_entries(*map)).to_set().len(),
{
    map.len()
}

/// `IndexMap::len`: how many version ranges there are, all of different names.
#[verifier::external_body]
pub(crate) fn count_ranges(map: &IndexMap<String, VersionRange>) -> (count: usize)
    ensures
        count == range_entries(*map).len(),
        count == names(range_entries(*map)).to_set().len(),
{
    map.len()
}

/// What a package needs: each name with its range.
pub open spec fn needs(map: IndexMap<String, VersionRange>) -> Entries<RangeView> {
    modelled(range_entries(map), |range: VersionRange| range@)
}

/// `IndexMap::clone`: the same names in the same order, each with a clone of its value.
#[verifier::external_body]
pub(crate) fn clone_ranges(map: &IndexMap<String, VersionRange>) -> (copy: IndexMap<
    String,
    VersionRange,
>)
    ensures
        names(range_entries(copy)) == names(range_entries(*map)),
        forall|i: int|
            0 <= i < range_entries(*map).len() ==> cloned(
                (#[trigger] range_entries(*map)[i]).1,
                range_entries(copy)[i].1,
            ),
{
    map.clone()
}

/// `IndexMap::len`: how many strings there are, all of different names.
#[verifier::external_body]
pub(crate) fn count_texts(map: &IndexMap<String, String>) -> (count: usize)
    ensures
        count == text_entries(*map).len(),
        count == names(text_entries(*map)).to_set().len(),
{
    map.len()
}

/// `IndexMap::contains_key`: whether a locked package is named `key`.
#[verifier::external_body]
pub(crate) fn contains_locked(
    map: &IndexMap<String, VpmLockedDependency>,
    key: &str,
) -> (found: bool)
    ensures
        found == has_key(locked_entries(*map), key@),
{
    map.contains_key(key)
}

/// `IndexMap::contains_key`: whether a version range is named `key`.
#[verifier::external_body]
pub(crate) fn contains_range(map: &IndexMap<String, VersionRange>, key: &str) -> (found: bool)
    ensures
        found == has_key(range_entries(*map), key@),
{
    map.contains_key(key)
}

/// `IndexMap::get`: the dependency under `key`.
#[verifier::external_body]
pub(crate) fn get_dependency<'a>(
    map: &'a IndexMap<String, VpmDependency>,
    key: &str,
) -> (value: Option<&'a VpmDependency>)
    ensures
        (match value {
            Some(found) => lookup(dependency_entries(*map), key@) == Some(*found),
            None => lookup(dependency_entries(*map), key@) is None,
        }),
{
    map.get(key)
}

/// `IndexMap::get`: the locked package under `key`.
#[verifier::external_body]
pub(crate) fn get_locked<'a>(
    map: &'a IndexMap<String, VpmLockedDependency>,
    key: &str,
) -> (value: Option<&'a VpmLockedDependency>)
    ensures
        (match value {
            Some(found) => lookup(locked_entries(*map), key@) == Some(*found),
            None => lookup(locked_entries(*map), key@) is None,
        }),
{
    map.get(key)
}

/// `IndexMap::get_index`: the dependency at `index`, by its place in map order, with its name.
#[verifier::external_body]
pub(crate) fn dependency_at(
    map: &IndexMap<String, VpmDependency>,
    index: usize,
) -> (entry: Option<(&String, &VpmDependency)>)
    ensures
        (match entry {
            Some((name, value)) => index < dependency_entries(*map).len() && dependency_entries(
                *map,
            )[index as int] == (name@, *value),
            None => index >= dependency_entries(*map).len(),
        }),
{
    map.get_index(index)
}

/// `IndexMap::get_index`: the locked package at `index`, by its place in map order, with its name.
#[verifier::external_body]
pub(crate) fn locked_at(
    map: &IndexMap<String, VpmLockedDependency>,
    index: usize,
) -> (entry: Option<(&String, &VpmLockedDependency)>)
    ensures
        (match entry {
            Some((name, value)) => index < locked_entries(*map).len() && locked_entries(
                *map,
            )[index as int] == (name@, *value),
            None => index >= locked_entries(*map).len(),
        }),
{
    map.get_index(index)
}

/// `IndexMap::get_index`: the version range at `index`, by its place in map order, with its name.
#[verifier::external_body]
pub(crate) fn range_at(
    map: &IndexMap<String, VersionRange>,
    index: usize,
) -> (entry: Option<(&String, &VersionRange)>)
    ensures
        (match entry {
            Some((name, value)) => index < range_entries(*map).len() && range_entries(
                *map,
            )[index as int] == (name@, *value),
            None => index >= range_entries(*map).len(),
        }),
{
    map.get_index(index)
}

/// `IndexMap::get_index`: the string at `index`, by its place in map order, with its name.
#[verifier::external_body]
pub(crate) fn text_at(
    map: &IndexMap<String, String>,
    index: usize,
) -> (entry: Option<(&String, &String)>)
    ensures
        (match entry {
            Some((name, value)) => index < text_entries(*map).len() && text_entries(
                *map,
            )[index as int] == (name@, *value),
            None => index >= text_entries(*map).len(),
        }),
{
    map.get_index(index)
}

/// `IndexMap::insert`: sets the dependency under `key`, in place or at the end.
#[verifier::external_body]
pub(crate) fn insert_dependency(
    map: &mut IndexMap<String, VpmDependency>,
    key: String,
    value: VpmDependency,
)
    ensures
        dependency_entries(*final(map)) == inserted(dependency_entries(*old(map)), key@, value),
{
    map.insert(key, value);
}

/// `IndexMap::insert`: sets the locked package under `key`, in place or at the end.
#[verifier::external_body]
pub(crate) fn insert_locked(
    map: &mut IndexMap<String, VpmLockedDependency>,
    key: String,
    value: VpmLockedDependency,
)
    ensures
        locked_entries(*final(map)) == inserted(locked_entries(*old(map)), key@, value),
{
    map.insert(key, value);
}

/// `IndexMap::swap_remove`: takes the dependency named `key` out; the last one moves
/// into the gap.
#[verifier::external_body]
pub(crate) fn remove_dependency(map: &mut IndexMap<String, VpmDependency>, key: &str)
    ensures
        dependency_entries(*final(map)) == removed(dependency_entries(*old(map)), key@),
{
    map.swap_remove(key);
}

/// `IndexMap::swap_remove`: takes the locked package named `key` out; the last one
/// moves into the gap.
#[verifier::external_body]
pub(crate) fn remove_locked(map: &mut IndexMap<String, VpmLockedDependency>, key: &str)
    ensures
        locked_entries(*final(map)) == removed(locked_entries(*old(map)), key@),
{
    map.swap_remove(key);
}

} // verus!
