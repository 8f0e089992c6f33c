//! The packages that can be installed, and the user's settings.
use crate::errors::AddRepositoryErr;
use crate::json::{
    array_elements, object_members, parsed_paths, pretty_text, read_paths, to_json_vec, JsonMap,
};
use crate::listing::{
    answered, drop_repeats, folder_candidates, get_latest, is_listing, referred,
    remote_candidates, repo_candidates, sort_newest_first,
};
use crate::package_info::{PackageInfo, PackageInfoInner};
use crate::paths::{paths_equal, same_path};
use crate::repo_holder::{packages_differ, paths_differ, repo_at, repo_put, LoadedRepo, RepoHolder};
use crate::selector::VersionSelector;
use crate::seqs::{lemma_select_push, select};
use crate::structs::{
    optional_text, versions_of, LocalCachedRepository, PackageJson, UserRepoSetting,
};
use crate::text::same_text;
use crate::user_repos::{
    count_user_repos, drop_unmarked, first_marks, has_room, is_repeat, list_elements, list_value,
    lists_updates, mark_firsts, outdated_identities, push_user_repo, replace_user_repo,
    repos_replaced, retain_user_repos, unmarked_dropped, user_repos_key,
};
use crate::version::{
    law_version_order_equal, law_version_order_flips, law_version_order_transitive,
};
use serde_json::Value;
use std::path::PathBuf;
use vstd::prelude::*;

verus! {

/// A package in a folder of the user's, with the folder.
pub type UserPackage = (PathBuf, PackageJson);

/// The name of the list of the user's package folders in the settings document.
pub open spec fn package_folders_key() -> Seq<char> {
    "userPackageFolders"@
}

/// The list after each of the `changes` has put its value at its place.
pub open spec fn with_replacements(list: Seq<Value>, changes: Seq<(usize, Value)>) -> Seq<Value>
    decreases changes.len(),
{
    if changes.len() == 0 {
        list
    } else {
        with_replacements(list, changes.drop_last()).update(
            changes.last().0 as int,
            changes.last().1,
        )
    }
}

proof fn lemma_replacements_keep_length(list: Seq<Value>, changes: Seq<(usize, Value)>)
    requires
        forall|k: int| 0 <= k < changes.len() ==> (#[trigger] changes[k]).0 < list.len(),
    ensures
        with_replacements(list, changes).len() == list.len(),
    decreases changes.len(),
{
    if changes.len() > 0 {
        let before = changes.drop_last();
        assert forall|k: int| 0 <= k < before.len() implies (#[trigger] before[k]).0
            < list.len() by {
            assert(before[k] == changes[k]);
        }
        lemma_replacements_keep_length(list, before);
        assert(changes[changes.len() - 1].0 < list.len());
    }
}

/// The folders that hold a package, each with the package.
pub open spec fn packages_present(found: Seq<(PathBuf, Option<PackageJson>)>) -> Seq<UserPackage>
    decreases found.len(),
{
    if found.len() == 0 {
        seq![]
    } else {
        let before = packages_present(found.drop_last());
        match found.last().1 {
            Some(package) => before.push((found.last().0, package)),
            None => before,
        }
    }
}

/// Some repository of the list has the address `url`.
pub open spec fn lists_url(list: Seq<UserRepoSetting>, url: Seq<char>) -> bool {
    exists|i: int| 0 <= i < list.len() && optional_text((#[trigger] list[i]).url) == Some(url)
}

/// Some repository of the list has the identity `id`.
pub open spec fn lists_id(list: Seq<UserRepoSetting>, id: Seq<char>) -> bool {
    exists|i: int| 0 <= i < list.len() && optional_text((#[trigger] list[i]).id) == Some(id)
}

/// Some repository of the list has its cached copy at `path`.
pub open spec fn lists_path(list: Seq<UserRepoSetting>, path: PathBuf) -> bool {
    exists|i: int| 0 <= i < list.len() && paths_equal((#[trigger] list[i]).local_path, path)
}

/// A repository that was added to the list is listed by its address and by its identity, so that
/// adding it again is refused.
pub proof fn law_added_repository_is_listed(list: Seq<UserRepoSetting>, new: UserRepoSetting)
    ensures
        optional_text(new.url) matches Some(url) ==> lists_url(list.push(new), url),
        optional_text(new.id) matches Some(id) ==> lists_id(list.push(new), id),
{
    assert(list.push(new)[list.len() as int] == new);
}

/// `keep` marks the repositories of which `condition` answers no.
pub open spec fn condition_fails<F: Fn(&UserRepoSetting) -> bool>(
    condition: F,
    list: Seq<UserRepoSetting>,
    keep: Seq<bool>,
) -> bool {
    &&& keep.len() == list.len()
    &&& forall|i: int|
        0 <= i < list.len() ==> condition.ensures((&#[trigger] list[i],), !keep[i])
}

/// The paths of the repositories that `keep` does not mark, the last one first.
pub open spec fn unmarked_paths(list: Seq<UserRepoSetting>, keep: Seq<bool>) -> Seq<PathBuf>
    decreases list.len(),
{
    if list.len() == 0 {
        seq![]
    } else {
        let rest = unmarked_paths(list.drop_first(), keep.drop_first());
        if keep[0] {
            rest
        } else {
            rest.push(list[0].local_path)
        }
    }
}

/// A repository that every user has.
#[derive(Clone, Copy, Debug)]
pub struct PreDefinedRepoSource {
    /// The name of the file of the cached copy.
    pub file_name: &'static str,
    pub url: &'static str,
    pub name: &'static str,
}

impl PreDefinedRepoSource {
    /// This is the official repository.
    pub open spec fn is_official(self) -> bool {
        &&& self.file_name@ == "vrc-official.json"@
        &&& self.url@ == "https://packages.vrchat.com/official?download"@
        &&& self.name@ == "Official"@
    }

    /// This is the curated repository.
    pub open spec fn is_curated(self) -> bool {
        &&& self.file_name@ == "vrc-curated.json"@
        &&& self.url@ == "https://packages.vrchat.com/curated?download"@
        &&& self.name@ == "Curated"@
    }

    /// The official repository.
    pub fn official() -> (source: Self)
        ensures
            source.is_official(),
    {
        PreDefinedRepoSource {
            file_name: "vrc-official.json",
            url: "https://packages.vrchat.com/official?download",
            name: "Official",
        }
    }

    /// The curated repository.
    pub fn curated() -> (source: Self)
        ensures
            source.is_curated(),
    {
        PreDefinedRepoSource {
            file_name: "vrc-curated.json",
            url: "https://packages.vrchat.com/curated?download",
            name: "Curated",
        }
    }
}

/// A repository to load.
#[derive(Debug)]
#[non_exhaustive]
pub enum RepoSource {
    /// One that every user has, with the path of its cached copy.
    PreDefined(PreDefinedRepoSource, PathBuf),
    /// One of the user's list.
    UserRepo(UserRepoSetting),
}

impl Clone for RepoSource {
    fn clone(&self) -> (copy: Self)
        ensures
            (match *self {
                RepoSource::PreDefined(_, _) => copy == *self,
                RepoSource::UserRepo(repo) => copy matches RepoSource::UserRepo(same)
                    && same.says_the_same(repo),
            }),
    {
        match self {
            RepoSource::PreDefined(source, path) => RepoSource::PreDefined(*source, path.clone()),
            RepoSource::UserRepo(repo) => RepoSource::UserRepo(repo.clone()),
        }
    }
}

/// The versions of one repository, as packages that were found there.
pub open spec fn remote_infos<'a>(
    versions: Seq<PackageJson>,
    repo: LocalCachedRepository,
) -> Seq<PackageInfo<'a>> {
    Seq::new(
        versions.len(),
        |i: int| PackageInfo { inner: PackageInfoInner::Remote(&versions[i], &repo) },
    )
}

/// The versions of the package `name` in the repositories, repository by repository.
pub open spec fn found_in_repos<'a>(repos: Seq<LoadedRepo>, name: Seq<char>) -> Seq<PackageInfo<'a>>
    decreases repos.len(),
{
    if repos.len() == 0 {
        seq![]
    } else {
        found_in_repos(repos.drop_last(), name) + remote_infos(
            versions_of(repos.last().1.repo.packages@, name),
            repos.last().1,
        )
    }
}

/// The packages `name` in the user's folders, in order.
pub open spec fn found_in_folders<'a>(
    packages: Seq<UserPackage>,
    name: Seq<char>,
) -> Seq<PackageInfo<'a>>
    decreases packages.len(),
{
    if packages.len() == 0 {
        seq![]
    } else {
        let before = found_in_folders(packages.drop_last(), name);
        if packages.last().1.name@ == name {
            before.push(
                PackageInfo {
                    inner: PackageInfoInner::Local(&packages.last().1, &packages.last().0),
                },
            )
        } else {
            before
        }
    }
}

/// `index` is the place of the newest of the `packages` that `selector` takes, and of the first
/// of those where several are as new.
pub open spec fn newest_at<'a>(
    packages: Seq<PackageInfo<'a>>,
    selector: VersionSelector,
    index: int,
) -> bool {
    &&& 0 <= index < packages.len()
    &&& selector.selects(packages[index].package().version@)
    &&& forall|i: int|
        0 <= i < packages.len() && i != index && selector.selects(
            (#[trigger] packages[i]).package().version@,
        ) ==> if i < index {
            packages[i].package().version@.before(packages[index].package().version@)
        } else {
            !packages[index].package().version@.before(packages[i].package().version@)
        }
}

/// What `found` is: the newest package that the selector selects, if there is one.
pub open spec fn is_newest(
    packages: Seq<PackageInfo>,
    selector: VersionSelector,
    found: Option<PackageInfo>,
) -> bool {
    match found {
        Some(info) => exists|i: int| #[trigger]
            newest_at(packages, selector, i) && info == packages[i],
        None => forall|i: int|
            0 <= i < packages.len() ==> !selector.selects(
                (#[trigger] packages[i]).package().version@,
            ),
    }
}

/// No package that the selector selects is newer than the newest one.
pub proof fn law_newest_is_no_older(
    packages: Seq<PackageInfo>,
    selector: VersionSelector,
    index: int,
    other: int,
)
    requires
        newest_at(packages, selector, index),
        0 <= other < packages.len(),
        selector.selects(packages[other].package().version@),
    ensures
        !packages[index].package().version@.before(packages[other].package().version@),
{
    let newest = packages[index].package().version@;
    let version = packages[other].package().version@;
    law_version_order_flips(newest, version);
    law_version_order_equal(newest, newest);
}

/// The user's settings and the packages that are known.
#[derive(Debug)]
pub struct Environment {
    /// Whether repositories may be downloaded.
    online: bool,
    settings: JsonMap,
    repo_cache: RepoHolder,
    user_packages: Vec<UserPackage>,
    settings_changed: bool,
}

impl Environment {
    /// Repositories may be downloaded.
    pub closed spec fn is_online(self) -> bool {
        self.online
    }

    /// The members of the settings document.
    pub closed spec fn document(self) -> Map<Seq<char>, Value> {
        object_members(self.settings)
    }

    /// The repositories that are loaded.
    pub closed spec fn repos(self) -> Seq<LoadedRepo> {
        self.repo_cache.repos@
    }

    /// The packages in the user's folders.
    pub closed spec fn folders(self) -> Seq<UserPackage> {
        self.user_packages@
    }

    /// No two repositories stand under equal paths, and none holds a package twice.
    pub open spec fn well_formed(self) -> bool {
        paths_differ(self.repos()) && packages_differ(self.repos())
    }

    /// The settings differ from what was read or last saved.
    pub closed spec fn is_changed(self) -> bool {
        self.settings_changed
    }

    /// The environment of a settings document, with no package known yet. `online` says whether
    /// repositories may be downloaded.
    pub fn load_default(online: bool, settings: JsonMap) -> (environment: Self)
        ensures
            environment.is_online() == online,
            environment.document() == object_members(settings),
            environment.well_formed(),
            environment.repos().len() == 0,
            environment.folders().len() == 0,
            !environment.is_changed(),
    {
        Environment {
            online,
            settings,
            repo_cache: RepoHolder::new(),
            user_packages: Vec::new(),
            settings_changed: false,
        }
    }

    /// Everything but the settings is as in `other`.
    pub open spec fn same_packages(self, other: Environment) -> bool {
        &&& self.is_online() == other.is_online()
        &&& self.repos() == other.repos()
        &&& self.folders() == other.folders()
    }

    /// Puts the repository that was loaded from `path` among those that are loaded.
    pub fn put_repo(&mut self, path: PathBuf, repo: LocalCachedRepository)
        requires
            old(self).well_formed(),
            repo.repo.well_formed(),
        ensures
            final(self).well_formed(),
            final(self).repos() == repo_put(old(self).repos(), path, repo),
            repo_at(final(self).repos(), path) == Some(repo),
            final(self).is_online() == old(self).is_online(),
            final(self).folders() == old(self).folders(),
            final(self).document() == old(self).document(),
            final(self).is_changed() == old(self).is_changed(),
    {
        self.repo_cache.put_repo(path, repo);
    }

    /// The user's list of repositories, as it stands in the settings.
    pub fn get_user_repos(&self) -> (list: Value)
        ensures
            (if self.document().contains_key(user_repos_key()) {
                list == self.document()[user_repos_key()]
            } else {
                array_elements(list) == Some(Seq::<Value>::empty())
            }),
    {
        list_value(&self.settings, "userRepos")
    }

    /// How many repositories the user's list has; `None` where the settings have no such list.
    pub fn count_user_repos(&self) -> (count: Option<usize>)
        ensures
            (match list_elements(self.document(), user_repos_key()) {
                Some(list) => count == Some(list.len() as usize) && list.len() <= usize::MAX,
                None => count is None,
            }),
    {
        count_user_repos(&self.settings)
    }

    /// Whether a repository can be added to the user's list: there is no such list yet, or what
    /// the settings have in its place is one.
    pub fn can_add_user_repo(&self) -> (possible: bool)
        ensures
            possible == (self.document().contains_key(user_repos_key()) ==> list_elements(
                self.document(),
                user_repos_key(),
            ) is Some),
    {
        has_room(&self.settings)
    }

    /// The repository that was loaded from `path`, if there is one.
    pub fn get_repo(&self, path: &PathBuf) -> (repo: Option<&LocalCachedRepository>)
        ensures
            (match repo {
                Some(found) => repo_at(self.repos(), *path) == Some(*found),
                None => repo_at(self.repos(), *path) is None,
            }),
    {
        self.repo_cache.get_repo(path)
    }

    /// The user's package folders.
    pub fn get_user_package_folders(&self) -> (folders: Result<Vec<PathBuf>, serde_json::Error>)
        ensures
            (if self.document().contains_key(package_folders_key()) {
                match folders {
                    Ok(list) => parsed_paths(self.document()[package_folders_key()]) == Some(
                        list@,
                    ),
                    Err(_) => parsed_paths(self.document()[package_folders_key()]) is None,
                }
            } else {
                folders matches Ok(list) && list@.len() == 0
            }),
    {
        read_paths(list_value(&self.settings, "userPackageFolders"))
    }

    /// The repositories to load: the predefined ones, whose cached copies are at these paths,
    /// then the user's.
    pub fn get_repo_sources(
        &self,
        official: PathBuf,
        curated: PathBuf,
        user_repos: Vec<UserRepoSetting>,
    ) -> (sources: Vec<RepoSource>)
        ensures
            sources@.len() == 2 + user_repos@.len(),
            sources@[0] matches RepoSource::PreDefined(source, path) && source.is_official()
                && path == official,
            sources@[1] matches RepoSource::PreDefined(source, path) && source.is_curated()
                && path == curated,
            forall|i: int|
                0 <= i < user_repos@.len() ==> #[trigger] sources@[i + 2] == RepoSource::UserRepo(
                    user_repos@[i],
                ),
    {
        let mut sources: Vec<RepoSource> = Vec::new();
        sources.push(RepoSource::PreDefined(PreDefinedRepoSource::official(), official));
        sources.push(RepoSource::PreDefined(PreDefinedRepoSource::curated(), curated));
        let ghost first = sources@;
        for repo in it: user_repos
            invariant
                first.len() == 2,
                it.seq() == user_repos@,
                sources@ == first + it.seq().take(it.index()).map_values(
                    |repo: UserRepoSetting| RepoSource::UserRepo(repo),
                ),
        {
            sources.push(RepoSource::UserRepo(repo));
            proof {
                assert(sources@ =~= first + it.seq().take(it.index() + 1).map_values(
                    |repo: UserRepoSetting| RepoSource::UserRepo(repo),
                ));
            }
        }
        sources
    }

    /// The repositories of the user's list whose identity is out of date, by place, with the
    /// identity that they ought to have.
    pub fn update_user_repo_id(&self, user_repos: &Vec<UserRepoSetting>) -> (updates: Vec<
        (usize, Option<String>),
    >)
        requires
            forall|i: int|
                0 <= i < user_repos@.len() ==> repo_at(
                    self.repos(),
                    (#[trigger] user_repos@[i]).local_path,
                ) is Some,
        ensures
            lists_updates(self.repos(), user_repos@, user_repos@.len() as int, updates@),
    {
        outdated_identities(&self.repo_cache, user_repos)
    }

    /// Replaces elements of the user's list of repositories by others.
    pub fn replace_user_repos(&mut self, replacements: Vec<(usize, Value)>)
        requires
            replacements@.len() > 0 ==> list_elements(old(self).document(), user_repos_key())
                is Some,
            forall|k: int|
                0 <= k < replacements@.len() ==> (#[trigger] replacements@[k]).0 < list_elements(
                    old(self).document(),
                    user_repos_key(),
                )->0.len(),
        ensures
            final(self).same_packages(*old(self)),
            replacements@.len() == 0 ==> final(self).document() == old(self).document(),
            replacements@.len() > 0 ==> repos_replaced(
                old(self).document(),
                final(self).document(),
                with_replacements(
                    list_elements(old(self).document(), user_repos_key())->0,
                    replacements@,
                ),
            ),
            final(self).is_changed() == (old(self).is_changed() || replacements@.len() > 0),
    {
        let ghost before = *self;
        let ghost all = list_elements(before.document(), user_repos_key())->0;
        let ghost changes = replacements@;
        proof {
            assert(changes.take(0) =~= seq![]);
            if changes.len() > 0 {
                assert(before.document() =~= before.document().insert(
                    user_repos_key(),
                    before.document()[user_repos_key()],
                ));
            }
        }
        for change in it: replacements
            invariant
                it.seq() == changes,
                self.same_packages(before),
                all == list_elements(before.document(), user_repos_key())->0,
                forall|k: int|
                    0 <= k < changes.len() ==> (#[trigger] changes[k]).0 < all.len(),
                changes.len() == 0 ==> self.document() == before.document(),
                changes.len() > 0 ==> repos_replaced(
                    before.document(),
                    self.document(),
                    with_replacements(all, changes.take(it.index())),
                ),
                self.is_changed() == (before.is_changed() || it.index() > 0),
        {
            proof {
                let done = changes.take(it.index());
                assert(changes.take(it.index() + 1).drop_last() =~= done);
                assert forall|k: int| 0 <= k < done.len() implies (#[trigger] done[k]).0
                    < all.len() by {
                    assert(done[k] == changes[k]);
                }
                lemma_replacements_keep_length(all, done);
                assert(change == changes[it.index()]);
            }
            replace_user_repo(&mut self.settings, change.0, change.1);
            self.settings_changed = true;
            proof {
                let after = self.document();
                assert(after =~= before.document().insert(
                    user_repos_key(),
                    after[user_repos_key()],
                ));
            }
        }
        proof {
            assert(changes.take(changes.len() as int) =~= changes);
        }
    }

    /// Takes out of the user's list the repositories that repeat the identity of an earlier
    /// one, and drops them from those that are loaded: none is left under their paths.
    pub fn remove_id_duplication(&mut self, user_repos: &Vec<UserRepoSetting>)
        requires
            old(self).well_formed(),
            user_repos@.len() > 0 ==> (list_elements(
                old(self).document(),
                user_repos_key(),
            ) matches Some(elements) && elements.len() == user_repos@.len()),
        ensures
            user_repos@.len() == 0 ==> final(self).document() == old(self).document(),
            user_repos@.len() > 0 ==> repos_replaced(
                old(self).document(),
                final(self).document(),
                select(
                    list_elements(old(self).document(), user_repos_key())->0,
                    first_marks(user_repos@),
                ),
            ),
            final(self).well_formed(),
            forall|i: int|
                0 <= i < user_repos@.len() && #[trigger] is_repeat(user_repos@, i) ==> repo_at(
                    final(self).repos(),
                    user_repos@[i].local_path,
                ) is None,
            final(self).repos() == unmarked_dropped(
                old(self).repos(),
                user_repos@,
                first_marks(user_repos@),
                user_repos@.len() as int,
            ),
            final(self).is_online() == old(self).is_online(),
            final(self).folders() == old(self).folders(),
            final(self).is_changed() == (old(self).is_changed() || exists|i: int|
                0 <= i < user_repos@.len() && #[trigger] is_repeat(user_repos@, i)),
    {
        if user_repos.len() == 0 {
            return;
        }
        let keep = mark_firsts(user_repos);
        retain_user_repos(&mut self.settings, &keep);
        let dropped = drop_unmarked(&mut self.repo_cache, user_repos, &keep);
        if dropped {
            self.settings_changed = true;
        }
        proof {
            if dropped {
                let i = choose|i: int| 0 <= i < keep@.len() && !#[trigger] keep@[i];
                assert(is_repeat(user_repos@, i));
            } else {
                assert forall|i: int| 0 <= i < user_repos@.len() implies !#[trigger] is_repeat(
                    user_repos@,
                    i,
                ) by {
                    assert(keep@[i]);
                }
            }
            assert forall|i: int|
                0 <= i < user_repos@.len() && #[trigger] is_repeat(user_repos@, i) implies repo_at(
                self.repos(),
                user_repos@[i].local_path,
            ) is None by {
                assert(!keep@[i]);
            }
        }
    }

    /// Takes the packages that were found in the user's folders as those that are known; a
    /// folder without a package is passed over.
    pub fn load_user_package_infos(&mut self, found: Vec<(PathBuf, Option<PackageJson>)>)
        ensures
            final(self).folders() == packages_present(found@),
            final(self).is_online() == old(self).is_online(),
            final(self).repos() == old(self).repos(),
            final(self).document() == old(self).document(),
            final(self).is_changed() == old(self).is_changed(),
    {
        let mut packages: Vec<UserPackage> = Vec::new();
        let ghost all = found@;
        proof {
            assert(all.take(0) =~= seq![]);
        }
        for entry in it: found
            invariant
                it.seq() == all,
                packages@ == packages_present(all.take(it.index())),
        {
            proof {
                assert(all.take(it.index() + 1).drop_last() =~= all.take(it.index()));
            }
            if let Some(package) = entry.1 {
                packages.push((entry.0, package));
            }
        }
        proof {
            assert(all.take(all.len() as int) =~= all);
        }
        self.user_packages = packages;
    }

    /// The repositories that are loaded.
    pub fn get_repos(&self) -> (repos: Vec<&LocalCachedRepository>)
        ensures
            repos@.len() == self.repos().len(),
            forall|i: int| 0 <= i < repos@.len() ==> *(#[trigger] repos@[i]) == self.repos()[i].1,
    {
        self.repo_cache.get_repos()
    }

    /// The repositories that are loaded, each with the path of its cached copy.
    pub fn get_repo_with_path(&self) -> (repos: Vec<(&PathBuf, &LocalCachedRepository)>)
        ensures
            repos@.len() == self.repos().len(),
            forall|i: int|
                0 <= i < repos@.len() ==> (*(#[trigger] repos@[i]).0, *repos@[i].1)
                    == self.repos()[i],
    {
        let mut repos: Vec<(&PathBuf, &LocalCachedRepository)> = Vec::new();
        let mut i: usize = 0;
        while i < self.repo_cache.repos.len()
            invariant
                i <= self.repo_cache.repos.len(),
                repos@.len() == i,
                forall|j: int|
                    0 <= j < i ==> (*(#[trigger] repos@[j]).0, *repos@[j].1)
                        == self.repo_cache.repos@[j],
            decreases self.repo_cache.repos.len() - i,
        {
            let entry = &self.repo_cache.repos[i];
            repos.push((&entry.0, &entry.1));
            i += 1;
        }
        repos
    }

    /// Adds a repository to the user's list.
    pub fn add_user_repo(&mut self, repo: Value)
        requires
            old(self).document().contains_key(user_repos_key()) ==> list_elements(
                old(self).document(),
                user_repos_key(),
            ) is Some,
        ensures
            final(self).same_packages(*old(self)),
            repos_replaced(
                old(self).document(),
                final(self).document(),
                (match list_elements(old(self).document(), user_repos_key()) {
                    Some(elements) => elements.push(repo),
                    None => seq![repo],
                }),
            ),
            final(self).is_changed(),
    {
        push_user_repo(&mut self.settings, repo);
        self.settings_changed = true;
    }

    /// Whether the repository at `url` may be downloaded and added: it must not be in the
    /// user's list, and downloads must be allowed.
    pub fn add_remote_repo(&self, user_repos: &Vec<UserRepoSetting>, url: &str) -> (allowed: Result<
        (),
        AddRepositoryErr,
    >)
        ensures
            (match allowed {
                Ok(_) => !lists_url(user_repos@, url@) && self.is_online(),
                Err(AddRepositoryErr::AlreadyAdded) => lists_url(user_repos@, url@),
                Err(AddRepositoryErr::OfflineMode) => !lists_url(user_repos@, url@)
                    && !self.is_online(),
                Err(AddRepositoryErr::Io(_)) => false,
            }),
    {
        let mut i: usize = 0;
        while i < user_repos.len()
            invariant
                i <= user_repos.len(),
                forall|j: int|
                    0 <= j < i ==> optional_text((#[trigger] user_repos@[j]).url) != Some(url@),
            decreases user_repos.len() - i,
        {
            if let Some(known) = &user_repos[i].url {
                if same_text(known.as_str(), url) {
                    return Err(AddRepositoryErr::AlreadyAdded);
                }
            }
            i += 1;
        }
        if !self.online {
            return Err(AddRepositoryErr::OfflineMode);
        }
        Ok(())
    }

    /// The entry to add to the user's list for the repository at `path`, unless that path is
    /// in the list.
    pub fn add_local_repo(
        &self,
        user_repos: &Vec<UserRepoSetting>,
        path: PathBuf,
        name: Option<String>,
    ) -> (setting: Result<UserRepoSetting, AddRepositoryErr>)
        ensures
            (match setting {
                Ok(new) => !lists_path(user_repos@, path) && new == (UserRepoSetting {
                    local_path: path,
                    name,
                    url: None,
                    id: None,
                }) && lists_path(user_repos@.push(new), path),
                Err(error) => lists_path(user_repos@, path) && error is AlreadyAdded,
            }),
    {
        let mut i: usize = 0;
        while i < user_repos.len()
            invariant
                i <= user_repos.len(),
                forall|j: int|
                    0 <= j < i ==> !paths_equal((#[trigger] user_repos@[j]).local_path, path),
            decreases user_repos.len() - i,
        {
            if same_path(&user_repos[i].local_path, &path) {
                return Err(AddRepositoryErr::AlreadyAdded);
            }
            i += 1;
        }
        // a path equals itself, so that adding it again is refused
        let _ = same_path(&path, &path);
        let new = UserRepoSetting::new(path, name, None, None);
        proof {
            assert(user_repos@.push(new)[user_repos@.len() as int] == new);
        }
        Ok(new)
    }

    /// Takes the repositories that meet `condition` out of the user's list. Gives the paths of
    /// their cached copies, the last one first.
    pub fn remove_repo<F: Fn(&UserRepoSetting) -> bool>(
        &mut self,
        user_repos: &Vec<UserRepoSetting>,
        condition: F,
    ) -> (paths: Vec<PathBuf>)
        requires
            forall|repo: &UserRepoSetting| #[trigger] condition.requires((repo,)),
            user_repos@.len() > 0 ==> (list_elements(
                old(self).document(),
                user_repos_key(),
            ) matches Some(elements) && elements.len() == user_repos@.len()),
        ensures
            final(self).same_packages(*old(self)),
            exists|keep: Seq<bool>| #[trigger]
                condition_fails(condition, user_repos@, keep) && paths@ == unmarked_paths(
                    user_repos@,
                    keep,
                ) && final(self).is_changed() == (old(self).is_changed() || paths@.len() > 0) && (
                if paths@.len() == 0 {
                    final(self).document() == old(self).document()
                } else {
                    repos_replaced(
                        old(self).document(),
                        final(self).document(),
                        select(
                            list_elements(old(self).document(), user_repos_key())->0,
                            keep,
                        ),
                    )
                }),
    {
        let mut keep: Vec<bool> = Vec::new();
        let mut i: usize = 0;
        while i < user_repos.len()
            invariant
                i <= user_repos.len(),
                forall|repo: &UserRepoSetting| #[trigger] condition.requires((repo,)),
                keep@.len() == i,
                forall|j: int|
                    0 <= j < i ==> condition.ensures((&#[trigger] user_repos@[j],), !keep@[j]),
            decreases user_repos.len() - i,
        {
            let met = condition(&user_repos[i]);
            keep.push(!met);
            i += 1;
        }
        let mut paths: Vec<PathBuf> = Vec::new();
        let mut k: usize = user_repos.len();
        proof {
            assert(user_repos@.skip(k as int) =~= seq![]);
        }
        while k > 0
            invariant
                k <= user_repos@.len(),
                keep@.len() == user_repos@.len(),
                paths@ == unmarked_paths(user_repos@.skip(k as int), keep@.skip(k as int)),
            decreases k,
        {
            k -= 1;
            proof {
                assert(user_repos@.skip(k as int).drop_first() =~= user_repos@.skip(k + 1));
                assert(keep@.skip(k as int).drop_first() =~= keep@.skip(k + 1));
            }
            if !keep[k] {
                paths.push(user_repos[k].local_path.clone());
            }
        }
        proof {
            assert(user_repos@.skip(0) =~= user_repos@);
            assert(keep@.skip(0) =~= keep@);
            assert(condition_fails(condition, user_repos@, keep@));
        }
        if paths.len() == 0 {
            return paths;
        }
        retain_user_repos(&mut self.settings, &keep);
        self.settings_changed = true;
        paths
    }

    /// The text to write to the settings file; `None` where nothing has changed.
    pub fn save(&self) -> (text: Result<Option<Vec<u8>>, serde_json::Error>)
        ensures
            (match text {
                Ok(None) => !self.is_changed(),
                Ok(Some(bytes)) => self.is_changed() && pretty_text(self.document()) == Some(
                    bytes@,
                ),
                Err(_) => self.is_changed() && pretty_text(self.document()) is None,
            }),
    {
        if !self.settings_changed {
            return Ok(None);
        }
        match to_json_vec(&self.settings) {
            Ok(bytes) => Ok(Some(bytes)),
            Err(error) => Err(error),
        }
    }

    /// Notes that the settings were written to their file.
    pub fn mark_saved(&mut self)
        ensures
            final(self).same_packages(*old(self)),
            final(self).document() == old(self).document(),
            !final(self).is_changed(),
    {
        self.settings_changed = false;
    }

    /// All versions of the package `name`: of the repositories first, then of the user's
    /// folders.
    pub open spec fn packages_named<'a>(self, name: Seq<char>) -> Seq<PackageInfo<'a>> {
        found_in_repos(self.repos(), name) + found_in_folders(self.folders(), name)
    }

    /// All versions of the package `package`.
    pub fn find_packages<'a>(&'a self, package: &str) -> (list: Vec<PackageInfo<'a>>)
        ensures
            list@ == self.packages_named(package@),
    {
        let mut list: Vec<PackageInfo> = Vec::new();
        let ghost repos = self.repos();
        let mut i: usize = 0;
        proof {
            assert(repos.take(0) =~= seq![]);
        }
        while i < self.repo_cache.repos.len()
            invariant
                i <= self.repo_cache.repos.len(),
                repos == self.repo_cache.repos@,
                list@ == found_in_repos::<'a>(repos.take(i as int), package@),
            decreases self.repo_cache.repos.len() - i,
        {
            let repo = &self.repo_cache.repos[i].1;
            let versions = repo.get_versions_of(package);
            let ghost before = list@;
            let mut k: usize = 0;
            while k < versions.len()
                invariant
                    k <= versions@.len(),
                    list@ =~= before + remote_infos(versions@, *repo).take(k as int),
                decreases versions@.len() - k,
            {
                list.push(PackageInfo::remote(&versions[k], repo));
                k += 1;
            }
            proof {
                assert(remote_infos(versions@, *repo).take(k as int) =~= remote_infos(
                    versions@,
                    *repo,
                ));
                assert(repos.take(i + 1).drop_last() =~= repos.take(i as int));
            }
            i += 1;
        }
        let ghost remote = list@;
        let ghost folders = self.folders();
        let mut j: usize = 0;
        proof {
            assert(repos.take(i as int) =~= repos);
            assert(folders.take(0) =~= seq![]);
        }
        while j < self.user_packages.len()
            invariant
                j <= self.user_packages.len(),
                folders == self.user_packages@,
                list@ =~= remote + found_in_folders::<'a>(folders.take(j as int), package@),
            decreases self.user_packages.len() - j,
        {
            proof {
                assert(folders.take(j + 1).drop_last() =~= folders.take(j as int));
            }
            let entry = &self.user_packages[j];
            if same_text(entry.1.name.as_str(), package) {
                list.push(PackageInfo::local(&entry.1, &entry.0));
            }
            j += 1;
        }
        proof {
            assert(folders.take(j as int) =~= folders);
        }
        list
    }

    /// The newest version of the package `package` that `version` takes.
    pub fn find_package_by_name<'a>(
        &'a self,
        package: &str,
        version: VersionSelector,
    ) -> (found: Option<PackageInfo<'a>>)
        ensures
            is_newest(self.packages_named(package@), version, found),
    {
        let versions = self.find_packages(package);
        newest_of(&versions, version)
    }

    /// What can be listed: the latest releases of all repositories, then the pre-releases in
    /// the user's folders.
    pub open spec fn candidates(self) -> Seq<PackageJson> {
        remote_candidates(self.repos()) + folder_candidates(self.folders())
    }

    /// The packages that `filter` accepts, newest first, each package in each version once.
    pub fn find_whole_all_packages<'a, F: Fn(&PackageJson) -> bool>(&'a self, filter: F) -> (list:
        Vec<&'a PackageJson>)
        requires
            forall|package: &PackageJson| #[trigger] filter.requires((package,)),
        ensures
            exists|keep: Seq<bool>| #[trigger]
                answered(filter, self.candidates(), keep) && is_listing(
                    self.candidates(),
                    keep,
                    referred(list@),
                ),
    {
        let mut list: Vec<&PackageJson> = Vec::new();
        let ghost repos = self.repos();
        let ghost mut keep: Seq<bool> = seq![];
        let ghost mut seen: Seq<PackageJson> = seq![];
        let mut i: usize = 0;
        proof {
            assert(repos.take(0) =~= seq![]);
            assert(referred(list@) =~= seq![]);
        }
        while i < self.repo_cache.repos.len()
            invariant
                i <= self.repo_cache.repos.len(),
                repos == self.repo_cache.repos@,
                forall|package: &PackageJson| #[trigger] filter.requires((package,)),
                seen == remote_candidates(repos.take(i as int)),
                answered(filter, seen, keep),
                referred(list@) == select(seen, keep),
            decreases self.repo_cache.repos.len() - i,
        {
            let packages = &self.repo_cache.repos[i].1.repo.packages;
            let ghost start = seen;
            let mut k: usize = 0;
            proof {
                assert(packages@.take(0) =~= seq![]);
                assert(start + repo_candidates(packages@.take(0)) =~= start);
            }
            while k < packages.len()
                invariant
                    k <= packages.len(),
                    forall|package: &PackageJson| #[trigger] filter.requires((package,)),
                    seen == start + repo_candidates(packages@.take(k as int)),
                    answered(filter, seen, keep),
                    referred(list@) == select(seen, keep),
                decreases packages.len() - k,
            {
                proof {
                    assert(packages@.take(k + 1).drop_last() =~= packages@.take(k as int));
                }
                if let Some(package) = get_latest(&packages[k].1) {
                    let wanted = filter(package);
                    let ghost before = list@;
                    if wanted {
                        list.push(package);
                    }
                    proof {
                        lemma_candidate_answered(
                            filter,
                            seen,
                            keep,
                            *package,
                            wanted,
                            before,
                            list@,
                        );
                        seen = seen.push(*package);
                        keep = keep.push(wanted);
                        assert(seen =~= start + repo_candidates(packages@.take(k + 1)));
                    }
                }
                k += 1;
            }
            proof {
                assert(packages@.take(k as int) =~= packages@);
                assert(repos.take(i + 1).drop_last() =~= repos.take(i as int));
            }
            i += 1;
        }
        let ghost folders = self.folders();
        let ghost remote = seen;
        let mut j: usize = 0;
        proof {
            assert(repos.take(i as int) =~= repos);
            assert(folders.take(0) =~= seq![]);
            assert(remote + folder_candidates(folders.take(0)) =~= remote);
        }
        while j < self.user_packages.len()
            invariant
                j <= self.user_packages.len(),
                folders == self.user_packages@,
                forall|package: &PackageJson| #[trigger] filter.requires((package,)),
                seen == remote + folder_candidates(folders.take(j as int)),
                answered(filter, seen, keep),
                referred(list@) == select(seen, keep),
            decreases self.user_packages.len() - j,
        {
            proof {
                assert(folders.take(j + 1).drop_last() =~= folders.take(j as int));
            }
            let package = &self.user_packages[j].1;
            if !package.version.is_release() {
                let wanted = filter(package);
                let ghost before = list@;
                if wanted {
                    list.push(package);
                }
                proof {
                    lemma_candidate_answered(filter, seen, keep, *package, wanted, before, list@);
                    seen = seen.push(*package);
                    keep = keep.push(wanted);
                    assert(seen =~= remote + folder_candidates(folders.take(j + 1)));
                }
            }
            j += 1;
        }
        proof {
            assert(folders.take(j as int) =~= folders);
        }
        let sorted = sort_newest_first(&list);
        let unique = drop_repeats(&sorted);
        proof {
            assert(is_listing(self.candidates(), keep, referred(unique@)));
        }
        unique
    }
}

/// The newest of the `packages` that `selector` takes; the first where several are as new.
pub fn newest_of<'a>(packages: &Vec<PackageInfo<'a>>, selector: VersionSelector) -> (found: Option<
    PackageInfo<'a>,
>)
    ensures
        is_newest(packages@, selector, found),
{
    let mut best: Option<usize> = None;
    let mut i: usize = 0;
    while i < packages.len()
        invariant
            i <= packages.len(),
            (match best {
                Some(index) => index < i && newest_at(
                    packages@.take(i as int),
                    selector,
                    index as int,
                ),
                None => forall|j: int|
                    0 <= j < i ==> !selector.selects(
                        (#[trigger] packages@[j]).package().version@,
                    ),
            }),
        decreases packages.len() - i,
    {
        let info = packages[i];
        let ghost shorter = packages@.take(i as int);
        let ghost longer = packages@.take(i + 1);
        proof {
            assert(forall|j: int| 0 <= j < i ==> #[trigger] longer[j] == shorter[j]);
            assert(forall|j: int| 0 <= j < i ==> #[trigger] packages@[j] == shorter[j]);
            assert(longer[i as int] == info);
        }
        if selector.satisfies(info.version()) {
            match best {
                Some(index) => {
                    let leader = packages[index];
                    if leader.version().is_before(info.version()) {
                        proof {
                            assert(longer.drop_last() =~= shorter);
                            lemma_new_leader(shorter, longer, selector, index as int);
                        }
                        best = Some(i);
                    } else {
                        assert(newest_at(longer, selector, index as int));
                    }
                },
                None => {
                    assert(newest_at(longer, selector, i as int));
                    best = Some(i);
                },
            }
        } else {
            proof {
                if let Some(index) = best {
                    assert(newest_at(longer, selector, index as int));
                }
            }
        }
        i += 1;
    }
    proof {
        assert(packages@.take(i as int) =~= packages@);
    }
    match best {
        Some(index) => Some(packages[index]),
        None => None,
    }
}

/// One more candidate, kept or not as the filter answers.
proof fn lemma_candidate_answered<F: Fn(&PackageJson) -> bool>(
    filter: F,
    seen: Seq<PackageJson>,
    keep: Seq<bool>,
    package: PackageJson,
    wanted: bool,
    before: Seq<&PackageJson>,
    after: Seq<&PackageJson>,
)
    requires
        answered(filter, seen, keep),
        filter.ensures((&package,), wanted),
        referred(before) == select(seen, keep),
        after == (if wanted {
            before.push(&package)
        } else {
            before
        }),
    ensures
        answered(filter, seen.push(package), keep.push(wanted)),
        referred(after) == select(seen.push(package), keep.push(wanted)),
{
    lemma_select_push(seen, keep, package, wanted);
    assert(referred(before.push(&package)) =~= referred(before).push(package));
    let longer = seen.push(package);
    let flags = keep.push(wanted);
    assert forall|i: int| 0 <= i < longer.len() implies filter.ensures(
        (&#[trigger] longer[i],),
        flags[i],
    ) by {
        if i < seen.len() {
            assert(longer[i] == seen[i]);
        }
    }
}

/// A version after the newest so far is the newest.
proof fn lemma_new_leader<'a>(
    shorter: Seq<PackageInfo<'a>>,
    longer: Seq<PackageInfo<'a>>,
    selector: VersionSelector,
    index: int,
)
    requires
        shorter == longer.drop_last(),
        newest_at(shorter, selector, index),
        longer.len() > 0,
        selector.selects(longer.last().package().version@),
        shorter[index].package().version@.before(longer.last().package().version@),
    ensures
        newest_at(longer, selector, longer.len() - 1),
{
    let newest = longer.last().package().version@;
    let previous = shorter[index].package().version@;
    assert forall|i: int|
        0 <= i < longer.len() - 1 && selector.selects(
            (#[trigger] longer[i]).package().version@,
        ) implies longer[i].package().version@.before(newest) by {
        let other = shorter[i].package().version@;
        assert(shorter[i] == longer[i]);
        if i < index {
            law_version_order_transitive(other, previous, newest);
        } else if i > index {
            assert(!previous.before(other));
            law_version_order_flips(previous, other);
            law_version_order_equal(previous, other);
            if other != previous {
                law_version_order_transitive(other, previous, newest);
            }
        }
    }
}

} // verus!
