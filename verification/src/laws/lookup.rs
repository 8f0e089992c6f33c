//! Which packages are known, and which of them is found.
use crate::environment::{
    found_in_folders, found_in_repos, is_newest, newest_at, packages_present, Environment,
    UserPackage,
};
use crate::laws::versions::law_selectors_take_ranges;
use crate::package_info::{PackageInfo, PackageInfoInner};
use crate::repo_holder::LoadedRepo;
use crate::selector::VersionSelector;
use crate::structs::{versions_of, LocalCachedRepository, PackageJson, PackageVersions};
use crate::version::{law_version_order_equal, law_version_order_flips, range_accepts, VersionRange};
use std::path::PathBuf;
use vstd::prelude::*;

verus! {

/// The package at `index` is selected, no selected one is newer, and those before it are older.
pub open spec fn leads(packages: Seq<PackageInfo>, selector: VersionSelector, index: int) -> bool {
    &&& 0 <= index < packages.len()
    &&& selector.selects(packages[index].package().version@)
    &&& forall|i: int|
        0 <= i < packages.len() && selector.selects((#[trigger] packages[i]).package().version@)
            ==> !packages[index].package().version@.before(packages[i].package().version@)
    &&& forall|i: int|
        0 <= i < index && selector.selects((#[trigger] packages[i]).package().version@)
            ==> packages[i].package().version@.before(packages[index].package().version@)
}

/// The package that is found is selected, no selected one is newer, and of equally new ones it is
/// the first. None is found exactly where none is selected.
pub proof fn law_found_package_leads(
    packages: Seq<PackageInfo>,
    selector: VersionSelector,
    found: Option<PackageInfo>,
)
    requires
        is_newest(packages, selector, found),
    ensures
        (match found {
            Some(info) => exists|i: int| #[trigger] leads(packages, selector, i) && packages[i]
                == info,
            None => forall|i: int|
                0 <= i < packages.len() ==> !selector.selects(
                    (#[trigger] packages[i]).package().version@,
                ),
        }),
        found is Some <==> exists|i: int|
            0 <= i < packages.len() && selector.selects(
                (#[trigger] packages[i]).package().version@,
            ),
{
    if let Some(info) = found {
        let index = choose|i: int| #[trigger]
            newest_at(packages, selector, i) && info == packages[i];
        let newest = packages[index].package().version@;
        assert forall|i: int|
            0 <= i < packages.len() && selector.selects(
                (#[trigger] packages[i]).package().version@,
            ) implies !newest.before(packages[i].package().version@) by {
            law_version_order_flips(newest, packages[i].package().version@);
            law_version_order_equal(newest, newest);
        }
        assert(leads(packages, selector, index));
    }
}

/// A version that is found for several ranges is in every one of them, and no known version that
/// is in every one of them is newer. None is found exactly where no known version is in all.
pub proof fn law_found_version_is_in_every_range(
    packages: Seq<PackageInfo>,
    ranges: &[&VersionRange],
    found: Option<PackageInfo>,
)
    requires
        is_newest(packages, VersionSelector::Ranges(ranges), found),
    ensures
        (match found {
            Some(info) => {
                &&& packages.contains(info)
                &&& forall|i: int|
                    0 <= i < ranges@.len() ==> range_accepts(
                        (#[trigger] ranges@[i])@,
                        info.package().version@,
                    )
                &&& forall|k: int|
                    0 <= k < packages.len() && in_every_range(#[trigger] packages[k], ranges@)
                        ==> !info.package().version@.before(packages[k].package().version@)
            },
            None => forall|k: int|
                0 <= k < packages.len() ==> !in_every_range(#[trigger] packages[k], ranges@),
        }),
{
    let selector = VersionSelector::Ranges(ranges);
    law_found_package_leads(packages, selector, found);
    law_selectors_take_ranges(ranges);
    assert forall|k: int| 0 <= k < packages.len() implies (in_every_range(
        #[trigger] packages[k],
        ranges@,
    ) <==> selector.selects(packages[k].package().version@)) by {}
    if let Some(info) = found {
        let i = choose|i: int| #[trigger] leads(packages, selector, i) && packages[i] == info;
        assert(packages[i] == info);
        assert(in_every_range(packages[i], ranges@));
    }
}

/// The package's version is in every range of the list.
pub open spec fn in_every_range(info: PackageInfo, ranges: Seq<&VersionRange>) -> bool {
    forall|i: int|
        0 <= i < ranges.len() ==> range_accepts(
            (#[trigger] ranges[i])@,
            info.package().version@,
        )
}

/// The package of a found one is the one that it was made of.
pub proof fn law_info_is_of_its_package(
    package: PackageJson,
    repo: LocalCachedRepository,
    path: PathBuf,
)
    ensures
        (PackageInfo { inner: PackageInfoInner::Remote(&package, &repo) }).package() == package,
        (PackageInfo { inner: PackageInfoInner::Local(&package, &path) }).package() == package,
{
}

/// The versions of a package in a repository are those of the first entry of its name, and none
/// where there is no such entry.
pub proof fn law_versions_are_those_of_the_entry(
    packages: Seq<(String, PackageVersions)>,
    name: Seq<char>,
    index: int,
)
    requires
        0 <= index <= packages.len(),
        forall|i: int| 0 <= i < index ==> (#[trigger] packages[i]).0@ != name,
        index < packages.len() ==> packages[index].0@ == name,
    ensures
        versions_of(packages, name) == (if index < packages.len() {
            packages[index].1.versions@
        } else {
            seq![]
        }),
    decreases packages.len(),
{
    if packages.len() > 0 && index > 0 {
        let rest = packages.drop_first();
        assert(packages[0].0@ != name);
        assert forall|i: int| 0 <= i < index - 1 implies (#[trigger] rest[i]).0@ != name by {
            assert(packages[i + 1].0@ != name);
        }
        if index < packages.len() {
            assert(rest[index - 1] == packages[index]);
        }
        law_versions_are_those_of_the_entry(rest, name, index - 1);
    }
}

/// One more repository adds its versions of the package, in order, behind those of the others;
/// without repositories there are none.
pub proof fn law_one_more_repository(
    repos: Seq<LoadedRepo>,
    repo: LoadedRepo,
    name: Seq<char>,
    index: int,
)
    ensures
        found_in_repos(seq![], name).len() == 0,
        found_in_repos(repos.push(repo), name).len() == found_in_repos(
            repos,
            name,
        ).len() + versions_of(repo.1.repo.packages@, name).len(),
        0 <= index < found_in_repos(repos, name).len() ==> found_in_repos(
            repos.push(repo),
            name,
        )[index] == found_in_repos(repos, name)[index],
        0 <= index < versions_of(repo.1.repo.packages@, name).len() ==> found_in_repos(
            repos.push(repo),
            name,
        )[found_in_repos(repos, name).len() + index].inner == PackageInfoInner::Remote(
            &versions_of(repo.1.repo.packages@, name)[index],
            &repo.1,
        ),
{
    assert(repos.push(repo).drop_last() =~= repos);
}

/// One more folder adds its package behind the others, if it is of that name; without folders
/// there are none.
pub proof fn law_one_more_folder(
    folders: Seq<UserPackage>,
    folder: UserPackage,
    name: Seq<char>,
)
    ensures
        found_in_folders(seq![], name).len() == 0,
        folder.1.name@ != name ==> found_in_folders(folders.push(folder), name)
            == found_in_folders(folders, name),
        folder.1.name@ == name ==> found_in_folders(folders.push(folder), name)
            == found_in_folders(folders, name).push(
            PackageInfo { inner: PackageInfoInner::Local(&folder.1, &folder.0) },
        ),
{
    assert(folders.push(folder).drop_last() =~= folders);
}

/// All that repositories and folders have of a name is known, those of the repositories first,
/// and nothing else.
pub proof fn law_known_packages_are_those_of_repositories_and_folders(
    env: Environment,
    name: Seq<char>,
    index: int,
)
    ensures
        env.packages_named(name).len() == found_in_repos(env.repos(), name).len()
            + found_in_folders(env.folders(), name).len(),
        0 <= index < found_in_repos(env.repos(), name).len() ==> env.packages_named(
            name,
        )[index] == found_in_repos(env.repos(), name)[index],
        0 <= index < found_in_folders(env.folders(), name).len() ==> env.packages_named(
            name,
        )[found_in_repos(env.repos(), name).len() + index] == found_in_folders(
            env.folders(),
            name,
        )[index],
{
}

/// Every version that a loaded repository has of a package is known under its name.
pub proof fn law_every_version_is_known(
    repos: Seq<LoadedRepo>,
    name: Seq<char>,
    repo: int,
    version: int,
)
    requires
        0 <= repo < repos.len(),
        0 <= version < versions_of(repos[repo].1.repo.packages@, name).len(),
    ensures
        found_in_repos(repos, name).contains(
            PackageInfo {
                inner: PackageInfoInner::Remote(
                    &versions_of(repos[repo].1.repo.packages@, name)[version],
                    &repos[repo].1,
                ),
            },
        ),
    decreases repos.len(),
{
    let shorter = repos.drop_last();
    let last = repos.last();
    let all = found_in_repos(repos, name);
    let before = found_in_repos(shorter, name);
    let info = PackageInfo {
        inner: PackageInfoInner::Remote(
            &versions_of(repos[repo].1.repo.packages@, name)[version],
            &repos[repo].1,
        ),
    };
    assert(repos =~= shorter.push(last));
    if repo < shorter.len() {
        assert(shorter[repo] == repos[repo]);
        law_every_version_is_known(shorter, name, repo, version);
        let i = before.index_of(info);
        law_one_more_repository(shorter, last, name, i);
        assert(all[i] == info);
    } else {
        law_one_more_repository(shorter, last, name, version);
        assert(all[before.len() + version] == info);
    }
}

/// The package of a folder counts exactly where there is one.
pub proof fn law_folders_with_packages_count(
    found: Seq<(PathBuf, Option<PackageJson>)>,
    folder: PathBuf,
    package: PackageJson,
)
    ensures
        packages_present(seq![]).len() == 0,
        packages_present(found.push((folder, None))) == packages_present(found),
        packages_present(found.push((folder, Some(package)))) == packages_present(found).push(
            (folder, package),
        ),
{
    assert(found.push((folder, None)).drop_last() =~= found);
    assert(found.push((folder, Some(package))).drop_last() =~= found);
}

} // verus!
