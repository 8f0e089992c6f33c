//! What the list of all packages shows.
use crate::environment::{Environment, UserPackage};
use crate::listing::{
    answered, folder_candidates, in_order, is_listing, latest, latest_at,
    law_listing_is_sorted_and_complete, lemma_every_place_listed, lemma_later_release,
    lists_package, newest_first, no_release, remote_candidates, reordered, repo_candidates,
    same_package, without_repeats,
};
use crate::repo_holder::LoadedRepo;
use crate::seqs::{lemma_select_push, select};
use crate::structs::{PackageJson, PackageVersions};
use crate::version::{law_version_order_equal, law_version_order_flips};
use vstd::prelude::*;

verus! {

/// The version at `index` is a release, no release is newer, and later releases are older.
pub open spec fn is_latest(versions: Seq<PackageJson>, index: int) -> bool {
    &&& 0 <= index < versions.len()
    &&& versions[index].version@.pre.len() == 0
    &&& forall|i: int|
        0 <= i < versions.len() && (#[trigger] versions[i]).version@.pre.len() == 0
            ==> !versions[index].version@.before(versions[i].version@)
    &&& forall|i: int|
        index < i < versions.len() && (#[trigger] versions[i]).version@.pre.len() == 0
            ==> versions[i].version@.before(versions[index].version@)
}

proof fn lemma_latest_exists(versions: Seq<PackageJson>)
    requires
        !no_release(versions),
    ensures
        exists|i: int| latest_at(versions, i),
    decreases versions.len(),
{
    let at = choose|i: int|
        0 <= i < versions.len() && (#[trigger] versions[i]).version@.is_release();
    let shorter = versions.drop_last();
    let last = versions.last();
    assert(versions[versions.len() - 1] == last);
    if no_release(shorter) {
        if at < shorter.len() {
            assert(shorter[at] == versions[at]);
        }
        assert forall|i: int| 0 <= i < versions.len() - 1 implies !(
        #[trigger] versions[i]).version@.is_release() by {
            assert(shorter[i] == versions[i]);
        }
        assert(latest_at(versions, versions.len() - 1));
    } else {
        lemma_latest_exists(shorter);
        let index = choose|i: int| latest_at(shorter, i);
        assert(forall|i: int| 0 <= i < shorter.len() ==> #[trigger] versions[i] == shorter[i]);
        if last.version@.is_release() && !last.version@.before(shorter[index].version@) {
            lemma_later_release(shorter, versions, index);
        } else {
            assert(latest_at(versions, index));
        }
    }
}

/// What is shown of a package is its latest release: one that no release is newer than, and the
/// last of those. There is none exactly where there is no release.
pub proof fn law_latest_is_the_newest_release(versions: Seq<PackageJson>)
    ensures
        (match latest(versions) {
            Some(package) => exists|i: int| #[trigger] is_latest(versions, i) && versions[i]
                == package,
            None => forall|i: int|
                0 <= i < versions.len() ==> (#[trigger] versions[i]).version@.pre.len() > 0,
        }),
        latest(versions) is Some <==> exists|i: int|
            0 <= i < versions.len() && (#[trigger] versions[i]).version@.pre.len() == 0,
{
    if no_release(versions) {
        assert forall|i: int| 0 <= i < versions.len() implies (
        #[trigger] versions[i]).version@.pre.len() > 0 by {
            assert(!versions[i].version@.is_release());
        }
    } else {
        lemma_latest_exists(versions);
        let index = choose|index: int| latest_at(versions, index);
        let newest = versions[index].version@;
        assert forall|i: int|
            0 <= i < versions.len() && (
            #[trigger] versions[i]).version@.pre.len() == 0 implies !newest.before(
            versions[i].version@,
        ) by {
            law_version_order_flips(versions[index].version@, versions[i].version@);
            law_version_order_equal(versions[index].version@, versions[index].version@);
        }
        assert(is_latest(versions, index));
    }
}

/// One more package of a repository adds its latest release, if it has one.
pub proof fn law_one_more_package_of_a_repository(
    packages: Seq<(String, PackageVersions)>,
    name: String,
    versions: PackageVersions,
)
    ensures
        repo_candidates(seq![]).len() == 0,
        repo_candidates(packages.push((name, versions))) == (match latest(versions.versions@) {
            Some(package) => repo_candidates(packages).push(package),
            None => repo_candidates(packages),
        }),
{
    assert(packages.push((name, versions)).drop_last() =~= packages);
}

/// One more repository adds what is shown of its packages; one more folder adds its package if
/// that is a pre-release.
pub proof fn law_one_more_source(
    repos: Seq<LoadedRepo>,
    repo: LoadedRepo,
    folders: Seq<UserPackage>,
    folder: UserPackage,
)
    ensures
        remote_candidates(seq![]).len() == 0,
        remote_candidates(repos.push(repo)) == remote_candidates(repos) + repo_candidates(
            repo.1.repo.packages@,
        ),
        folder_candidates(seq![]).len() == 0,
        folder_candidates(folders.push(folder)) == (if folder.1.version@.pre.len() > 0 {
            folder_candidates(folders).push(folder.1)
        } else {
            folder_candidates(folders)
        }),
{
    assert(repos.push(repo).drop_last() =~= repos);
    assert(folders.push(folder).drop_last() =~= folders);
}

/// The candidates are those of the repositories and then those of the folders.
pub proof fn law_candidates_are_those_of_all_sources(env: Environment, index: int)
    ensures
        env.candidates().len() == remote_candidates(env.repos()).len() + folder_candidates(
            env.folders(),
        ).len(),
        0 <= index < remote_candidates(env.repos()).len() ==> env.candidates()[index]
            == remote_candidates(env.repos())[index],
        0 <= index < folder_candidates(env.folders()).len() ==> env.candidates()[remote_candidates(
            env.repos(),
        ).len() + index] == folder_candidates(env.folders())[index],
{
}

/// Every package of every repository that has a release is a candidate in its latest one.
pub proof fn law_every_released_package_is_a_candidate(
    repos: Seq<LoadedRepo>,
    repo: int,
    package: int,
)
    requires
        0 <= repo < repos.len(),
        0 <= package < repos[repo].1.repo.packages@.len(),
        latest(repos[repo].1.repo.packages@[package].1.versions@) is Some,
    ensures
        remote_candidates(repos).contains(
            latest(repos[repo].1.repo.packages@[package].1.versions@)->0,
        ),
    decreases repos.len(),
{
    let shown = latest(repos[repo].1.repo.packages@[package].1.versions@)->0;
    let shorter = repos.drop_last();
    let all = remote_candidates(repos);
    let before = remote_candidates(shorter);
    if repo < shorter.len() {
        assert(shorter[repo] == repos[repo]);
        law_every_released_package_is_a_candidate(shorter, repo, package);
        let i = before.index_of(shown);
        assert(all[i] == shown);
    } else {
        let own = repo_candidates(repos[repo].1.repo.packages@);
        lemma_released_package(repos[repo].1.repo.packages@, package);
        let i = own.index_of(shown);
        assert(all[before.len() + i] == shown);
    }
}

proof fn lemma_released_package(packages: Seq<(String, PackageVersions)>, package: int)
    requires
        0 <= package < packages.len(),
        latest(packages[package].1.versions@) is Some,
    ensures
        repo_candidates(packages).contains(latest(packages[package].1.versions@)->0),
    decreases packages.len(),
{
    let shown = latest(packages[package].1.versions@)->0;
    let shorter = packages.drop_last();
    let all = repo_candidates(packages);
    let before = repo_candidates(shorter);
    if package < shorter.len() {
        assert(shorter[package] == packages[package]);
        lemma_released_package(shorter, package);
        let i = before.index_of(shown);
        assert(all[i] == shown);
    } else {
        assert(all[before.len() as int] == shown);
    }
}

/// Selecting by marks: one more element is taken last exactly if it is marked.
pub proof fn law_one_more_marked_element<T>(list: Seq<T>, keep: Seq<bool>, element: T, kept: bool)
    requires
        list.len() == keep.len(),
    ensures
        select(Seq::<T>::empty(), Seq::<bool>::empty()).len() == 0,
        select(list.push(element), keep.push(kept)) == (if kept {
            select(list, keep).push(element)
        } else {
            select(list, keep)
        }),
{
    lemma_select_push(list, keep, element, kept);
}

/// A candidate is marked exactly as the filter answers.
pub proof fn law_marks_are_the_answers<F: Fn(&PackageJson) -> bool>(
    filter: F,
    candidates: Seq<PackageJson>,
    keep: Seq<bool>,
    index: int,
)
    requires
        answered(filter, candidates, keep),
        0 <= index < candidates.len(),
    ensures
        keep.len() == candidates.len(),
        filter.ensures((&candidates[index],), keep[index]),
{
}

/// The listing goes from newer to older versions. It has an entry of the same name and the same
/// version for every candidate that is kept, and never two of the same name and version; each of
/// its entries is a candidate that is kept.
pub proof fn law_listing_shows_each_package_and_version_once(
    candidates: Seq<PackageJson>,
    keep: Seq<bool>,
    result: Seq<PackageJson>,
)
    requires
        is_listing(candidates, keep, result),
    ensures
        forall|c: int| #![trigger select(candidates, keep)[c]]
            0 <= c < select(candidates, keep).len() ==> exists|i: int|
                0 <= i < result.len() && (#[trigger] result[i]).name@ == select(
                    candidates,
                    keep,
                )[c].name@ && result[i].version@ == select(candidates, keep)[c].version@,
        forall|i: int, j: int|
            0 <= i < j < result.len() ==> !((#[trigger] result[i]).name@ == (
            #[trigger] result[j]).name@ && result[i].version@ == result[j].version@),
        forall|i: int, j: int|
            0 <= i < j < result.len() ==> !(#[trigger] result[i]).version@.before(
                (#[trigger] result[j]).version@,
            ),
        forall|i: int|
            0 <= i < result.len() ==> select(candidates, keep).contains(#[trigger] result[i]),
{
    let kept = select(candidates, keep);
    law_listing_is_sorted_and_complete(candidates, keep, result);
    assert forall|c: int| #![trigger kept[c]] 0 <= c < kept.len() implies exists|i: int|
        0 <= i < result.len() && (#[trigger] result[i]).name@ == kept[c].name@
            && result[i].version@ == kept[c].version@ by {
        assert(kept.contains(kept[c]));
        assert(lists_package(result, kept[c]));
        let i = choose|i: int|
            0 <= i < result.len() && same_package(#[trigger] result[i], kept[c]);
        assert(same_package(result[i], kept[c]));
    }
    assert forall|i: int, j: int| 0 <= i < j < result.len() implies !((
    #[trigger] result[i]).name@ == (#[trigger] result[j]).name@ && result[i].version@
        == result[j].version@) by {
        assert(!same_package(result[i], result[j]));
    }
    assert forall|i: int| 0 <= i < result.len() implies kept.contains(#[trigger] result[i]) by {
        assert(result.contains(result[i]));
    }
}

/// Of candidates of the same name and version the listing has the first.
pub proof fn law_listing_shows_the_first_of_equals(
    candidates: Seq<PackageJson>,
    keep: Seq<bool>,
    result: Seq<PackageJson>,
    index: int,
)
    requires
        is_listing(candidates, keep, result),
        0 <= index < select(candidates, keep).len(),
        forall|i: int|
            0 <= i < index ==> !((#[trigger] select(candidates, keep)[i]).name@ == select(
                candidates,
                keep,
            )[index].name@ && select(candidates, keep)[i].version@ == select(
                candidates,
                keep,
            )[index].version@),
    ensures
        result.contains(select(candidates, keep)[index]),
{
    let kept = select(candidates, keep);
    let order = choose|order: Seq<int>| #[trigger]
        newest_first(kept, order) && result == without_repeats(reordered(kept, order));
    let sorted = reordered(kept, order);
    lemma_every_place_listed(kept, order, index);
    let k = order.index_of(index);
    assert(sorted[k] == kept[index]);
    assert forall|l: int| 0 <= l < k implies !same_package(#[trigger] sorted[l], sorted[k]) by {
        assert(in_order(kept, order[l], order[k]));
        law_version_order_equal(kept[index].version@, kept[index].version@);
        if kept[order[l]].version@ == kept[index].version@ {
            assert(order[l] < index);
        }
    }
    lemma_first_is_kept(sorted, k);
}

proof fn lemma_first_is_kept(list: Seq<PackageJson>, index: int)
    requires
        0 <= index < list.len(),
        forall|i: int| 0 <= i < index ==> !same_package(#[trigger] list[i], list[index]),
    ensures
        without_repeats(list).contains(list[index]),
    decreases list.len(),
{
    let shorter = list.drop_last();
    let before = without_repeats(shorter);
    let after = without_repeats(list);
    if index < shorter.len() {
        assert forall|i: int| 0 <= i < index implies !same_package(
            #[trigger] shorter[i],
            shorter[index],
        ) by {
            assert(shorter[i] == list[i]);
        }
        lemma_first_is_kept(shorter, index);
        let i = before.index_of(list[index]);
        assert(after[i] == list[index]);
    } else {
        if lists_package(before, list.last()) {
            let i = choose|i: int|
                0 <= i < before.len() && same_package(#[trigger] before[i], list.last());
            lemma_kept_is_there(shorter, before[i]);
            let k = shorter.index_of(before[i]);
            assert(list[k] == before[i]);
            assert(!same_package(list[k], list[index]));
        }
        assert(after[before.len() as int] == list[index]);
    }
}

proof fn lemma_kept_is_there(list: Seq<PackageJson>, package: PackageJson)
    requires
        without_repeats(list).contains(package),
    ensures
        list.contains(package),
    decreases list.len(),
{
    if list.len() > 0 {
        let shorter = list.drop_last();
        let before = without_repeats(shorter);
        let after = without_repeats(list);
        let i = after.index_of(package);
        if i < before.len() {
            assert(before[i] == package);
            lemma_kept_is_there(shorter, package);
            let k = shorter.index_of(package);
            assert(list[k] == package);
        } else {
            assert(list[list.len() - 1] == package);
        }
    }
}

} // verus!
