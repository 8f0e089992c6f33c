//! The list of all packages: the latest release of each, newest first, without repetition.
use crate::environment::UserPackage;
use crate::repo_holder::LoadedRepo;
use crate::seqs::select;
use crate::structs::{PackageJson, PackageVersions};
use crate::text::same_text;
use crate::version::{
    law_version_order_equal, law_version_order_flips, law_version_order_transitive,
};
use vstd::prelude::*;

verus! {

/// `index` is the place of the latest release: of the last one where several are as new.
pub open spec fn latest_at(versions: Seq<PackageJson>, index: int) -> bool {
    &&& 0 <= index < versions.len()
    &&& versions[index].version@.is_release()
    &&& forall|i: int|
        0 <= i < versions.len() && i != index && (#[trigger] versions[i]).version@.is_release()
            ==> if i < index {
            !versions[index].version@.before(versions[i].version@)
        } else {
            versions[i].version@.before(versions[index].version@)
        }
}

/// There is no release.
pub open spec fn no_release(versions: Seq<PackageJson>) -> bool {
    forall|i: int| 0 <= i < versions.len() ==> !(#[trigger] versions[i]).version@.is_release()
}

/// The latest release, if there is one.
pub open spec fn latest(versions: Seq<PackageJson>) -> Option<PackageJson> {
    if no_release(versions) {
        None
    } else {
        Some(versions[choose|index: int| latest_at(versions, index)])
    }
}

/// There is only one latest release.
proof fn lemma_latest_unique(versions: Seq<PackageJson>, a: int, b: int)
    requires
        latest_at(versions, a),
        latest_at(versions, b),
    ensures
        a == b,
{
    let first = versions[a].version@;
    let second = versions[b].version@;
    law_version_order_flips(first, second);
}

/// The latest release, if there is one.
pub fn get_latest(versions: &PackageVersions) -> (found: Option<&PackageJson>)
    ensures
        (match found {
            Some(package) => latest(versions.versions@) == Some(*package),
            None => latest(versions.versions@) is None,
        }),
{
    let list = &versions.versions;
    let mut best: Option<usize> = None;
    let mut i: usize = 0;
    while i < list.len()
        invariant
            *list == versions.versions,
            i <= list.len(),
            (match best {
                Some(index) => index < i && latest_at(list@.take(i as int), index as int),
                None => no_release(list@.take(i as int)),
            }),
        decreases list.len() - i,
    {
        let package = &list[i];
        let ghost shorter = list@.take(i as int);
        let ghost longer = list@.take(i + 1);
        proof {
            assert(forall|j: int| 0 <= j < i ==> #[trigger] longer[j] == shorter[j]);
            assert(longer[i as int] == package);
        }
        if package.version.is_release() {
            match best {
                Some(index) => {
                    if package.version.is_before(&list[index].version) {
                        assert(latest_at(longer, index as int));
                    } else {
                        proof {
                            assert(longer.drop_last() =~= shorter);
                            lemma_later_release(shorter, longer, index as int);
                        }
                        best = Some(i);
                    }
                },
                None => {
                    assert(latest_at(longer, i as int)) by {
                        assert forall|j: int| 0 <= j < i implies !(
                        #[trigger] longer[j]).version@.is_release() by {
                            assert(!shorter[j].version@.is_release());
                        }
                    }
                    best = Some(i);
                },
            }
        } else {
            proof {
                match best {
                    Some(index) => {
                        assert(latest_at(longer, index as int));
                    },
                    None => {
                        assert forall|j: int| 0 <= j < longer.len() implies !(
                        #[trigger] longer[j]).version@.is_release() by {
                            if j < i {
                                assert(!shorter[j].version@.is_release());
                            }
                        }
                    },
                }
            }
        }
        i += 1;
    }
    proof {
        assert(list@.take(i as int) =~= list@);
        if let Some(index) = best {
            assert(!no_release(list@)) by {
                assert(list@[index as int].version@.is_release());
            }
            assert(latest_at(list@, index as int));
            let chosen = choose|k: int| latest_at(list@, k);
            lemma_latest_unique(list@, chosen, index as int);
        }
    }
    match best {
        Some(index) => Some(&list[index]),
        None => None,
    }
}

/// A release that is not before the latest so far is the latest.
pub proof fn lemma_later_release(shorter: Seq<PackageJson>, longer: Seq<PackageJson>, index: int)
    requires
        longer.len() > 0,
        shorter == longer.drop_last(),
        latest_at(shorter, index),
        longer.last().version@.is_release(),
        !longer.last().version@.before(shorter[index].version@),
    ensures
        latest_at(longer, longer.len() - 1),
{
    let newest = longer.last().version@;
    let previous = shorter[index].version@;
    law_version_order_flips(newest, previous);
    law_version_order_equal(newest, previous);
    assert forall|i: int|
        0 <= i < longer.len() - 1 && (
        #[trigger] longer[i]).version@.is_release() implies !newest.before(
        longer[i].version@,
    ) by {
        let other = shorter[i].version@;
        assert(shorter[i] == longer[i]);
        law_version_order_flips(newest, other);
        law_version_order_flips(previous, other);
        law_version_order_equal(previous, other);
        if newest.before(other) {
            if newest == previous {
                assert(previous.before(other));
            } else {
                law_version_order_transitive(previous, newest, other);
            }
        }
    }
}

/// The latest releases of the packages of one repository, package by package.
pub open spec fn repo_candidates(packages: Seq<(String, PackageVersions)>) -> Seq<PackageJson>
    decreases packages.len(),
{
    if packages.len() == 0 {
        seq![]
    } else {
        let before = repo_candidates(packages.drop_last());
        match latest(packages.last().1.versions@) {
            Some(package) => before.push(package),
            None => before,
        }
    }
}

/// The latest releases of the packages of all repositories, repository by repository.
pub open spec fn remote_candidates(repos: Seq<LoadedRepo>) -> Seq<PackageJson>
    decreases repos.len(),
{
    if repos.len() == 0 {
        seq![]
    } else {
        remote_candidates(repos.drop_last()) + repo_candidates(repos.last().1.repo.packages@)
    }
}

/// The packages in the user's folders that are pre-releases, in order.
pub open spec fn folder_candidates(packages: Seq<UserPackage>) -> Seq<PackageJson>
    decreases packages.len(),
{
    if packages.len() == 0 {
        seq![]
    } else {
        let before = folder_candidates(packages.drop_last());
        if packages.last().1.version@.is_release() {
            before
        } else {
            before.push(packages.last().1)
        }
    }
}

/// `order` lists the places of `list` so that the versions go down, and stay in their order
/// where they are equal.
pub open spec fn newest_first(list: Seq<PackageJson>, order: Seq<int>) -> bool {
    &&& order.len() == list.len()
    &&& forall|k: int| 0 <= k < order.len() ==> 0 <= #[trigger] order[k] < list.len()
    &&& forall|k: int, l: int|
        0 <= k < l < order.len() ==> in_order(
            list,
            #[trigger] order[k],
            #[trigger] order[l],
        )
}

/// What stands at `a` goes before what stands at `b`: it is newer, or as new and earlier.
pub open spec fn in_order(list: Seq<PackageJson>, a: int, b: int) -> bool {
    ||| list[b].version@.before(list[a].version@)
    ||| list[a].version@ == list[b].version@ && a < b
}

/// The packages at the places of `order`.
pub open spec fn reordered(list: Seq<PackageJson>, order: Seq<int>) -> Seq<PackageJson> {
    order.map_values(|index: int| list[index])
}

/// The same package in the same version.
pub open spec fn same_package(a: PackageJson, b: PackageJson) -> bool {
    a.name@ == b.name@ && a.version@ == b.version@
}

/// The package is in the list, in the same version.
pub open spec fn lists_package(list: Seq<PackageJson>, package: PackageJson) -> bool {
    exists|i: int| 0 <= i < list.len() && same_package(#[trigger] list[i], package)
}

/// The first of each package in each version.
pub open spec fn without_repeats(list: Seq<PackageJson>) -> Seq<PackageJson>
    decreases list.len(),
{
    if list.len() == 0 {
        seq![]
    } else {
        let before = without_repeats(list.drop_last());
        if lists_package(before, list.last()) {
            before
        } else {
            before.push(list.last())
        }
    }
}

/// `result` lists the `candidates` that `keep` marks: newest first, each package in each
/// version once.
pub open spec fn is_listing(
    candidates: Seq<PackageJson>,
    keep: Seq<bool>,
    result: Seq<PackageJson>,
) -> bool {
    exists|order: Seq<int>| #[trigger]
        newest_first(select(candidates, keep), order) && result == without_repeats(
            reordered(select(candidates, keep), order),
        )
}

/// `keep` marks each of the `candidates` as `filter` answers.
pub open spec fn answered<F: Fn(&PackageJson) -> bool>(
    filter: F,
    candidates: Seq<PackageJson>,
    keep: Seq<bool>,
) -> bool {
    &&& keep.len() == candidates.len()
    &&& forall|i: int|
        0 <= i < candidates.len() ==> filter.ensures((&#[trigger] candidates[i],), keep[i])
}

/// The packages that a list of references refers to.
pub open spec fn referred(list: Seq<&PackageJson>) -> Seq<PackageJson> {
    list.map_values(|package: &PackageJson| *package)
}

/// Where `version` goes in `order`: before the first older version.
fn insertion_point(list: &Vec<&PackageJson>, order: &Vec<usize>, index: usize) -> (at: usize)
    requires
        index < list@.len(),
        forall|k: int| 0 <= k < order@.len() ==> (#[trigger] order@[k]) < list@.len(),
    ensures
        at <= order@.len(),
        forall|k: int|
            0 <= k < at ==> !list@[(#[trigger] order@[k]) as int].version@.before(
                list@[index as int].version@,
            ),
        at < order@.len() ==> list@[order@[at as int] as int].version@.before(
            list@[index as int].version@,
        ),
{
    let mut at: usize = 0;
    while at < order.len()
        invariant
            index < list@.len(),
            forall|k: int| 0 <= k < order@.len() ==> (#[trigger] order@[k]) < list@.len(),
            at <= order.len(),
            forall|k: int|
                0 <= k < at ==> !list@[(#[trigger] order@[k]) as int].version@.before(
                    list@[index as int].version@,
                ),
        decreases order.len() - at,
    {
        let other = order[at];
        if list[other].version.is_before(&list[index].version) {
            return at;
        }
        at += 1;
    }
    at
}

/// The places of `order`.
spec fn places(order: Seq<usize>) -> Seq<int> {
    order.map_values(|index: usize| index as int)
}

/// Putting the next place in before the first older version keeps the order.
proof fn lemma_place_inserted(list: Seq<PackageJson>, order: Seq<int>, index: int, at: int)
    requires
        0 <= index < list.len(),
        newest_first(list.take(index), order),
        0 <= at <= order.len(),
        forall|k: int|
            0 <= k < at ==> !list[#[trigger] order[k]].version@.before(list[index].version@),
        at < order.len() ==> list[order[at]].version@.before(list[index].version@),
    ensures
        newest_first(list.take(index + 1), order.insert(at, index)),
{
    let shorter = list.take(index);
    let longer = list.take(index + 1);
    let after = order.insert(at, index);
    let new = list[index].version@;
    assert forall|k: int| 0 <= k < after.len() implies 0 <= #[trigger] after[k] < longer.len() by {
        if k < at {
            assert(after[k] == order[k]);
        } else if k > at {
            assert(after[k] == order[k - 1]);
        }
    }
    assert forall|k: int, l: int| 0 <= k < l < after.len() implies in_order(
        longer,
        #[trigger] after[k],
        #[trigger] after[l],
    ) by {
        let a = if k < at {
            k
        } else {
            k - 1
        };
        let b = if l < at {
            l
        } else {
            l - 1
        };
        if k == at {
            let other = order[b];
            assert(after[l] == other);
            let older = list[other].version@;
            if b > at {
                let first = order[at];
                assert(in_order(shorter, first, other));
                if older != list[first].version@ {
                    law_version_order_transitive(older, list[first].version@, new);
                }
            }
            assert(older.before(new));
        } else if l == at {
            let other = order[a];
            assert(after[k] == other);
            let newer = list[other].version@;
            assert(!newer.before(new));
            law_version_order_flips(newer, new);
            law_version_order_equal(newer, new);
        } else {
            assert(after[k] == order[a] && after[l] == order[b]);
            assert(in_order(shorter, order[a], order[b]));
        }
    }
}

/// The packages of `list`, newest first; those of equal versions stay in their order.
pub fn sort_newest_first<'a>(list: &Vec<&'a PackageJson>) -> (sorted: Vec<&'a PackageJson>)
    ensures
        exists|order: Seq<int>| #[trigger]
            newest_first(referred(list@), order) && referred(sorted@) == reordered(
                referred(list@),
                order,
            ),
{
    let ghost all = referred(list@);
    let mut order: Vec<usize> = Vec::new();
    let mut i: usize = 0;
    proof {
        assert(places(order@) =~= seq![]);
    }
    while i < list.len()
        invariant
            i <= list.len(),
            all == referred(list@),
            order@.len() == i,
            newest_first(all.take(i as int), places(order@)),
            forall|k: int| 0 <= k < order@.len() ==> (#[trigger] order@[k]) < i,
        decreases list.len() - i,
    {
        let at = insertion_point(list, &order, i);
        let ghost before = order@;
        order.insert(at, i);
        proof {
            assert(places(order@) =~= places(before).insert(at as int, i as int));
            assert forall|k: int| 0 <= k < at implies !all[#[trigger] places(
                before,
            )[k]].version@.before(all[i as int].version@) by {
                assert(places(before)[k] == before[k]);
            }
            lemma_place_inserted(all, places(before), i as int, at as int);
            assert forall|k: int| 0 <= k < order@.len() implies (#[trigger] order@[k]) < i + 1 by {
                if k < at {
                    assert(order@[k] == before[k]);
                } else if k > at {
                    assert(order@[k] == before[k - 1]);
                }
            }
        }
        i += 1;
    }
    let mut sorted: Vec<&PackageJson> = Vec::new();
    let mut k: usize = 0;
    while k < order.len()
        invariant
            k <= order.len(),
            all == referred(list@),
            forall|j: int| 0 <= j < order@.len() ==> (#[trigger] order@[j]) < list@.len(),
            sorted@.len() == k,
            forall|j: int| 0 <= j < k ==> *(#[trigger] sorted@[j]) == all[order@[j] as int],
        decreases order.len() - k,
    {
        let index = order[k];
        sorted.push(list[index]);
        k += 1;
    }
    proof {
        assert(all.take(i as int) =~= all);
        assert(referred(sorted@) =~= reordered(all, places(order@)));
    }
    sorted
}

/// The first of each package in each version.
pub fn drop_repeats<'a>(list: &Vec<&'a PackageJson>) -> (unique: Vec<&'a PackageJson>)
    ensures
        referred(unique@) == without_repeats(referred(list@)),
{
    let ghost all = referred(list@);
    let mut unique: Vec<&PackageJson> = Vec::new();
    let mut i: usize = 0;
    proof {
        assert(all.take(0) =~= seq![]);
        assert(referred(unique@) =~= seq![]);
    }
    while i < list.len()
        invariant
            i <= list.len(),
            all == referred(list@),
            referred(unique@) == without_repeats(all.take(i as int)),
        decreases list.len() - i,
    {
        let package = list[i];
        proof {
            assert(all.take(i + 1).drop_last() =~= all.take(i as int));
            assert(all.take(i + 1).last() == *package);
        }
        let mut known = false;
        let mut k: usize = 0;
        while k < unique.len()
            invariant
                k <= unique.len(),
                known == exists|j: int|
                    0 <= j < k && same_package(#[trigger] referred(unique@)[j], *package),
            decreases unique.len() - k,
        {
            let other = unique[k];
            assert(referred(unique@)[k as int] == *other);
            if same_text(other.name.as_str(), package.name.as_str()) && other.version
                == package.version {
                known = true;
            }
            k += 1;
        }
        let ghost before = unique@;
        if !known {
            unique.push(package);
            proof {
                assert(referred(unique@) =~= referred(before).push(*package));
            }
        }
        i += 1;
    }
    proof {
        assert(all.take(i as int) =~= all);
    }
    unique
}

/// No version is before a later one of the list.
pub open spec fn goes_down(list: Seq<PackageJson>) -> bool {
    forall|i: int, j: int|
        0 <= i < j < list.len() ==> !(#[trigger] list[i]).version@.before(
            (#[trigger] list[j]).version@,
        )
}

/// No package is in the list twice in the same version.
pub open spec fn no_package_twice(list: Seq<PackageJson>) -> bool {
    forall|i: int, j: int|
        0 <= i < j < list.len() ==> !same_package(#[trigger] list[i], #[trigger] list[j])
}

/// A listing goes from the newest version to the oldest and holds no package twice in the same
/// version. It holds each candidate that is kept, and nothing else.
pub proof fn law_listing_is_sorted_and_complete(
    candidates: Seq<PackageJson>,
    keep: Seq<bool>,
    result: Seq<PackageJson>,
)
    requires
        is_listing(candidates, keep, result),
    ensures
        goes_down(result),
        no_package_twice(result),
        forall|package: PackageJson|
            select(candidates, keep).contains(package) ==> #[trigger] lists_package(
                result,
                package,
            ),
        forall|package: PackageJson| #[trigger]
            result.contains(package) ==> select(candidates, keep).contains(package),
{
    let kept = select(candidates, keep);
    let order = choose|order: Seq<int>| #[trigger]
        newest_first(kept, order) && result == without_repeats(reordered(kept, order));
    let sorted = reordered(kept, order);
    assert forall|k: int, l: int| 0 <= k < l < sorted.len() implies !(
    #[trigger] sorted[k]).version@.before((#[trigger] sorted[l]).version@) by {
        assert(in_order(kept, order[k], order[l]));
        law_version_order_flips(sorted[k].version@, sorted[l].version@);
        law_version_order_equal(sorted[k].version@, sorted[l].version@);
    }
    lemma_without_repeats(sorted);
    assert forall|package: PackageJson| #[trigger] result.contains(package) implies kept.contains(
        package,
    ) by {
        assert(sorted.contains(package));
        let k = sorted.index_of(package);
        assert(kept[order[k]] == package);
    }
    assert forall|package: PackageJson| kept.contains(package) implies #[trigger] lists_package(
        result,
        package,
    ) by {
        let place = kept.index_of(package);
        lemma_every_place_listed(kept, order, place);
        let k = order.index_of(place);
        assert(sorted[k] == package);
        assert(sorted.contains(package));
    }
}

/// An order of all places leaves none out.
pub proof fn lemma_every_place_listed(list: Seq<PackageJson>, order: Seq<int>, place: int)
    requires
        newest_first(list, order),
        0 <= place < list.len(),
    ensures
        order.contains(place),
{
    assert(order.no_duplicates()) by {
        assert forall|k: int, l: int| 0 <= k < order.len() && 0 <= l < order.len() && k
            != l implies order[k] != order[l] by {
            if k < l {
                assert(in_order(list, order[k], order[l]));
                law_version_order_equal(
                    list[order[k]].version@,
                    list[order[k]].version@,
                );
            } else {
                assert(in_order(list, order[l], order[k]));
                law_version_order_equal(
                    list[order[l]].version@,
                    list[order[l]].version@,
                );
            }
        }
    }
    let places = vstd::set_lib::set_int_range(0, list.len() as int);
    vstd::set_lib::lemma_int_range(0, list.len() as int);
    order.unique_seq_to_set();
    assert(order.to_set().subset_of(places)) by {
        assert forall|at: int| order.to_set().contains(at) implies places.contains(at) by {
            let k = order.index_of(at);
            assert(order[k] == at);
        }
    }
    vstd::set_lib::lemma_subset_equality(order.to_set(), places);
    assert(places.contains(place));
    assert(order.to_set().contains(place));
}

/// What is left without repeats is in the same order, holds no package twice, and stands for
/// the whole list.
proof fn lemma_without_repeats(list: Seq<PackageJson>)
    requires
        goes_down(list),
    ensures
        goes_down(without_repeats(list)),
        no_package_twice(without_repeats(list)),
        forall|package: PackageJson| #[trigger]
            without_repeats(list).contains(package) ==> list.contains(package),
        forall|package: PackageJson| #[trigger]
            list.contains(package) ==> lists_package(without_repeats(list), package),
    decreases list.len(),
{
    if list.len() > 0 {
        let shorter = list.drop_last();
        let last = list.last();
        let before = without_repeats(shorter);
        let after = without_repeats(list);
        assert(list[list.len() - 1] == last);
        assert(goes_down(shorter)) by {
            assert forall|i: int, j: int| 0 <= i < j < shorter.len() implies !(
            #[trigger] shorter[i]).version@.before((#[trigger] shorter[j]).version@) by {
                assert(!list[i].version@.before(list[j].version@));
            }
        }
        lemma_without_repeats(shorter);
        assert forall|package: PackageJson| #[trigger]
            shorter.contains(package) implies list.contains(package) by {
            let i = shorter.index_of(package);
            assert(list[i] == package);
        }
        if !lists_package(before, last) {
            assert forall|i: int| 0 <= i < before.len() implies !(
            #[trigger] before[i]).version@.before(last.version@) by {
                assert(before.contains(before[i]));
                let k = shorter.index_of(before[i]);
                assert(list[k] == before[i]);
            }
            assert(after[before.len() as int] == last);
        }
        assert forall|package: PackageJson| #[trigger]
            after.contains(package) implies list.contains(package) by {
            let i = after.index_of(package);
            if i < before.len() {
                assert(before[i] == package);
                assert(before.contains(package));
                assert(shorter.contains(package));
            }
        }
        assert forall|package: PackageJson| #[trigger]
            list.contains(package) implies lists_package(after, package) by {
            let i = list.index_of(package);
            if i < shorter.len() {
                assert(shorter[i] == package);
                assert(shorter.contains(package));
                let j = choose|j: int|
                    0 <= j < before.len() && same_package(#[trigger] before[j], package);
                assert(same_package(after[j], package));
            } else {
                if lists_package(before, last) {
                    assert(lists_package(after, package));
                } else {
                    assert(same_package(after[before.len() as int], package));
                }
            }
        }
    }
}

} // verus!
