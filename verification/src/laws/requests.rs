//! What a request to install packages comes to.
use crate::order::Order;
use crate::ordered_map::{
    distinct, has_key, inserted, inserted_all, lemma_inserted_all, lookup, Entries,
};
use crate::package_info::PackageInfo;
use crate::request::{
    acceptable, asked_ranges, begins_request, dependency_views, exact_dependencies, is_acceptable,
    is_update, locked_views, package_locks, request_removals, updates, with_texts,
    AddPackageRequest, PackageResolution, RemovalView, RequestStep,
};
use crate::seqs::{lemma_filter_contains, lemma_filter_push};
use crate::structs::{needs, range_entries, VpmDependency, VpmLockedDependency};
use crate::version::{
    exact_range, law_exact_range_accepts_its_version, range_accepts, Operator, RangeView,
    VersionRange, VersionView,
};
use indexmap::IndexMap;
use serde_json::Value;
use vstd::prelude::*;

verus! {

/// The project does not ask for the package, or the range that it asks for accepts the version.
pub open spec fn fits(asked: Entries<VpmDependency>, info: PackageInfo) -> bool {
    lookup(asked, info.package().name@) matches Some(dependency) ==> range_accepts(
        dependency.version@,
        info.package().version@,
    )
}

/// The package is not locked, or is locked at a version before the one of `info`.
pub open spec fn is_new(locks: Entries<VpmLockedDependency>, info: PackageInfo) -> bool {
    lookup(locks, info.package().name@) matches Some(locked) ==> locked.version@.before(
        info.package().version@,
    )
}

/// Every requested package that fits what the project asks for, and is not locked or locked at a
/// version before the requested one, is to be installed; and nothing else is.
pub proof fn law_request_installs_what_is_new(
    asked: Entries<VpmDependency>,
    locks: Entries<VpmLockedDependency>,
    packages: Seq<PackageInfo>,
    to_dependencies: bool,
    step: RequestStep,
    info: PackageInfo,
)
    requires
        begins_request(asked, locks, packages, to_dependencies, step),
    ensures
        (step matches RequestStep::Resolve { dependencies: _, adding } && adding@.contains(info))
            <==> (packages.contains(info) && fits(asked, info) && is_new(locks, info)),
        step is Complete <==> forall|i: int|
            0 <= i < packages.len() ==> !(fits(asked, #[trigger] packages[i]) && is_new(
                locks,
                packages[i],
            )),
{
    let accepts = |info: PackageInfo| is_acceptable(asked, info);
    let adds = |info: PackageInfo| is_update(locks, info);
    let accepted = acceptable(asked, packages);
    let adding = updates(locks, accepted);
    assert forall|other: PackageInfo| #[trigger] adding.contains(other) <==> (packages.contains(
        other,
    ) && fits(asked, other) && is_new(locks, other)) by {
        lemma_filter_contains(accepted, adds, other);
        lemma_filter_contains(packages, accepts, other);
    }
    if adding.len() == 0 {
        assert forall|i: int| 0 <= i < packages.len() implies !(fits(asked, #[trigger] packages[i])
            && is_new(locks, packages[i])) by {
            assert(packages.contains(packages[i]));
            assert(!adding.contains(packages[i]));
        }
    } else {
        assert(adding.contains(adding[0]));
        let i = packages.index_of(adding[0]);
        assert(packages[i] == adding[0]);
    }
}

/// One more requested package is to be installed last if it fits and is new, and else changes
/// nothing; it is asked for exactly if it fits.
pub proof fn law_one_more_requested_package(
    asked: Entries<VpmDependency>,
    locks: Entries<VpmLockedDependency>,
    packages: Seq<PackageInfo>,
    info: PackageInfo,
)
    ensures
        acceptable(asked, seq![]).len() == 0,
        updates(locks, acceptable(asked, seq![])).len() == 0,
        updates(locks, acceptable(asked, packages.push(info))) == (if fits(asked, info) && is_new(
            locks,
            info,
        ) {
            updates(locks, acceptable(asked, packages)).push(info)
        } else {
            updates(locks, acceptable(asked, packages))
        }),
        exact_dependencies(acceptable(asked, packages.push(info))) == (if fits(asked, info) {
            exact_dependencies(acceptable(asked, packages)).push(
                (info.package().name@, exact_range(info.package().version@)),
            )
        } else {
            exact_dependencies(acceptable(asked, packages))
        }),
{
    let accepts = |info: PackageInfo| is_acceptable(asked, info);
    let adds = |info: PackageInfo| is_update(locks, info);
    let none: Seq<PackageInfo> = seq![];
    assert(none.filter(accepts) =~= seq![]);
    assert(none.filter(adds) =~= seq![]);
    lemma_filter_push(packages, info, accepts);
    lemma_filter_push(acceptable(asked, packages), info, adds);
    if fits(asked, info) {
        assert(exact_dependencies(acceptable(asked, packages).push(info)) =~= exact_dependencies(
            acceptable(asked, packages),
        ).push((info.package().name@, exact_range(info.package().version@))));
    }
}

/// What the project is to ask for: nothing where dependencies are not wanted, else each requested
/// package that fits, in a range that accepts its version and no version of other precedence.
pub proof fn law_request_asks_for_what_fits(
    asked: Entries<VpmDependency>,
    locks: Entries<VpmLockedDependency>,
    packages: Seq<PackageInfo>,
    to_dependencies: bool,
    step: RequestStep,
    info: PackageInfo,
    version: VersionView,
)
    requires
        begins_request(asked, locks, packages, to_dependencies, step),
    ensures
        !to_dependencies ==> asked_in(step).len() == 0,
        to_dependencies && packages.contains(info) && fits(asked, info) ==> exists|i: int|
            0 <= i < asked_in(step).len() && (#[trigger] asked_in(step)[i]).0
                == info.package().name@ && range_accepts(
                asked_in(step)[i].1,
                info.package().version@,
            ) && (range_accepts(asked_in(step)[i].1, version) <==> version.precedence(
                info.package().version@,
            ) == Order::Equal),
        to_dependencies ==> forall|i: int|
            0 <= i < asked_in(step).len() ==> exists|k: int|
                0 <= k < packages.len() && fits(asked, #[trigger] packages[k])
                    && packages[k].package().name@ == (#[trigger] asked_in(step)[i]).0
                    && range_accepts(asked_in(step)[i].1, packages[k].package().version@),
{
    let accepts = |info: PackageInfo| is_acceptable(asked, info);
    let accepted = acceptable(asked, packages);
    let wanted = asked_in(step);
    if to_dependencies {
        assert(wanted == exact_dependencies(accepted));
        lemma_filter_contains(packages, accepts, info);
        if packages.contains(info) && fits(asked, info) {
            let i = accepted.index_of(info);
            assert(wanted[i] == (info.package().name@, exact_range(info.package().version@)));
            law_exact_range_accepts_its_version(info.package().version@, version);
        }
        assert forall|i: int| 0 <= i < wanted.len() implies exists|k: int|
            0 <= k < packages.len() && fits(asked, #[trigger] packages[k])
                && packages[k].package().name@ == (#[trigger] wanted[i]).0 && range_accepts(
                wanted[i].1,
                packages[k].package().version@,
            ) by {
            let other = accepted[i];
            assert(accepted.contains(other));
            lemma_filter_contains(packages, accepts, other);
            let k = packages.index_of(other);
            assert(fits(asked, packages[k]));
            law_exact_range_accepts_its_version(other.package().version@, version);
        }
    }
}

/// What a request makes the project ask for: each name with its range.
pub open spec fn asked_in(step: RequestStep) -> Entries<RangeView> {
    match step {
        RequestStep::Complete(request) => request.dependencies@.map_values(
            |dependency: (&str, VpmDependency)| (dependency.0@, dependency.1.version@),
        ),
        RequestStep::Resolve { dependencies, adding: _ } => dependencies@.map_values(
            |dependency: (&str, VpmDependency)| (dependency.0@, dependency.1.version@),
        ),
    }
}

/// A dependency on a version is one comparator, which asks for exactly that version.
pub proof fn law_exact_range_is_one_comparator(version: VersionView)
    ensures
        exact_range(version).len() == 1,
        exact_range(version)[0].len() == 1,
        exact_range(version)[0][0].operator == Operator::Equal,
        exact_range(version)[0][0].version == version,
{
}

/// Once a request is carried out, each of its packages is locked at its version with what it
/// needs, unless a later one of the request has the same name, and every other lock is as it was.
pub proof fn law_carried_out_request_locks_its_packages(
    before: Entries<VpmLockedDependency>,
    after: Entries<VpmLockedDependency>,
    packages: Seq<PackageInfo>,
    index: int,
    name: Seq<char>,
)
    requires
        distinct(before),
        locked_views(after) == inserted_all(locked_views(before), package_locks(packages)),
        0 <= index < packages.len(),
        forall|k: int|
            index < k < packages.len() ==> (#[trigger] packages[k]).package().name@
                != packages[index].package().name@,
        forall|k: int|
            0 <= k < packages.len() ==> (#[trigger] packages[k]).package().name@ != name,
    ensures
        lookup(locked_views(after), packages[index].package().name@) matches Some(locked)
            && locked.version == packages[index].package().version@ && locked.needs == needs(
            packages[index].package().vpm_dependencies,
        ),
        lookup(locked_views(after), name) == lookup(locked_views(before), name),
        has_key(locked_views(after), name) == has_key(locked_views(before), name),
{
    let list = package_locks(packages);
    let start = locked_views(before);
    assert(distinct(start)) by {
        assert forall|i: int, j: int| 0 <= i < j < start.len() implies (#[trigger] start[i]).0 != (
        #[trigger] start[j]).0 by {
            assert(before[i].0 != before[j].0);
        }
    }
    lemma_inserted_all(start, list);
    let rest = list.skip(index + 1);
    assert forall|k: int| 0 <= k < rest.len() implies (#[trigger] rest[k]).0 != list[index].0 by {
        assert(rest[k] == list[index + 1 + k]);
        assert(packages[index + 1 + k].package().name@ != packages[index].package().name@);
    }
    assert(!has_key(rest, list[index].0));
    if has_key(list, name) {
        let k = choose|k: int| 0 <= k < list.len() && (#[trigger] list[k]).0 == name;
        assert(packages[k].package().name@ == name);
    }
}

/// Once a request is carried out, the project asks for what the request says, the last word on a
/// name counting, and for every other name as before.
pub proof fn law_carried_out_request_asks_for_its_dependencies(
    before: Entries<VpmDependency>,
    after: Entries<VpmDependency>,
    dependencies: Seq<(&str, VpmDependency)>,
    index: int,
    name: Seq<char>,
)
    requires
        distinct(before),
        asked_ranges(after) == inserted_all(asked_ranges(before), dependency_views(dependencies)),
        0 <= index < dependencies.len(),
        forall|k: int|
            index < k < dependencies.len() ==> (#[trigger] dependencies[k]).0@
                != dependencies[index].0@,
        forall|k: int|
            0 <= k < dependencies.len() ==> (#[trigger] dependencies[k]).0@ != name,
    ensures
        lookup(asked_ranges(after), dependencies[index].0@) == Some(
            dependencies[index].1.version@,
        ),
        lookup(asked_ranges(after), name) == lookup(asked_ranges(before), name),
{
    let list = dependency_views(dependencies);
    let start = asked_ranges(before);
    assert(distinct(start)) by {
        assert forall|i: int, j: int| 0 <= i < j < start.len() implies (#[trigger] start[i]).0 != (
        #[trigger] start[j]).0 by {
            assert(before[i].0 != before[j].0);
        }
    }
    lemma_inserted_all(start, list);
    let rest = list.skip(index + 1);
    assert forall|k: int| 0 <= k < rest.len() implies (#[trigger] rest[k]).0 != list[index].0 by {
        assert(rest[k] == list[index + 1 + k]);
        assert(dependencies[index + 1 + k].0@ != dependencies[index].0@);
    }
    assert(!has_key(rest, list[index].0));
    if has_key(list, name) {
        let k = choose|k: int| 0 <= k < list.len() && (#[trigger] list[k]).0 == name;
        assert(dependencies[k].0@ == name);
    }
}

/// The models of locks, of what is asked for and of needs have each entry at its place, with its
/// name and all its parts.
pub proof fn law_entries_are_modelled_in_full(
    locks: Entries<VpmLockedDependency>,
    asked: Entries<VpmDependency>,
    map: IndexMap<String, VersionRange>,
)
    ensures
        locked_views(locks).len() == locks.len(),
        forall|i: int|
            0 <= i < locks.len() ==> (#[trigger] locked_views(locks)[i]).0 == locks[i].0
                && locked_views(locks)[i].1.version == locks[i].1.version@ && locked_views(
                locks,
            )[i].1.needs == needs(locks[i].1.dependencies),
        asked_ranges(asked).len() == asked.len(),
        forall|i: int|
            0 <= i < asked.len() ==> #[trigger] asked_ranges(asked)[i] == (
                asked[i].0,
                asked[i].1.version@,
            ),
        needs(map).len() == range_entries(map).len(),
        forall|i: int|
            0 <= i < needs(map).len() ==> #[trigger] needs(map)[i] == (
                range_entries(map)[i].0,
                range_entries(map)[i].1@,
            ),
{
}

/// Each name is written with its own value.
pub proof fn law_names_keep_their_values(list: Seq<Seq<char>>, values: Seq<Value>)
    ensures
        with_texts(list, values).len() == values.len(),
        forall|i: int|
            0 <= i < values.len() ==> #[trigger] with_texts(list, values)[i] == (
                list[i],
                values[i],
            ),
{
}

/// What goes with a request is each of its files, folders and packages, and nothing else.
pub proof fn law_request_removes_what_it_lists(request: AddPackageRequest)
    ensures
        request_removals(request).len() == request.legacy_files@.len()
            + request.legacy_folders@.len() + request.legacy_packages@.len(),
        forall|i: int|
            0 <= i < request.legacy_files@.len() ==> request_removals(request).contains(
                RemovalView::File(#[trigger] request.legacy_files@[i]),
            ),
        forall|i: int|
            0 <= i < request.legacy_folders@.len() ==> request_removals(request).contains(
                RemovalView::Folder(#[trigger] request.legacy_folders@[i]),
            ),
        forall|i: int|
            0 <= i < request.legacy_packages@.len() ==> request_removals(request).contains(
                RemovalView::Package((#[trigger] request.legacy_packages@[i])@),
            ),
{
    let all = request_removals(request);
    let files = request.legacy_files@.len();
    let folders = request.legacy_folders@.len();
    assert forall|i: int| 0 <= i < request.legacy_files@.len() implies all.contains(
        RemovalView::File(#[trigger] request.legacy_files@[i]),
    ) by {
        assert(all[i] == RemovalView::File(request.legacy_files@[i]));
    }
    assert forall|i: int| 0 <= i < request.legacy_folders@.len() implies all.contains(
        RemovalView::Folder(#[trigger] request.legacy_folders@[i]),
    ) by {
        assert(all[files + i] == RemovalView::Folder(request.legacy_folders@[i]));
    }
    assert forall|i: int| 0 <= i < request.legacy_packages@.len() implies all.contains(
        RemovalView::Package((#[trigger] request.legacy_packages@[i])@),
    ) by {
        assert(all[files + folders + i] == RemovalView::Package(request.legacy_packages@[i]@));
    }
}

/// Setting several values one after the other: the last of the list is set last.
pub proof fn law_one_more_value_is_set<V>(
    entries: Entries<V>,
    list: Entries<V>,
    name: Seq<char>,
    value: V,
)
    ensures
        inserted_all(entries, seq![]) == entries,
        inserted_all(entries, list.push((name, value))) == inserted(
            inserted_all(entries, list),
            name,
            value,
        ),
{
    assert(list.push((name, value)).drop_last() =~= list);
}

/// A request that is complete installs, replaces and reports nothing. One that goes on does so
/// with the packages to install in the order in which they were requested, each as often as it
/// was. Either asks for what fits, in that order, or for nothing.
pub proof fn law_request_keeps_the_order(
    asked: Entries<VpmDependency>,
    locks: Entries<VpmLockedDependency>,
    packages: Seq<PackageInfo>,
    to_dependencies: bool,
    step: RequestStep,
)
    requires
        begins_request(asked, locks, packages, to_dependencies, step),
    ensures
        (match step {
            RequestStep::Complete(request) => {
                &&& request.locked@.len() == 0
                &&& request.legacy_files@.len() == 0
                &&& request.legacy_folders@.len() == 0
                &&& request.legacy_packages@.len() == 0
                &&& request.conflicts@.len() == 0
            },
            RequestStep::Resolve { dependencies: _, adding } => adding@ == updates(
                locks,
                acceptable(asked, packages),
            ),
        }),
        asked_in(step) == (if to_dependencies {
            exact_dependencies(acceptable(asked, packages))
        } else {
            seq![]
        }),
{
}

/// A request or a resolution is well formed exactly if no package has its conflicts listed twice.
pub proof fn law_conflicts_are_listed_once(
    request: AddPackageRequest,
    resolution: PackageResolution,
)
    ensures
        request.well_formed() <==> forall|i: int, j: int|
            0 <= i < j < request.conflicts@.len() ==> (#[trigger] request.conflicts@[i]).0@ != (
            #[trigger] request.conflicts@[j]).0@,
        resolution.well_formed() <==> forall|i: int, j: int|
            0 <= i < j < resolution.conflicts@.len() ==> (#[trigger] resolution.conflicts@[i]).0@
                != (#[trigger] resolution.conflicts@[j]).0@,
{
}

} // verus!
