//! What resolving a project finds.
use crate::environment::{is_newest, Environment};
use crate::laws::lookup::{in_every_range, law_found_version_is_in_every_range};
use crate::ordered_map::{has_key, position, Entries};
use crate::package_info::PackageInfo;
use crate::project::UnityProject;
use crate::resolve::{
    are_groups, finds_missing, has_prerelease, is_missing, is_named, is_newest_in, lacks_missing,
    lemma_names_once, lemma_ranges_push, missing_ranges, names_once, ranges_of, referred_ranges,
    unlocked_package_names, unlocked_ranges,
};
use crate::selector::VersionSelector;
use crate::seqs::lemma_filter_contains;
use crate::structs::{range_entries, PackageJson, VpmLockedDependency};
use crate::version::{range_accepts, VersionRange};
use vstd::prelude::*;

verus! {

/// A package of the folder that is not locked needs `name` in `range`, and `name` is neither
/// locked nor the name of such a package.
pub open spec fn must_be_had(
    locks: Entries<VpmLockedDependency>,
    unlocked: Seq<(String, Option<PackageJson>)>,
    name: Seq<char>,
    range: VersionRange,
) -> bool {
    &&& exists|i: int| #![trigger unlocked[i]]
        0 <= i < unlocked.len() && unlocked[i].1 is Some && range_entries(
            unlocked[i].1->0.vpm_dependencies,
        ).contains((name, range))
    &&& !has_key(locks, name)
    &&& forall|i: int| #![trigger unlocked[i]]
        0 <= i < unlocked.len() && unlocked[i].1 is Some ==> unlocked[i].1->0.name@ != name
}

proof fn lemma_present(unlocked: Seq<(String, Option<PackageJson>)>, name: Seq<char>)
    ensures
        unlocked_package_names(unlocked).contains(name) <==> exists|i: int| #![trigger unlocked[i]]
            0 <= i < unlocked.len() && unlocked[i].1 is Some && unlocked[i].1->0.name@ == name,
    decreases unlocked.len(),
{
    if unlocked.len() > 0 {
        let shorter = unlocked.drop_last();
        let last = unlocked.last();
        let before = unlocked_package_names(shorter);
        let all = unlocked_package_names(unlocked);
        lemma_present(shorter, name);
        assert(unlocked[unlocked.len() - 1] == last);
        if all.contains(name) {
            let k = all.index_of(name);
            if k < before.len() {
                assert(before[k] == name);
                let i = choose|i: int| #![trigger shorter[i]]
                    0 <= i < shorter.len() && shorter[i].1 is Some && shorter[i].1->0.name@ == name;
                assert(unlocked[i] == shorter[i]);
            }
        }
        if exists|i: int| #![trigger unlocked[i]]
            0 <= i < unlocked.len() && unlocked[i].1 is Some && unlocked[i].1->0.name@ == name {
            let i = choose|i: int| #![trigger unlocked[i]]
                0 <= i < unlocked.len() && unlocked[i].1 is Some && unlocked[i].1->0.name@ == name;
            if i < shorter.len() {
                assert(shorter[i] == unlocked[i]);
                let k = before.index_of(name);
                assert(all[k] == name);
            } else {
                assert(all[before.len() as int] == name);
            }
        }
    }
}

proof fn lemma_needed_ranges(
    unlocked: Seq<(String, Option<PackageJson>)>,
    entry: (Seq<char>, VersionRange),
)
    ensures
        unlocked_ranges(unlocked).contains(entry) <==> exists|i: int| #![trigger unlocked[i]]
            0 <= i < unlocked.len() && unlocked[i].1 is Some && range_entries(
                unlocked[i].1->0.vpm_dependencies,
            ).contains(entry),
    decreases unlocked.len(),
{
    if unlocked.len() > 0 {
        let shorter = unlocked.drop_last();
        let last = unlocked.last();
        let before = unlocked_ranges(shorter);
        let all = unlocked_ranges(unlocked);
        lemma_needed_ranges(shorter, entry);
        assert(unlocked[unlocked.len() - 1] == last);
        if all.contains(entry) {
            let k = all.index_of(entry);
            if k < before.len() {
                assert(before[k] == entry);
                let i = choose|i: int| #![trigger shorter[i]]
                    0 <= i < shorter.len() && shorter[i].1 is Some && range_entries(
                        shorter[i].1->0.vpm_dependencies,
                    ).contains(entry);
                assert(unlocked[i] == shorter[i]);
            } else {
                let own = range_entries(last.1->0.vpm_dependencies);
                assert(own[k - before.len()] == entry);
                assert(own.contains(entry));
            }
        }
        if exists|i: int| #![trigger unlocked[i]]
            0 <= i < unlocked.len() && unlocked[i].1 is Some && range_entries(
                unlocked[i].1->0.vpm_dependencies,
            ).contains(entry) {
            let i = choose|i: int| #![trigger unlocked[i]]
                0 <= i < unlocked.len() && unlocked[i].1 is Some && range_entries(
                    unlocked[i].1->0.vpm_dependencies,
                ).contains(entry);
            if i < shorter.len() {
                assert(shorter[i] == unlocked[i]);
                let k = before.index_of(entry);
                assert(all[k] == entry);
            } else {
                let own = range_entries(last.1->0.vpm_dependencies);
                let k = own.index_of(entry);
                assert(all[before.len() + k] == entry);
            }
        }
    }
}

/// What is missing is what must be had: each need of a package that is not locked, for a name
/// that is neither locked nor that of such a package.
pub proof fn law_missing_is_what_must_be_had(
    locks: Entries<VpmLockedDependency>,
    unlocked: Seq<(String, Option<PackageJson>)>,
    name: Seq<char>,
    range: VersionRange,
)
    ensures
        missing_ranges(locks, unlocked).contains((name, range)) <==> must_be_had(
            locks,
            unlocked,
            name,
            range,
        ),
        ranges_of(missing_ranges(locks, unlocked), name).contains(range) <==> must_be_had(
            locks,
            unlocked,
            name,
            range,
        ),
        must_be_had(locks, unlocked, name, range) ==> names_once(
            missing_ranges(locks, unlocked),
        ).contains(name),
{
    let present = unlocked_package_names(unlocked);
    let missing = missing_ranges(locks, unlocked);
    lemma_filter_contains(
        unlocked_ranges(unlocked),
        |entry: (Seq<char>, VersionRange)| is_missing(locks, present, entry.0),
        (name, range),
    );
    lemma_present(unlocked, name);
    lemma_needed_ranges(unlocked, (name, range));
    lemma_ranges_of(missing, name, range);
    lemma_names_once(missing);
    if missing.contains((name, range)) {
        let i = missing.index_of((name, range));
        assert(missing[i].0 == name);
        assert(has_key(missing, name));
    }
}

proof fn lemma_ranges_of(list: Entries<VersionRange>, name: Seq<char>, range: VersionRange)
    ensures
        ranges_of(list, name).contains(range) <==> list.contains((name, range)),
{
    let keep = |entry: (Seq<char>, VersionRange)| is_named(entry, name);
    let own = list.filter(keep);
    lemma_filter_contains(list, keep, (name, range));
    if ranges_of(list, name).contains(range) {
        let i = ranges_of(list, name).index_of(range);
        assert(own[i].1 == range);
        assert(own.contains(own[i]));
        lemma_filter_contains(list, keep, own[i]);
        assert(own[i] == (name, range));
    }
    if own.contains((name, range)) {
        let i = own.index_of((name, range));
        assert(ranges_of(list, name)[i] == range);
    }
}

/// The package is a known one of that name, and its version is in every range in which the name
/// must be had.
pub open spec fn meets_all_needs(
    project: UnityProject,
    env: Environment,
    name: Seq<char>,
    info: PackageInfo,
) -> bool {
    &&& env.packages_named(name).contains(info)
    &&& forall|range: VersionRange| #[trigger]
        must_be_had(project.contents().locks(), project.unlocked(), name, range) ==> range_accepts(
            range@,
            info.package().version@,
        )
}

/// For a list of references to the ranges of a name: to be in each is to meet all needs.
proof fn lemma_in_every_range(
    project: UnityProject,
    env: Environment,
    name: Seq<char>,
    list: Seq<&VersionRange>,
    info: PackageInfo,
)
    requires
        referred_ranges(list) == ranges_of(
            missing_ranges(project.contents().locks(), project.unlocked()),
            name,
        ),
        env.packages_named(name).contains(info),
    ensures
        in_every_range(info, list) <==> meets_all_needs(project, env, name, info),
{
    let locks = project.contents().locks();
    let unlocked = project.unlocked();
    let ranges = ranges_of(missing_ranges(locks, unlocked), name);
    if in_every_range(info, list) {
        assert forall|range: VersionRange| #[trigger]
            must_be_had(locks, unlocked, name, range) implies range_accepts(
            range@,
            info.package().version@,
        ) by {
            law_missing_is_what_must_be_had(locks, unlocked, name, range);
            let i = ranges.index_of(range);
            assert(referred_ranges(list)[i] == *list[i]);
            assert(range_accepts(list[i]@, info.package().version@));
        }
    }
    if meets_all_needs(project, env, name, info) {
        assert forall|i: int| 0 <= i < list.len() implies range_accepts(
            (#[trigger] list[i])@,
            info.package().version@,
        ) by {
            assert(referred_ranges(list)[i] == *list[i]);
            assert(ranges.contains(*list[i]));
            law_missing_is_what_must_be_had(locks, unlocked, name, *list[i]);
        }
    }
}

proof fn lemma_chosen(
    project: UnityProject,
    env: Environment,
    name: Seq<char>,
    found: Option<PackageInfo>,
)
    requires
        is_newest_in(
            env.packages_named(name),
            ranges_of(missing_ranges(project.contents().locks(), project.unlocked()), name),
            found,
        ),
    ensures
        (match found {
            Some(info) => {
                &&& meets_all_needs(project, env, name, info)
                &&& forall|other: PackageInfo| #[trigger]
                    meets_all_needs(project, env, name, other)
                        ==> !info.package().version@.before(other.package().version@)
            },
            None => forall|other: PackageInfo| !#[trigger]
                meets_all_needs(project, env, name, other),
        }),
{
    let packages = env.packages_named(name);
    let ranges = ranges_of(missing_ranges(project.contents().locks(), project.unlocked()), name);
    let list = choose|list: &[&VersionRange]|
        referred_ranges(list@) == ranges && #[trigger] is_newest(
            packages,
            VersionSelector::Ranges(list),
            found,
        );
    law_found_version_is_in_every_range(packages, list, found);
    if let Some(info) = found {
        lemma_in_every_range(project, env, name, list@, info);
    }
    assert forall|other: PackageInfo| #[trigger]
        meets_all_needs(project, env, name, other) implies found is Some
        && !found->0.package().version@.before(other.package().version@) by {
        lemma_in_every_range(project, env, name, list@, other);
        let k = packages.index_of(other);
        assert(in_every_range(packages[k], list@));
    }
}

/// Whatever must be had is found: a known package of that name whose version is in that range and
/// in every other in which the name must be had, and no known version that is in all of them is
/// newer.
pub proof fn law_resolving_meets_every_need(
    project: UnityProject,
    env: Environment,
    packages: Seq<PackageInfo>,
    name: Seq<char>,
    range: VersionRange,
)
    requires
        finds_missing(project, env, packages),
        must_be_had(project.contents().locks(), project.unlocked(), name, range),
    ensures
        exists|k: int| #![trigger packages[k]]
            0 <= k < packages.len() && range_accepts(range@, packages[k].package().version@)
                && meets_all_needs(project, env, name, packages[k]) && forall|other: PackageInfo|
                #[trigger] meets_all_needs(project, env, name, other)
                    ==> !packages[k].package().version@.before(other.package().version@),
{
    let locks = project.contents().locks();
    let unlocked = project.unlocked();
    let missing = missing_ranges(locks, unlocked);
    let wanted = names_once(missing);
    law_missing_is_what_must_be_had(locks, unlocked, name, range);
    let k = wanted.index_of(name);
    assert(wanted[k] == name);
    lemma_chosen(project, env, name, Some(packages[k]));
    assert(range_accepts(range@, packages[k].package().version@));
}

/// Nothing is found that need not be had, and no name is looked for twice.
pub proof fn law_resolving_finds_nothing_else(
    project: UnityProject,
    env: Environment,
    packages: Seq<PackageInfo>,
    index: int,
)
    requires
        finds_missing(project, env, packages),
        0 <= index < packages.len(),
    ensures
        exists|name: Seq<char>, range: VersionRange|
            must_be_had(project.contents().locks(), project.unlocked(), name, range)
                && #[trigger] env.packages_named(name).contains(packages[index])
                && #[trigger] range_accepts(range@, packages[index].package().version@),
        names_once(missing_ranges(project.contents().locks(), project.unlocked())).len()
            == packages.len(),
        names_once(
            missing_ranges(project.contents().locks(), project.unlocked()),
        ).no_duplicates(),
{
    let locks = project.contents().locks();
    let unlocked = project.unlocked();
    let missing = missing_ranges(locks, unlocked);
    let wanted = names_once(missing);
    let name = wanted[index];
    lemma_names_once(missing);
    assert(wanted.contains(name));
    let i = position(missing, name);
    assert(missing[i].0 == name);
    let range = missing[i].1;
    assert(missing.contains((name, range)));
    law_missing_is_what_must_be_had(locks, unlocked, name, range);
    lemma_chosen(project, env, name, Some(packages[index]));
    assert(range_accepts(range@, packages[index].package().version@));
    assert(env.packages_named(name).contains(packages[index]));
}

/// A name that is given back must be had, and no known version of it is in all the ranges in
/// which it must be had.
pub proof fn law_resolving_fails_only_for_want_of_a_version(
    project: UnityProject,
    env: Environment,
    name: Seq<char>,
)
    requires
        lacks_missing(project, env, name),
    ensures
        exists|range: VersionRange| #[trigger]
            must_be_had(project.contents().locks(), project.unlocked(), name, range),
        forall|info: PackageInfo| !#[trigger] meets_all_needs(project, env, name, info),
{
    let locks = project.contents().locks();
    let unlocked = project.unlocked();
    let missing = missing_ranges(locks, unlocked);
    lemma_names_once(missing);
    let i = position(missing, name);
    assert(missing[i].0 == name);
    assert(missing.contains((name, missing[i].1)));
    law_missing_is_what_must_be_had(locks, unlocked, name, missing[i].1);
    lemma_chosen(project, env, name, None);
}

/// The groups of ranges: one for each name, in the order in which the names come first, and in
/// each all ranges of the list under that name, in order.
pub proof fn law_ranges_are_grouped_by_name(
    groups: Seq<(&String, Vec<&VersionRange>)>,
    list: Entries<VersionRange>,
    index: int,
)
    requires
        are_groups(groups, list),
        0 <= index < list.len(),
    ensures
        exists|g: int, r: int| #![trigger groups[g].1@[r]]
            0 <= g < groups.len() && groups[g].0@ == list[index].0 && 0 <= r < groups[g].1@.len()
                && *groups[g].1@[r] == list[index].1,
        forall|g: int, h: int|
            0 <= g < h < groups.len() ==> (#[trigger] groups[g]).0@ != (#[trigger] groups[h]).0@,
        forall|g: int, r: int|
            0 <= g < groups.len() && 0 <= r < groups[g].1@.len() ==> list.contains(
                (groups[g].0@, *#[trigger] groups[g].1@[r]),
            ),
{
    let all = names_once(list);
    let name = list[index].0;
    lemma_names_once(list);
    assert(has_key(list, name));
    assert(all.contains(name));
    let g = all.index_of(name);
    assert(groups[g].0@ == all[g]);
    lemma_ranges_of(list, name, list[index].1);
    assert(list[index] == (name, list[index].1));
    let r = ranges_of(list, name).index_of(list[index].1);
    assert(referred_ranges(groups[g].1@)[r] == *groups[g].1@[r]);
    assert(*groups[g].1@[r] == list[index].1);
    assert forall|g: int, h: int| 0 <= g < h < groups.len() implies (#[trigger] groups[g]).0@ != (
    #[trigger] groups[h]).0@ by {
        assert(groups[g].0@ == all[g] && groups[h].0@ == all[h]);
    }
    assert forall|g: int, r: int|
        0 <= g < groups.len() && 0 <= r < groups[g].1@.len() implies list.contains(
        (groups[g].0@, *#[trigger] groups[g].1@[r]),
    ) by {
        assert(groups[g].0@ == all[g]);
        assert(referred_ranges(groups[g].1@)[r] == *groups[g].1@[r]);
        lemma_ranges_of(list, all[g], *groups[g].1@[r]);
    }
}

/// One more need: its name is looked for last unless it is looked for already, and its range is
/// the last under its name.
pub proof fn law_one_more_missing_range(
    list: Entries<VersionRange>,
    name: Seq<char>,
    range: VersionRange,
    other: Seq<char>,
)
    ensures
        names_once(seq![]).len() == 0,
        names_once(list.push((name, range))) == (if has_key(list, name) {
            names_once(list)
        } else {
            names_once(list).push(name)
        }),
        ranges_of(list.push((name, range)), name) == ranges_of(list, name).push(range),
        other != name ==> ranges_of(list.push((name, range)), other) == ranges_of(list, other),
{
    assert(list.push((name, range)).drop_last() =~= list);
    lemma_names_once(list);
    lemma_ranges_push(list, (name, range), name);
    lemma_ranges_push(list, (name, range), other);
}

/// One more package that is not locked: its needs come behind those of the others.
pub proof fn law_one_more_unlocked_package(
    unlocked: Seq<(String, Option<PackageJson>)>,
    folder: String,
    package: PackageJson,
)
    ensures
        unlocked_ranges(seq![]).len() == 0,
        unlocked_ranges(unlocked.push((folder, None))) == unlocked_ranges(unlocked),
        unlocked_ranges(unlocked.push((folder, Some(package)))) == unlocked_ranges(unlocked)
            + range_entries(package.vpm_dependencies),
{
    assert(unlocked.push((folder, None)).drop_last() =~= unlocked);
    assert(unlocked.push((folder, Some(package))).drop_last() =~= unlocked);
}

/// Pre-releases may be taken exactly if one of the packages has a pre-release tag.
pub proof fn law_pre_release_is_one_with_a_tag(packages: Seq<PackageInfo>)
    ensures
        has_prerelease(packages) <==> exists|i: int|
            0 <= i < packages.len() && (#[trigger] packages[i]).package().version@.pre.len() > 0,
{
    if has_prerelease(packages) {
        let i = choose|i: int|
            0 <= i < packages.len() && !(#[trigger] packages[i]).package().version@.is_release();
        assert(packages[i].package().version@.pre.len() > 0);
    }
}

/// The groups stand in the order in which the names come first, each with its ranges in the order
/// of the list.
pub proof fn law_groups_keep_the_order(
    groups: Seq<(&String, Vec<&VersionRange>)>,
    list: Entries<VersionRange>,
    group: int,
    index: int,
)
    requires
        are_groups(groups, list),
        0 <= group < groups.len(),
        0 <= index < groups[group].1@.len(),
    ensures
        groups.len() == names_once(list).len(),
        groups[group].0@ == names_once(list)[group],
        groups[group].1@.len() == ranges_of(list, groups[group].0@).len(),
        *groups[group].1@[index] == ranges_of(list, groups[group].0@)[index],
{
    assert(referred_ranges(groups[group].1@)[index] == *groups[group].1@[index]);
}

} // verus!
