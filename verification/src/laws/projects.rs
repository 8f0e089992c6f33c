//! What a project's folder holds, and which packages can be removed.
use crate::ordered_map::{has_key, Entries};
use crate::project::{
    all_needs, in_the_way, installed_entries, is_in_the_way, is_installed, not_locked,
    unlocked_entries, UnityProject,
};
use crate::seqs::{lemma_filter_contains, lemma_filter_push};
use crate::structs::{range_entries, PackageJson, VpmLockedDependency};
use crate::version::VersionRange;
use indexmap::IndexMap;
use vstd::prelude::*;

verus! {

/// One more entry of the folder: a package that is locked under its own name, which is that of
/// its folder too, is installed, and everything else is not locked.
pub proof fn law_one_more_entry_of_the_folder(
    locks: Entries<VpmLockedDependency>,
    entries: Seq<(String, Option<PackageJson>)>,
    folder: String,
    package: PackageJson,
)
    ensures
        unlocked_entries(locks, seq![]).len() == 0,
        installed_entries(locks, seq![]).len() == 0,
        unlocked_entries(locks, entries.push((folder, None))) == unlocked_entries(
            locks,
            entries,
        ).push((folder, None)),
        installed_entries(locks, entries.push((folder, None))) == installed_entries(locks, entries),
        package.name@ == folder@ && has_key(locks, folder@) ==> {
            &&& unlocked_entries(locks, entries.push((folder, Some(package))))
                == unlocked_entries(locks, entries)
            &&& installed_entries(locks, entries.push((folder, Some(package))))
                == installed_entries(locks, entries).push((folder@, package))
        },
        package.name@ != folder@ || !has_key(locks, folder@) ==> {
            &&& unlocked_entries(locks, entries.push((folder, Some(package))))
                == unlocked_entries(locks, entries).push((folder, Some(package)))
            &&& installed_entries(locks, entries.push((folder, Some(package))))
                == installed_entries(locks, entries)
        },
{
    let none: Seq<(String, Option<PackageJson>)> = seq![];
    let out = |entry: (String, Option<PackageJson>)| !is_installed(locks, entry);
    let is_in = |entry: (String, Option<PackageJson>)| is_installed(locks, entry);
    assert(none.filter(out) =~= seq![]);
    assert(none.filter(is_in) =~= seq![]);
    lemma_filter_push(entries, (folder, None), out);
    lemma_filter_push(entries, (folder, None), is_in);
    lemma_filter_push(entries, (folder, Some(package)), out);
    lemma_filter_push(entries, (folder, Some(package)), is_in);
    if package.name@ == folder@ && has_key(locks, folder@) {
        assert(installed_entries(locks, entries.push((folder, Some(package))))
            =~= installed_entries(locks, entries).push((folder@, package)));
    }
}

/// The needs of a project are those of every locked package, in order, and then those of every
/// package that is not locked, in order.
pub proof fn law_needs_are_those_of_every_package(
    locks: Entries<VpmLockedDependency>,
    unlocked: Seq<(String, Option<PackageJson>)>,
    folder: String,
    package: PackageJson,
)
    ensures
        all_needs(locks, seq![]).len() == locks.len(),
        forall|i: int|
            0 <= i < locks.len() ==> #[trigger] all_needs(locks, seq![])[i] == (
                locks[i].0,
                locks[i].1.dependencies,
            ),
        all_needs(locks, unlocked.push((folder, None))) == all_needs(locks, unlocked),
        all_needs(locks, unlocked.push((folder, Some(package)))) == all_needs(
            locks,
            unlocked,
        ).push((package.name@, package.vpm_dependencies)),
{
    let one = unlocked.push((folder, None));
    let other = unlocked.push((folder, Some(package)));
    assert(one.drop_last() =~= unlocked);
    assert(other.drop_last() =~= unlocked);
    assert(all_needs(locks, other) =~= all_needs(locks, unlocked).push(
        (package.name@, package.vpm_dependencies),
    ));
}

/// The need of a locked package is among the needs.
proof fn lemma_locked_need(
    locks: Entries<VpmLockedDependency>,
    unlocked: Seq<(String, Option<PackageJson>)>,
    index: int,
)
    requires
        0 <= index < locks.len(),
    ensures
        all_needs(locks, unlocked).contains((locks[index].0, locks[index].1.dependencies)),
{
    assert(all_needs(locks, unlocked)[index] == (locks[index].0, locks[index].1.dependencies));
}

/// The need of a package that is not locked is among the needs.
proof fn lemma_unlocked_need(
    locks: Entries<VpmLockedDependency>,
    unlocked: Seq<(String, Option<PackageJson>)>,
    index: int,
    package: PackageJson,
)
    requires
        0 <= index < unlocked.len(),
        unlocked[index].1 == Some(package),
    ensures
        all_needs(locks, unlocked).contains((package.name@, package.vpm_dependencies)),
    decreases unlocked.len(),
{
    let shorter = unlocked.drop_last();
    let last = unlocked.last();
    let need = (package.name@, package.vpm_dependencies);
    let all = all_needs(locks, unlocked);
    let before = all_needs(locks, shorter);
    if index < shorter.len() {
        lemma_unlocked_need(locks, shorter, index, package);
        let i = before.index_of(need);
        assert(all[i] == need);
    } else {
        assert(all[all.len() - 1] == need);
    }
}

/// Every need is that of a locked package or of one that is not.
proof fn lemma_whose_need(
    locks: Entries<VpmLockedDependency>,
    unlocked: Seq<(String, Option<PackageJson>)>,
    need: (Seq<char>, IndexMap<String, VersionRange>),
)
    requires
        all_needs(locks, unlocked).contains(need),
    ensures
        (exists|i: int| #![trigger locks[i]]
            0 <= i < locks.len() && need == (locks[i].0, locks[i].1.dependencies)) || (exists|
            i: int,
        | #![trigger unlocked[i]]
            0 <= i < unlocked.len() && unlocked[i].1 is Some && need == (
                unlocked[i].1->0.name@,
                unlocked[i].1->0.vpm_dependencies,
            )),
    decreases unlocked.len(),
{
    let all = all_needs(locks, unlocked);
    let at = all.index_of(need);
    if at < locks.len() {
        assert(need == (locks[at].0, locks[at].1.dependencies));
    } else {
        assert(unlocked.len() > 0);
        let shorter = unlocked.drop_last();
        let before = all_needs(locks, shorter);
        if at < before.len() {
            assert(before[at] == need);
            lemma_whose_need(locks, shorter, need);
            if exists|i: int| #![trigger shorter[i]]
                0 <= i < shorter.len() && shorter[i].1 is Some && need == (
                    shorter[i].1->0.name@,
                    shorter[i].1->0.vpm_dependencies,
                ) {
                let i = choose|i: int| #![trigger shorter[i]]
                    0 <= i < shorter.len() && shorter[i].1 is Some && need == (
                        shorter[i].1->0.name@,
                        shorter[i].1->0.vpm_dependencies,
                    );
                assert(unlocked[i] == shorter[i]);
            }
        } else {
            assert(unlocked[unlocked.len() - 1] == unlocked.last());
        }
    }
}

/// The package needs one of the names.
pub open spec fn needs_one(
    dependencies: IndexMap<String, VersionRange>,
    going: Seq<Seq<char>>,
) -> bool {
    exists|i: int| 0 <= i < going.len() && has_key(range_entries(dependencies), #[trigger] going[i])
}

/// Packages can be removed exactly if all are locked, no locked package that stays needs one of
/// them, and no package of the project's folder that stays does.
pub proof fn law_packages_can_be_removed(project: UnityProject, going: Seq<Seq<char>>)
    ensures
        project.can_remove(going) <==> {
            &&& forall|i: int|
                0 <= i < going.len() ==> has_key(project.contents().locks(), #[trigger] going[i])
            &&& forall|i: int| #![trigger project.contents().locks()[i]]
                0 <= i < project.contents().locks().len() && !going.contains(
                    project.contents().locks()[i].0,
                ) ==> !needs_one(project.contents().locks()[i].1.dependencies, going)
            &&& forall|i: int| #![trigger project.unlocked()[i]]
                0 <= i < project.unlocked().len() && project.unlocked()[i].1 is Some
                    && !going.contains(project.unlocked()[i].1->0.name@) ==> !needs_one(
                    project.unlocked()[i].1->0.vpm_dependencies,
                    going,
                )
        },
{
    let locks = project.contents().locks();
    let unlocked = project.unlocked();
    let needs = all_needs(locks, unlocked);
    let absent = |name: Seq<char>| !has_key(locks, name);
    let blocks = |need: (Seq<char>, IndexMap<String, VersionRange>)| is_in_the_way(need, going);
    if project.can_remove(going) {
        assert forall|i: int| 0 <= i < going.len() implies has_key(locks, #[trigger] going[i]) by {
            lemma_filter_contains(going, absent, going[i]);
            assert(going.contains(going[i]));
            if !has_key(locks, going[i]) {
                assert(going.filter(absent).contains(going[i]));
                assert(not_locked(locks, going).len() > 0);
            }
        }
        assert(needs.filter(blocks).len() == in_the_way(needs, going).len());
        assert forall|need: (Seq<char>, IndexMap<String, VersionRange>)|
            needs.contains(need) implies !#[trigger] is_in_the_way(need, going) by {
            lemma_filter_contains(needs, blocks, need);
            if is_in_the_way(need, going) {
                assert(needs.filter(blocks).contains(need));
            }
        }
        assert forall|i: int| #![trigger locks[i]]
            0 <= i < locks.len() && !going.contains(locks[i].0) implies !needs_one(
            locks[i].1.dependencies,
            going,
        ) by {
            lemma_locked_need(locks, unlocked, i);
            assert(!is_in_the_way((locks[i].0, locks[i].1.dependencies), going));
        }
        assert forall|i: int| #![trigger unlocked[i]]
            0 <= i < unlocked.len() && unlocked[i].1 is Some && !going.contains(
                unlocked[i].1->0.name@,
            ) implies !needs_one(unlocked[i].1->0.vpm_dependencies, going) by {
            lemma_unlocked_need(locks, unlocked, i, unlocked[i].1->0);
            assert(!is_in_the_way(
                (unlocked[i].1->0.name@, unlocked[i].1->0.vpm_dependencies),
                going,
            ));
        }
    }
    if (forall|i: int| 0 <= i < going.len() ==> has_key(locks, #[trigger] going[i])) && (forall|
        i: int,
    | #![trigger locks[i]]
        0 <= i < locks.len() && !going.contains(locks[i].0) ==> !needs_one(
            locks[i].1.dependencies,
            going,
        )) && (forall|i: int| #![trigger unlocked[i]]
        0 <= i < unlocked.len() && unlocked[i].1 is Some && !going.contains(
            unlocked[i].1->0.name@,
        ) ==> !needs_one(unlocked[i].1->0.vpm_dependencies, going)) {
        if going.filter(absent).len() > 0 {
            let name = going.filter(absent)[0];
            assert(going.filter(absent).contains(name));
            lemma_filter_contains(going, absent, name);
            let i = going.index_of(name);
            assert(has_key(locks, going[i]));
        }
        if needs.filter(blocks).len() > 0 {
            let need = needs.filter(blocks)[0];
            assert(needs.filter(blocks).contains(need));
            lemma_filter_contains(needs, blocks, need);
            lemma_whose_need(locks, unlocked, need);
            assert(needs_one(need.1, going));
        }
        assert(in_the_way(needs, going).len() == needs.filter(blocks).len());
    }
}

/// If packages can be removed, then no package that stays needs one of them, neither a locked one
/// nor one of the project's folder, wherever it stands there.
pub proof fn law_removal_leaves_no_package_in_need(
    project: UnityProject,
    going: Seq<Seq<char>>,
    name: Seq<char>,
)
    requires
        project.can_remove(going),
        going.contains(name),
    ensures
        has_key(project.contents().locks(), name),
        forall|i: int| #![trigger project.contents().locks()[i]]
            0 <= i < project.contents().locks().len() && !going.contains(
                project.contents().locks()[i].0,
            ) ==> !has_key(range_entries(project.contents().locks()[i].1.dependencies), name),
        forall|i: int| #![trigger project.unlocked()[i]]
            0 <= i < project.unlocked().len() && project.unlocked()[i].1 is Some && !going.contains(
                project.unlocked()[i].1->0.name@,
            ) ==> !has_key(range_entries(project.unlocked()[i].1->0.vpm_dependencies), name),
{
    law_packages_can_be_removed(project, going);
    let k = going.index_of(name);
    assert(going[k] == name);
    assert forall|i: int| #![trigger project.contents().locks()[i]]
        0 <= i < project.contents().locks().len() && !going.contains(
            project.contents().locks()[i].0,
        ) implies !has_key(
        range_entries(project.contents().locks()[i].1.dependencies),
        name,
    ) by {
        assert(!needs_one(project.contents().locks()[i].1.dependencies, going));
    }
    assert forall|i: int| #![trigger project.unlocked()[i]]
        0 <= i < project.unlocked().len() && project.unlocked()[i].1 is Some && !going.contains(
            project.unlocked()[i].1->0.name@,
        ) implies !has_key(
        range_entries(project.unlocked()[i].1->0.vpm_dependencies),
        name,
    ) by {
        assert(!needs_one(project.unlocked()[i].1->0.vpm_dependencies, going));
    }
}

/// The names that are told as not locked are those that are not, in order and as often as they
/// were given.
pub proof fn law_one_more_name_to_remove(
    locks: Entries<VpmLockedDependency>,
    going: Seq<Seq<char>>,
    name: Seq<char>,
)
    ensures
        not_locked(locks, seq![]).len() == 0,
        not_locked(locks, going.push(name)) == (if has_key(locks, name) {
            not_locked(locks, going)
        } else {
            not_locked(locks, going).push(name)
        }),
{
    let absent = |name: Seq<char>| !has_key(locks, name);
    let none: Seq<Seq<char>> = seq![];
    assert(none.filter(absent) =~= seq![]);
    lemma_filter_push(going, name, absent);
}

/// The packages that are told as in the way are those that stay and need one that is to go, in
/// order.
pub proof fn law_one_more_package_in_the_way(
    needs: Seq<(Seq<char>, IndexMap<String, VersionRange>)>,
    name: Seq<char>,
    dependencies: IndexMap<String, VersionRange>,
    going: Seq<Seq<char>>,
)
    ensures
        in_the_way(seq![], going).len() == 0,
        in_the_way(needs.push((name, dependencies)), going) == (if !going.contains(name)
            && needs_one(dependencies, going) {
            in_the_way(needs, going).push(name)
        } else {
            in_the_way(needs, going)
        }),
{
    let blocks = |need: (Seq<char>, IndexMap<String, VersionRange>)| is_in_the_way(need, going);
    let none: Seq<(Seq<char>, IndexMap<String, VersionRange>)> = seq![];
    assert(none.filter(blocks) =~= seq![]);
    lemma_filter_push(needs, (name, dependencies), blocks);
    if is_in_the_way((name, dependencies), going) {
        assert(in_the_way(needs.push((name, dependencies)), going) =~= in_the_way(
            needs,
            going,
        ).push(name));
    }
}

} // verus!
