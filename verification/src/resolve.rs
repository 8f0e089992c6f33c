//! Bringing a project's folder in line with its manifest.
use crate::environment::{is_newest, Environment};
use crate::errors::AddPackageErr;
use crate::ordered_map::{has_key, position, Entries};
use crate::package_info::PackageInfo;
use crate::project::UnityProject;
use crate::request::{begins_request, AddPackageRequest, RequestStep};
use crate::selector::VersionSelector;
use crate::seqs::lemma_filter_push;
use crate::structs::{
    contains_locked, count_ranges, locked_at, range_at, range_entries, PackageJson,
    VpmLockedDependency,
};
use crate::text::{contains_str, same_text, str_texts};
use crate::version::VersionRange;
use vstd::prelude::*;

verus! {

/// The ranges of a list of references.
pub open spec fn referred_ranges(list: Seq<&VersionRange>) -> Seq<VersionRange> {
    list.map_values(|range: &VersionRange| *range)
}

/// What `found` is: the newest package that is in all the ranges, if there is one.
pub open spec fn is_newest_in(
    packages: Seq<PackageInfo>,
    ranges: Seq<VersionRange>,
    found: Option<PackageInfo>,
) -> bool {
    exists|list: &[&VersionRange]|
        referred_ranges(list@) == ranges && #[trigger] is_newest(
            packages,
            VersionSelector::Ranges(list),
            found,
        )
}

/// The names of the packages that are not locked, in order.
pub open spec fn unlocked_package_names(unlocked: Seq<(String, Option<PackageJson>)>) -> Seq<
    Seq<char>,
>
    decreases unlocked.len(),
{
    if unlocked.len() == 0 {
        seq![]
    } else {
        let before = unlocked_package_names(unlocked.drop_last());
        match unlocked.last().1 {
            Some(package) => before.push(package.name@),
            None => before,
        }
    }
}

/// What the packages need that are not locked, in order.
pub open spec fn unlocked_ranges(unlocked: Seq<(String, Option<PackageJson>)>) -> Entries<
    VersionRange,
>
    decreases unlocked.len(),
{
    if unlocked.len() == 0 {
        seq![]
    } else {
        let before = unlocked_ranges(unlocked.drop_last());
        match unlocked.last().1 {
            Some(package) => before + range_entries(package.vpm_dependencies),
            None => before,
        }
    }
}

/// The package is neither locked nor in the project's folder.
pub open spec fn is_missing(
    locks: Entries<VpmLockedDependency>,
    present: Seq<Seq<char>>,
    name: Seq<char>,
) -> bool {
    !has_key(locks, name) && !present.contains(name)
}

/// What the packages need that are not locked, and the project does not have.
pub open spec fn missing_ranges(
    locks: Entries<VpmLockedDependency>,
    unlocked: Seq<(String, Option<PackageJson>)>,
) -> Entries<VersionRange> {
    let present = unlocked_package_names(unlocked);
    unlocked_ranges(unlocked).filter(
        |entry: (Seq<char>, VersionRange)| is_missing(locks, present, entry.0),
    )
}

/// The entry has this name.
pub open spec fn is_named(entry: (Seq<char>, VersionRange), name: Seq<char>) -> bool {
    entry.0 == name
}

/// The ranges under `name`, in order.
pub open spec fn ranges_of(list: Entries<VersionRange>, name: Seq<char>) -> Seq<VersionRange> {
    list.filter(|entry: (Seq<char>, VersionRange)| is_named(entry, name)).map_values(
        |entry: (Seq<char>, VersionRange)| entry.1,
    )
}

/// The names of the list, each once, in the order in which they come first.
pub open spec fn names_once(list: Entries<VersionRange>) -> Seq<Seq<char>>
    decreases list.len(),
{
    if list.len() == 0 {
        seq![]
    } else {
        let before = names_once(list.drop_last());
        if before.contains(list.last().0) {
            before
        } else {
            before.push(list.last().0)
        }
    }
}

/// The ranges, by name.
pub type RangeGroups<'a> = Vec<(&'a String, Vec<&'a VersionRange>)>;

/// The groups hold each name of the list once, in the order in which the names come first, with
/// all ranges under that name in order.
pub open spec fn are_groups(
    groups: Seq<(&String, Vec<&VersionRange>)>,
    list: Entries<VersionRange>,
) -> bool {
    let all = names_once(list);
    &&& groups.len() == all.len()
    &&& forall|i: int|
        0 <= i < groups.len() ==> (#[trigger] groups[i]).0@ == all[i] && referred_ranges(
            groups[i].1@,
        ) == ranges_of(list, all[i])
}

/// The names that are collected are those of the list, and none occurs twice.
pub proof fn lemma_names_once(list: Entries<VersionRange>)
    ensures
        forall|name: Seq<char>| #[trigger] names_once(list).contains(name) <==> has_key(list, name),
        forall|i: int, j: int|
            0 <= i < j < names_once(list).len() ==> names_once(list)[i] != names_once(list)[j],
    decreases list.len(),
{
    if list.len() > 0 {
        let shorter = list.drop_last();
        let last = list.last();
        let before = names_once(shorter);
        lemma_names_once(shorter);
        assert forall|name: Seq<char>| #[trigger] names_once(list).contains(name) <==> has_key(
            list,
            name,
        ) by {
            assert(before.contains(name) <==> has_key(shorter, name));
            if has_key(list, name) && name != last.0 {
                let i = position(list, name);
                assert(shorter[i].0 == name);
            }
            if has_key(shorter, name) {
                let i = position(shorter, name);
                assert(list[i].0 == name);
            }
            assert(list[list.len() - 1] == last);
            if !before.contains(last.0) {
                let more = before.push(last.0);
                assert(more[before.len() as int] == last.0);
                if more.contains(name) && name != last.0 {
                    let i = more.index_of(name);
                    assert(before[i] == name);
                }
                if before.contains(name) {
                    let i = before.index_of(name);
                    assert(more[i] == name);
                }
            }
        }
        if !before.contains(last.0) {
            assert forall|i: int| 0 <= i < before.len() implies before[i] != last.0 by {
                assert(before.contains(before[i]));
            }
        }
    }
}

/// The ranges under a name, with one more entry in the list.
pub proof fn lemma_ranges_push(
    list: Entries<VersionRange>,
    entry: (Seq<char>, VersionRange),
    name: Seq<char>,
)
    ensures
        ranges_of(list.push(entry), name) == (if entry.0 == name {
            ranges_of(list, name).push(entry.1)
        } else {
            ranges_of(list, name)
        }),
{
    lemma_filter_push(list, entry, |entry: (Seq<char>, VersionRange)| is_named(entry, name));
    if entry.0 == name {
        assert(ranges_of(list.push(entry), name) =~= ranges_of(list, name).push(entry.1));
    }
}

/// There is no range under a name that does not occur.
proof fn lemma_no_ranges(list: Entries<VersionRange>, name: Seq<char>)
    requires
        !has_key(list, name),
    ensures
        ranges_of(list, name) == Seq::<VersionRange>::empty(),
    decreases list.len(),
{
    if list.len() > 0 {
        let shorter = list.drop_last();
        assert forall|i: int| 0 <= i < shorter.len() implies (#[trigger] shorter[i]).0 != name by {
            assert(list[i].0 != name);
        }
        lemma_no_ranges(shorter, name);
        assert(list[list.len() - 1].0 != name);
        lemma_ranges_push(shorter, list.last(), name);
        assert(shorter.push(list.last()) =~= list);
    } else {
        assert(list =~= seq![]);
        assert(ranges_of(list, name) =~= seq![]);
    }
}

/// Where the group of `name` stands.
fn group_index(groups: &RangeGroups, name: &str) -> (index: Option<usize>)
    ensures
        (match index {
            Some(at) => at < groups@.len() && groups@[at as int].0@ == name@,
            None => forall|i: int| 0 <= i < groups@.len() ==> (#[trigger] groups@[i]).0@ != name@,
        }),
{
    let mut i: usize = 0;
    while i < groups.len()
        invariant
            i <= groups@.len(),
            forall|j: int| 0 <= j < i ==> (#[trigger] groups@[j]).0@ != name@,
        decreases groups@.len() - i,
    {
        if same_text(groups[i].0.as_str(), name) {
            return Some(i);
        }
        i += 1;
    }
    None
}

/// Adds one more range under its name.
fn add_to_groups<'a>(groups: &mut RangeGroups<'a>, name: &'a String, range: &'a VersionRange)
    ensures
        forall|list: Entries<VersionRange>| #[trigger]
            are_groups(old(groups)@, list) ==> are_groups(
                final(groups)@,
                list.push((name@, *range)),
            ),
{
    let ghost before = groups@;
    match group_index(groups, name.as_str()) {
        Some(at) => {
            groups[at].1.push(range);
            proof {
                assert forall|list: Entries<VersionRange>| #[trigger]
                    are_groups(before, list) implies are_groups(
                    groups@,
                    list.push((name@, *range)),
                ) by {
                    let more = list.push((name@, *range));
                    let all = names_once(list);
                    lemma_names_once(list);
                    assert(more.drop_last() =~= list);
                    assert(before[at as int].0@ == all[at as int]);
                    assert(all.contains(name@));
                    assert(names_once(more) == all);
                    assert forall|i: int| 0 <= i < groups@.len() implies (
                    #[trigger] groups@[i]).0@ == all[i] && referred_ranges(groups@[i].1@)
                        == ranges_of(more, all[i]) by {
                        assert(before[i].0@ == all[i]);
                        lemma_ranges_push(list, (name@, *range), all[i]);
                        if i == at {
                            assert(referred_ranges(groups@[i].1@) =~= referred_ranges(
                                before[i].1@,
                            ).push(*range));
                        } else {
                            assert(all[i] != all[at as int]);
                        }
                    }
                }
            }
        },
        None => {
            let mut ranges: Vec<&'a VersionRange> = Vec::new();
            ranges.push(range);
            groups.push((name, ranges));
            proof {
                assert forall|list: Entries<VersionRange>| #[trigger]
                    are_groups(before, list) implies are_groups(
                    groups@,
                    list.push((name@, *range)),
                ) by {
                    let more = list.push((name@, *range));
                    let all = names_once(list);
                    lemma_names_once(list);
                    assert(more.drop_last() =~= list);
                    if all.contains(name@) {
                        let i = all.index_of(name@);
                        assert(before[i].0@ == all[i]);
                    }
                    assert(names_once(more) == all.push(name@));
                    lemma_no_ranges(list, name@);
                    assert forall|i: int| 0 <= i < groups@.len() implies (
                    #[trigger] groups@[i]).0@ == all.push(name@)[i] && referred_ranges(
                        groups@[i].1@,
                    ) == ranges_of(more, all.push(name@)[i]) by {
                        lemma_ranges_push(list, (name@, *range), all.push(name@)[i]);
                        if i < before.len() {
                            assert(before[i].0@ == all[i]);
                            assert(all.contains(all[i]));
                        } else {
                            assert(referred_ranges(ranges@) =~= seq![*range]);
                            assert(ranges_of(list, name@).push(*range) =~= seq![*range]);
                        }
                    }
                }
            }
        },
    }
}

/// The names of the packages that are not locked, in order.
fn present_names(unlocked: &Vec<(String, Option<PackageJson>)>) -> (present: Vec<&str>)
    ensures
        str_texts(present@) == unlocked_package_names(unlocked@),
{
    let ghost all = unlocked@;
    let mut present: Vec<&str> = Vec::new();
    let mut i: usize = 0;
    proof {
        assert(all.take(0) =~= seq![]);
        assert(str_texts(present@) =~= unlocked_package_names(all.take(0)));
    }
    while i < unlocked.len()
        invariant
            i <= all.len(),
            all == unlocked@,
            str_texts(present@) == unlocked_package_names(all.take(i as int)),
        decreases all.len() - i,
    {
        let ghost before = present@;
        proof {
            assert(all.take(i + 1).drop_last() =~= all.take(i as int));
        }
        if let Some(package) = &unlocked[i].1 {
            present.push(package.name.as_str());
            proof {
                assert(str_texts(present@) =~= str_texts(before).push(package.name@));
            }
        }
        i += 1;
    }
    proof {
        assert(all.take(i as int) =~= all);
    }
    present
}

/// Adds what one package needs and the project does not have.
fn add_missing<'a>(
    groups: &mut RangeGroups<'a>,
    project: &UnityProject,
    present: &Vec<&str>,
    package: &'a PackageJson,
)
    ensures
        forall|list: Entries<VersionRange>| #[trigger]
            are_groups(old(groups)@, list) ==> are_groups(
                final(groups)@,
                list + range_entries(package.vpm_dependencies).filter(
                    |entry: (Seq<char>, VersionRange)|
                        is_missing(project.contents().locks(), str_texts(present@), entry.0),
                ),
            ),
{
    let needs = &package.vpm_dependencies;
    let ghost all = range_entries(*needs);
    let ghost locks = project.contents().locks();
    let ghost there = str_texts(present@);
    let ghost keep = |entry: (Seq<char>, VersionRange)| is_missing(locks, there, entry.0);
    let ghost before = groups@;
    let count = count_ranges(needs);
    let mut i: usize = 0;
    proof {
        assert(all.take(0) =~= seq![]);
        assert forall|list: Entries<VersionRange>| #[trigger]
            are_groups(before, list) implies are_groups(
            groups@,
            list + all.take(0).filter(keep),
        ) by {
            assert(list + all.take(0).filter(keep) =~= list);
        }
    }
    while i < count
        invariant
            i <= count,
            count == all.len(),
            all == range_entries(*needs),
            locks == project.contents().locks(),
            there == str_texts(present@),
            keep == (|entry: (Seq<char>, VersionRange)| is_missing(locks, there, entry.0)),
            forall|list: Entries<VersionRange>| #[trigger]
                are_groups(before, list) ==> are_groups(
                    groups@,
                    list + all.take(i as int).filter(keep),
                ),
        decreases count - i,
    {
        let ghost start = groups@;
        let ghost done = all.take(i as int);
        if let Some((name, range)) = range_at(needs, i) {
            proof {
                assert(all.take(i + 1) =~= done.push((name@, *range)));
                lemma_filter_push(done, (name@, *range), keep);
            }
            if !contains_locked(project.locked_packages(), name.as_str()) && !contains_str(
                present.as_slice(),
                name.as_str(),
            ) {
                add_to_groups(groups, name, range);
                proof {
                    assert forall|list: Entries<VersionRange>| #[trigger]
                        are_groups(before, list) implies are_groups(
                        groups@,
                        list + all.take(i + 1).filter(keep),
                    ) by {
                        let so_far = list + done.filter(keep);
                        assert(are_groups(start, so_far));
                        assert(so_far.push((name@, *range)) =~= list + all.take(i + 1).filter(
                            keep,
                        ));
                    }
                }
            }
        }
        i += 1;
    }
    proof {
        assert(all.take(i as int) =~= all);
    }
}

/// Filtering two lists one behind the other.
proof fn lemma_filter_concat<T>(first: Seq<T>, second: Seq<T>, keep: spec_fn(T) -> bool)
    ensures
        (first + second).filter(keep) == first.filter(keep) + second.filter(keep),
    decreases second.len(),
{
    if second.len() > 0 {
        let shorter = second.drop_last();
        lemma_filter_concat(first, shorter, keep);
        assert(first + second =~= (first + shorter).push(second.last()));
        assert(second =~= shorter.push(second.last()));
        lemma_filter_push(first + shorter, second.last(), keep);
        lemma_filter_push(shorter, second.last(), keep);
        if keep(second.last()) {
            assert(first.filter(keep) + shorter.filter(keep).push(second.last()) =~= (first.filter(
                keep,
            ) + shorter.filter(keep)).push(second.last()));
        }
    } else {
        assert(second =~= seq![]);
        assert(first + second =~= first);
        assert(second.filter(keep) =~= seq![]);
        assert(first.filter(keep) + second.filter(keep) =~= first.filter(keep));
    }
}

impl UnityProject {
    /// What the packages need that are not locked and the project does not have: the ranges, by
    /// name.
    pub fn missing_dependencies(&self) -> (groups: RangeGroups)
        ensures
            are_groups(groups@, missing_ranges(self.contents().locks(), self.unlocked())),
    {
        let unlocked = self.unlocked_packages();
        let present = present_names(unlocked);
        let ghost all = unlocked@;
        let ghost locks = self.contents().locks();
        let ghost there = str_texts(present@);
        let ghost keep = |entry: (Seq<char>, VersionRange)| is_missing(locks, there, entry.0);
        let mut groups: RangeGroups = Vec::new();
        let mut i: usize = 0;
        proof {
            assert(all.take(0) =~= seq![]);
            assert(unlocked_ranges(all.take(0)).filter(keep) =~= seq![]);
            assert(names_once(seq![]) =~= seq![]);
        }
        while i < unlocked.len()
            invariant
                i <= all.len(),
                all == unlocked@,
                locks == self.contents().locks(),
                there == str_texts(present@),
                keep == (|entry: (Seq<char>, VersionRange)| is_missing(locks, there, entry.0)),
                are_groups(groups@, unlocked_ranges(all.take(i as int)).filter(keep)),
            decreases all.len() - i,
        {
            proof {
                assert(all.take(i + 1).drop_last() =~= all.take(i as int));
            }
            if let Some(package) = &unlocked[i].1 {
                proof {
                    lemma_filter_concat(
                        unlocked_ranges(all.take(i as int)),
                        range_entries(package.vpm_dependencies),
                        keep,
                    );
                }
                add_missing(&mut groups, self, &present, package);
            }
            i += 1;
        }
        proof {
            assert(all.take(i as int) =~= all);
        }
        groups
    }

    /// The package to install for the locked package at `index`: that of the name, in the
    /// version that is locked.
    pub fn find_locked_package<'env>(&self, env: &'env Environment, index: usize) -> (found: Option<
        PackageInfo<'env>,
    >)
        requires
            index < self.contents().locks().len(),
        ensures
            is_newest(
                env.packages_named(self.contents().locks()[index as int].0),
                VersionSelector::Specific(&self.contents().locks()[index as int].1.version),
                found,
            ),
    {
        match locked_at(self.locked_packages(), index) {
            Some((name, locked)) => env.find_package_by_name(
                name.as_str(),
                VersionSelector::Specific(&locked.version),
            ),
            None => None,
        }
    }

    /// The packages to install for what the packages need that are not locked: of each name
    /// that the project does not have, the newest version that is in all ranges. Where there is
    /// none, that name is given back.
    pub fn find_missing_packages<'env>(&self, env: &'env Environment) -> (found: Result<
        Vec<PackageInfo<'env>>,
        String,
    >)
        ensures
            (match found {
                Ok(packages) => finds_missing(*self, *env, packages@),
                Err(name) => lacks_missing(*self, *env, name@),
            }),
    {
        let groups = self.missing_dependencies();
        let ghost missing = missing_ranges(self.contents().locks(), self.unlocked());
        let ghost wanted = names_once(missing);
        let mut packages: Vec<PackageInfo<'env>> = Vec::new();
        let mut i: usize = 0;
        while i < groups.len()
            invariant
                i <= groups@.len(),
                packages@.len() == i,
                missing == missing_ranges(self.contents().locks(), self.unlocked()),
                wanted == names_once(missing),
                are_groups(groups@, missing),
                forall|j: int|
                    0 <= j < i ==> is_newest_in(
                        env.packages_named(#[trigger] wanted[j]),
                        ranges_of(missing, wanted[j]),
                        Some(packages@[j]),
                    ),
            decreases groups@.len() - i,
        {
            let name = groups[i].0.as_str();
            let ranges = groups[i].1.as_slice();
            let found = env.find_package_by_name(name, VersionSelector::Ranges(ranges));
            proof {
                assert(groups@[i as int].0@ == wanted[i as int]);
                assert(referred_ranges(ranges@) == ranges_of(missing, name@));
                assert(is_newest(
                    env.packages_named(name@),
                    VersionSelector::Ranges(ranges),
                    found,
                ));
            }
            match found {
                Some(info) => {
                    packages.push(info);
                },
                None => {
                    return Err(name.to_owned());
                },
            }
            i += 1;
        }
        Ok(packages)
    }

    /// Begins the request for what the packages need that are not locked, once the locked
    /// packages are installed: nothing of it is asked for by the project itself. The answer
    /// also says whether pre-releases may be taken, which is so if one of these packages is
    /// one. Where something cannot be had, its name is given back.
    pub fn resolve<'env>(&self, env: &'env Environment) -> (begun: Result<
        (RequestStep<'env>, bool),
        String,
    >)
        ensures
            (match begun {
                Ok((step, allow_prerelease)) => exists|packages: Seq<PackageInfo<'env>>|
                    #[trigger] finds_missing(*self, *env, packages) && allow_prerelease
                        == has_prerelease(packages) && begins_request(
                        self.contents().asked(),
                        self.contents().locks(),
                        packages,
                        false,
                        step,
                    ),
                Err(name) => lacks_missing(*self, *env, name@),
            }),
    {
        match self.find_missing_packages(env) {
            Ok(packages) => {
                let allow_prerelease = any_prerelease(&packages);
                Ok((self.add_package_request(packages, false), allow_prerelease))
            },
            Err(name) => Err(name),
        }
    }
}

/// `packages` are, for each name that the project does not have and a package needs that is
/// not locked, the newest version that is in all ranges.
pub open spec fn finds_missing(
    project: UnityProject,
    env: Environment,
    packages: Seq<PackageInfo>,
) -> bool {
    let missing = missing_ranges(project.contents().locks(), project.unlocked());
    let wanted = names_once(missing);
    &&& packages.len() == wanted.len()
    &&& forall|i: int|
        0 <= i < wanted.len() ==> is_newest_in(
            env.packages_named(#[trigger] wanted[i]),
            ranges_of(missing, wanted[i]),
            Some(packages[i]),
        )
}

/// The project does not have `name`, a package needs it that is not locked, and no version of it
/// is in all ranges.
pub open spec fn lacks_missing(project: UnityProject, env: Environment, name: Seq<char>) -> bool {
    let missing = missing_ranges(project.contents().locks(), project.unlocked());
    &&& names_once(missing).contains(name)
    &&& is_newest_in(env.packages_named(name), ranges_of(missing, name), None)
}

/// One of the packages is a pre-release.
pub open spec fn has_prerelease(packages: Seq<PackageInfo>) -> bool {
    exists|i: int|
        0 <= i < packages.len() && !(#[trigger] packages[i]).package().version@.is_release()
}

/// Whether one of the packages is a pre-release.
pub fn any_prerelease(packages: &Vec<PackageInfo>) -> (found: bool)
    ensures
        found == has_prerelease(packages@),
{
    let mut i: usize = 0;
    while i < packages.len()
        invariant
            i <= packages@.len(),
            forall|j: int|
                0 <= j < i ==> (#[trigger] packages@[j]).package().version@.is_release(),
        decreases packages@.len() - i,
    {
        if !packages[i].version().is_release() {
            return true;
        }
        i += 1;
    }
    false
}

/// The error that a request with conflicts ends in: the first of them. A conflict names at
/// least one package that stands against it.
pub fn conflict_error(request: &AddPackageRequest) -> (error: Option<AddPackageErr>)
    requires
        request.conflicts@.len() > 0 ==> request.conflicts@[0].1@.len() > 0,
    ensures
        (match error {
            Some(AddPackageErr::ConflictWithDependencies { conflict, dependency_name }) => {
                &&& request.conflicts@.len() > 0
                &&& conflict@ == request.conflicts@[0].0@
                &&& dependency_name@ == request.conflicts@[0].1@[0]@
            },
            Some(_) => false,
            None => request.conflicts@.len() == 0,
        }),
{
    if request.conflicts.len() == 0 {
        return None;
    }
    let first = &request.conflicts[0];
    Some(
        AddPackageErr::ConflictWithDependencies {
            conflict: first.0.clone(),
            dependency_name: first.1[0].clone(),
        },
    )
}

} // verus!
