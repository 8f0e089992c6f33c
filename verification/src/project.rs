//! A Unity project: its manifest and the packages in its folder.
use crate::errors::RemovePackageErr;
use crate::json::{pretty_text, section_filled, section_object, sections_pruned};
use crate::manifest::{dependencies_section, locked_section, named_values, VpmManifest};
use crate::marking::{unneeded, UnlockedPackages};
use crate::ordered_map::{
    distinct, has_key, inserted, inserted_all, lemma_inserted_all, lemma_modelled_inserted_all,
    lemma_removed_all, lookup, names, position, removed_all, Entries,
};
use crate::request::{
    asked_ranges, dependency_items, dependency_views, locked_items, locked_views, package_locks,
    with_texts, AddPackageRequest,
};
use crate::seqs::{lemma_filter_contains, lemma_filter_push};
use crate::structs::{
    contains_locked, contains_range, count_locked, locked_at, locked_entries, range_entries,
    PackageJson, VpmDependency, VpmLockedDependency,
};
use crate::text::{borrow_all, contains_str, same_text, str_texts, texts};
use crate::version::VersionRange;
use indexmap::IndexMap;
use serde_json::Value;
use std::path::PathBuf;
use vstd::prelude::*;

verus! {

/// A package in the project's folder is installed: it is locked, and the folder has its name.
pub open spec fn is_installed(
    locks: Entries<VpmLockedDependency>,
    entry: (String, Option<PackageJson>),
) -> bool {
    entry.1 matches Some(package) && package.name@ == entry.0@ && has_key(locks, package.name@)
}

/// The entries of the project's folder that are not installed packages, in order.
pub open spec fn unlocked_entries(
    locks: Entries<VpmLockedDependency>,
    entries: Seq<(String, Option<PackageJson>)>,
) -> Seq<(String, Option<PackageJson>)> {
    entries.filter(|entry: (String, Option<PackageJson>)| !is_installed(locks, entry))
}

/// The installed packages among the entries of the project's folder, in order, by the name of
/// the folder.
pub open spec fn installed_entries(
    locks: Entries<VpmLockedDependency>,
    entries: Seq<(String, Option<PackageJson>)>,
) -> Entries<PackageJson> {
    entries.filter(|entry: (String, Option<PackageJson>)| is_installed(locks, entry)).map_values(
        |entry: (String, Option<PackageJson>)| (entry.0@, entry.1->0),
    )
}

/// The model of a list of packages by name.
pub open spec fn named_packages(list: Seq<(String, PackageJson)>) -> Entries<PackageJson> {
    list.map_values(|entry: (String, PackageJson)| (entry.0@, entry.1))
}

/// Where the package `name` stands in the list.
fn package_index(list: &Vec<(String, PackageJson)>, name: &str) -> (index: Option<usize>)
    requires
        distinct(named_packages(list@)),
    ensures
        (match index {
            Some(at) => at < list@.len() && has_key(named_packages(list@), name@) && position(
                named_packages(list@),
                name@,
            ) == at,
            None => !has_key(named_packages(list@), name@),
        }),
{
    let ghost entries = named_packages(list@);
    let mut i: usize = 0;
    while i < list.len()
        invariant
            i <= list@.len(),
            entries == named_packages(list@),
            distinct(entries),
            forall|j: int| 0 <= j < i ==> (#[trigger] entries[j]).0 != name@,
        decreases list@.len() - i,
    {
        assert(entries[i as int].0 == list@[i as int].0@);
        if same_text(list[i].0.as_str(), name) {
            return Some(i);
        }
        i += 1;
    }
    None
}

/// Puts a package under its name, in place of the one there.
fn put_package(list: &mut Vec<(String, PackageJson)>, name: String, package: PackageJson)
    requires
        distinct(named_packages(old(list)@)),
    ensures
        named_packages(final(list)@) == inserted(named_packages(old(list)@), name@, package),
{
    let ghost before = named_packages(list@);
    match package_index(list, name.as_str()) {
        Some(at) => {
            list.set(at, (name, package));
            proof {
                assert(named_packages(list@) =~= before.update(at as int, (name@, package)));
            }
        },
        None => {
            list.push((name, package));
            proof {
                assert(named_packages(list@) =~= before.push((name@, package)));
            }
        },
    }
}

/// What each package of a project needs: of the locked ones first, then of those that are not
/// locked.
pub open spec fn all_needs(
    locks: Entries<VpmLockedDependency>,
    unlocked: Seq<(String, Option<PackageJson>)>,
) -> Seq<(Seq<char>, IndexMap<String, VersionRange>)> {
    locks.map_values(|entry: (Seq<char>, VpmLockedDependency)| (entry.0, entry.1.dependencies))
        + unlocked_all_needs(unlocked)
}

/// What each package needs that is not locked, in order.
pub open spec fn unlocked_all_needs(unlocked: Seq<(String, Option<PackageJson>)>) -> Seq<
    (Seq<char>, IndexMap<String, VersionRange>),
>
    decreases unlocked.len(),
{
    if unlocked.len() == 0 {
        seq![]
    } else {
        let before = unlocked_all_needs(unlocked.drop_last());
        match unlocked.last().1 {
            Some(package) => before.push((package.name@, package.vpm_dependencies)),
            None => before,
        }
    }
}

/// The names that are not locked, in order.
pub open spec fn not_locked(
    locks: Entries<VpmLockedDependency>,
    wanted: Seq<Seq<char>>,
) -> Seq<Seq<char>> {
    wanted.filter(|name: Seq<char>| !has_key(locks, name))
}

/// The package is to stay and needs one that is to go.
pub open spec fn is_in_the_way(
    need: (Seq<char>, IndexMap<String, VersionRange>),
    going: Seq<Seq<char>>,
) -> bool {
    &&& !going.contains(need.0)
    &&& exists|i: int| 0 <= i < going.len() && has_key(range_entries(need.1), #[trigger] going[i])
}

/// The names of the packages that are to stay and need one that is to go, in order.
pub open spec fn in_the_way(
    needs: Seq<(Seq<char>, IndexMap<String, VersionRange>)>,
    going: Seq<Seq<char>>,
) -> Seq<Seq<char>> {
    needs.filter(
        |need: (Seq<char>, IndexMap<String, VersionRange>)| is_in_the_way(need, going),
    ).map_values(|need: (Seq<char>, IndexMap<String, VersionRange>)| need.0)
}

/// A Unity project.
#[derive(Debug)]
pub struct UnityProject {
    project_dir: PathBuf,
    manifest: VpmManifest,
    unlocked_packages: UnlockedPackages,
    installed_packages: Vec<(String, PackageJson)>,
}

impl UnityProject {
    /// The folder of the project.
    pub closed spec fn dir(self) -> PathBuf {
        self.project_dir
    }

    /// The manifest.
    pub closed spec fn contents(self) -> VpmManifest {
        self.manifest
    }

    /// The entries of the project's folder that are not installed packages.
    pub closed spec fn unlocked(self) -> Seq<(String, Option<PackageJson>)> {
        self.unlocked_packages@
    }

    /// The installed packages, by name.
    pub closed spec fn installed(self) -> Entries<PackageJson> {
        named_packages(self.installed_packages@)
    }

    /// No name occurs twice in a section of the manifest, nor among the installed packages.
    pub open spec fn well_formed(self) -> bool {
        self.contents().well_formed() && distinct(self.installed())
    }

    /// Everything but the manifest is as in `other`.
    pub open spec fn same_folder(self, other: UnityProject) -> bool {
        &&& self.dir() == other.dir()
        &&& self.unlocked() == other.unlocked()
        &&& self.installed() == other.installed()
    }

    /// The project in `project_dir` with that manifest, whose folder has these entries: each
    /// with its name and the package in it, if one could be read.
    pub fn find_unity_project(
        project_dir: PathBuf,
        manifest: VpmManifest,
        entries: Vec<(String, Option<PackageJson>)>,
    ) -> (project: Self)
        requires
            manifest.well_formed(),
        ensures
            project.well_formed(),
            project.dir() == project_dir,
            project.contents() == manifest,
            project.unlocked() == unlocked_entries(manifest.locks(), entries@),
            project.installed() == inserted_all(
                seq![],
                installed_entries(manifest.locks(), entries@),
            ),
    {
        let mut unlocked: UnlockedPackages = Vec::new();
        let mut installed: Vec<(String, PackageJson)> = Vec::new();
        let ghost all = entries@;
        let ghost locks = manifest.locks();
        proof {
            assert(all.take(0) =~= seq![]);
            assert(unlocked@ =~= unlocked_entries(locks, all.take(0)));
            assert(installed_entries(locks, all.take(0)) =~= seq![]);
            assert(named_packages(installed@) =~= seq![]);
        }
        for entry in it: entries
            invariant
                it.seq() == all,
                locks == manifest.locks(),
                unlocked@ == unlocked_entries(locks, all.take(it.index())),
                distinct(named_packages(installed@)),
                named_packages(installed@) == inserted_all(
                    seq![],
                    installed_entries(locks, all.take(it.index())),
                ),
        {
            let ghost shorter = all.take(it.index());
            proof {
                let out = |e: (String, Option<PackageJson>)| !is_installed(locks, e);
                let is_in = |e: (String, Option<PackageJson>)| is_installed(locks, e);
                assert(all.take(it.index() + 1) =~= shorter.push(entry));
                lemma_filter_push(shorter, entry, out);
                lemma_filter_push(shorter, entry, is_in);
                if is_installed(locks, entry) {
                    let more = installed_entries(locks, shorter.push(entry));
                    assert(more =~= installed_entries(locks, shorter).push(
                        (entry.0@, entry.1->0),
                    ));
                    assert(more.drop_last() =~= installed_entries(locks, shorter));
                    lemma_inserted_all(seq![], more);
                }
            }
            let (folder, read) = entry;
            match read {
                Some(package) => {
                    if same_text(package.name.as_str(), folder.as_str()) && contains_locked(
                        manifest.locked(),
                        package.name.as_str(),
                    ) {
                        put_package(&mut installed, folder, package);
                    } else {
                        unlocked.push((folder, Some(package)));
                    }
                },
                None => {
                    unlocked.push((folder, None));
                },
            }
        }
        proof {
            assert(all.take(all.len() as int) =~= all);
        }
        UnityProject {
            project_dir,
            manifest,
            unlocked_packages: unlocked,
            installed_packages: installed,
        }
    }

    /// The folder of the project.
    pub fn project_dir(&self) -> (dir: &PathBuf)
        ensures
            *dir == self.dir(),
    {
        &self.project_dir
    }

    /// The manifest.
    pub fn manifest(&self) -> (manifest: &VpmManifest)
        ensures
            *manifest == self.contents(),
    {
        &self.manifest
    }

    /// What is locked.
    pub fn locked_packages(&self) -> (locked: &IndexMap<String, VpmLockedDependency>)
        ensures
            locked_entries(*locked) == self.contents().locks(),
    {
        self.manifest.locked()
    }

    /// The entries of the project's folder that are not installed packages.
    pub fn unlocked_packages(&self) -> (unlocked: &UnlockedPackages)
        ensures
            unlocked@ == self.unlocked(),
    {
        &self.unlocked_packages
    }

    /// The installed package `name`.
    pub fn get_installed_package(&self, name: &str) -> (package: Option<&PackageJson>)
        requires
            self.well_formed(),
        ensures
            (match package {
                Some(found) => lookup(self.installed(), name@) == Some(*found),
                None => lookup(self.installed(), name@) is None,
            }),
    {
        match package_index(&self.installed_packages, name) {
            Some(at) => Some(&self.installed_packages[at].1),
            None => None,
        }
    }

    /// What each package needs: of the locked ones first, then of those that are not locked.
    pub fn all_dependencies(&self) -> (needs: Vec<(&String, &IndexMap<String, VersionRange>)>)
        ensures
            need_views(needs@) == all_needs(self.contents().locks(), self.unlocked()),
    {
        let mut needs: Vec<(&String, &IndexMap<String, VersionRange>)> = Vec::new();
        let locked = self.manifest.locked();
        let ghost locks = locked_entries(*locked);
        let ghost of_locked = locks.map_values(
            |entry: (Seq<char>, VpmLockedDependency)| (entry.0, entry.1.dependencies),
        );
        let count = count_locked(locked);
        let mut i: usize = 0;
        proof {
            assert(need_views(needs@) =~= of_locked.take(0));
        }
        while i < count
            invariant
                i <= count,
                count == locks.len(),
                locks == locked_entries(*locked),
                of_locked == locks.map_values(
                    |entry: (Seq<char>, VpmLockedDependency)| (entry.0, entry.1.dependencies),
                ),
                need_views(needs@) == of_locked.take(i as int),
            decreases count - i,
        {
            let ghost before = needs@;
            if let Some((name, dependency)) = locked_at(locked, i) {
                needs.push((name, &dependency.dependencies));
                proof {
                    assert(of_locked[i as int] == (name@, dependency.dependencies));
                    assert(need_views(needs@) =~= need_views(before).push(of_locked[i as int]));
                    assert(of_locked.take(i + 1) =~= of_locked.take(i as int).push(
                        of_locked[i as int],
                    ));
                }
            }
            i += 1;
        }
        let ghost all = self.unlocked_packages@;
        let mut j: usize = 0;
        proof {
            assert(of_locked.take(i as int) =~= of_locked);
            assert(all.take(0) =~= seq![]);
            assert(of_locked + unlocked_all_needs(all.take(0)) =~= of_locked);
        }
        while j < self.unlocked_packages.len()
            invariant
                j <= self.unlocked_packages.len(),
                all == self.unlocked_packages@,
                need_views(needs@) == of_locked + unlocked_all_needs(all.take(j as int)),
            decreases self.unlocked_packages.len() - j,
        {
            let ghost before = needs@;
            proof {
                assert(all.take(j + 1).drop_last() =~= all.take(j as int));
            }
            if let Some(package) = &self.unlocked_packages[j].1 {
                needs.push((&package.name, &package.vpm_dependencies));
                proof {
                    let need = (package.name@, package.vpm_dependencies);
                    assert(need_views(needs@) =~= need_views(before).push(need));
                    assert(of_locked + unlocked_all_needs(all.take(j + 1)) =~= (of_locked
                        + unlocked_all_needs(all.take(j as int))).push(need));
                }
            }
            j += 1;
        }
        proof {
            assert(all.take(j as int) =~= all);
        }
        needs
    }

    /// Takes the packages `names` out of the manifest. All of them must be locked, and no
    /// package that stays may need one of them.
    ///
    /// This doesn't look at packages that are not listed in the manifest.
    pub fn remove(&mut self, names: &[&str]) -> (done: Result<(), RemovePackageErr>)
        requires
            old(self).well_formed(),
            names@.len() > 0 && old(self).can_remove(str_texts(names@))
                ==> old(self).contents().has_sections(),
        ensures
            final(self).well_formed(),
            final(self).same_folder(*old(self)),
            (match done {
                Ok(_) => {
                    &&& old(self).can_remove(str_texts(names@))
                    &&& final(self).contents().asked() == removed_all(
                        old(self).contents().asked(),
                        str_texts(names@),
                    )
                    &&& final(self).contents().locks() == removed_all(
                        old(self).contents().locks(),
                        str_texts(names@),
                    )
                    &&& names@.len() == 0 ==> final(self).contents().document()
                        == old(self).contents().document()
                    &&& names@.len() > 0 ==> sections_pruned(
                        old(self).contents().document(),
                        final(self).contents().document(),
                        set![locked_section(), dependencies_section()],
                        str_texts(names@).to_set(),
                    )
                    &&& final(self).contents().is_changed()
                    &&& old(self).contents().agrees() ==> final(self).contents().agrees()
                },
                Err(RemovePackageErr::NotInstalled(missing)) => {
                    &&& *final(self) == *old(self)
                    &&& missing@.len() > 0
                    &&& texts(missing@) == not_locked(
                        old(self).contents().locks(),
                        str_texts(names@),
                    )
                },
                Err(RemovePackageErr::ConflictsWith(conflicts)) => {
                    &&& *final(self) == *old(self)
                    &&& conflicts@.len() > 0
                    &&& not_locked(old(self).contents().locks(), str_texts(names@)).len() == 0
                    &&& texts(conflicts@) == in_the_way(
                        all_needs(old(self).contents().locks(), old(self).unlocked()),
                        str_texts(names@),
                    )
                },
                Err(RemovePackageErr::Io(_)) => false,
            }),
    {
        match self.check_removal(names) {
            Ok(_) => {
                self.manifest.remove_packages(names);
                Ok(())
            },
            Err(error) => Err(error),
        }
    }

    /// Checks that the packages `names` can be removed.
    pub fn check_removal(&self, names: &[&str]) -> (checked: Result<(), RemovePackageErr>)
        ensures
            (match checked {
                Ok(_) => self.can_remove(str_texts(names@)),
                Err(RemovePackageErr::NotInstalled(missing)) => {
                    &&& missing@.len() > 0
                    &&& texts(missing@) == not_locked(self.contents().locks(), str_texts(names@))
                },
                Err(RemovePackageErr::ConflictsWith(conflicts)) => {
                    &&& conflicts@.len() > 0
                    &&& not_locked(self.contents().locks(), str_texts(names@)).len() == 0
                    &&& texts(conflicts@) == in_the_way(
                        all_needs(self.contents().locks(), self.unlocked()),
                        str_texts(names@),
                    )
                },
                Err(RemovePackageErr::Io(_)) => false,
            }),
    {
        let missing = names_not_locked(self.manifest.locked(), names);
        proof {
            assert(texts(missing@).len() == missing@.len());
        }
        if missing.len() > 0 {
            return Err(RemovePackageErr::NotInstalled(missing));
        }
        let conflicts = names_in_the_way(&self.all_dependencies(), names);
        proof {
            assert(texts(conflicts@).len() == conflicts@.len());
        }
        if conflicts.len() > 0 {
            return Err(RemovePackageErr::ConflictsWith(conflicts));
        }
        Ok(())
    }

    /// The packages `names` can be removed: all are locked, and no package that stays needs
    /// one of them.
    pub open spec fn can_remove(self, going: Seq<Seq<char>>) -> bool {
        &&& not_locked(self.contents().locks(), going).len() == 0
        &&& in_the_way(all_needs(self.contents().locks(), self.unlocked()), going).len() == 0
    }

    /// Asks for the dependencies of the request and locks its packages. What is written for
    /// them are the two lists of values.
    pub fn do_add_package_request(
        &mut self,
        request: &AddPackageRequest,
        dependency_values: Vec<Value>,
        locked_values: Vec<Value>,
    )
        requires
            old(self).well_formed(),
            dependency_values@.len() == request.dependencies@.len(),
            locked_values@.len() == request.locked@.len(),
        ensures
            final(self).well_formed(),
            final(self).same_folder(*old(self)),
            asked_ranges(final(self).contents().asked()) == inserted_all(
                asked_ranges(old(self).contents().asked()),
                dependency_views(request.dependencies@),
            ),
            locked_views(final(self).contents().locks()) == inserted_all(
                locked_views(old(self).contents().locks()),
                package_locks(request.locked@),
            ),
            exists|middle: Map<Seq<char>, Value>| #[trigger]
                section_filled(
                    old(self).contents().document(),
                    middle,
                    dependencies_section(),
                    with_texts(names(dependency_views(request.dependencies@)), dependency_values@),
                ) && section_filled(
                    middle,
                    final(self).contents().document(),
                    locked_section(),
                    with_texts(names(package_locks(request.locked@)), locked_values@),
                ),
            final(self).contents().is_changed() == (old(self).contents().is_changed()
                || request.dependencies@.len() > 0 || request.locked@.len() > 0),
            old(self).contents().agrees() ==> final(self).contents().agrees(),
    {
        let dependencies = dependency_items(request, dependency_values);
        proof {
            lemma_modelled_inserted_all(
                self.contents().asked(),
                |dependency: VpmDependency| dependency.version@,
                named_values(dependencies@),
            );
        }
        self.manifest.add_dependencies(dependencies);
        self.do_add_packages_to_locked(request, locked_values);
    }

    /// Locks the packages of the request. What is written for them is the list of values.
    pub fn do_add_packages_to_locked(&mut self, request: &AddPackageRequest, values: Vec<Value>)
        requires
            old(self).well_formed(),
            values@.len() == request.locked@.len(),
        ensures
            final(self).well_formed(),
            final(self).same_folder(*old(self)),
            final(self).contents().asked() == old(self).contents().asked(),
            locked_views(final(self).contents().locks()) == inserted_all(
                locked_views(old(self).contents().locks()),
                package_locks(request.locked@),
            ),
            section_filled(
                old(self).contents().document(),
                final(self).contents().document(),
                locked_section(),
                with_texts(names(package_locks(request.locked@)), values@),
            ),
            final(self).contents().is_changed() == (old(self).contents().is_changed()
                || request.locked@.len() > 0),
            old(self).contents().agrees() ==> final(self).contents().agrees(),
    {
        let locked = locked_items(request, values);
        proof {
            lemma_modelled_inserted_all(
                self.contents().locks(),
                |dependency: VpmLockedDependency| dependency@,
                named_values(locked@),
            );
        }
        self.manifest.add_all_locked(locked);
    }

    /// Takes the packages that others have replaced out of the manifest.
    pub fn remove_legacy_packages(&mut self, names: &Vec<String>)
        requires
            old(self).well_formed(),
            names@.len() > 0 ==> old(self).contents().has_sections(),
        ensures
            final(self).well_formed(),
            final(self).same_folder(*old(self)),
            final(self).contents().asked() == removed_all(
                old(self).contents().asked(),
                texts(names@),
            ),
            final(self).contents().locks() == removed_all(
                old(self).contents().locks(),
                texts(names@),
            ),
            names@.len() == 0 ==> final(self).contents().document()
                == old(self).contents().document(),
            names@.len() > 0 ==> sections_pruned(
                old(self).contents().document(),
                final(self).contents().document(),
                set![locked_section(), dependencies_section()],
                texts(names@).to_set(),
            ),
            final(self).contents().is_changed(),
            old(self).contents().agrees() ==> final(self).contents().agrees(),
    {
        let borrowed = borrow_all(names);
        proof {
            assert(str_texts(borrowed@).len() == borrowed@.len());
            assert(texts(names@).len() == names@.len());
        }
        self.manifest.remove_packages(borrowed.as_slice());
    }

    /// The text to write to the manifest file; `None` where nothing has changed.
    pub fn save(&self) -> (text: Result<Option<Vec<u8>>, serde_json::Error>)
        ensures
            (match text {
                Ok(None) => !self.contents().is_changed(),
                Ok(Some(bytes)) => self.contents().is_changed() && pretty_text(
                    self.contents().document(),
                ) == Some(bytes@),
                Err(_) => self.contents().is_changed() && pretty_text(
                    self.contents().document(),
                ) is None,
            }),
    {
        self.manifest.save_to()
    }

    /// Takes every locked package out of the manifest that is not needed. Gives the names of
    /// those that went.
    pub fn mark_and_sweep(&mut self) -> (gone: Vec<String>)
        requires
            old(self).well_formed(),
            unneeded(
                old(self).contents().asked(),
                old(self).contents().locks(),
                old(self).unlocked(),
            ).len() > 0 ==> section_object(
                old(self).contents().document(),
                locked_section(),
            ) is Some,
        ensures
            final(self).well_formed(),
            final(self).same_folder(*old(self)),
            texts(gone@) == unneeded(
                old(self).contents().asked(),
                old(self).contents().locks(),
                old(self).unlocked(),
            ),
            final(self).contents().locks() == removed_all(
                old(self).contents().locks(),
                texts(gone@),
            ),
            final(self).contents().asked() == old(self).contents().asked(),
            gone@.len() == 0 ==> final(self).contents().document()
                == old(self).contents().document(),
            gone@.len() > 0 ==> sections_pruned(
                old(self).contents().document(),
                final(self).contents().document(),
                set![locked_section()],
                texts(gone@).to_set(),
            ),
            final(self).contents().is_changed() == old(self).contents().is_changed(),
            old(self).contents().agrees() ==> final(self).contents().agrees(),
    {
        self.manifest.mark_and_sweep_packages(&self.unlocked_packages)
    }
}

/// The model of a list of needs.
pub open spec fn need_views(needs: Seq<(&String, &IndexMap<String, VersionRange>)>) -> Seq<
    (Seq<char>, IndexMap<String, VersionRange>),
> {
    needs.map_values(|need: (&String, &IndexMap<String, VersionRange>)| (need.0@, *need.1))
}

/// The names that are not locked, in order.
fn names_not_locked(locked: &IndexMap<String, VpmLockedDependency>, names: &[&str]) -> (missing:
    Vec<String>)
    ensures
        texts(missing@) == not_locked(locked_entries(*locked), str_texts(names@)),
{
    let ghost locks = locked_entries(*locked);
    let ghost all = str_texts(names@);
    let ghost keep = |name: Seq<char>| !has_key(locks, name);
    let mut missing: Vec<String> = Vec::new();
    let mut i: usize = 0;
    proof {
        assert(all.take(0) =~= seq![]);
        assert(texts(missing@) =~= not_locked(locks, all.take(0)));
    }
    while i < names.len()
        invariant
            i <= names@.len(),
            locks == locked_entries(*locked),
            all == str_texts(names@),
            keep == (|name: Seq<char>| !has_key(locks, name)),
            texts(missing@) == not_locked(locks, all.take(i as int)),
        decreases names@.len() - i,
    {
        let name = names[i];
        let ghost before = missing@;
        proof {
            assert(all[i as int] == name@);
            assert(all.take(i + 1) =~= all.take(i as int).push(name@));
            lemma_filter_push(all.take(i as int), name@, keep);
        }
        if !contains_locked(locked, name) {
            missing.push(name.to_owned());
            proof {
                assert(texts(missing@) =~= texts(before).push(name@));
            }
        }
        i += 1;
    }
    proof {
        assert(all.take(i as int) =~= all);
    }
    missing
}

/// Whether the map has one of the names.
fn has_any_key(map: &IndexMap<String, VersionRange>, names: &[&str]) -> (found: bool)
    ensures
        found == exists|i: int|
            0 <= i < str_texts(names@).len() && has_key(
                range_entries(*map),
                #[trigger] str_texts(names@)[i],
            ),
{
    let mut i: usize = 0;
    while i < names.len()
        invariant
            i <= names@.len(),
            forall|j: int|
                0 <= j < i ==> !has_key(range_entries(*map), #[trigger] str_texts(names@)[j]),
        decreases names@.len() - i,
    {
        assert(str_texts(names@)[i as int] == names@[i as int]@);
        if contains_range(map, names[i]) {
            return true;
        }
        i += 1;
    }
    false
}

/// The names of the packages that are to stay and need one that is to go, in order.
fn names_in_the_way(
    needs: &Vec<(&String, &IndexMap<String, VersionRange>)>,
    names: &[&str],
) -> (conflicts: Vec<String>)
    ensures
        texts(conflicts@) == in_the_way(need_views(needs@), str_texts(names@)),
{
    let ghost all = need_views(needs@);
    let ghost going = str_texts(names@);
    let ghost keep = |need: (Seq<char>, IndexMap<String, VersionRange>)| is_in_the_way(need, going);
    let mut conflicts: Vec<String> = Vec::new();
    let mut i: usize = 0;
    proof {
        assert(all.take(0) =~= seq![]);
        assert(texts(conflicts@) =~= in_the_way(all.take(0), going));
    }
    while i < needs.len()
        invariant
            i <= needs@.len(),
            all == need_views(needs@),
            going == str_texts(names@),
            keep == (|need: (Seq<char>, IndexMap<String, VersionRange>)|
                is_in_the_way(need, going)),
            texts(conflicts@) == in_the_way(all.take(i as int), going),
        decreases needs@.len() - i,
    {
        let need = needs[i];
        let ghost before = conflicts@;
        let ghost view = (need.0@, *need.1);
        proof {
            assert(all[i as int] == view);
            assert(all.take(i + 1) =~= all.take(i as int).push(view));
            lemma_filter_push(all.take(i as int), view, keep);
        }
        if !contains_str(names, need.0.as_str()) && has_any_key(need.1, names) {
            conflicts.push(need.0.clone());
            proof {
                assert(texts(conflicts@) =~= texts(before).push(need.0@));
                assert(in_the_way(all.take(i + 1), going) =~= in_the_way(
                    all.take(i as int),
                    going,
                ).push(need.0@));
            }
        }
        i += 1;
    }
    proof {
        assert(all.take(i as int) =~= all);
    }
    conflicts
}

/// A need that is left when packages have gone was there before.
proof fn lemma_needs_left(
    locks: Entries<VpmLockedDependency>,
    unlocked: Seq<(String, Option<PackageJson>)>,
    going: Seq<Seq<char>>,
    need: (Seq<char>, IndexMap<String, VersionRange>),
)
    requires
        distinct(locks),
        all_needs(removed_all(locks, going), unlocked).contains(need),
    ensures
        all_needs(locks, unlocked).contains(need),
{
    let left = removed_all(locks, going);
    lemma_removed_all(locks, going);
    let i = all_needs(left, unlocked).index_of(need);
    if i < left.len() {
        let name = left[i].0;
        assert(has_key(left, name));
        assert(position(left, name) == i);
        assert(lookup(left, name) == Some(left[i].1));
        assert(lookup(locks, name) == Some(left[i].1));
        let j = position(locks, name);
        assert(locks[j] == left[i]);
        assert(all_needs(locks, unlocked)[j] == need);
    } else {
        let j = i - left.len() + locks.len();
        assert(all_needs(locks, unlocked)[j] == unlocked_all_needs(unlocked)[i - left.len()]);
        assert(all_needs(locks, unlocked)[j] == need);
    }
}

/// Where packages can be removed, no package that stays needs one of them afterwards.
pub proof fn law_removal_breaks_no_package(
    project: UnityProject,
    going: Seq<Seq<char>>,
    need: (Seq<char>, IndexMap<String, VersionRange>),
    name: Seq<char>,
)
    requires
        project.well_formed(),
        project.can_remove(going),
        all_needs(
            removed_all(project.contents().locks(), going),
            project.unlocked(),
        ).contains(need),
        !going.contains(need.0),
        going.contains(name),
    ensures
        !has_key(range_entries(need.1), name),
{
    let locks = project.contents().locks();
    let needs = all_needs(locks, project.unlocked());
    let blocks = |need: (Seq<char>, IndexMap<String, VersionRange>)| is_in_the_way(need, going);
    lemma_needs_left(locks, project.unlocked(), going, need);
    lemma_filter_contains(needs, blocks, need);
    if has_key(range_entries(need.1), name) {
        let i = going.index_of(name);
        assert(going[i] == name);
        assert(is_in_the_way(need, going));
        assert(needs.filter(blocks).contains(need));
        assert(in_the_way(needs, going).len() == needs.filter(blocks).len());
    }
}

/// Every entry of the project's folder is either an installed package or counts as not locked,
/// and what is installed is locked under the name of its folder.
pub proof fn law_folder_is_divided(
    locks: Entries<VpmLockedDependency>,
    entries: Seq<(String, Option<PackageJson>)>,
)
    ensures
        unlocked_entries(locks, entries).len() + installed_entries(locks, entries).len()
            == entries.len(),
        forall|i: int|
            0 <= i < installed_entries(locks, entries).len() ==> has_key(
                locks,
                (#[trigger] installed_entries(locks, entries)[i]).0,
            ),
    decreases entries.len(),
{
    let is_in = |entry: (String, Option<PackageJson>)| is_installed(locks, entry);
    let is_out = |entry: (String, Option<PackageJson>)| !is_installed(locks, entry);
    if entries.len() > 0 {
        let shorter = entries.drop_last();
        law_folder_is_divided(locks, shorter);
        assert(shorter.push(entries.last()) =~= entries);
        lemma_filter_push(shorter, entries.last(), is_in);
        lemma_filter_push(shorter, entries.last(), is_out);
        let before = installed_entries(locks, shorter);
        assert forall|i: int| 0 <= i < installed_entries(locks, entries).len() implies has_key(
            locks,
            (#[trigger] installed_entries(locks, entries)[i]).0,
        ) by {
            if i < before.len() {
                assert(installed_entries(locks, entries)[i] == before[i]);
            }
        }
    } else {
        assert(entries =~= seq![]);
        assert(entries.filter(is_in) =~= seq![]);
        assert(entries.filter(is_out) =~= seq![]);
    }
}

/// Every installed package is locked.
pub proof fn law_installed_packages_are_locked(
    locks: Entries<VpmLockedDependency>,
    entries: Seq<(String, Option<PackageJson>)>,
    name: Seq<char>,
)
    requires
        has_key(inserted_all(seq![], installed_entries(locks, entries)), name),
    ensures
        has_key(locks, name),
{
    let none: Entries<PackageJson> = seq![];
    let list = installed_entries(locks, entries);
    lemma_inserted_all(none, list);
    assert(!has_key(none, name));
    law_folder_is_divided(locks, entries);
    let i = position(list, name);
    assert(list[i].0 == name);
}

} // verus!
