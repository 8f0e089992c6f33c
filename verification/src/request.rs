//! Requests to install packages into a project.
use crate::manifest::{named_texts, named_values};
use crate::ordered_map::{
    distinct, has_key, inserted_all, lemma_inserted_all, lookup, modelled, names, Entries,
};
use crate::package_info::PackageInfo;
use crate::project::UnityProject;
use crate::seqs::{lemma_filter_contains, lemma_filter_push};
use crate::structs::{
    clone_ranges, contains_locked, get_dependency, get_locked, have_different_names, names_differ,
    needs, range_entries, LockedView, VpmDependency, VpmLockedDependency,
};
use crate::text::texts;
use crate::version::{exact_range, law_version_order_equal, range_accepts, RangeView};
use serde_json::Value;
use std::path::PathBuf;
use vstd::prelude::*;

verus! {

/// The project does not ask for the package, or asks for this version among others.
pub open spec fn is_acceptable(asked: Entries<VpmDependency>, info: PackageInfo) -> bool {
    match lookup(asked, info.package().name@) {
        Some(dependency) => range_accepts(dependency.version@, info.package().version@),
        None => true,
    }
}

/// The package is not locked, or an older version is.
pub open spec fn is_update(locks: Entries<VpmLockedDependency>, info: PackageInfo) -> bool {
    match lookup(locks, info.package().name@) {
        Some(locked) => locked.version@.before(info.package().version@),
        None => true,
    }
}

/// The packages that the project accepts, in order.
pub open spec fn acceptable<'a>(
    asked: Entries<VpmDependency>,
    packages: Seq<PackageInfo<'a>>,
) -> Seq<PackageInfo<'a>> {
    packages.filter(|info: PackageInfo<'a>| is_acceptable(asked, info))
}

/// The packages of which no such version or a newer one is locked, in order.
pub open spec fn updates<'a>(
    locks: Entries<VpmLockedDependency>,
    packages: Seq<PackageInfo<'a>>,
) -> Seq<PackageInfo<'a>> {
    packages.filter(|info: PackageInfo<'a>| is_update(locks, info))
}

/// A dependency on exactly the version of each package.
pub open spec fn exact_dependencies(packages: Seq<PackageInfo>) -> Entries<RangeView> {
    packages.map_values(
        |info: PackageInfo| (info.package().name@, exact_range(info.package().version@)),
    )
}

/// The model of a list of dependencies.
pub open spec fn dependency_views(list: Seq<(&str, VpmDependency)>) -> Entries<RangeView> {
    list.map_values(|dependency: (&str, VpmDependency)| (dependency.0@, dependency.1.version@))
}

/// A request to install packages.
pub struct AddPackageRequest<'env> {
    /// What the project is to ask for.
    pub dependencies: Vec<(&'env str, VpmDependency)>,
    /// What is to be locked and installed.
    pub locked: Vec<PackageInfo<'env>>,
    /// Files that the packages replace, from the project's folder on.
    pub legacy_files: Vec<PathBuf>,
    /// Folders that the packages replace, from the project's folder on.
    pub legacy_folders: Vec<PathBuf>,
    /// Locked packages that the packages replace.
    pub legacy_packages: Vec<String>,
    /// Packages that cannot be had together, each with those that stand against it.
    pub conflicts: Vec<(String, Vec<String>)>,
}

impl<'env> AddPackageRequest<'env> {
    /// No package has its conflicts listed twice.
    pub open spec fn well_formed(self) -> bool {
        names_differ(self.conflicts@)
    }
}

impl<'env> AddPackageRequest<'env> {
    /// What is to be locked and installed.
    pub fn locked(&self) -> (locked: &[PackageInfo<'env>])
        ensures
            locked@ == self.locked@,
    {
        self.locked.as_slice()
    }

    /// What the project is to ask for.
    pub fn dependencies(&self) -> (dependencies: &[(&'env str, VpmDependency)])
        ensures
            dependencies@ == self.dependencies@,
    {
        self.dependencies.as_slice()
    }

    /// Files that the packages replace.
    pub fn legacy_files(&self) -> (files: &[PathBuf])
        ensures
            files@ == self.legacy_files@,
    {
        self.legacy_files.as_slice()
    }

    /// Folders that the packages replace.
    pub fn legacy_folders(&self) -> (folders: &[PathBuf])
        ensures
            folders@ == self.legacy_folders@,
    {
        self.legacy_folders.as_slice()
    }

    /// Locked packages that the packages replace.
    pub fn legacy_packages(&self) -> (names: &[String])
        ensures
            names@ == self.legacy_packages@,
    {
        self.legacy_packages.as_slice()
    }

    /// Packages that cannot be had together.
    pub fn conflicts(&self) -> (conflicts: &Vec<(String, Vec<String>)>)
        ensures
            *conflicts == self.conflicts,
    {
        &self.conflicts
    }
}

/// Something that goes from a project's folder once a request is carried out.
#[derive(Debug)]
pub enum Removal {
    /// A file, from the project's folder on, with its description.
    File(PathBuf),
    /// A folder, from the project's folder on, with its description.
    Folder(PathBuf),
    /// The folder of this name in that of the packages.
    Package(String),
}

/// The model of a [`Removal`].
pub enum RemovalView {
    File(PathBuf),
    Folder(PathBuf),
    Package(Seq<char>),
}

impl View for Removal {
    type V = RemovalView;

    open spec fn view(&self) -> RemovalView {
        match self {
            Removal::File(path) => RemovalView::File(*path),
            Removal::Folder(path) => RemovalView::Folder(*path),
            Removal::Package(name) => RemovalView::Package(name@),
        }
    }
}

impl Removal {
    /// Whether the file that describes the asset goes too.
    pub fn takes_description(&self) -> (takes: bool)
        ensures
            takes == !(self is Package),
    {
        !matches!(self, Removal::Package(_))
    }
}

/// The models of a list of removals.
pub open spec fn removal_views(list: Seq<Removal>) -> Seq<RemovalView> {
    list.map_values(|removal: Removal| removal@)
}

/// What goes once the request is carried out: the files, the folders and the packages that its
/// packages replace.
pub open spec fn request_removals(request: AddPackageRequest) -> Seq<RemovalView> {
    request.legacy_files@.map_values(|path: PathBuf| RemovalView::File(path))
        + request.legacy_folders@.map_values(|path: PathBuf| RemovalView::Folder(path))
        + texts(request.legacy_packages@).map_values(
        |name: Seq<char>| RemovalView::Package(name),
    )
}

impl<'env> AddPackageRequest<'env> {
    /// What goes once the request is carried out, and nothing else.
    pub fn removals(&self) -> (list: Vec<Removal>)
        ensures
            removal_views(list@) == request_removals(*self),
    {
        let mut list: Vec<Removal> = Vec::new();
        let ghost all = request_removals(*self);
        let mut i: usize = 0;
        proof {
            assert(removal_views(list@) =~= all.take(0));
        }
        while i < self.legacy_files.len()
            invariant
                i <= self.legacy_files@.len(),
                all == request_removals(*self),
                removal_views(list@) == all.take(i as int),
            decreases self.legacy_files@.len() - i,
        {
            let ghost before = list@;
            list.push(Removal::File(self.legacy_files[i].clone()));
            proof {
                assert(removal_views(list@) =~= removal_views(before).push(all[i as int]));
                assert(all.take(i + 1) =~= all.take(i as int).push(all[i as int]));
            }
            i += 1;
        }
        let ghost files = i as int;
        let mut j: usize = 0;
        while j < self.legacy_folders.len()
            invariant
                files == self.legacy_files@.len(),
                j <= self.legacy_folders@.len(),
                all == request_removals(*self),
                removal_views(list@) == all.take(files + j),
            decreases self.legacy_folders@.len() - j,
        {
            let ghost before = list@;
            list.push(Removal::Folder(self.legacy_folders[j].clone()));
            proof {
                let at = files + j;
                assert(all[at] == RemovalView::Folder(self.legacy_folders@[j as int]));
                assert(removal_views(list@) =~= removal_views(before).push(all[at]));
                assert(all.take(at + 1) =~= all.take(at).push(all[at]));
            }
            j += 1;
        }
        let ghost assets = files + j;
        let mut k: usize = 0;
        while k < self.legacy_packages.len()
            invariant
                assets == self.legacy_files@.len() + self.legacy_folders@.len(),
                k <= self.legacy_packages@.len(),
                all == request_removals(*self),
                removal_views(list@) == all.take(assets + k),
            decreases self.legacy_packages@.len() - k,
        {
            let ghost before = list@;
            list.push(Removal::Package(self.legacy_packages[k].clone()));
            proof {
                let at = assets + k;
                assert(all[at] == RemovalView::Package(self.legacy_packages@[k as int]@));
                assert(removal_views(list@) =~= removal_views(before).push(all[at]));
                assert(all.take(at + 1) =~= all.take(at).push(all[at]));
            }
            k += 1;
        }
        proof {
            assert(all.take(assets + k) =~= all);
        }
        list
    }
}

/// What became of a request when the packages that it needs in turn were looked for.
pub struct PackageResolution<'env> {
    /// Everything that is to be installed.
    pub new_packages: Vec<PackageInfo<'env>>,
    /// Packages that cannot be had together, each with those that stand against it.
    pub conflicts: Vec<(String, Vec<String>)>,
    /// The names of all packages that these replace.
    pub found_legacy_packages: Vec<String>,
}

impl<'env> PackageResolution<'env> {
    /// No package has its conflicts listed twice.
    pub open spec fn well_formed(self) -> bool {
        names_differ(self.conflicts@)
    }

    /// Whether no package has its conflicts listed twice.
    pub fn is_well_formed(&self) -> (good: bool)
        ensures
            good == self.well_formed(),
    {
        have_different_names(&self.conflicts)
    }
}

/// How a request goes on.
pub enum RequestStep<'env> {
    /// There is nothing to install: the request is complete.
    Complete(AddPackageRequest<'env>),
    /// The packages `adding` are to be installed, and what they need is to be looked for.
    Resolve { dependencies: Vec<(&'env str, VpmDependency)>, adding: Vec<PackageInfo<'env>> },
}

/// `step` begins a request for `packages`: it asks for those that the project accepts, if
/// `to_dependencies` says so, and goes on with those of them that are updates.
pub open spec fn begins_request(
    asked: Entries<VpmDependency>,
    locks: Entries<VpmLockedDependency>,
    packages: Seq<PackageInfo>,
    to_dependencies: bool,
    step: RequestStep,
) -> bool {
    let accepted = acceptable(asked, packages);
    let adding = updates(locks, accepted);
    let wanted = if to_dependencies {
        exact_dependencies(accepted)
    } else {
        seq![]
    };
    match step {
        RequestStep::Complete(request) => {
            &&& adding.len() == 0
            &&& dependency_views(request.dependencies@) == wanted
            &&& request.locked@.len() == 0
            &&& request.legacy_files@.len() == 0
            &&& request.legacy_folders@.len() == 0
            &&& request.legacy_packages@.len() == 0
            &&& request.conflicts@.len() == 0
            &&& request.well_formed()
        },
        RequestStep::Resolve { dependencies, adding: list } => {
            &&& adding.len() > 0
            &&& list@ == adding
            &&& dependency_views(dependencies@) == wanted
        },
    }
}

impl UnityProject {
    /// Begins a request for `packages`. Of those that the project accepts, each becomes a
    /// dependency on its version if `to_dependencies` says so, and those are to be installed of
    /// which no such version or a newer one is locked.
    pub fn add_package_request<'env>(
        &self,
        packages: Vec<PackageInfo<'env>>,
        to_dependencies: bool,
    ) -> (step: RequestStep<'env>)
        ensures
            begins_request(
                self.contents().asked(),
                self.contents().locks(),
                packages@,
                to_dependencies,
                step,
            ),
    {
        let manifest = self.manifest();
        let ghost asked = manifest.asked();
        let ghost locks = manifest.locks();
        let ghost all = packages@;
        let ghost keep = |info: PackageInfo<'env>| is_acceptable(asked, info);
        let ghost add = |info: PackageInfo<'env>| is_update(locks, info);
        let mut dependencies: Vec<(&'env str, VpmDependency)> = Vec::new();
        let mut adding: Vec<PackageInfo<'env>> = Vec::new();
        let mut i: usize = 0;
        proof {
            assert(all.take(0) =~= seq![]);
            assert(acceptable(asked, all.take(0)) =~= seq![]);
            assert(updates(locks, acceptable(asked, all.take(0))) =~= adding@);
            assert(exact_dependencies(acceptable(asked, all.take(0))) =~= seq![]);
            assert(dependency_views(dependencies@) =~= seq![]);
        }
        while i < packages.len()
            invariant
                i <= all.len(),
                all == packages@,
                asked == manifest.asked(),
                locks == manifest.locks(),
                keep == (|info: PackageInfo<'env>| is_acceptable(asked, info)),
                add == (|info: PackageInfo<'env>| is_update(locks, info)),
                adding@ == updates(locks, acceptable(asked, all.take(i as int))),
                dependency_views(dependencies@) == (if to_dependencies {
                    exact_dependencies(acceptable(asked, all.take(i as int)))
                } else {
                    seq![]
                }),
            decreases all.len() - i,
        {
            let info = packages[i];
            let ghost shorter = acceptable(asked, all.take(i as int));
            proof {
                assert(all.take(i + 1) =~= all.take(i as int).push(info));
                lemma_filter_push(all.take(i as int), info, keep);
                lemma_filter_push(shorter, info, add);
                assert(exact_dependencies(shorter.push(info)) =~= exact_dependencies(
                    shorter,
                ).push((info.package().name@, exact_range(info.package().version@))));
            }
            let accepted = match get_dependency(manifest.dependencies(), info.name()) {
                Some(dependency) => dependency.version.matches(info.version()),
                None => true,
            };
            if accepted {
                let update = match get_locked(manifest.locked(), info.name()) {
                    Some(locked) => locked.version.is_before(info.version()),
                    None => true,
                };
                if to_dependencies {
                    let ghost before = dependencies@;
                    dependencies.push((info.name(), VpmDependency::new(info.version().clone())));
                    proof {
                        assert(dependency_views(dependencies@) =~= dependency_views(before).push(
                            (info.package().name@, exact_range(info.package().version@)),
                        ));
                    }
                }
                if update {
                    adding.push(info);
                }
            }
            i += 1;
        }
        proof {
            assert(all.take(i as int) =~= all);
        }
        if adding.len() == 0 {
            RequestStep::Complete(
                AddPackageRequest {
                    dependencies,
                    locked: Vec::new(),
                    legacy_files: Vec::new(),
                    legacy_folders: Vec::new(),
                    legacy_packages: Vec::new(),
                    conflicts: Vec::new(),
                },
            )
        } else {
            RequestStep::Resolve { dependencies, adding }
        }
    }

    /// Completes a request with what was found of what it needs. Of the packages that are
    /// replaced only those count that are locked.
    pub fn complete_request<'env>(
        &self,
        dependencies: Vec<(&'env str, VpmDependency)>,
        resolution: PackageResolution<'env>,
        legacy_files: Vec<PathBuf>,
        legacy_folders: Vec<PathBuf>,
    ) -> (request: AddPackageRequest<'env>)
        requires
            resolution.well_formed(),
        ensures
            request.well_formed(),
            request.dependencies == dependencies,
            request.locked == resolution.new_packages,
            request.conflicts == resolution.conflicts,
            request.legacy_files == legacy_files,
            request.legacy_folders == legacy_folders,
            texts(request.legacy_packages@) == texts(resolution.found_legacy_packages@).filter(
                |name: Seq<char>| has_key(self.contents().locks(), name),
            ),
    {
        let found = resolution.found_legacy_packages;
        let ghost all = texts(found@);
        let ghost locks = self.contents().locks();
        let ghost keep = |name: Seq<char>| has_key(locks, name);
        let mut legacy_packages: Vec<String> = Vec::new();
        let mut i: usize = 0;
        proof {
            assert(all.take(0) =~= seq![]);
            assert(texts(legacy_packages@) =~= all.take(0).filter(keep));
        }
        while i < found.len()
            invariant
                i <= found@.len(),
                all == texts(found@),
                locks == self.contents().locks(),
                keep == (|name: Seq<char>| has_key(locks, name)),
                texts(legacy_packages@) == all.take(i as int).filter(keep),
            decreases found@.len() - i,
        {
            let name = found[i].as_str();
            let ghost before = legacy_packages@;
            proof {
                assert(all[i as int] == name@);
                assert(all.take(i + 1) =~= all.take(i as int).push(name@));
                lemma_filter_push(all.take(i as int), name@, keep);
            }
            if contains_locked(self.locked_packages(), name) {
                legacy_packages.push(name.to_owned());
                proof {
                    assert(texts(legacy_packages@) =~= texts(before).push(name@));
                }
            }
            i += 1;
        }
        proof {
            assert(all.take(i as int) =~= all);
        }
        AddPackageRequest {
            dependencies,
            locked: resolution.new_packages,
            legacy_files,
            legacy_folders,
            legacy_packages,
            conflicts: resolution.conflicts,
        }
    }
}

/// What is locked for a package: its version and what it needs.
pub open spec fn package_lock(info: PackageInfo) -> LockedView {
    LockedView {
        version: info.package().version@,
        needs: needs(info.package().vpm_dependencies),
    }
}

/// What is locked for a package: its version and what it needs.
pub fn locked_dependency(info: PackageInfo) -> (locked: VpmLockedDependency)
    ensures
        locked@ == package_lock(info),
{
    let dependencies = clone_ranges(info.vpm_dependencies());
    proof {
        let from = range_entries(info.package().vpm_dependencies);
        let to = range_entries(dependencies);
        assert(names(to).len() == to.len() && names(from).len() == from.len());
        assert forall|i: int| 0 <= i < from.len() implies (#[trigger] to[i]).0 == from[i].0
            && to[i].1@ == from[i].1@ by {
            assert(names(to)[i] == names(from)[i]);
            assert(cloned(from[i].1, to[i].1));
        }
        assert(needs(dependencies) =~= needs(info.package().vpm_dependencies));
    }
    VpmLockedDependency::new(info.version().clone(), dependencies)
}

/// What is locked for each package, by name.
pub open spec fn package_locks(packages: Seq<PackageInfo>) -> Entries<LockedView> {
    packages.map_values(|info: PackageInfo| (info.package().name@, package_lock(info)))
}

/// The ranges that a project asks for, by name.
pub open spec fn asked_ranges(asked: Entries<VpmDependency>) -> Entries<RangeView> {
    modelled(asked, |dependency: VpmDependency| dependency.version@)
}

/// What is locked, by name, as values.
pub open spec fn locked_views(locks: Entries<VpmLockedDependency>) -> Entries<LockedView> {
    modelled(locks, |dependency: VpmLockedDependency| dependency@)
}

/// Each name with what is written for it.
pub open spec fn with_texts(list: Seq<Seq<char>>, values: Seq<Value>) -> Seq<(Seq<char>, Value)> {
    Seq::new(values.len(), |i: int| (list[i], values[i]))
}

/// The dependencies of a request, each with what is written for it.
pub(crate) fn dependency_items(request: &AddPackageRequest, values: Vec<Value>) -> (items: Vec<
    (String, VpmDependency, Value),
>)
    requires
        values@.len() == request.dependencies@.len(),
    ensures
        items@.len() == values@.len(),
        asked_ranges(named_values(items@)) == dependency_views(request.dependencies@),
        named_texts(items@) == with_texts(
            names(dependency_views(request.dependencies@)),
            values@,
        ),
{
    let mut items: Vec<(String, VpmDependency, Value)> = Vec::new();
    let ghost all = values@;
    let ghost list = request.dependencies@;
    let count = values.len();
    let mut i: usize = 0;
    for value in it: values
        invariant
            it.seq() == all,
            count == all.len(),
            i == it.index(),
            list == request.dependencies@,
            all.len() == list.len(),
            items@.len() == i,
            forall|j: int|
                0 <= j < i ==> {
                    &&& (#[trigger] items@[j]).0@ == list[j].0@
                    &&& items@[j].1.version@ == list[j].1.version@
                    &&& items@[j].2 == all[j]
                },
    {
        let dependency = &request.dependencies[i];
        items.push(
            (
                dependency.0.to_owned(),
                VpmDependency { version: dependency.1.version.clone() },
                value,
            ),
        );
        i += 1;
    }
    proof {
        assert(asked_ranges(named_values(items@)) =~= dependency_views(list));
        assert(named_texts(items@) =~= with_texts(names(dependency_views(list)), all));
    }
    items
}

/// The packages of a request, each with what is locked for it and what is written for that.
pub(crate) fn locked_items(request: &AddPackageRequest, values: Vec<Value>) -> (items: Vec<
    (String, VpmLockedDependency, Value),
>)
    requires
        values@.len() == request.locked@.len(),
    ensures
        items@.len() == values@.len(),
        locked_views(named_values(items@)) == package_locks(request.locked@),
        named_texts(items@) == with_texts(names(package_locks(request.locked@)), values@),
{
    let mut items: Vec<(String, VpmLockedDependency, Value)> = Vec::new();
    let ghost all = values@;
    let ghost list = request.locked@;
    let count = values.len();
    let mut i: usize = 0;
    for value in it: values
        invariant
            it.seq() == all,
            count == all.len(),
            i == it.index(),
            list == request.locked@,
            all.len() == list.len(),
            items@.len() == i,
            forall|j: int|
                0 <= j < i ==> {
                    &&& (#[trigger] items@[j]).0@ == list[j].package().name@
                    &&& items@[j].1@ == package_lock(list[j])
                    &&& items@[j].2 == all[j]
                },
    {
        let info = request.locked[i];
        items.push((info.name().to_owned(), locked_dependency(info), value));
        i += 1;
    }
    proof {
        assert(locked_views(named_values(items@)) =~= package_locks(list));
        assert(named_texts(items@) =~= with_texts(names(package_locks(list)), all));
    }
    items
}

/// Packages that were added are locked to the entries added last, and every other lock is as
/// it was.
pub proof fn law_added_packages_are_locked(
    locks: Entries<LockedView>,
    added: Entries<LockedView>,
)
    requires
        distinct(locks),
    ensures
        distinct(inserted_all(locks, added)),
        forall|i: int|
            0 <= i < added.len() ==> has_key(
                inserted_all(locks, added),
                (#[trigger] added[i]).0,
            ),
        forall|i: int|
            0 <= i < added.len() && !has_key(added.skip(i + 1), added[i].0) ==> lookup(
                inserted_all(locks, added),
                (#[trigger] added[i]).0,
            ) == Some(added[i].1),
        forall|name: Seq<char>|
            !has_key(added, name) ==> #[trigger] lookup(inserted_all(locks, added), name)
                == lookup(locks, name),
{
    lemma_inserted_all(locks, added);
    assert forall|i: int| 0 <= i < added.len() implies has_key(
        inserted_all(locks, added),
        (#[trigger] added[i]).0,
    ) by {
        assert(has_key(added, added[i].0));
    }
}

/// A package that is already locked in the version that was asked for is not installed again.
pub proof fn law_locked_version_is_no_update(
    locks: Entries<VpmLockedDependency>,
    info: PackageInfo,
)
    requires
        lookup(locks, info.package().name@) matches Some(locked) && locked.version@
            == info.package().version@,
    ensures
        !is_update(locks, info),
{
    let version = info.package().version@;
    law_version_order_equal(version, version);
}

/// A request installs only what the project accepts, and never an older version than the one
/// that is locked.
pub proof fn law_request_respects_the_project(
    asked: Entries<VpmDependency>,
    locks: Entries<VpmLockedDependency>,
    packages: Seq<PackageInfo>,
    info: PackageInfo,
)
    requires
        updates(locks, acceptable(asked, packages)).contains(info),
    ensures
        packages.contains(info),
        lookup(asked, info.package().name@) matches Some(dependency) ==> range_accepts(
            dependency.version@,
            info.package().version@,
        ),
        lookup(locks, info.package().name@) matches Some(locked) ==> locked.version@.before(
            info.package().version@,
        ),
{
    let accepts = |info: PackageInfo| is_acceptable(asked, info);
    let adds = |info: PackageInfo| is_update(locks, info);
    lemma_filter_contains(acceptable(asked, packages), adds, info);
    lemma_filter_contains(packages, accepts, info);
}

} // verus!
