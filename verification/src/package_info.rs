//! A version of a package together with where it was found.
use crate::structs::{LocalCachedRepository, PackageJson};
use crate::version::{Version, VersionRange};
use indexmap::IndexMap;
use std::path::PathBuf;
use vstd::prelude::*;

verus! {

/// Where a package was found.
#[derive(Clone, Copy)]
pub enum PackageInfoInner<'a> {
    /// In a repository.
    Remote(&'a PackageJson, &'a LocalCachedRepository),
    /// In a folder of the user's.
    Local(&'a PackageJson, &'a PathBuf),
}

/// A version of a package that was found.
#[derive(Clone, Copy)]
pub struct PackageInfo<'a> {
    pub inner: PackageInfoInner<'a>,
}

impl<'a> PackageInfo<'a> {
    /// The package itself.
    pub open spec fn package(self) -> PackageJson {
        match self.inner {
            PackageInfoInner::Remote(package, _) => *package,
            PackageInfoInner::Local(package, _) => *package,
        }
    }

    /// The package itself.
    pub fn package_json(self) -> (package: &'a PackageJson)
        ensures
            *package == self.package(),
    {
        match self.inner {
            PackageInfoInner::Remote(package, _) => package,
            PackageInfoInner::Local(package, _) => package,
        }
    }

    /// A package of a repository.
    pub fn remote(json: &'a PackageJson, repo: &'a LocalCachedRepository) -> (info: Self)
        ensures
            info == (PackageInfo { inner: PackageInfoInner::Remote(json, repo) }),
    {
        PackageInfo { inner: PackageInfoInner::Remote(json, repo) }
    }

    /// A package in a folder of the user's.
    pub fn local(json: &'a PackageJson, path: &'a PathBuf) -> (info: Self)
        ensures
            info == (PackageInfo { inner: PackageInfoInner::Local(json, path) }),
    {
        PackageInfo { inner: PackageInfoInner::Local(json, path) }
    }

    /// Whether the package was found in a repository.
    pub fn is_remote(self) -> (remote: bool)
        ensures
            remote == (self.inner is Remote),
    {
        matches!(self.inner, PackageInfoInner::Remote(_, _))
    }

    /// Whether the package was found in a folder of the user's.
    pub fn is_local(self) -> (local: bool)
        ensures
            local == (self.inner is Local),
    {
        matches!(self.inner, PackageInfoInner::Local(_, _))
    }

    /// The name of the package.
    pub fn name(self) -> (name: &'a str)
        ensures
            name@ == self.package().name@,
    {
        self.package_json().name.as_str()
    }

    /// The version of the package.
    pub fn version(self) -> (version: &'a Version)
        ensures
            *version == self.package().version,
    {
        &self.package_json().version
    }

    /// What the package needs.
    pub fn vpm_dependencies(self) -> (dependencies: &'a IndexMap<String, VersionRange>)
        ensures
            *dependencies == self.package().vpm_dependencies,
    {
        &self.package_json().vpm_dependencies
    }

    /// The names of the packages that this one replaces.
    pub fn legacy_packages(self) -> (names: &'a Vec<String>)
        ensures
            *names == self.package().legacy_packages,
    {
        &self.package_json().legacy_packages
    }
}

} // verus!
