//! Which versions of a package are asked for.
use crate::version::{range_accepts, Version, VersionRange, VersionView};
use vstd::prelude::*;

verus! {

/// The version is in all the ranges.
pub open spec fn all_accept(ranges: Seq<&VersionRange>, version: VersionView) -> bool {
    forall|i: int| 0 <= i < ranges.len() ==> range_accepts((#[trigger] ranges[i])@, version)
}

fn all_match(ranges: &[&VersionRange], version: &Version) -> (matched: bool)
    ensures
        matched == all_accept(ranges@, version@),
{
    let mut i: usize = 0;
    while i < ranges.len()
        invariant
            i <= ranges@.len(),
            forall|j: int| 0 <= j < i ==> range_accepts((#[trigger] ranges@[j])@, version@),
        decreases ranges@.len() - i,
    {
        let range: &VersionRange = ranges[i];
        if !range.matches(version) {
            assert(!range_accepts(ranges@[i as int]@, version@));
            return false;
        }
        i += 1;
    }
    true
}

/// A choice among the versions of a package.
#[derive(Clone, Copy)]
pub enum VersionSelector<'a> {
    /// Any release.
    Latest,
    /// Any version.
    LatestIncluidingPrerelease,
    /// This version only.
    Specific(&'a Version),
    /// Any version of the range.
    Range(&'a VersionRange),
    /// Any version that is in all the ranges.
    Ranges(&'a [&'a VersionRange]),
}

impl<'a> VersionSelector<'a> {
    /// The version is one of those that are asked for.
    pub open spec fn selects(self, version: VersionView) -> bool {
        match self {
            VersionSelector::Latest => version.is_release(),
            VersionSelector::LatestIncluidingPrerelease => true,
            VersionSelector::Specific(wanted) => version == wanted@,
            VersionSelector::Range(range) => range_accepts(range@, version),
            VersionSelector::Ranges(ranges) => all_accept(ranges@, version),
        }
    }

    /// Whether the version is one of those that are asked for.
    pub fn satisfies(&self, version: &Version) -> (satisfied: bool)
        ensures
            satisfied == self.selects(version@),
            self matches VersionSelector::Ranges(ranges) ==> (satisfied <==> forall|i: int|
                0 <= i < ranges@.len() ==> range_accepts((#[trigger] ranges@[i])@, version@)),
    {
        match self {
            VersionSelector::Latest => version.is_release(),
            VersionSelector::LatestIncluidingPrerelease => true,
            VersionSelector::Specific(wanted) => *version == **wanted,
            VersionSelector::Range(range) => range.matches(version),
            VersionSelector::Ranges(ranges) => all_match(ranges, version),
        }
    }
}

} // verus!
