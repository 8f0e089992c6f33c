//! File system paths, as far as the library looks into them.
use std::path::PathBuf;
use vstd::prelude::*;

verus! {

/// `std::path::PathBuf`, opaque.
#[verifier::external_type_specification]
#[verifier::external_body]
pub struct ExPathBuf(PathBuf);

/// The two paths are equal, as `==` of `PathBuf` has it.
pub open spec fn paths_equal(a: PathBuf, b: PathBuf) -> bool {
    vstd::std_specs::cmp::PartialEqSpec::eq_spec(&a, &b)
}

/// `==` of `PathBuf`, which is an equivalence (`PathBuf` is `Eq`): a path equals itself, the
/// answer is the same the other way round, and equal paths equal the same paths.
#[verifier::external_body]
pub(crate) fn same_path(a: &PathBuf, b: &PathBuf) -> (same: bool)
    ensures
        same == paths_equal(*a, *b),
        same == paths_equal(*b, *a),
        *a == *b ==> same,
        same ==> forall|c: PathBuf| #[trigger] paths_equal(*a, c) == paths_equal(*b, c),
        same ==> forall|c: PathBuf| #[trigger] paths_equal(c, *a) == paths_equal(c, *b),
{
    a == b
}

/// `PathBuf::clone`: the same path again.
pub assume_specification[ <PathBuf as Clone>::clone ](path: &PathBuf) -> (copy: PathBuf)
    ensures
        copy == *path,
;

} // verus!
