//! Which locked packages a sweep leaves.
use crate::marking::{
    law_sweep_keeps_what_is_needed, lemma_needed_directly, lemma_needed_through, need_chain, needed,
    unlocked_needs, unneeded,
};
use crate::ordered_map::{
    distinct, has_key, lemma_removed_all, lookup, names, position, removed_all, Entries,
};
use crate::seqs::lemma_filter_contains;
use crate::structs::{range_entries, PackageJson, VpmDependency, VpmLockedDependency};
use vstd::prelude::*;

verus! {

/// What is locked after a sweep.
pub open spec fn swept(
    asked: Entries<VpmDependency>,
    locks: Entries<VpmLockedDependency>,
    unlocked: Seq<(String, Option<PackageJson>)>,
) -> Entries<VpmLockedDependency> {
    removed_all(locks, unneeded(asked, locks, unlocked))
}

/// A sweep leaves every locked package that the project asks for.
pub proof fn law_sweep_leaves_what_is_asked_for(
    asked: Entries<VpmDependency>,
    locks: Entries<VpmLockedDependency>,
    unlocked: Seq<(String, Option<PackageJson>)>,
    name: Seq<char>,
)
    requires
        distinct(locks),
        has_key(asked, name),
    ensures
        lookup(swept(asked, locks, unlocked), name) == lookup(locks, name),
{
    law_sweep_keeps_what_is_needed(asked, locks, unlocked);
    lemma_needed_directly(asked, locks, unlocked, name);
}

/// A sweep leaves every locked package that a package in the project's folder needs which is not
/// locked.
pub proof fn law_sweep_leaves_what_unlocked_packages_need(
    asked: Entries<VpmDependency>,
    locks: Entries<VpmLockedDependency>,
    unlocked: Seq<(String, Option<PackageJson>)>,
    index: int,
    package: PackageJson,
    name: Seq<char>,
)
    requires
        distinct(locks),
        0 <= index < unlocked.len(),
        unlocked[index].1 == Some(package),
        has_key(range_entries(package.vpm_dependencies), name),
    ensures
        lookup(swept(asked, locks, unlocked), name) == lookup(locks, name),
{
    law_sweep_keeps_what_is_needed(asked, locks, unlocked);
    assert(unlocked_needs(unlocked, index, name));
    lemma_needed_directly(asked, locks, unlocked, name);
}

/// A sweep leaves every locked package that a package needs which it leaves, whatever the version
/// of that package.
pub proof fn law_sweep_leaves_what_left_packages_need(
    asked: Entries<VpmDependency>,
    locks: Entries<VpmLockedDependency>,
    unlocked: Seq<(String, Option<PackageJson>)>,
    left: Seq<char>,
    locked: VpmLockedDependency,
    name: Seq<char>,
)
    requires
        distinct(locks),
        lookup(swept(asked, locks, unlocked), left) == Some(locked),
        has_key(range_entries(locked.dependencies), name),
    ensures
        lookup(locks, left) == Some(locked),
        lookup(swept(asked, locks, unlocked), name) == lookup(locks, name),
{
    law_sweep_keeps_what_is_needed(asked, locks, unlocked);
    assert(needed(asked, locks, unlocked, left));
    lemma_needed_through(asked, locks, unlocked, left, name);
}

/// `kept` has all that the project and the packages that are not locked need, and all that the
/// locked packages of `kept` need.
pub open spec fn is_closed(
    asked: Entries<VpmDependency>,
    locks: Entries<VpmLockedDependency>,
    unlocked: Seq<(String, Option<PackageJson>)>,
    kept: Set<Seq<char>>,
) -> bool {
    &&& forall|name: Seq<char>| #[trigger] has_key(asked, name) ==> kept.contains(name)
    &&& forall|i: int, name: Seq<char>|
        0 <= i < unlocked.len() && (#[trigger] unlocked[i]).1 is Some && #[trigger] has_key(
            range_entries(unlocked[i].1->0.vpm_dependencies),
            name,
        ) ==> kept.contains(name)
    &&& forall|i: int, name: Seq<char>|
        0 <= i < locks.len() && kept.contains((#[trigger] locks[i]).0) && #[trigger] has_key(
            range_entries(locks[i].1.dependencies),
            name,
        ) ==> kept.contains(name)
}

/// A sweep leaves no more than it must: whatever set has all that the project and the packages
/// that are not locked need, and all that the locked packages of the set need, has every package
/// that a sweep leaves.
pub proof fn law_sweep_leaves_nothing_else(
    asked: Entries<VpmDependency>,
    locks: Entries<VpmLockedDependency>,
    unlocked: Seq<(String, Option<PackageJson>)>,
    kept: Set<Seq<char>>,
    name: Seq<char>,
)
    requires
        distinct(locks),
        is_closed(asked, locks, unlocked, kept),
        has_key(swept(asked, locks, unlocked), name),
    ensures
        kept.contains(name),
        lookup(swept(asked, locks, unlocked), name) == lookup(locks, name),
{
    law_sweep_keeps_what_is_needed(asked, locks, unlocked);
    let after = swept(asked, locks, unlocked);
    assert(lookup(after, name) is Some);
    let chain = choose|chain: Seq<Seq<char>>| #[trigger]
        need_chain(asked, locks, unlocked, chain) && chain.last() == name;
    lemma_chain_is_kept(asked, locks, unlocked, kept, chain, chain.len() - 1);
}

proof fn lemma_chain_is_kept(
    asked: Entries<VpmDependency>,
    locks: Entries<VpmLockedDependency>,
    unlocked: Seq<(String, Option<PackageJson>)>,
    kept: Set<Seq<char>>,
    chain: Seq<Seq<char>>,
    index: int,
)
    requires
        is_closed(asked, locks, unlocked, kept),
        need_chain(asked, locks, unlocked, chain),
        0 <= index < chain.len(),
    ensures
        kept.contains(chain[index]),
    decreases index,
{
    if index == 0 {
        if !has_key(asked, chain[0]) {
            let i = choose|i: int|
                0 <= i < unlocked.len() && #[trigger] unlocked_needs(unlocked, i, chain[0]);
            assert(unlocked[i].1 is Some);
            assert(has_key(range_entries(unlocked[i].1->0.vpm_dependencies), chain[0]));
        }
    } else {
        lemma_chain_is_kept(asked, locks, unlocked, kept, chain, index - 1);
        let i = position(locks, chain[index - 1]);
        assert(crate::marking::lock_needs(locks, chain[index - 1], chain[index]));
        assert(locks[i].0 == chain[index - 1]);
        assert(has_key(range_entries(locks[i].1.dependencies), chain[index]));
    }
}

/// What a sweep says went is what was locked before and is not afterwards.
pub proof fn law_sweep_tells_what_went(
    asked: Entries<VpmDependency>,
    locks: Entries<VpmLockedDependency>,
    unlocked: Seq<(String, Option<PackageJson>)>,
    name: Seq<char>,
)
    requires
        distinct(locks),
    ensures
        unneeded(asked, locks, unlocked).contains(name) <==> (has_key(locks, name) && !has_key(
            swept(asked, locks, unlocked),
            name,
        )),
{
    let gone = unneeded(asked, locks, unlocked);
    lemma_removed_all(locks, gone);
    lemma_filter_contains(
        names(locks),
        |name: Seq<char>| !needed(asked, locks, unlocked, name),
        name,
    );
    if gone.contains(name) {
        let i = names(locks).index_of(name);
        assert(locks[i].0 == name);
    }
}

} // verus!
