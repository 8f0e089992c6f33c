//! Which packages a project still needs: reachability through locked packages.
use crate::ordered_map::{
    distinct, has_key, lemma_counted_names_are_distinct, lemma_removed_all, lookup, names, position,
    removed_all, Entries,
};
use crate::seqs::{lemma_filter_contains, lemma_filter_push};
use crate::structs::{
    count_dependencies, count_locked, count_ranges, dependency_at, dependency_entries, get_locked,
    locked_at, locked_entries, range_at, range_entries, PackageJson, VpmDependency,
    VpmLockedDependency,
};
use crate::text::{contains_text, texts};
use crate::version::VersionRange;
use indexmap::IndexMap;
use vstd::prelude::*;
use vstd::set_lib::set_int_range;

verus! {

/// The packages in a project's folder that are not locked: the name of the folder, and the
/// package in it if one could be read.
pub type UnlockedPackages = Vec<(String, Option<PackageJson>)>;

/// The unlocked package at `index` needs `name`.
pub open spec fn unlocked_needs(
    unlocked: Seq<(String, Option<PackageJson>)>,
    index: int,
    name: Seq<char>,
) -> bool {
    unlocked[index].1 matches Some(package) && has_key(
        range_entries(package.vpm_dependencies),
        name,
    )
}

/// `name` is needed by the project itself or by a package that is not locked.
pub open spec fn needed_directly(
    asked: Entries<VpmDependency>,
    unlocked: Seq<(String, Option<PackageJson>)>,
    name: Seq<char>,
) -> bool {
    has_key(asked, name) || exists|i: int|
        0 <= i < unlocked.len() && #[trigger] unlocked_needs(unlocked, i, name)
}

/// The locked package `name` needs `other`.
pub open spec fn lock_needs(
    locks: Entries<VpmLockedDependency>,
    name: Seq<char>,
    other: Seq<char>,
) -> bool {
    lookup(locks, name) matches Some(locked) && has_key(range_entries(locked.dependencies), other)
}

/// A chain of needs: it begins with a name that is needed directly, and each name after it is
/// needed by the locked package before it.
pub open spec fn need_chain(
    asked: Entries<VpmDependency>,
    locks: Entries<VpmLockedDependency>,
    unlocked: Seq<(String, Option<PackageJson>)>,
    chain: Seq<Seq<char>>,
) -> bool {
    &&& chain.len() > 0
    &&& needed_directly(asked, unlocked, chain[0])
    &&& forall|i: int|
        0 < i < chain.len() ==> lock_needs(locks, chain[i - 1], #[trigger] chain[i])
}

/// `name` is needed, directly or through locked packages.
pub open spec fn needed(
    asked: Entries<VpmDependency>,
    locks: Entries<VpmLockedDependency>,
    unlocked: Seq<(String, Option<PackageJson>)>,
    name: Seq<char>,
) -> bool {
    exists|chain: Seq<Seq<char>>| #[trigger]
        need_chain(asked, locks, unlocked, chain) && chain.last() == name
}

/// The names of the locked packages that are not needed, in order.
pub open spec fn unneeded(
    asked: Entries<VpmDependency>,
    locks: Entries<VpmLockedDependency>,
    unlocked: Seq<(String, Option<PackageJson>)>,
) -> Seq<Seq<char>> {
    names(locks).filter(|name: Seq<char>| !needed(asked, locks, unlocked, name))
}

/// `more` has every name that `entries` has.
pub open spec fn has_all_names<V>(entries: Entries<V>, more: Entries<V>) -> bool {
    forall|name: Seq<char>| #[trigger] has_key(entries, name) ==> has_key(more, name)
}

/// Where the project asks for more, or there are more packages that are not locked, nothing
/// becomes unneeded that was needed: no more packages are swept.
pub proof fn law_more_needs_sweep_no_more(
    asked: Entries<VpmDependency>,
    more: Entries<VpmDependency>,
    locks: Entries<VpmLockedDependency>,
    unlocked: Seq<(String, Option<PackageJson>)>,
    others: Seq<(String, Option<PackageJson>)>,
    name: Seq<char>,
)
    requires
        has_all_names(asked, more),
        unneeded(more, locks, unlocked + others).contains(name),
    ensures
        unneeded(asked, locks, unlocked).contains(name),
{
    let all = unlocked + others;
    let before = |name: Seq<char>| !needed(asked, locks, unlocked, name);
    let after = |name: Seq<char>| !needed(more, locks, all, name);
    lemma_filter_contains(names(locks), before, name);
    lemma_filter_contains(names(locks), after, name);
    if needed(asked, locks, unlocked, name) {
        let chain = choose|chain: Seq<Seq<char>>| #[trigger]
            need_chain(asked, locks, unlocked, chain) && chain.last() == name;
        if !has_key(asked, chain[0]) {
            let i = choose|i: int|
                0 <= i < unlocked.len() && #[trigger] unlocked_needs(unlocked, i, chain[0]);
            assert(all[i] == unlocked[i]);
            assert(unlocked_needs(all, i, chain[0]));
        }
        assert(need_chain(more, locks, all, chain));
    }
}

/// What is needed directly is needed.
pub proof fn lemma_needed_directly(
    asked: Entries<VpmDependency>,
    locks: Entries<VpmLockedDependency>,
    unlocked: Seq<(String, Option<PackageJson>)>,
    name: Seq<char>,
)
    requires
        needed_directly(asked, unlocked, name),
    ensures
        needed(asked, locks, unlocked, name),
{
    assert(need_chain(asked, locks, unlocked, seq![name]));
    assert(seq![name].last() == name);
}

/// What a needed locked package needs is needed.
pub proof fn lemma_needed_through(
    asked: Entries<VpmDependency>,
    locks: Entries<VpmLockedDependency>,
    unlocked: Seq<(String, Option<PackageJson>)>,
    name: Seq<char>,
    other: Seq<char>,
)
    requires
        needed(asked, locks, unlocked, name),
        lock_needs(locks, name, other),
    ensures
        needed(asked, locks, unlocked, other),
{
    let chain = choose|chain: Seq<Seq<char>>| #[trigger]
        need_chain(asked, locks, unlocked, chain) && chain.last() == name;
    let longer = chain.push(other);
    assert forall|i: int| 0 < i < longer.len() implies lock_needs(
        locks,
        longer[i - 1],
        #[trigger] longer[i],
    ) by {
        if i < chain.len() {
            assert(longer[i] == chain[i]);
        }
    }
    assert(need_chain(asked, locks, unlocked, longer));
    assert(longer.last() == other);
}

/// A list that holds what is needed directly and, with a locked package, what it needs, holds
/// everything that is needed.
proof fn lemma_closed_list_is_complete(
    asked: Entries<VpmDependency>,
    locks: Entries<VpmLockedDependency>,
    unlocked: Seq<(String, Option<PackageJson>)>,
    list: Seq<Seq<char>>,
    name: Seq<char>,
)
    requires
        forall|n: Seq<char>| #[trigger]
            needed_directly(asked, unlocked, n) ==> list.contains(n),
        forall|n: Seq<char>, other: Seq<char>|
            list.contains(n) && #[trigger] lock_needs(locks, n, other) ==> list.contains(other),
        needed(asked, locks, unlocked, name),
    ensures
        list.contains(name),
{
    let chain = choose|chain: Seq<Seq<char>>| #[trigger]
        need_chain(asked, locks, unlocked, chain) && chain.last() == name;
    lemma_chain_in_list(asked, locks, unlocked, list, chain, chain.len() - 1);
}

proof fn lemma_chain_in_list(
    asked: Entries<VpmDependency>,
    locks: Entries<VpmLockedDependency>,
    unlocked: Seq<(String, Option<PackageJson>)>,
    list: Seq<Seq<char>>,
    chain: Seq<Seq<char>>,
    index: int,
)
    requires
        forall|n: Seq<char>| #[trigger]
            needed_directly(asked, unlocked, n) ==> list.contains(n),
        forall|n: Seq<char>, other: Seq<char>|
            list.contains(n) && #[trigger] lock_needs(locks, n, other) ==> list.contains(other),
        need_chain(asked, locks, unlocked, chain),
        0 <= index < chain.len(),
    ensures
        list.contains(chain[index]),
    decreases index,
{
    if index > 0 {
        lemma_chain_in_list(asked, locks, unlocked, list, chain, index - 1);
        assert(lock_needs(locks, chain[index - 1], chain[index]));
    }
}

/// The chain of needs of a needed name consists of needed names.
proof fn lemma_chain_is_needed(
    asked: Entries<VpmDependency>,
    locks: Entries<VpmLockedDependency>,
    unlocked: Seq<(String, Option<PackageJson>)>,
    chain: Seq<Seq<char>>,
    index: int,
)
    requires
        need_chain(asked, locks, unlocked, chain),
        0 <= index < chain.len(),
    ensures
        needed(asked, locks, unlocked, chain[index]),
{
    let shorter = chain.take(index + 1);
    assert forall|i: int| 0 < i < shorter.len() implies lock_needs(
        locks,
        shorter[i - 1],
        #[trigger] shorter[i],
    ) by {
        assert(chain[i] == shorter[i]);
    }
    assert(need_chain(asked, locks, unlocked, shorter));
    assert(shorter.last() == chain[index]);
}

/// What a sweep leaves: a needed locked package keeps its entry, one that is not needed has
/// none.
pub proof fn law_sweep_keeps_what_is_needed(
    asked: Entries<VpmDependency>,
    locks: Entries<VpmLockedDependency>,
    unlocked: Seq<(String, Option<PackageJson>)>,
)
    requires
        distinct(locks),
    ensures
        forall|name: Seq<char>| #[trigger]
            lookup(removed_all(locks, unneeded(asked, locks, unlocked)), name) == (if needed(
                asked,
                locks,
                unlocked,
                name,
            ) {
                lookup(locks, name)
            } else {
                None
            }),
{
    let gone = unneeded(asked, locks, unlocked);
    let after = removed_all(locks, gone);
    let unneeded_name = |name: Seq<char>| !needed(asked, locks, unlocked, name);
    lemma_removed_all(locks, gone);
    assert forall|name: Seq<char>| #[trigger] lookup(after, name) == (if needed(
        asked,
        locks,
        unlocked,
        name,
    ) {
        lookup(locks, name)
    } else {
        None
    }) by {
        lemma_filter_contains(names(locks), unneeded_name, name);
        if has_key(locks, name) {
            assert(names(locks)[position(locks, name)] == name);
        }
    }
}

/// A sweep is complete: after it every locked package is needed, so another sweep takes
/// nothing out.
pub proof fn law_sweep_is_complete(
    asked: Entries<VpmDependency>,
    locks: Entries<VpmLockedDependency>,
    unlocked: Seq<(String, Option<PackageJson>)>,
)
    requires
        distinct(locks),
    ensures
        unneeded(
            asked,
            removed_all(locks, unneeded(asked, locks, unlocked)),
            unlocked,
        ) == Seq::<Seq<char>>::empty(),
{
    let after = removed_all(locks, unneeded(asked, locks, unlocked));
    let unneeded_name = |name: Seq<char>| !needed(asked, after, unlocked, name);
    law_sweep_keeps_what_is_needed(asked, locks, unlocked);
    lemma_removed_all(locks, unneeded(asked, locks, unlocked));
    let left = names(after).filter(unneeded_name);
    if left.len() > 0 {
        let name = left[0];
        assert(left.contains(name));
        lemma_filter_contains(names(after), unneeded_name, name);
        let at = names(after).index_of(name);
        assert(after[at].0 == name);
        assert(has_key(after, name));
        assert(lookup(after, name) is Some);
        assert(needed(asked, locks, unlocked, name));
        let chain = choose|chain: Seq<Seq<char>>| #[trigger]
            need_chain(asked, locks, unlocked, chain) && chain.last() == name;
        assert forall|i: int| 0 < i < chain.len() implies lock_needs(
            after,
            chain[i - 1],
            #[trigger] chain[i],
        ) by {
            lemma_chain_is_needed(asked, locks, unlocked, chain, i - 1);
            assert(lookup(after, chain[i - 1]) == lookup(locks, chain[i - 1]));
        }
        assert(need_chain(asked, after, unlocked, chain));
        assert(needed(asked, after, unlocked, name));
    }
    assert(left =~= Seq::<Seq<char>>::empty());
}

/// Adds the names of `map` to `list`, except those that it holds already.
fn add_range_names(list: &mut Vec<String>, map: &IndexMap<String, VersionRange>)
    requires
        texts(old(list)@).no_duplicates(),
    ensures
        texts(final(list)@).no_duplicates(),
        old(list)@.is_prefix_of(final(list)@),
        forall|name: Seq<char>| #[trigger]
            texts(final(list)@).contains(name) <==> (texts(old(list)@).contains(name) || has_key(
                range_entries(*map),
                name,
            )),
{
    let ghost start = list@;
    let ghost entries = range_entries(*map);
    let count = count_ranges(map);
    let mut i: usize = 0;
    while i < count
        invariant
            i <= count,
            count == entries.len(),
            entries == range_entries(*map),
            texts(list@).no_duplicates(),
            start.is_prefix_of(list@),
            forall|name: Seq<char>| #[trigger]
                texts(list@).contains(name) <==> (texts(start).contains(name) || has_key(
                    entries.take(i as int),
                    name,
                )),
        decreases count - i,
    {
        let ghost before = list@;
        if let Some((name, _)) = range_at(map, i) {
            if !contains_text(list, name.as_str()) {
                list.push(name.clone());
            }
            proof {
                lemma_name_added(before, list@, name@);
                lemma_one_more_entry(entries, i as int);
                assert(start.is_prefix_of(list@));
            }
        }
        i += 1;
    }
    proof {
        assert(entries.take(i as int) =~= entries);
    }
}

/// After a name is added unless it was there: nothing else has changed.
proof fn lemma_name_added(before: Seq<String>, after: Seq<String>, name: Seq<char>)
    requires
        texts(before).no_duplicates(),
        if texts(before).contains(name) {
            after == before
        } else {
            exists|text: String| text@ == name && after == #[trigger] before.push(text)
        },
    ensures
        texts(after).no_duplicates(),
        before.is_prefix_of(after),
        forall|n: Seq<char>| #[trigger]
            texts(after).contains(n) <==> (texts(before).contains(n) || n == name),
{
    if !texts(before).contains(name) {
        let all = texts(after);
        let earlier = texts(before);
        assert(all =~= earlier.push(name));
        assert(all[earlier.len() as int] == name);
        assert forall|n: Seq<char>| #[trigger] all.contains(n) <==> (earlier.contains(n) || n
            == name) by {
            if all.contains(n) && n != name {
                let k = all.index_of(n);
                assert(earlier[k] == n);
            }
            if earlier.contains(n) {
                let k = earlier.index_of(n);
                assert(all[k] == n);
            }
        }
        assert forall|i: int, j: int|
            0 <= i < all.len() && 0 <= j < all.len() && i != j implies all[i] != all[j] by {
            if i < earlier.len() && j < earlier.len() {
                assert(earlier[i] != earlier[j]);
            } else if i < earlier.len() {
                assert(earlier.contains(earlier[i]));
            } else {
                assert(earlier.contains(earlier[j]));
            }
        }
    }
}

/// One more entry: one more name.
proof fn lemma_one_more_entry<V>(entries: Entries<V>, index: int)
    requires
        0 <= index < entries.len(),
    ensures
        forall|name: Seq<char>| #[trigger]
            has_key(entries.take(index + 1), name) <==> (has_key(entries.take(index), name) || name
                == entries[index].0),
{
    let shorter = entries.take(index);
    let longer = entries.take(index + 1);
    assert(longer[index] == entries[index]);
    assert forall|name: Seq<char>| #[trigger] has_key(longer, name) <==> (has_key(shorter, name)
        || name == entries[index].0) by {
        if has_key(longer, name) && name != entries[index].0 {
            let i = position(longer, name);
            assert(shorter[i].0 == name);
        }
        if has_key(shorter, name) {
            let i = position(shorter, name);
            assert(longer[i].0 == name);
        }
    }
}

/// Adds the names of `map` to `list`, except those that it holds already.
fn add_dependency_names(list: &mut Vec<String>, map: &IndexMap<String, VpmDependency>)
    requires
        texts(old(list)@).no_duplicates(),
    ensures
        texts(final(list)@).no_duplicates(),
        forall|name: Seq<char>| #[trigger]
            texts(final(list)@).contains(name) <==> (texts(old(list)@).contains(name) || has_key(
                dependency_entries(*map),
                name,
            )),
{
    let ghost start = list@;
    let ghost entries = dependency_entries(*map);
    let count = count_dependencies(map);
    let mut i: usize = 0;
    while i < count
        invariant
            i <= count,
            count == entries.len(),
            entries == dependency_entries(*map),
            texts(list@).no_duplicates(),
            forall|name: Seq<char>| #[trigger]
                texts(list@).contains(name) <==> (texts(start).contains(name) || has_key(
                    entries.take(i as int),
                    name,
                )),
        decreases count - i,
    {
        let ghost before = list@;
        if let Some((name, _)) = dependency_at(map, i) {
            if !contains_text(list, name.as_str()) {
                list.push(name.clone());
            }
            proof {
                lemma_name_added(before, list@, name@);
                lemma_one_more_entry(entries, i as int);
            }
        }
        i += 1;
    }
    proof {
        assert(entries.take(i as int) =~= entries);
    }
}

/// The names that are needed directly, each once.
fn directly_needed_names(
    dependencies: &IndexMap<String, VpmDependency>,
    unlocked: &UnlockedPackages,
) -> (list: Vec<String>)
    ensures
        texts(list@).no_duplicates(),
        forall|name: Seq<char>| #[trigger]
            texts(list@).contains(name) <==> needed_directly(
                dependency_entries(*dependencies),
                unlocked@,
                name,
            ),
{
    let ghost asked = dependency_entries(*dependencies);
    let mut list: Vec<String> = Vec::new();
    assert(texts(list@) =~= seq![]);
    add_dependency_names(&mut list, dependencies);
    let mut i: usize = 0;
    while i < unlocked.len()
        invariant
            i <= unlocked.len(),
            asked == dependency_entries(*dependencies),
            texts(list@).no_duplicates(),
            forall|name: Seq<char>| #[trigger]
                texts(list@).contains(name) <==> (has_key(asked, name) || exists|j: int|
                    0 <= j < i && #[trigger] unlocked_needs(unlocked@, j, name)),
        decreases unlocked.len() - i,
    {
        let ghost before = list@;
        if let Some(package) = &unlocked[i].1 {
            add_range_names(&mut list, &package.vpm_dependencies);
        }
        proof {
            assert forall|name: Seq<char>| #[trigger]
                texts(list@).contains(name) <==> (has_key(asked, name) || exists|j: int|
                    0 <= j < i + 1 && #[trigger] unlocked_needs(unlocked@, j, name)) by {
                assert(texts(list@).contains(name) <==> (texts(before).contains(name)
                    || unlocked_needs(unlocked@, i as int, name)));
            }
        }
        i += 1;
    }
    list
}

/// The locked packages that are not among the first `count` names of `list`, by index.
spec fn unvisited(locks: Entries<VpmLockedDependency>, list: Seq<Seq<char>>, count: int) -> Set<
    int,
> {
    set_int_range(0, locks.len() as int).filter(
        |index: int| !list.take(count).contains(locks[index].0),
    )
}

/// Visiting one more name never makes more packages unvisited, and fewer if it is locked.
proof fn lemma_visit_one(
    locks: Entries<VpmLockedDependency>,
    before: Seq<Seq<char>>,
    after: Seq<Seq<char>>,
    count: int,
)
    requires
        distinct(locks),
        before.no_duplicates(),
        0 <= count < before.len(),
        before.is_prefix_of(after),
    ensures
        unvisited(locks, after, count + 1).len() <= unvisited(locks, before, count).len(),
        has_key(locks, before[count]) ==> unvisited(locks, after, count + 1).len() < unvisited(
            locks,
            before,
            count,
        ).len(),
{
    let left = unvisited(locks, before, count);
    let later = unvisited(locks, after, count + 1);
    let name = before[count];
    vstd::set_lib::lemma_int_range(0, locks.len() as int);
    let visited = before.take(count);
    assert(after.take(count + 1) =~= visited.push(name));
    assert(visited.push(name)[count] == name);
    assert forall|n: Seq<char>| #[trigger] visited.push(name).contains(n) <==> (visited.contains(n)
        || n == name) by {
        if visited.push(name).contains(n) && n != name {
            let k = visited.push(name).index_of(n);
            assert(visited[k] == n);
        }
        if visited.contains(n) {
            let k = visited.index_of(n);
            assert(visited.push(name)[k] == n);
        }
    }
    assert(later.subset_of(left));
    vstd::set_lib::lemma_len_subset(later, left);
    if has_key(locks, name) {
        let at = position(locks, name);
        assert(!visited.contains(name)) by {
            if visited.contains(name) {
                let k = visited.index_of(name);
                assert(before[k] == name);
            }
        }
        assert(left.contains(at));
        assert(!later.contains(at));
        assert(later.subset_of(left.remove(at)));
        vstd::set_lib::lemma_len_subset(later, left.remove(at));
    }
}

/// The names that are needed, directly or through locked packages, each once.
pub fn needed_names(
    dependencies: &IndexMap<String, VpmDependency>,
    locked: &IndexMap<String, VpmLockedDependency>,
    unlocked: &UnlockedPackages,
) -> (list: Vec<String>)
    ensures
        texts(list@).no_duplicates(),
        forall|name: Seq<char>| #[trigger]
            texts(list@).contains(name) <==> needed(
                dependency_entries(*dependencies),
                locked_entries(*locked),
                unlocked@,
                name,
            ),
{
    let ghost asked = dependency_entries(*dependencies);
    let ghost locks = locked_entries(*locked);
    let total = count_locked(locked);
    proof {
        assert(total == locks.len());
        lemma_counted_names_are_distinct(locks);
    }
    let mut list = directly_needed_names(dependencies, unlocked);
    proof {
        assert forall|name: Seq<char>| texts(list@).contains(name) implies #[trigger] needed(
            asked,
            locks,
            unlocked@,
            name,
        ) by {
            lemma_needed_directly(asked, locks, unlocked@, name);
        }
    }
    let mut i: usize = 0;
    while i < list.len()
        invariant
            i <= list.len(),
            asked == dependency_entries(*dependencies),
            locks == locked_entries(*locked),
            distinct(locks),
            texts(list@).no_duplicates(),
            forall|name: Seq<char>| #[trigger]
                needed_directly(asked, unlocked@, name) ==> texts(list@).contains(name),
            forall|name: Seq<char>|
                texts(list@).contains(name) ==> #[trigger] needed(asked, locks, unlocked@, name),
            forall|j: int, other: Seq<char>|
                0 <= j < i && #[trigger] lock_needs(locks, texts(list@)[j], other) ==> texts(
                    list@,
                ).contains(other),
        decreases unvisited(locks, texts(list@), i as int).len(), list.len() - i,
    {
        let ghost before = list@;
        let ghost name = texts(list@)[i as int];
        assert(texts(list@).contains(name));
        assert(needed(asked, locks, unlocked@, name));
        if let Some(dependency) = get_locked(locked, list[i].as_str()) {
            add_range_names(&mut list, &dependency.dependencies);
            proof {
                assert forall|n: Seq<char>| texts(list@).contains(n) implies #[trigger] needed(
                    asked,
                    locks,
                    unlocked@,
                    n,
                ) by {
                    if !texts(before).contains(n) {
                        assert(lock_needs(locks, name, n));
                        lemma_needed_through(asked, locks, unlocked@, name, n);
                    }
                }
            }
        }
        proof {
            let all = texts(list@);
            assert(texts(before).is_prefix_of(all));
            lemma_visit_one(locks, texts(before), all, i as int);
            assert forall|j: int, other: Seq<char>|
                0 <= j < i + 1 && #[trigger] lock_needs(locks, all[j], other) implies all.contains(
                other,
            ) by {
                assert(all[j] == texts(before)[j]);
                if j < i {
                    assert(texts(before).contains(other));
                }
            }
        }
        i += 1;
    }
    proof {
        let all = texts(list@);
        assert forall|name: Seq<char>, other: Seq<char>|
            all.contains(name) && #[trigger] lock_needs(locks, name, other) implies all.contains(
            other,
        ) by {
            let j = all.index_of(name);
            assert(lock_needs(locks, all[j], other));
        }
        assert forall|name: Seq<char>|
            needed(asked, locks, unlocked@, name) implies #[trigger] all.contains(name) by {
            lemma_closed_list_is_complete(asked, locks, unlocked@, all, name);
        }
    }
    list
}

/// The names of the locked packages that are not needed, in order.
pub fn unneeded_names(
    dependencies: &IndexMap<String, VpmDependency>,
    locked: &IndexMap<String, VpmLockedDependency>,
    unlocked: &UnlockedPackages,
) -> (list: Vec<String>)
    ensures
        texts(list@) == unneeded(
            dependency_entries(*dependencies),
            locked_entries(*locked),
            unlocked@,
        ),
{
    let ghost asked = dependency_entries(*dependencies);
    let ghost locks = locked_entries(*locked);
    let ghost keep = |name: Seq<char>| !needed(asked, locks, unlocked@, name);
    let needed_list = needed_names(dependencies, locked, unlocked);
    let count = count_locked(locked);
    let mut list: Vec<String> = Vec::new();
    let mut i: usize = 0;
    proof {
        assert(names(locks).take(0) =~= seq![]);
        assert(names(locks).take(0).filter(keep) =~= seq![]);
        assert(texts(list@) =~= seq![]);
    }
    while i < count
        invariant
            i <= count,
            count == locks.len(),
            asked == dependency_entries(*dependencies),
            locks == locked_entries(*locked),
            keep == (|name: Seq<char>| !needed(asked, locks, unlocked@, name)),
            forall|name: Seq<char>| #[trigger]
                texts(needed_list@).contains(name) <==> needed(asked, locks, unlocked@, name),
            texts(list@) == names(locks).take(i as int).filter(keep),
        decreases count - i,
    {
        if let Some((name, _)) = locked_at(locked, i) {
            let ghost shorter = names(locks).take(i as int);
            let ghost before = list@;
            if !contains_text(&needed_list, name.as_str()) {
                list.push(name.clone());
            }
            proof {
                assert(names(locks)[i as int] == name@);
                assert(names(locks).take(i + 1) =~= shorter.push(name@));
                lemma_filter_push(shorter, name@, keep);
                if keep(name@) {
                    assert(texts(list@) =~= texts(before).push(name@));
                }
            }
        }
        i += 1;
    }
    proof {
        assert(names(locks).take(i as int) =~= names(locks));
    }
    list
}

} // verus!
