//! The user's list of repositories in the settings document.
use crate::json::{
    array_elements, array_value, clone_value, elements, elements_mut, get_member, get_member_mut,
    insert_member, member, object_members, JsonMap,
};
use crate::repo_holder::{
    lemma_dropped_keeps_none, lemma_none_at, none_at, repo_at, repo_dropped, LoadedRepo, RepoHolder,
};
use crate::seqs::{lemma_select_front, lemma_select_push, lemma_selected_is_there, select};
use crate::structs::{optional_text, LocalCachedRepository, UserRepoSetting};
use crate::text::same_text;
use serde_json::Value;
use vstd::prelude::*;

verus! {

/// The name of the list in the settings document.
pub open spec fn user_repos_key() -> Seq<char> {
    "userRepos"@
}

/// The elements of the list under `key`, if there is a list.
pub open spec fn list_elements(document: Map<Seq<char>, Value>, key: Seq<char>) -> Option<
    Seq<Value>,
> {
    if document.contains_key(key) {
        array_elements(document[key])
    } else {
        None
    }
}

/// `after` is `before` with the list of repositories set to `elements`.
pub open spec fn repos_replaced(
    before: Map<Seq<char>, Value>,
    after: Map<Seq<char>, Value>,
    elements: Seq<Value>,
) -> bool {
    &&& after == before.insert(user_repos_key(), after[user_repos_key()])
    &&& list_elements(after, user_repos_key()) == Some(elements)
}

/// The value under `key`: an empty list where there is none.
pub fn list_value(settings: &JsonMap, key: &str) -> (value: Value)
    ensures
        (match member(*settings, key@) {
            Some(found) => value == found,
            None => array_elements(value) == Some(Seq::<Value>::empty()),
        }),
{
    match get_member(settings, key) {
        Some(found) => clone_value(found),
        None => array_value(Vec::new()),
    }
}

/// How many repositories the list has; `None` where there is no list.
pub fn count_user_repos(settings: &JsonMap) -> (count: Option<usize>)
    ensures
        (match list_elements(object_members(*settings), user_repos_key()) {
            Some(list) => count == Some(list.len() as usize) && list.len() <= usize::MAX,
            None => count is None,
        }),
{
    match get_member(settings, "userRepos") {
        Some(found) => match elements(found) {
            Some(list) => Some(list.len()),
            None => None,
        },
        None => None,
    }
}

/// Whether there is no list or what stands in its place is one.
pub(crate) fn has_room(settings: &JsonMap) -> (room: bool)
    ensures
        room == (object_members(*settings).contains_key(user_repos_key()) ==> list_elements(
            object_members(*settings),
            user_repos_key(),
        ) is Some),
{
    match get_member(settings, "userRepos") {
        Some(found) => elements(found).is_some(),
        None => true,
    }
}

/// Adds `repo` to the end of the list, which is made where there is none.
pub(crate) fn push_user_repo(settings: &mut JsonMap, repo: Value)
    requires
        object_members(*old(settings)).contains_key(user_repos_key()) ==> list_elements(
            object_members(*old(settings)),
            user_repos_key(),
        ) is Some,
    ensures
        repos_replaced(
            object_members(*old(settings)),
            object_members(*final(settings)),
            (match list_elements(object_members(*old(settings)), user_repos_key()) {
                Some(elements) => elements.push(repo),
                None => seq![repo],
            }),
        ),
{
    if let Some(found) = get_member_mut(settings, "userRepos") {
        if let Some(list) = elements_mut(found) {
            list.push(repo);
        }
        return;
    }
    let mut list: Vec<Value> = Vec::new();
    list.push(repo);
    proof {
        assert(list@ =~= seq![repo]);
    }
    insert_member(settings, "userRepos".to_owned(), array_value(list));
}

/// Replaces the element of the list at `index`.
pub(crate) fn replace_user_repo(settings: &mut JsonMap, index: usize, repo: Value)
    requires
        list_elements(object_members(*old(settings)), user_repos_key()) matches Some(elements)
            && index < elements.len(),
    ensures
        repos_replaced(
            object_members(*old(settings)),
            object_members(*final(settings)),
            list_elements(object_members(*old(settings)), user_repos_key())->0.update(
                index as int,
                repo,
            ),
        ),
{
    if let Some(found) = get_member_mut(settings, "userRepos") {
        if let Some(list) = elements_mut(found) {
            list.set(index, repo);
        }
    }
}

/// Takes the element of the list at `index` out.
fn remove_user_repo(settings: &mut JsonMap, index: usize)
    requires
        list_elements(object_members(*old(settings)), user_repos_key()) matches Some(elements)
            && index < elements.len(),
    ensures
        repos_replaced(
            object_members(*old(settings)),
            object_members(*final(settings)),
            list_elements(object_members(*old(settings)), user_repos_key())->0.remove(index as int),
        ),
{
    if let Some(found) = get_member_mut(settings, "userRepos") {
        if let Some(list) = elements_mut(found) {
            let _ = list.remove(index);
        }
    }
}

/// Leaves in the list only the elements that `keep` marks.
pub(crate) fn retain_user_repos(settings: &mut JsonMap, keep: &Vec<bool>)
    requires
        list_elements(object_members(*old(settings)), user_repos_key()) matches Some(elements)
            && elements.len() == keep@.len(),
    ensures
        repos_replaced(
            object_members(*old(settings)),
            object_members(*final(settings)),
            select(list_elements(object_members(*old(settings)), user_repos_key())->0, keep@),
        ),
{
    let ghost before = object_members(*settings);
    let ghost all = list_elements(before, user_repos_key())->0;
    let mut i: usize = keep.len();
    proof {
        assert(all.take(i as int) + select(all.skip(i as int), keep@.skip(i as int)) =~= all);
        assert(before =~= before.insert(user_repos_key(), before[user_repos_key()]));
    }
    while i > 0
        invariant
            i <= keep@.len(),
            keep@.len() == all.len(),
            repos_replaced(
                before,
                object_members(*settings),
                all.take(i as int) + select(all.skip(i as int), keep@.skip(i as int)),
            ),
        decreases i,
    {
        i -= 1;
        let ghost rest = select(all.skip(i + 1), keep@.skip(i + 1));
        proof {
            lemma_select_front(all.skip(i as int), keep@.skip(i as int));
            assert(all.skip(i as int).drop_first() =~= all.skip(i + 1));
            assert(keep@.skip(i as int).drop_first() =~= keep@.skip(i + 1));
            assert(all.take(i + 1) =~= all.take(i as int).push(all[i as int]));
        }
        if !keep[i] {
            remove_user_repo(settings, i);
            proof {
                assert((all.take(i + 1) + rest).remove(i as int) =~= all.take(i as int) + rest);
                let after = object_members(*settings);
                assert(after =~= before.insert(user_repos_key(), after[user_repos_key()]));
            }
        } else {
            proof {
                assert(all.take(i + 1) + rest =~= all.take(i as int) + (seq![all[i as int]]
                    + rest));
            }
        }
    }
    proof {
        assert(all.skip(0) =~= all);
        assert(keep@.skip(0) =~= keep@);
        assert(all.take(0) + select(all, keep@) =~= select(all, keep@));
    }
}

/// The identity of a repository: its own, else the address it gives, else the one that the
/// user's list gives.
pub open spec fn identity(loaded: LocalCachedRepository, repo: UserRepoSetting) -> Option<
    Seq<char>,
> {
    match (loaded.repo.id, loaded.repo.url, repo.url) {
        (Some(id), _, _) => Some(id@),
        (None, Some(url), _) => Some(url@),
        (None, None, Some(url)) => Some(url@),
        (None, None, None) => None,
    }
}

/// Whether two optional strings are equal.
pub fn same_optional_text(a: &Option<String>, b: &Option<String>) -> (same: bool)
    ensures
        same == (optional_text(*a) == optional_text(*b)),
{
    match (a, b) {
        (Some(x), Some(y)) => same_text(x.as_str(), y.as_str()),
        (None, None) => true,
        _ => false,
    }
}

/// The identity of a repository of the user's list.
pub fn repo_identity(loaded: &LocalCachedRepository, repo: &UserRepoSetting) -> (id: Option<String>)
    ensures
        optional_text(id) == identity(*loaded, *repo),
{
    match (&loaded.repo.id, &loaded.repo.url, &repo.url) {
        (Some(id), _, _) => Some(id.clone()),
        (None, Some(url), _) => Some(url.clone()),
        (None, None, Some(url)) => Some(url.clone()),
        (None, None, None) => None,
    }
}

/// The identity that the repository at `index` of the user's list ought to have differs from
/// the one that it has.
pub open spec fn is_outdated(
    repos: Seq<LoadedRepo>,
    list: Seq<UserRepoSetting>,
    index: int,
) -> bool {
    repo_at(repos, list[index].local_path) matches Some(loaded) && identity(loaded, list[index])
        != optional_text(list[index].id)
}

/// `updates` gives, in order, the place and the new identity of each of the first `count`
/// repositories whose identity is out of date.
pub open spec fn lists_updates(
    repos: Seq<LoadedRepo>,
    list: Seq<UserRepoSetting>,
    count: int,
    updates: Seq<(usize, Option<String>)>,
) -> bool {
    &&& forall|k: int, l: int|
        0 <= k < l < updates.len() ==> (#[trigger] updates[k]).0 < (#[trigger] updates[l]).0
    &&& forall|k: int|
        0 <= k < updates.len() ==> {
            &&& (#[trigger] updates[k]).0 < count
            &&& is_outdated(repos, list, updates[k].0 as int)
            &&& repo_at(repos, list[updates[k].0 as int].local_path) matches Some(loaded)
            &&& optional_text(updates[k].1) == identity(loaded, list[updates[k].0 as int])
        }
    &&& forall|i: int|
        0 <= i < count && #[trigger] is_outdated(repos, list, i) ==> exists|k: int|
            0 <= k < updates.len() && (#[trigger] updates[k]).0 == i
}

/// The repositories of the user's list whose identity is out of date, by place, with the
/// identity that they ought to have.
pub fn outdated_identities(holder: &RepoHolder, list: &Vec<UserRepoSetting>) -> (updates: Vec<
    (usize, Option<String>),
>)
    requires
        forall|i: int|
            0 <= i < list@.len() ==> repo_at(holder.repos@, (#[trigger] list@[i]).local_path)
                is Some,
    ensures
        lists_updates(holder.repos@, list@, list@.len() as int, updates@),
{
    let mut updates: Vec<(usize, Option<String>)> = Vec::new();
    let ghost repos = holder.repos@;
    let mut i: usize = 0;
    while i < list.len()
        invariant
            i <= list.len(),
            repos == holder.repos@,
            forall|j: int|
                0 <= j < list@.len() ==> repo_at(repos, (#[trigger] list@[j]).local_path) is Some,
            lists_updates(repos, list@, i as int, updates@),
        decreases list.len() - i,
    {
        let ghost before = updates@;
        if let Some(loaded) = holder.get_repo(&list[i].local_path) {
            let id = repo_identity(loaded, &list[i]);
            if !same_optional_text(&id, &list[i].id) {
                updates.push((i, id));
            }
        }
        proof {
            assert forall|j: int|
                0 <= j < i + 1 && #[trigger] is_outdated(repos, list@, j) implies exists|k: int|
                0 <= k < updates@.len() && (#[trigger] updates@[k]).0 == j by {
                if j < i {
                    let k = choose|k: int| 0 <= k < before.len() && (#[trigger] before[k]).0 == j;
                    assert(updates@[k] == before[k]);
                } else {
                    assert(updates@[before.len() as int].0 == i);
                }
            }
        }
        i += 1;
    }
    updates
}

/// The entry with the identity `id`, and else as it is.
pub fn with_identity(repo: UserRepoSetting, id: Option<String>) -> (new: UserRepoSetting)
    ensures
        new.id == id,
        new.local_path == repo.local_path,
        new.name == repo.name,
        new.url == repo.url,
{
    UserRepoSetting { local_path: repo.local_path, name: repo.name, url: repo.url, id }
}

/// An earlier repository of the list has the same identity.
pub open spec fn is_repeat(list: Seq<UserRepoSetting>, index: int) -> bool {
    list[index].id is Some && exists|i: int|
        0 <= i < index && optional_text((#[trigger] list[i]).id) == optional_text(list[index].id)
}

/// Marks the repositories of the list that repeat no earlier one.
pub open spec fn first_marks(list: Seq<UserRepoSetting>) -> Seq<bool> {
    Seq::new(list.len(), |i: int| !is_repeat(list, i))
}

/// Marks the repositories of the list that repeat no earlier one.
pub fn mark_firsts(list: &Vec<UserRepoSetting>) -> (keep: Vec<bool>)
    ensures
        keep@ == first_marks(list@),
{
    let mut keep: Vec<bool> = Vec::new();
    let mut i: usize = 0;
    while i < list.len()
        invariant
            i <= list.len(),
            keep@.len() == i,
            forall|j: int| 0 <= j < i ==> #[trigger] keep@[j] == !is_repeat(list@, j),
        decreases list.len() - i,
    {
        let mut repeated = false;
        if list[i].id.is_some() {
            let mut k: usize = 0;
            while k < i
                invariant
                    k <= i,
                    i < list.len(),
                    repeated == exists|j: int|
                        0 <= j < k && optional_text((#[trigger] list@[j]).id) == optional_text(
                            list@[i as int].id,
                        ),
                decreases i - k,
            {
                if same_optional_text(&list[k].id, &list[i].id) {
                    repeated = true;
                }
                k += 1;
            }
        }
        assert(repeated == is_repeat(list@, i as int));
        keep.push(!repeated);
        i += 1;
    }
    proof {
        assert(keep@ =~= first_marks(list@));
    }
    keep
}

/// The loaded repositories after those that `keep` does not mark are dropped, in order.
pub open spec fn unmarked_dropped(
    repos: Seq<LoadedRepo>,
    list: Seq<UserRepoSetting>,
    keep: Seq<bool>,
    count: int,
) -> Seq<LoadedRepo>
    decreases count,
{
    if count <= 0 {
        repos
    } else {
        let before = unmarked_dropped(repos, list, keep, count - 1);
        if keep[count - 1] {
            before
        } else {
            repo_dropped(before, list[count - 1].local_path)
        }
    }
}

/// Drops the loaded repositories that `keep` does not mark; says whether there is one.
pub(crate) fn drop_unmarked(
    holder: &mut RepoHolder,
    list: &Vec<UserRepoSetting>,
    keep: &Vec<bool>,
) -> (dropped: bool)
    requires
        old(holder).well_formed(),
        list@.len() == keep@.len(),
    ensures
        final(holder).well_formed(),
        forall|i: int|
            0 <= i < keep@.len() && !#[trigger] keep@[i] ==> repo_at(
                final(holder).repos@,
                list@[i].local_path,
            ) is None,
        final(holder).repos@ == unmarked_dropped(
            old(holder).repos@,
            list@,
            keep@,
            list@.len() as int,
        ),
        dropped == exists|i: int| 0 <= i < keep@.len() && !#[trigger] keep@[i],
{
    let ghost before = holder.repos@;
    let mut dropped = false;
    let mut i: usize = 0;
    while i < list.len()
        invariant
            i <= list.len(),
            list@.len() == keep@.len(),
            holder.well_formed(),
            forall|j: int|
                0 <= j < i && !#[trigger] keep@[j] ==> none_at(holder.repos@, list@[j].local_path),
            holder.repos@ == unmarked_dropped(before, list@, keep@, i as int),
            dropped == exists|j: int| 0 <= j < i && !#[trigger] keep@[j],
        decreases list.len() - i,
    {
        if !keep[i] {
            let ghost held = holder.repos@;
            holder.remove_repo(&list[i].local_path);
            dropped = true;
            proof {
                lemma_none_at(holder.repos@, list@[i as int].local_path);
                assert forall|j: int| 0 <= j < i && !#[trigger] keep@[j] implies none_at(
                    holder.repos@,
                    list@[j].local_path,
                ) by {
                    lemma_dropped_keeps_none(
                        held,
                        list@[i as int].local_path,
                        list@[j].local_path,
                    );
                }
            }
        }
        i += 1;
    }
    proof {
        assert forall|j: int| 0 <= j < keep@.len() && !#[trigger] keep@[j] implies repo_at(
            holder.repos@,
            list@[j].local_path,
        ) is None by {
            lemma_none_at(holder.repos@, list@[j].local_path);
        }
    }
    dropped
}

/// Of the repositories that repeat no earlier one no two have the same identity, and every
/// identity of the list is that of one of them.
pub proof fn law_first_repositories_stand_for_all(list: Seq<UserRepoSetting>)
    ensures
        forall|i: int, j: int|
            0 <= i < j < list.len() && #[trigger] first_marks(list)[i] && #[trigger] first_marks(
                list,
            )[j] && list[j].id is Some ==> optional_text(list[i].id) != optional_text(list[j].id),
        forall|i: int|
            0 <= i < list.len() && (#[trigger] list[i]).id is Some ==> exists|j: int|
                0 <= j <= i && #[trigger] first_marks(list)[j] && optional_text(list[j].id)
                    == optional_text(list[i].id),
{
    assert forall|i: int| 0 <= i < list.len() && (#[trigger] list[i]).id is Some implies exists|
        j: int,
    |
        0 <= j <= i && #[trigger] first_marks(list)[j] && optional_text(list[j].id)
            == optional_text(list[i].id) by {
        lemma_some_first(list, i);
    }
}

proof fn lemma_some_first(list: Seq<UserRepoSetting>, index: int)
    requires
        0 <= index < list.len(),
        list[index].id is Some,
    ensures
        exists|j: int|
            0 <= j <= index && #[trigger] first_marks(list)[j] && optional_text(list[j].id)
                == optional_text(list[index].id),
    decreases index,
{
    if is_repeat(list, index) {
        let earlier = choose|i: int|
            0 <= i < index && optional_text((#[trigger] list[i]).id) == optional_text(
                list[index].id,
            );
        lemma_some_first(list, earlier);
    } else {
        assert(first_marks(list)[index]);
    }
}

/// Taking the repeats out once is enough: what is left repeats nothing.
pub proof fn law_second_pass_drops_nothing(list: Seq<UserRepoSetting>, index: int)
    requires
        0 <= index < select(list, first_marks(list)).len(),
    ensures
        !is_repeat(select(list, first_marks(list)), index),
    decreases list.len(),
{
    let marks = first_marks(list);
    let kept = select(list, marks);
    if list.len() > 0 {
        let shorter = list.drop_last();
        let last = list.last();
        let place = list.len() - 1;
        let before = select(shorter, first_marks(shorter));
        assert forall|i: int| 0 <= i < shorter.len() implies is_repeat(shorter, i) == is_repeat(
            list,
            i,
        ) by {
            if is_repeat(list, i) {
                let k = choose|k: int|
                    0 <= k < i && optional_text((#[trigger] list[k]).id) == optional_text(
                        list[i].id,
                    );
                assert(shorter[k] == list[k]);
            }
            if is_repeat(shorter, i) {
                let k = choose|k: int|
                    0 <= k < i && optional_text((#[trigger] shorter[k]).id) == optional_text(
                        shorter[i].id,
                    );
                assert(shorter[k] == list[k]);
            }
        }
        assert(list =~= shorter.push(last));
        assert(marks =~= first_marks(shorter).push(marks[place]));
        lemma_select_push(shorter, first_marks(shorter), last, marks[place]);
        if index < before.len() {
            law_second_pass_drops_nothing(shorter, index);
            if is_repeat(kept, index) {
                let k = choose|k: int|
                    0 <= k < index && optional_text((#[trigger] kept[k]).id) == optional_text(
                        kept[index].id,
                    );
                assert(before[k] == kept[k]);
                assert(is_repeat(before, index));
            }
        } else if is_repeat(kept, index) {
            let k = choose|k: int|
                0 <= k < index && optional_text((#[trigger] kept[k]).id) == optional_text(
                    kept[index].id,
                );
            assert(before[k] == kept[k]);
            lemma_selected_is_there(shorter, first_marks(shorter), before[k]);
            let from = shorter.index_of(before[k]);
            assert(list[from] == before[k]);
            assert(is_repeat(list, place));
        }
    }
}

/// A repository that was given the identity that it ought to have is up to date.
pub proof fn law_updated_repository_is_current(
    repos: Seq<LoadedRepo>,
    list: Seq<UserRepoSetting>,
    index: int,
    updated: UserRepoSetting,
)
    requires
        0 <= index < list.len(),
        repo_at(repos, list[index].local_path) matches Some(loaded) && optional_text(updated.id)
            == identity(loaded, list[index]),
        updated.local_path == list[index].local_path,
        updated.url == list[index].url,
    ensures
        !is_outdated(repos, list.update(index, updated), index),
{
}

} // verus!
