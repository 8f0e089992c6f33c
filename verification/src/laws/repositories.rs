//! The repositories that are loaded, those of the user's list, and their downloads.
use crate::environment::{
    condition_fails, lists_id, lists_path, lists_url, package_folders_key, unmarked_paths,
    with_replacements, PreDefinedRepoSource,
};
use crate::json::array_elements;
use crate::ordered_map::Entries;
use crate::paths::paths_equal;
use crate::remote::{field_views, is_file_name, preferred_file, request_fields};
use crate::repo_holder::{
    lemma_repo_index, packages_differ, paths_differ, repo_at, repo_dropped, repo_index, repo_put,
    LoadedRepo,
};
use crate::structs::{
    names_differ, optional_text, LocalCachedRepository, PackageVersions, UserRepoSetting,
};
use crate::user_repos::{
    first_marks, identity, is_outdated, is_repeat, list_elements, lists_updates, repos_replaced,
    unmarked_dropped, user_repos_key,
};
use serde_json::Value;
use std::path::PathBuf;
use vstd::prelude::*;

verus! {

/// The first repository whose path equals the one asked for is found, and none exactly where
/// there is no such repository.
pub proof fn law_repository_is_found_by_its_path(repos: Seq<LoadedRepo>, path: PathBuf)
    ensures
        (match repo_at(repos, path) {
            Some(repo) => exists|i: int| #![trigger repos[i]]
                0 <= i < repos.len() && paths_equal(repos[i].0, path) && repos[i].1 == repo
                    && forall|j: int| 0 <= j < i ==> !paths_equal((#[trigger] repos[j]).0, path),
            None => forall|i: int|
                0 <= i < repos.len() ==> !paths_equal((#[trigger] repos[i]).0, path),
        }),
{
    lemma_repo_index(repos, path);
    if repo_at(repos, path) is Some {
        let at = repo_index(repos, path);
        assert(paths_equal(repos[at].0, path));
    }
}

/// Putting a repository replaces the first one under its path, which keeps its place, or adds
/// one at the end; all others are as they were.
pub proof fn law_put_changes_one_repository(
    repos: Seq<LoadedRepo>,
    path: PathBuf,
    repo: LocalCachedRepository,
    at: int,
)
    requires
        0 <= at <= repos.len(),
        forall|j: int| 0 <= j < at ==> !paths_equal((#[trigger] repos[j]).0, path),
        at < repos.len() ==> paths_equal(repos[at].0, path),
    ensures
        at < repos.len() ==> repo_put(repos, path, repo) == repos.update(at, (repos[at].0, repo)),
        at == repos.len() ==> repo_put(repos, path, repo) == repos.push((path, repo)),
        at < repos.len() ==> repo_dropped(repos, path) == repos.remove(at),
        at == repos.len() ==> repo_dropped(repos, path) == repos,
{
    lemma_repo_index(repos, path);
    let index = repo_index(repos, path);
    if index < at {
        assert(!paths_equal(repos[index].0, path));
    }
    if at < index {
        assert(paths_equal(repos[at].0, path));
    }
}

/// Dropping a repository does not change what is found under a path of which none of the
/// repositories under the dropped path is.
pub proof fn law_dropping_keeps_the_others(repos: Seq<LoadedRepo>, gone: PathBuf, path: PathBuf)
    requires
        forall|i: int|
            0 <= i < repos.len() && paths_equal((#[trigger] repos[i]).0, gone) ==> !paths_equal(
                repos[i].0,
                path,
            ),
    ensures
        repo_at(repo_dropped(repos, gone), path) == repo_at(repos, path),
{
    let after = repo_dropped(repos, gone);
    let cut = repo_index(repos, gone);
    lemma_repo_index(repos, gone);
    lemma_repo_index(repos, path);
    lemma_repo_index(after, path);
    if cut < repos.len() {
        let old_at = repo_index(repos, path);
        let new_at = repo_index(after, path);
        assert(after == repos.remove(cut));
        assert(forall|i: int| 0 <= i < cut ==> #[trigger] after[i] == repos[i]);
        assert(forall|i: int| cut <= i < after.len() ==> #[trigger] after[i] == repos[i + 1]);
        assert(!paths_equal(repos[cut].0, path));
        let expected = if old_at < cut {
            old_at
        } else {
            old_at - 1
        };
        assert(old_at != cut);
        if new_at < expected {
            let from = if new_at < cut {
                new_at
            } else {
                new_at + 1
            };
            assert(after[new_at] == repos[from]);
            assert(!paths_equal(repos[from].0, path));
        }
        if expected < new_at {
            assert(after[expected] == repos[old_at]);
        }
    }
}

/// What the invariants of loaded repositories say.
pub proof fn law_loaded_repositories_differ(
    repos: Seq<LoadedRepo>,
    list: Seq<(String, PackageVersions)>,
)
    ensures
        paths_differ(repos) <==> forall|i: int, j: int|
            0 <= i < repos.len() && 0 <= j < repos.len() && i != j ==> !paths_equal(
                (#[trigger] repos[i]).0,
                (#[trigger] repos[j]).0,
            ),
        packages_differ(repos) <==> forall|i: int|
            0 <= i < repos.len() ==> names_differ((#[trigger] repos[i]).1.repo.packages@),
        names_differ(list) <==> forall|i: int, j: int|
            0 <= i < j < list.len() ==> (#[trigger] list[i]).0@ != (#[trigger] list[j]).0@,
{
}

/// The text that an optional string holds, if there is one.
pub proof fn law_optional_text(text: String)
    ensures
        optional_text(Some(text)) == Some(text@),
        optional_text(None) is None,
{
}

/// The identity that a repository of the list ought to have: its own, else the address that it
/// gives, else the one in the list.
pub open spec fn due_identity(loaded: LocalCachedRepository, repo: UserRepoSetting) -> Option<
    Seq<char>,
> {
    if loaded.repo.id is Some {
        Some(loaded.repo.id->0@)
    } else if loaded.repo.url is Some {
        Some(loaded.repo.url->0@)
    } else if repo.url is Some {
        Some(repo.url->0@)
    } else {
        None
    }
}

/// The identity that the list gives a repository.
pub open spec fn listed_identity(repo: UserRepoSetting) -> Option<Seq<char>> {
    if repo.id is Some {
        Some(repo.id->0@)
    } else {
        None
    }
}

/// A repository of the list gets a new identity exactly if the one that is listed is not the one
/// that it ought to have, and then it gets that one.
pub proof fn law_identities_are_updated(
    repos: Seq<LoadedRepo>,
    list: Seq<UserRepoSetting>,
    updates: Seq<(usize, Option<String>)>,
    index: int,
    loaded: LocalCachedRepository,
)
    requires
        lists_updates(repos, list, list.len() as int, updates),
        0 <= index < list.len(),
        repo_at(repos, list[index].local_path) == Some(loaded),
    ensures
        identity(loaded, list[index]) == due_identity(loaded, list[index]),
        (exists|k: int| 0 <= k < updates.len() && (#[trigger] updates[k]).0 == index)
            <==> due_identity(loaded, list[index]) != listed_identity(list[index]),
        forall|k: int|
            0 <= k < updates.len() && (#[trigger] updates[k]).0 == index ==> (
            match updates[k].1 {
                Some(text) => due_identity(loaded, list[index]) == Some(text@),
                None => due_identity(loaded, list[index]) is None,
            }),
        forall|k: int, l: int|
            0 <= k < l < updates.len() ==> (#[trigger] updates[k]).0 < (#[trigger] updates[l]).0,
        forall|k: int| 0 <= k < updates.len() ==> (#[trigger] updates[k]).0 < list.len(),
{
    assert(is_outdated(repos, list, index) <==> due_identity(loaded, list[index])
        != listed_identity(list[index]));
    if exists|k: int| 0 <= k < updates.len() && (#[trigger] updates[k]).0 == index {
        let k = choose|k: int| 0 <= k < updates.len() && (#[trigger] updates[k]).0 == index;
        assert(is_outdated(repos, list, updates[k].0 as int));
    }
}

/// A repository of the list is kept exactly if it has no identity or no earlier one has the same.
pub proof fn law_first_of_an_identity_is_kept(list: Seq<UserRepoSetting>, index: int)
    requires
        0 <= index < list.len(),
    ensures
        first_marks(list).len() == list.len(),
        first_marks(list)[index] <==> (list[index].id is None || forall|j: int|
            0 <= j < index ==> !((#[trigger] list[j]).id is Some && list[j].id->0@
                == list[index].id->0@)),
        is_repeat(list, index) <==> (list[index].id is Some && exists|j: int|
            0 <= j < index && (#[trigger] list[j]).id is Some && list[j].id->0@
                == list[index].id->0@),
{
    if is_repeat(list, index) {
        let j = choose|j: int|
            0 <= j < index && optional_text((#[trigger] list[j]).id) == optional_text(
                list[index].id,
            );
        assert(list[j].id is Some);
    }
    if list[index].id is Some && exists|j: int|
        0 <= j < index && (#[trigger] list[j]).id is Some && list[j].id->0@ == list[index].id->0@ {
        let j = choose|j: int|
            0 <= j < index && (#[trigger] list[j]).id is Some && list[j].id->0@
                == list[index].id->0@;
        assert(optional_text(list[j].id) == optional_text(list[index].id));
    }
}

/// One more repository of the list: it is dropped exactly if it is not marked.
pub proof fn law_one_more_repository_to_drop(
    repos: Seq<LoadedRepo>,
    list: Seq<UserRepoSetting>,
    keep: Seq<bool>,
    count: int,
)
    requires
        0 <= count < list.len(),
    ensures
        unmarked_dropped(repos, list, keep, 0) == repos,
        unmarked_dropped(repos, list, keep, count + 1) == (if keep[count] {
            unmarked_dropped(repos, list, keep, count)
        } else {
            repo_dropped(unmarked_dropped(repos, list, keep, count), list[count].local_path)
        }),
{
}

/// The paths of the repositories that go are those that are not marked, the last one first.
pub proof fn law_paths_of_what_goes(
    list: Seq<UserRepoSetting>,
    keep: Seq<bool>,
    repo: UserRepoSetting,
    kept: bool,
)
    requires
        list.len() == keep.len(),
    ensures
        unmarked_paths(seq![], seq![]).len() == 0,
        unmarked_paths(seq![repo] + list, seq![kept] + keep) == (if kept {
            unmarked_paths(list, keep)
        } else {
            unmarked_paths(list, keep).push(repo.local_path)
        }),
{
    let longer = seq![repo] + list;
    let marks = seq![kept] + keep;
    assert(longer.drop_first() =~= list);
    assert(marks.drop_first() =~= keep);
    assert(longer[0] == repo && marks[0] == kept);
}

/// What stays is what does not meet the condition.
pub proof fn law_condition_decides_what_goes<F: Fn(&UserRepoSetting) -> bool>(
    condition: F,
    list: Seq<UserRepoSetting>,
    keep: Seq<bool>,
    index: int,
)
    requires
        condition_fails(condition, list, keep),
        0 <= index < list.len(),
    ensures
        keep.len() == list.len(),
        condition.ensures((&list[index],), !keep[index]),
{
}

/// One more replacement puts its value at its place.
pub proof fn law_one_more_replacement(
    list: Seq<Value>,
    changes: Seq<(usize, Value)>,
    at: usize,
    value: Value,
)
    ensures
        with_replacements(list, seq![]) == list,
        with_replacements(list, changes.push((at, value))) == with_replacements(
            list,
            changes,
        ).update(at as int, value),
{
    assert(changes.push((at, value)).drop_last() =~= changes);
}

/// Which repositories count as listed: by address, by identity and by path.
pub proof fn law_listed_by_address_identity_and_path(
    list: Seq<UserRepoSetting>,
    text: Seq<char>,
    path: PathBuf,
)
    ensures
        lists_url(list, text) <==> exists|i: int|
            0 <= i < list.len() && (#[trigger] list[i]).url is Some && list[i].url->0@ == text,
        lists_id(list, text) <==> exists|i: int|
            0 <= i < list.len() && (#[trigger] list[i]).id is Some && list[i].id->0@ == text,
        lists_path(list, path) <==> exists|i: int|
            0 <= i < list.len() && paths_equal((#[trigger] list[i]).local_path, path),
{
    if lists_url(list, text) {
        let i = choose|i: int|
            0 <= i < list.len() && optional_text((#[trigger] list[i]).url) == Some(text);
        assert(list[i].url is Some);
    }
    if exists|i: int|
        0 <= i < list.len() && (#[trigger] list[i]).url is Some && list[i].url->0@ == text {
        let i = choose|i: int|
            0 <= i < list.len() && (#[trigger] list[i]).url is Some && list[i].url->0@ == text;
        assert(optional_text(list[i].url) == Some(text));
    }
    if lists_id(list, text) {
        let i = choose|i: int|
            0 <= i < list.len() && optional_text((#[trigger] list[i]).id) == Some(text);
        assert(list[i].id is Some);
    }
    if exists|i: int|
        0 <= i < list.len() && (#[trigger] list[i]).id is Some && list[i].id->0@ == text {
        let i = choose|i: int|
            0 <= i < list.len() && (#[trigger] list[i]).id is Some && list[i].id->0@ == text;
        assert(optional_text(list[i].id) == Some(text));
    }
}

/// Where the user's lists stand in the settings, and that the one of repositories alone changes
/// when it is replaced.
pub proof fn law_lists_of_the_settings(
    before: Map<Seq<char>, Value>,
    after: Map<Seq<char>, Value>,
    elements: Seq<Value>,
    other: Seq<char>,
)
    requires
        repos_replaced(before, after, elements),
        other != "userRepos"@,
    ensures
        user_repos_key() == "userRepos"@,
        package_folders_key() == "userPackageFolders"@,
        after.contains_key("userRepos"@),
        array_elements(after["userRepos"@]) == Some(elements),
        after.contains_key(other) == before.contains_key(other),
        before.contains_key(other) ==> after[other] == before[other],
        list_elements(before, other) == (if before.contains_key(other) {
            array_elements(before[other])
        } else {
            None
        }),
{
}

/// The repositories that every user has.
pub proof fn law_predefined_repositories(source: PreDefinedRepoSource)
    ensures
        source.is_official() <==> (source.file_name@ == "vrc-official.json"@ && source.url@
            == "https://packages.vrchat.com/official?download"@ && source.name@ == "Official"@),
        source.is_curated() <==> (source.file_name@ == "vrc-curated.json"@ && source.url@
            == "https://packages.vrchat.com/curated?download"@ && source.name@ == "Curated"@),
{
}

/// The header fields of a download: the entity tag first, if there is one, and then every field
/// that is kept with the repository, in order and as it is.
pub proof fn law_fields_that_are_sent(
    headers: Entries<String>,
    tag: Seq<char>,
    fields: Seq<(String, String)>,
    index: int,
)
    ensures
        request_fields(None, None).len() == 0,
        request_fields(None, Some(tag)).len() == 1,
        request_fields(None, Some(tag))[0] == ("If-None-Match"@, tag),
        request_fields(Some(headers), None).len() == headers.len(),
        request_fields(Some(headers), Some(tag)).len() == headers.len() + 1,
        request_fields(Some(headers), Some(tag))[0] == ("If-None-Match"@, tag),
        0 <= index < headers.len() ==> {
            &&& request_fields(Some(headers), None)[index] == (headers[index].0, headers[index].1@)
            &&& request_fields(Some(headers), Some(tag))[index + 1] == (
                headers[index].0,
                headers[index].1@,
            )
        },
        field_views(fields).len() == fields.len(),
        0 <= index < fields.len() ==> field_views(fields)[index] == (
            fields[index].0@,
            fields[index].1@,
        ),
{
}

/// A file can be named after an identity exactly if it has a byte, and each is a digit, a Latin
/// letter, a dot, an underscore or a hyphen.
pub proof fn law_identity_that_names_a_file(id: Seq<u8>, text: Seq<char>)
    ensures
        is_file_name(id) <==> (id.len() > 0 && forall|i: int|
            0 <= i < id.len() ==> ((0x30 <= #[trigger] id[i] && id[i] <= 0x39) || (0x61 <= id[i]
                && id[i] <= 0x7a) || (0x41 <= id[i] && id[i] <= 0x5a) || id[i] == 0x2e || id[i]
                == 0x5f || id[i] == 0x2d)),
        preferred_file(None) is None,
        preferred_file(Some(text)) == (if is_file_name(vstd::utf8::encode_utf8(text)) {
            Some(text + ".json"@)
        } else {
            None
        }),
{
    if is_file_name(id) {
        assert forall|i: int| 0 <= i < id.len() implies ((0x30 <= #[trigger] id[i] && id[i] <= 0x39)
            || (0x61 <= id[i] && id[i] <= 0x7a) || (0x41 <= id[i] && id[i] <= 0x5a) || id[i] == 0x2e
            || id[i] == 0x5f || id[i] == 0x2d) by {
            assert(crate::remote::is_file_name_byte(id[i]));
        }
    }
}

/// The entity tag of a cached repository is the one that is recorded.
pub proof fn law_recorded_tag(repo: LocalCachedRepository)
    ensures
        repo.etag() == (if repo.vrc_get is Some {
            Some(repo.vrc_get->0.etag@)
        } else {
            None
        }),
{
}

} // verus!
