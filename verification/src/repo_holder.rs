//! The repositories that are loaded, each under the path of its cached copy.
use crate::paths::{paths_equal, same_path};
use crate::structs::LocalCachedRepository;
use std::path::PathBuf;
use vstd::prelude::*;

verus! {

/// A loaded repository with the path of its cached copy.
pub type LoadedRepo = (PathBuf, LocalCachedRepository);

/// The place of the first repository under `path`; past the end where there is none.
pub open spec fn repo_index(repos: Seq<LoadedRepo>, path: PathBuf) -> int
    decreases repos.len(),
{
    if repos.len() == 0 || paths_equal(repos[0].0, path) {
        0
    } else {
        1 + repo_index(repos.drop_first(), path)
    }
}

/// The repository under `path`, if one is loaded.
pub open spec fn repo_at(repos: Seq<LoadedRepo>, path: PathBuf) -> Option<LocalCachedRepository> {
    if repo_index(repos, path) < repos.len() {
        Some(repos[repo_index(repos, path)].1)
    } else {
        None
    }
}

/// The repositories after the one under `path` is dropped.
pub open spec fn repo_dropped(repos: Seq<LoadedRepo>, path: PathBuf) -> Seq<LoadedRepo> {
    if repo_index(repos, path) < repos.len() {
        repos.remove(repo_index(repos, path))
    } else {
        repos
    }
}

/// The repositories after `repo` is put under `path`: in place of the one there, else last.
pub open spec fn repo_put(
    repos: Seq<LoadedRepo>,
    path: PathBuf,
    repo: LocalCachedRepository,
) -> Seq<LoadedRepo> {
    let index = repo_index(repos, path);
    if index < repos.len() {
        repos.update(index, (repos[index].0, repo))
    } else {
        repos.push((path, repo))
    }
}

/// No two repositories stand under equal paths.
pub open spec fn paths_differ(repos: Seq<LoadedRepo>) -> bool {
    forall|i: int, j: int|
        0 <= i < repos.len() && 0 <= j < repos.len() && i != j ==> !paths_equal(
            (#[trigger] repos[i]).0,
            (#[trigger] repos[j]).0,
        )
}

/// No package is in a repository twice.
pub open spec fn packages_differ(repos: Seq<LoadedRepo>) -> bool {
    forall|i: int| 0 <= i < repos.len() ==> (#[trigger] repos[i]).1.repo.well_formed()
}

/// No repository stands under `path`.
pub open spec fn none_at(repos: Seq<LoadedRepo>, path: PathBuf) -> bool {
    forall|i: int| 0 <= i < repos.len() ==> !paths_equal((#[trigger] repos[i]).0, path)
}

/// Where the search for a path ends.
pub proof fn lemma_repo_index(repos: Seq<LoadedRepo>, path: PathBuf)
    ensures
        0 <= repo_index(repos, path) <= repos.len(),
        repo_index(repos, path) < repos.len() ==> paths_equal(
            repos[repo_index(repos, path)].0,
            path,
        ),
        forall|i: int|
            0 <= i < repo_index(repos, path) ==> !paths_equal((#[trigger] repos[i]).0, path),
    decreases repos.len(),
{
    if repos.len() > 0 && !paths_equal(repos[0].0, path) {
        let rest = repos.drop_first();
        lemma_repo_index(rest, path);
        assert forall|i: int| 0 <= i < repo_index(repos, path) implies !paths_equal(
            (#[trigger] repos[i]).0,
            path,
        ) by {
            if i > 0 {
                assert(rest[i - 1] == repos[i]);
            }
        }
    }
}

/// Nothing is found under a path exactly where no repository stands under it.
pub proof fn lemma_none_at(repos: Seq<LoadedRepo>, path: PathBuf)
    ensures
        repo_at(repos, path) is None <==> none_at(repos, path),
{
    lemma_repo_index(repos, path);
}

/// Dropping a repository brings none under a path where there was none.
pub proof fn lemma_dropped_keeps_none(repos: Seq<LoadedRepo>, gone: PathBuf, path: PathBuf)
    requires
        none_at(repos, path),
    ensures
        none_at(repo_dropped(repos, gone), path),
{
    lemma_repo_index(repos, gone);
    let index = repo_index(repos, gone);
    if index < repos.len() {
        let after = repos.remove(index);
        assert forall|i: int| 0 <= i < after.len() implies !paths_equal(
            (#[trigger] after[i]).0,
            path,
        ) by {
            let from = if i < index {
                i
            } else {
                i + 1
            };
            assert(after[i] == repos[from]);
        }
    }
}

/// Repositories under different paths stay so when one is dropped, and none is left under that
/// path if what equals it equals the same paths.
proof fn lemma_dropped(repos: Seq<LoadedRepo>, path: PathBuf)
    requires
        paths_differ(repos),
        packages_differ(repos),
        repo_index(repos, path) < repos.len() ==> forall|c: PathBuf| #[trigger]
            paths_equal(c, repos[repo_index(repos, path)].0) == paths_equal(c, path),
    ensures
        paths_differ(repo_dropped(repos, path)),
        packages_differ(repo_dropped(repos, path)),
        none_at(repo_dropped(repos, path), path),
{
    lemma_repo_index(repos, path);
    let index = repo_index(repos, path);
    if index < repos.len() {
        let after = repos.remove(index);
        let from = |i: int|
            if i < index {
                i
            } else {
                i + 1
            };
        assert(forall|i: int| 0 <= i < after.len() ==> #[trigger] after[i] == repos[from(i)]);
        assert forall|i: int, j: int|
            0 <= i < after.len() && 0 <= j < after.len() && i != j implies !paths_equal(
            (#[trigger] after[i]).0,
            (#[trigger] after[j]).0,
        ) by {
            assert(from(i) != from(j));
            assert(!paths_equal(repos[from(i)].0, repos[from(j)].0));
        }
        assert forall|i: int| 0 <= i < after.len() implies !paths_equal(
            (#[trigger] after[i]).0,
            path,
        ) by {
            assert(!paths_equal(repos[from(i)].0, repos[index].0));
            assert(paths_equal(repos[from(i)].0, repos[index].0) == paths_equal(
                repos[from(i)].0,
                path,
            ));
        }
    }
}

/// A repository is found under the path under which it was put, and paths still differ.
proof fn lemma_put(repos: Seq<LoadedRepo>, path: PathBuf, repo: LocalCachedRepository)
    requires
        paths_equal(path, path),
        paths_differ(repos),
        packages_differ(repos),
        repo.repo.well_formed(),
        repo_index(repos, path) == repos.len() ==> forall|i: int|
            0 <= i < repos.len() ==> !paths_equal(path, (#[trigger] repos[i]).0),
    ensures
        paths_differ(repo_put(repos, path, repo)),
        packages_differ(repo_put(repos, path, repo)),
        repo_at(repo_put(repos, path, repo), path) == Some(repo),
{
    let index = repo_index(repos, path);
    let after = repo_put(repos, path, repo);
    lemma_repo_index(repos, path);
    lemma_repo_index(after, path);
    assert(forall|i: int| 0 <= i < repos.len() ==> (#[trigger] after[i]).0 == repos[i].0);
    assert(repo_index(after, path) == index) by {
        assert(paths_equal(after[index].0, path));
        if repo_index(after, path) < index {
            assert(paths_equal(repos[repo_index(after, path)].0, path));
        }
    }
}

/// The repositories that are loaded.
#[derive(Debug)]
pub struct RepoHolder {
    pub repos: Vec<LoadedRepo>,
}

impl RepoHolder {
    /// No two repositories stand under equal paths, and none holds a package twice.
    pub open spec fn well_formed(self) -> bool {
        paths_differ(self.repos@) && packages_differ(self.repos@)
    }

    /// No repository at all.
    pub fn new() -> (holder: Self)
        ensures
            holder.repos@.len() == 0,
            holder.well_formed(),
    {
        RepoHolder { repos: Vec::new() }
    }

    fn index_of(&self, path: &PathBuf) -> (index: usize)
        ensures
            index == repo_index(self.repos@, *path),
            index <= self.repos@.len(),
            forall|i: int| 0 <= i < index ==> !paths_equal(*path, (#[trigger] self.repos@[i]).0),
            index < self.repos@.len() ==> forall|c: PathBuf| #[trigger]
                paths_equal(c, self.repos@[index as int].0) == paths_equal(c, *path),
    {
        let mut i: usize = 0;
        proof {
            assert(self.repos@.skip(0) =~= self.repos@);
        }
        while i < self.repos.len()
            invariant
                i <= self.repos.len(),
                repo_index(self.repos@, *path) == i + repo_index(self.repos@.skip(i as int), *path),
                forall|j: int| 0 <= j < i ==> !paths_equal(*path, (#[trigger] self.repos@[j]).0),
            decreases self.repos.len() - i,
        {
            proof {
                assert(self.repos@.skip(i as int).drop_first() =~= self.repos@.skip(i + 1));
            }
            if same_path(&self.repos[i].0, path) {
                return i;
            }
            i += 1;
        }
        i
    }

    /// The repository under `path`, if one is loaded.
    pub fn get_repo(&self, path: &PathBuf) -> (repo: Option<&LocalCachedRepository>)
        ensures
            (match repo {
                Some(found) => repo_at(self.repos@, *path) == Some(*found),
                None => repo_at(self.repos@, *path) is None,
            }),
    {
        let index = self.index_of(path);
        if index < self.repos.len() {
            Some(&self.repos[index].1)
        } else {
            None
        }
    }

    /// Drops the repository under `path`; none is left there.
    pub fn remove_repo(&mut self, path: &PathBuf)
        requires
            old(self).well_formed(),
        ensures
            final(self).well_formed(),
            final(self).repos@ == repo_dropped(old(self).repos@, *path),
            repo_at(final(self).repos@, *path) is None,
    {
        let index = self.index_of(path);
        proof {
            lemma_dropped(self.repos@, *path);
            lemma_none_at(repo_dropped(self.repos@, *path), *path);
        }
        if index < self.repos.len() {
            let _ = self.repos.remove(index);
        }
    }

    /// Puts `repo` under `path`.
    pub fn put_repo(&mut self, path: PathBuf, repo: LocalCachedRepository)
        requires
            old(self).well_formed(),
            repo.repo.well_formed(),
        ensures
            final(self).well_formed(),
            final(self).repos@ == repo_put(old(self).repos@, path, repo),
            repo_at(final(self).repos@, path) == Some(repo),
    {
        let index = self.index_of(&path);
        // a path equals itself
        let _ = same_path(&path, &path);
        proof {
            lemma_put(self.repos@, path, repo);
        }
        if index < self.repos.len() {
            self.repos[index].1 = repo;
        } else {
            self.repos.push((path, repo));
        }
    }

    /// All repositories.
    pub fn get_repos(&self) -> (repos: Vec<&LocalCachedRepository>)
        ensures
            repos@.len() == self.repos@.len(),
            forall|i: int| 0 <= i < repos@.len() ==> *(#[trigger] repos@[i]) == self.repos@[i].1,
    {
        let mut repos: Vec<&LocalCachedRepository> = Vec::new();
        let mut i: usize = 0;
        while i < self.repos.len()
            invariant
                i <= self.repos.len(),
                repos@.len() == i,
                forall|j: int| 0 <= j < i ==> *(#[trigger] repos@[j]) == self.repos@[j].1,
            decreases self.repos.len() - i,
        {
            repos.push(&self.repos[i].1);
            i += 1;
        }
        repos
    }
}

} // verus!
