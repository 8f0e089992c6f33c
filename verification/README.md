# vpm

The core of a package manager for Unity projects, verified with Verus.

`src/` is the library. It decides; it reads and writes nothing itself.

- `version`, `order`, `selector`: versions, their order, ranges of versions, choices among them
- `structs`, `ordered_map`, `json`, `paths`, `text`, `seqs`: documents and what they are made of
- `manifest`, `marking`, `project`: a project, what it asks for, what is locked, what is needed
- `request`, `resolve`, `legacy`: installing packages, and the assets that packages replace
- `environment`, `repo_holder`, `user_repos`, `listing`, `remote`: the packages that are known, the
  user's settings, downloads
- `search`, `layout`, `files`, `errors`: finding folders, names of files, and what can go wrong

Each function states in its `ensures` what it does. Proof functions whose names begin with `law_`
state what holds of several functions together. Functions marked `external_body`, and the
`assume_specification` items in `text` and `paths`, are trusted: their doc comments say which function of another
crate or of the standard library they stand for, and what is taken for granted of it.

`app/` is ordinary Rust around the library: files, folders, downloads. It takes the formats of
documents, the loading of repositories, the search for what packages need and the installation of
packages from implementations of the traits in `app/collaborators.rs`.
