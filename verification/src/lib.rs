//! The core of a package manager for Unity projects.
//!
//! An [`environment`] knows the packages of the repositories and folders of a user; a
//! [`project`] has a [`manifest`] that says which packages it asks for and which are locked.
//! The other modules hold the parts of these: versions and ranges of versions, JSON documents,
//! the list of the user's repositories, requests to install packages, and the assets that
//! packages replace.
//!
//! What the operations are for is stated and proved in [`laws`].
//!
//! Reading and writing files, downloads and the formats of documents are left to the caller:
//! functions here take what was read and give back what is to be done or written.

pub mod environment;
pub mod errors;
pub mod files;
pub mod json;
pub mod laws;
pub mod layout;
pub mod legacy;
pub mod listing;
pub mod manifest;
pub mod marking;
pub mod order;
pub mod ordered_map;
pub mod package_info;
pub mod paths;
pub mod project;
pub mod remote;
pub mod repo_holder;
pub mod request;
pub mod resolve;
pub mod search;
pub mod selector;
pub mod seqs;
pub mod structs;
pub mod text;
pub mod user_repos;
pub mod version;
