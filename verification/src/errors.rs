//! What can go wrong, and how it is told.
use crate::text::texts;
use vstd::prelude::*;
use vstd::string::StringExecFns;

verus! {

/// `std::io::Error`, opaque.
#[verifier::external_type_specification]
#[verifier::external_body]
pub struct ExIoError(std::io::Error);

/// The I/O error that `serde_json` makes of one of its own.
pub uninterp spec fn io_error_of(error: serde_json::Error) -> std::io::Error;

/// `From<serde_json::Error>` of `std::io::Error`.
#[verifier::external_body]
fn json_error_to_io(error: serde_json::Error) -> (io: std::io::Error)
    ensures
        io == io_error_of(error),
{
    std::io::Error::from(error)
}

/// `Display` of `std::io::Error`. The text may come from the operating system, so nothing is
/// said of it.
#[verifier::external_body]
fn io_error_text(error: &std::io::Error) -> (text: String) {
    error.to_string()
}

/// The strings of `list`, with a comma and a space between each two.
pub open spec fn joined(list: Seq<Seq<char>>) -> Seq<char>
    decreases list.len(),
{
    if list.len() == 0 {
        seq![]
    } else if list.len() == 1 {
        list[0]
    } else {
        joined(list.drop_last()) + ", "@ + list.last()
    }
}

/// `prefix` and then the names, with a comma and a space between each two.
fn enumerate_names(prefix: &str, names: &Vec<String>) -> (text: String)
    ensures
        text@ == prefix@ + joined(texts(names@)),
{
    let ghost all = texts(names@);
    let mut text = prefix.to_owned();
    let mut i: usize = 0;
    proof {
        assert(all.take(0) =~= seq![]);
        assert(prefix@ + joined(all.take(0)) =~= prefix@);
    }
    while i < names.len()
        invariant
            i <= names.len(),
            all == texts(names@),
            text@ == prefix@ + joined(all.take(i as int)),
        decreases names.len() - i,
    {
        proof {
            assert(all.take(i + 1).drop_last() =~= all.take(i as int));
            assert(all.take(i + 1).last() == names@[i as int]@);
        }
        if i > 0 {
            text.append(", ");
        }
        text.append(names[i].as_str());
        proof {
            if i > 0 {
                assert(prefix@ + joined(all.take(i as int)) + ", "@ + names@[i as int]@ =~= prefix@
                    + joined(all.take(i + 1)));
            } else {
                assert(joined(all.take(1)) == names@[0]@);
            }
        }
        i += 1;
    }
    proof {
        assert(all.take(i as int) =~= all);
    }
    text
}

/// Why a repository was not added.
#[derive(Debug)]
pub enum AddRepositoryErr {
    Io(std::io::Error),
    AlreadyAdded,
    OfflineMode,
}

impl AddRepositoryErr {
    /// The error in words.
    pub fn message(&self) -> (text: String)
        ensures
            self is AlreadyAdded ==> text@ == "already repository added"@,
            self is OfflineMode ==> text@ == "you can't add remote repo in offline mode"@,
    {
        match self {
            AddRepositoryErr::Io(error) => io_error_text(error),
            AddRepositoryErr::AlreadyAdded => "already repository added".to_owned(),
            AddRepositoryErr::OfflineMode => {
                "you can't add remote repo in offline mode".to_owned()
            },
        }
    }
}

impl From<std::io::Error> for AddRepositoryErr {
    fn from(value: std::io::Error) -> (error: Self) {
        AddRepositoryErr::Io(value)
    }
}

impl vstd::std_specs::convert::FromSpecImpl<std::io::Error> for AddRepositoryErr {
    open spec fn obeys_from_spec() -> bool {
        true
    }

    open spec fn from_spec(value: std::io::Error) -> Self {
        AddRepositoryErr::Io(value)
    }
}

impl From<serde_json::Error> for AddRepositoryErr {
    fn from(value: serde_json::Error) -> (error: Self) {
        AddRepositoryErr::Io(json_error_to_io(value))
    }
}

impl vstd::std_specs::convert::FromSpecImpl<serde_json::Error> for AddRepositoryErr {
    open spec fn obeys_from_spec() -> bool {
        true
    }

    open spec fn from_spec(value: serde_json::Error) -> Self {
        AddRepositoryErr::Io(io_error_of(value))
    }
}

/// Why packages were not added.
#[derive(Debug)]
pub enum AddPackageErr {
    Io(std::io::Error),
    ConflictWithDependencies {
        /// The package that conflicts.
        conflict: String,
        /// The locked package that it conflicts with.
        dependency_name: String,
    },
    DependencyNotFound { dependency_name: String },
}

impl AddPackageErr {
    /// The error in words.
    pub fn message(&self) -> (text: String)
        ensures
            (match self {
                AddPackageErr::Io(_) => true,
                AddPackageErr::ConflictWithDependencies { conflict, dependency_name } => text@
                    == conflict@ + " conflicts with "@ + dependency_name@,
                AddPackageErr::DependencyNotFound { dependency_name } => text@ == "Package "@
                    + dependency_name@ + " (maybe dependencies of the package) not found"@,
            }),
    {
        match self {
            AddPackageErr::Io(error) => io_error_text(error),
            AddPackageErr::ConflictWithDependencies { conflict, dependency_name } => {
                let mut text = conflict.clone();
                text.append(" conflicts with ");
                text.append(dependency_name.as_str());
                text
            },
            AddPackageErr::DependencyNotFound { dependency_name } => {
                let mut text = "Package ".to_owned();
                text.append(dependency_name.as_str());
                text.append(" (maybe dependencies of the package) not found");
                text
            },
        }
    }
}

impl From<std::io::Error> for AddPackageErr {
    fn from(value: std::io::Error) -> (error: Self) {
        AddPackageErr::Io(value)
    }
}

impl vstd::std_specs::convert::FromSpecImpl<std::io::Error> for AddPackageErr {
    open spec fn obeys_from_spec() -> bool {
        true
    }

    open spec fn from_spec(value: std::io::Error) -> Self {
        AddPackageErr::Io(value)
    }
}

/// Why packages were not removed.
#[derive(Debug)]
pub enum RemovePackageErr {
    Io(std::io::Error),
    /// These packages are not locked.
    NotInstalled(Vec<String>),
    /// These packages need one that was to go.
    ConflictsWith(Vec<String>),
}

impl RemovePackageErr {
    /// The error in words.
    pub fn message(&self) -> (text: String)
        requires
            (match self {
                RemovePackageErr::Io(_) => true,
                RemovePackageErr::NotInstalled(names) => names@.len() > 0,
                RemovePackageErr::ConflictsWith(names) => names@.len() > 0,
            }),
        ensures
            (match self {
                RemovePackageErr::Io(_) => true,
                RemovePackageErr::NotInstalled(names) => text@
                    == "the following packages are not installed: "@ + joined(texts(names@)),
                RemovePackageErr::ConflictsWith(names) => text@
                    == "removing packages conflicts with the following packages: "@ + joined(
                    texts(names@),
                ),
            }),
    {
        match self {
            RemovePackageErr::Io(error) => io_error_text(error),
            RemovePackageErr::NotInstalled(names) => enumerate_names(
                "the following packages are not installed: ",
                names,
            ),
            RemovePackageErr::ConflictsWith(names) => enumerate_names(
                "removing packages conflicts with the following packages: ",
                names,
            ),
        }
    }
}

impl From<std::io::Error> for RemovePackageErr {
    fn from(value: std::io::Error) -> (error: Self) {
        RemovePackageErr::Io(value)
    }
}

impl vstd::std_specs::convert::FromSpecImpl<std::io::Error> for RemovePackageErr {
    open spec fn obeys_from_spec() -> bool {
        true
    }

    open spec fn from_spec(value: std::io::Error) -> Self {
        RemovePackageErr::Io(value)
    }
}

} // verus!
