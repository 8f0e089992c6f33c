//! What it comes to that a file or folder is not there.
use vstd::prelude::*;

verus! {

/// The error says that there is no such file or folder.
pub uninterp spec fn says_not_found(error: std::io::Error) -> bool;

/// `io::Error::kind`: whether it is `ErrorKind::NotFound`.
#[verifier::external_body]
pub(crate) fn is_not_found(error: &std::io::Error) -> (not_found: bool)
    ensures
        not_found == says_not_found(*error),
{
    matches!(error.kind(), std::io::ErrorKind::NotFound)
}

/// What opening a file gave; `None` where there is no such file.
pub fn opened_or_missing<T>(opened: Result<T, std::io::Error>) -> (file: Result<
    Option<T>,
    std::io::Error,
>)
    ensures
        file == (match opened {
            Ok(handle) => Ok(Some(handle)),
            Err(error) => if says_not_found(error) {
                Ok(None)
            } else {
                Err(error)
            },
        }),
{
    match opened {
        Ok(handle) => Ok(Some(handle)),
        Err(error) => if is_not_found(&error) {
            Ok(None)
        } else {
            Err(error)
        },
    }
}

/// What removing a file or folder gave: one that is not there is as good as removed.
pub fn removed_or_missing(removed: Result<(), std::io::Error>) -> (gone: Result<(), std::io::Error>)
    ensures
        gone == (match removed {
            Ok(_) => Ok(()),
            Err(error) => if says_not_found(error) {
                Ok(())
            } else {
                Err(error)
            },
        }),
{
    match removed {
        Ok(_) => Ok(()),
        Err(error) => if is_not_found(&error) {
            Ok(())
        } else {
            Err(error)
        },
    }
}

} // verus!
