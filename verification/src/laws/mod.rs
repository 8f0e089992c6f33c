//! What the operations are for: relations between their inputs and their results.
//!
//! The proof functions here speak of the fields of values, of the entries of maps and of the
//! places of lists, as far as they can, and of the order of versions and of what ranges accept,
//! which `versions` ties to the fields of versions in turn.

pub mod assets;
pub mod documents;
pub mod listings;
pub mod lookup;
pub mod projects;
pub mod repositories;
pub mod requests;
pub mod resolving;
pub mod sweep;
pub mod versions;
