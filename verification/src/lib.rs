//! Finds licenses of the SPDX license list by their identifiers: exact
//! lookup that sets letter case aside, and a ranking of the list by
//! similarity for identifiers that the list does not hold. Beside it stand
//! the command line of `lic` and what it reads of a project's manifest.

pub mod cli;
pub mod manifest;
pub mod spdx;
pub mod text;
