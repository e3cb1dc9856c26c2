//! Filesystem-safe file names.
//!
//! [`utils::path_util::PathUtil`] strips the characters that some common
//! platform refuses in a file name from the final segment of a path, and
//! numbers a final segment until the path no longer collides with an existing
//! entry. [`utils::file_name`] holds the rules on the names themselves, and
//! [`fabric`] the records of the Fabric version catalogue.

pub mod error;
pub mod fabric;
pub mod utils;
