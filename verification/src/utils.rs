//! Helpers that are shared across the library.

pub mod file_name;
pub mod path_util;
