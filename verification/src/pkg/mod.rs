//! mycel-pkg, the package manager: recipes (`.myc`), building, installing
//! and the record of what is installed.
pub mod schema;
pub mod checksum;
pub mod compile;
pub mod download;
pub mod archive;
pub mod install;
pub mod db;
pub mod search;
pub mod recipe_check;
