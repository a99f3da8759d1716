//! `/etc/mycel.toml`, the one file that describes the system.
pub mod schema;
