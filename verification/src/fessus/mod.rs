//! FessusDE, the desktop: its configuration file `~/.config/fessus.toml`.
pub mod schema;
pub mod parser;
