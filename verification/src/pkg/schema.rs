//! The shape of a `.myc` recipe and of an installed-package record.
use vstd::prelude::*;

verus! {

/// A whole `.myc` recipe.
pub struct Recipe {
    pub package: Package,
    pub source: Source,
    pub build: Option<Build>,
    pub install: Install,
    pub desktop: Option<Desktop>,
    pub dependencies: Option<Dependencies>,
    pub hooks: Option<Hooks>,
}

/// `[package]`.
pub struct Package {
    pub name: String,
    pub version: String,
    pub description: String,
    pub license: Option<String>,
    pub maintainer: Option<String>,
    pub arch: Option<String>,
}

/// `[source]`; `source_type` is the file's `type`: `github-release`, `url`
/// or `git`.
pub struct Source {
    pub source_type: String,
    pub repo: Option<String>,
    pub tag: Option<String>,
    pub asset: Option<String>,
    pub url: Option<String>,
    /// `sha256:` followed by the lowercase hex digest.
    pub checksum: Option<String>,
}

/// `[build]`: the build system, and commands that replace its defaults.
pub struct Build {
    pub system: String,
    pub commands: Option<Vec<String>>,
}

/// One entry of `install.binaries`: a path inside the unpacked source
/// (installed under the same name), a table `{ from, to }`, or anything
/// else. A table field that is missing or not a string is `None`.
pub enum BinaryEntry {
    Path(String),
    Table { from: Option<String>, to: Option<String> },
    Other,
}

/// `[install]`.
pub struct Install {
    /// Defaults to `/usr`.
    pub prefix: Option<String>,
    pub binaries: Option<Vec<BinaryEntry>>,
    pub icons: Option<Vec<Icon>>,
    pub script: Option<String>,
}

/// One icon to install into the hicolor theme.
pub struct Icon {
    pub src: String,
    pub name: String,
    pub size: u32,
}

/// `[desktop]`: the `.desktop` entry; `exec_cmd` is the file's `exec`.
pub struct Desktop {
    pub name: String,
    pub exec_cmd: String,
    pub icon: String,
    pub categories: Option<Vec<String>>,
    pub mime: Option<Vec<String>>,
}

/// `[dependencies]`.
pub struct Dependencies {
    pub runtime: Option<Vec<String>>,
    pub build: Option<Vec<String>>,
    pub optional: Option<Vec<String>>,
}

/// `[hooks]`: shell commands run after install and after removal.
pub struct Hooks {
    pub post_install: Option<String>,
    pub post_remove: Option<String>,
}

/// What the package database records of an installed package.
pub struct InstalledPackage {
    pub name: String,
    pub version: String,
    /// RFC 3339 time of installation.
    pub installed_at: String,
    pub files: InstalledFiles,
}

/// The files a package installed, removed again with it.
pub struct InstalledFiles {
    pub installed: Vec<String>,
}

} // verus!
