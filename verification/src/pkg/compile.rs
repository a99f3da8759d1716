//! Which shell commands build a source package, by build system.
use vstd::prelude::*;
use crate::pkg::schema::Build;
use crate::text::{str_eq, str_views};

verus! {

/// The build system named in a recipe is not one that is known.
#[derive(Clone, Copy, Debug, PartialEq, Eq, Structural)]
pub enum BuildError {
    UnknownSystem,
}

pub open spec fn make_default() -> Seq<Seq<char>> {
    seq!["make"@, "make install PREFIX=/usr"@]
}

pub open spec fn cmake_default() -> Seq<Seq<char>> {
    seq!["cmake -B build -DCMAKE_INSTALL_PREFIX=/usr"@, "cmake --build build"@, "cmake --install build"@]
}

pub open spec fn meson_default() -> Seq<Seq<char>> {
    seq!["meson setup build --prefix=/usr"@, "ninja -C build"@, "ninja -C build install"@]
}

/// The recipe's own commands, else the build system's defaults.
pub open spec fn commands_or(b: Build, default: Seq<Seq<char>>) -> Seq<Seq<char>> {
    match b.commands {
        Some(c) => str_views(c@),
        None => default,
    }
}

/// The commands that build a package, run in turn with `sh -c` in the
/// unpacked source; the build stops at the first that fails. `make`,
/// `cmake` and `meson` take the recipe's `commands` when it has them;
/// `cargo`, `go` and `script` always run their one command.
pub open spec fn build_commands(b: Build) -> Option<Seq<Seq<char>>> {
    let s = b.system@;
    if s == "make"@ {
        Some(commands_or(b, make_default()))
    } else if s == "cmake"@ {
        Some(commands_or(b, cmake_default()))
    } else if s == "meson"@ {
        Some(commands_or(b, meson_default()))
    } else if s == "cargo"@ {
        Some(seq!["cargo build --release"@])
    } else if s == "go"@ {
        Some(seq!["go build -o /usr/bin/$(basename $(pwd))"@])
    } else if s == "script"@ {
        Some(seq!["bash install.sh"@])
    } else {
        None
    }
}

fn owned(v: &Vec<String>) -> (r: Vec<String>)
    ensures
        str_views(r@) == str_views(v@),
{
    let mut r: Vec<String> = Vec::new();
    let mut i: usize = 0;
    while i < v.len()
        invariant
            i <= v.len(),
            str_views(r@) == str_views(v@).take(i as int),
        decreases v.len() - i,
    {
        let c = v[i].clone();
        r.push(c);
        assert(str_views(r@) =~= str_views(v@).take(i + 1)) by {
            assert(str_views(r@).drop_last() =~= str_views(v@).take(i as int));
        }
        i += 1;
    }
    assert(str_views(v@).take(v.len() as int) =~= str_views(v@));
    r
}

fn or_default(build: &Build, default: Vec<String>) -> (r: Vec<String>)
    ensures
        str_views(r@) == commands_or(*build, str_views(default@)),
{
    match &build.commands {
        Some(c) => owned(c),
        None => default,
    }
}

fn run_make(build: &Build) -> (r: Vec<String>)
    ensures
        str_views(r@) == commands_or(*build, make_default()),
{
    let d = vec![String::from_str("make"), String::from_str("make install PREFIX=/usr")];
    assert(str_views(d@) =~= make_default());
    or_default(build, d)
}

fn run_cmake(build: &Build) -> (r: Vec<String>)
    ensures
        str_views(r@) == commands_or(*build, cmake_default()),
{
    let d = vec![
        String::from_str("cmake -B build -DCMAKE_INSTALL_PREFIX=/usr"),
        String::from_str("cmake --build build"),
        String::from_str("cmake --install build"),
    ];
    assert(str_views(d@) =~= cmake_default());
    or_default(build, d)
}

fn run_meson(build: &Build) -> (r: Vec<String>)
    ensures
        str_views(r@) == commands_or(*build, meson_default()),
{
    let d = vec![
        String::from_str("meson setup build --prefix=/usr"),
        String::from_str("ninja -C build"),
        String::from_str("ninja -C build install"),
    ];
    assert(str_views(d@) =~= meson_default());
    or_default(build, d)
}

fn one(cmd: &str) -> (r: Vec<String>)
    ensures
        str_views(r@) == seq![cmd@],
{
    let r = vec![cmd.to_string()];
    assert(str_views(r@) =~= seq![cmd@]);
    r
}

fn run_cargo() -> (r: Vec<String>)
    ensures
        str_views(r@) == seq!["cargo build --release"@],
{
    one("cargo build --release")
}

fn run_go() -> (r: Vec<String>)
    ensures
        str_views(r@) == seq!["go build -o /usr/bin/$(basename $(pwd))"@],
{
    one("go build -o /usr/bin/$(basename $(pwd))")
}

fn run_script() -> (r: Vec<String>)
    ensures
        str_views(r@) == seq!["bash install.sh"@],
{
    one("bash install.sh")
}

/// The commands that build a package with the recipe's build system, or
/// `UnknownSystem` for a system that is not known.
pub fn run(build: &Build) -> (r: Result<Vec<String>, BuildError>)
    ensures
        match build_commands(*build) {
            Some(c) => r matches Ok(v) && str_views(v@) == c,
            None => r == Err::<Vec<String>, BuildError>(BuildError::UnknownSystem),
        },
{
    let s = build.system.as_str();
    if str_eq(s, "make") {
        Ok(run_make(build))
    } else if str_eq(s, "cmake") {
        Ok(run_cmake(build))
    } else if str_eq(s, "meson") {
        Ok(run_meson(build))
    } else if str_eq(s, "cargo") {
        Ok(run_cargo())
    } else if str_eq(s, "go") {
        Ok(run_go())
    } else if str_eq(s, "script") {
        Ok(run_script())
    } else {
        Err(BuildError::UnknownSystem)
    }
}

} // verus!
