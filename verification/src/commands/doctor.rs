//! `mycel doctor`: the verdicts of the health checks.
use vstd::prelude::*;
use crate::num::{parse_u64, parse_u64_str};
use crate::text::{concat3, from_chars, lines, lines_of, trim, trim_chars, trim_end_char, str_views};
use crate::order::list_contains;

verus! {

/// How much free space is left on `/`.
#[derive(Clone, Copy, Debug, PartialEq, Eq, Structural)]
pub enum DiskState {
    /// Under 512 MB: an error.
    Critical,
    /// Under 2048 MB: a warning.
    Low,
    Fine,
}

/// The verdict on the free space, in MB.
pub fn disk_state(mb: u64) -> (r: DiskState)
    ensures
        r == (if mb < 512 {
            DiskState::Critical
        } else if mb < 2048 {
            DiskState::Low
        } else {
            DiskState::Fine
        }),
{
    if mb < 512 {
        DiskState::Critical
    } else if mb < 2048 {
        DiskState::Low
    } else {
        DiskState::Fine
    }
}

/// The free megabytes in the output of `df -BM --output=avail /`: its
/// second line, trimmed, without trailing `M`s, as a number (0 when it is
/// not one); none when there is no second line.
pub open spec fn avail_of(df: Seq<char>) -> Option<u64> {
    if lines(df).len() > 1 {
        Some(match parse_u64(trim_end_char(trim(lines(df)[1]), 'M')) {
            Some(n) => n,
            None => 0,
        })
    } else {
        None
    }
}

/// Reads the free space off `df` output.
pub fn avail_mb(df_output: &str) -> (r: Option<u64>)
    ensures
        r == avail_of(df_output@),
{
    let ls = lines_of(df_output);
    if ls.len() > 1 {
        let t = trim_chars(&ls[1]);
        assert(t@ == trim(lines(df_output@)[1]));
        let u = crate::text::trim_end_chars(&t, 'M');
        let s = from_chars(u.as_slice());
        match parse_u64_str(s.as_str()) {
            Some(n) => Some(n),
            None => Some(0),
        }
    } else {
        None
    }
}

/// The core services that are not up, in the order
/// udevd, dbus, seatd, pipewire, wireplumber.
pub open spec fn missing(core: Seq<Seq<char>>, up: Seq<Seq<char>>) -> Seq<Seq<char>>
    decreases core.len(),
{
    if core.len() == 0 {
        Seq::empty()
    } else if up.contains(core.last()) {
        missing(core.drop_last(), up)
    } else {
        missing(core.drop_last(), up).push(core.last())
    }
}

/// The services that must always be up.
pub open spec fn core_services() -> Seq<Seq<char>> {
    seq!["udevd"@, "dbus"@, "seatd"@, "pipewire"@, "wireplumber"@]
}

/// The core services missing from the services that are up.
pub fn missing_core(up: &Vec<String>) -> (r: Vec<String>)
    ensures
        str_views(r@) == missing(core_services(), str_views(up@)),
{
    let core = vec![
        String::from_str("udevd"),
        String::from_str("dbus"),
        String::from_str("seatd"),
        String::from_str("pipewire"),
        String::from_str("wireplumber"),
    ];
    assert(str_views(core@) =~= core_services());
    let mut r: Vec<String> = Vec::new();
    let mut i: usize = 0;
    while i < core.len()
        invariant
            i <= core.len(),
            str_views(core@) == core_services(),
            str_views(r@) == missing(str_views(core@).take(i as int), str_views(up@)),
        decreases core.len() - i,
    {
        assert(str_views(core@).take(i + 1).drop_last() =~= str_views(core@).take(i as int));
        if !list_contains(up, core[i].as_str()) {
            let ghost before = str_views(r@);
            let c = core[i].clone();
            r.push(c);
            assert(str_views(r@) =~= before.push(core@[i as int]@));
        }
        i += 1;
    }
    assert(str_views(core@).take(core.len() as int) =~= str_views(core@));
    r
}

/// Where user `name`'s fessus.toml is expected.
pub fn fessus_config_path(name: &str) -> (r: String)
    ensures
        r@ == "/home/"@ + name@ + "/.config/fessus.toml"@,
{
    concat3("/home/", name, "/.config/fessus.toml")
}

/// The closing verdict of a doctor run.
#[derive(Clone, Copy, Debug, PartialEq, Eq, Structural)]
pub enum Verdict {
    Healthy,
    /// Some errors (warnings may come with them).
    Errors,
    /// Warnings only.
    Warnings,
}

/// The closing verdict from the numbers of errors and warnings.
pub fn verdict(errors: u64, warnings: u64) -> (r: Verdict)
    ensures
        r == (if errors == 0 && warnings == 0 {
            Verdict::Healthy
        } else if errors > 0 {
            Verdict::Errors
        } else {
            Verdict::Warnings
        }),
{
    if errors == 0 && warnings == 0 {
        Verdict::Healthy
    } else if errors > 0 {
        Verdict::Errors
    } else {
        Verdict::Warnings
    }
}

} // verus!
