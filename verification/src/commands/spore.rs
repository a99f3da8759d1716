//! `mycel spore`: an ephemeral shell with extra packages on its PATH.
use vstd::prelude::*;
use crate::num::{decimal, u64_to_string};
use crate::text::{concat, concat3, join, join_strings, str_views};

verus! {

pub const SPORE_ROOT: &'static str = "/tmp/mycel-spore";

/// The spore's root for process `pid`: `SPORE_ROOT-PID`.
pub fn spore_dir(pid: u32) -> (r: String)
    ensures
        r@ == SPORE_ROOT@ + "-"@ + decimal(pid as nat),
{
    let n = u64_to_string(pid as u64);
    concat3(SPORE_ROOT, "-", n.as_str())
}

/// The directories of the spore root whose programs go on the PATH, in
/// order, when they exist.
pub fn bin_candidates(dir: &str) -> (r: Vec<String>)
    ensures
        str_views(r@) == seq![dir@ + "/usr/bin"@, dir@ + "/usr/sbin"@, dir@ + "/bin"@],
{
    let r = vec![concat(dir, "/usr/bin"), concat(dir, "/usr/sbin"), concat(dir, "/bin")];
    assert(str_views(r@) =~= seq![dir@ + "/usr/bin"@, dir@ + "/usr/sbin"@, dir@ + "/bin"@]);
    r
}

/// The shell's PATH: the spore's directories first, then the PATH it
/// inherits.
pub fn spore_path(bins: &Vec<String>, current: &str) -> (r: String)
    ensures
        r@ == join(str_views(bins@), ":"@) + ":"@ + current@,
{
    let j = join_strings(bins, ":");
    concat3(j.as_str(), ":", current)
}

/// The rc file of the shell: a prompt naming the packages, and the PATH.
pub open spec fn rc_text(packages: Seq<Seq<char>>, path: Seq<char>) -> Seq<char> {
    "export PS1='(spore:"@ + join(packages, "+"@) + ") \\u@\\h:\\w\\$ '\nexport PATH='"@ + path + "'\n"@
}

/// Writes the rc file of the spore shell.
pub fn spore_rc(packages: &Vec<String>, path: &str) -> (r: String)
    ensures
        r@ == rc_text(str_views(packages@), path@),
{
    let j = join_strings(packages, "+");
    let a = concat3("export PS1='(spore:", j.as_str(), ") \\u@\\h:\\w\\$ '\nexport PATH='");
    let r = concat3(a.as_str(), path, "'\n");
    assert(r@ =~= rc_text(str_views(packages@), path@));
    r
}

} // verus!
