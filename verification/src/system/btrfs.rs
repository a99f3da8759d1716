//! Btrfs snapshots of the root filesystem, one per generation.
use vstd::prelude::*;
use crate::num::{decimal, u64_to_string};
use crate::text::{concat, from_chars, lines, lines_of, str_eq, trim, trim_str, views, words, words_of, words_of_chars};

verus! {

/// Where the snapshots are kept.
pub const SNAPSHOTS_DIR: &'static str = "/.snapshots";

/// A `/proc/mounts` line that mounts a btrfs filesystem on `/`.
pub open spec fn btrfs_root_line(l: Seq<char>) -> bool {
    let p = words(l);
    p.len() >= 3 && p[1] == "/"@ && p[2] == "btrfs"@
}

/// Some line of `/proc/mounts` mounts btrfs on `/`.
pub open spec fn mounts_btrfs_root(mounts: Seq<char>) -> bool {
    exists|i: int| 0 <= i < lines(mounts).len() && btrfs_root_line(#[trigger] lines(mounts)[i])
}

fn is_btrfs_line(l: &Vec<char>) -> (r: bool)
    ensures
        r == btrfs_root_line(l@),
{
    let p = words_of_chars(l);
    if p.len() < 3 {
        return false;
    }
    let a = from_chars(p[1].as_slice());
    let b = from_chars(p[2].as_slice());
    assert(a@ == views(p@)[1] && b@ == views(p@)[2]);
    str_eq(a.as_str(), "/") && str_eq(b.as_str(), "btrfs")
}

/// Whether the root filesystem is btrfs, from the text of `/proc/mounts`
/// (empty when it cannot be read).
pub fn is_btrfs_root(mounts: &str) -> (r: bool)
    ensures
        r == mounts_btrfs_root(mounts@),
{
    let ls = lines_of(mounts);
    let mut i: usize = 0;
    while i < ls.len()
        invariant
            views(ls@) == lines(mounts@),
            i <= ls.len(),
            forall|k: int| 0 <= k < i ==> !btrfs_root_line(#[trigger] lines(mounts@)[k]),
        decreases ls.len() - i,
    {
        assert(ls@[i as int]@ == lines(mounts@)[i as int]);
        if is_btrfs_line(&ls[i]) {
            return true;
        }
        i += 1;
    }
    false
}

/// The root block device from the output of `findmnt -n -o SOURCE /`.
pub fn root_device(findmnt_output: &str) -> (r: String)
    ensures
        r@ == trim(findmnt_output@),
{
    trim_str(findmnt_output)
}

/// The snapshot of generation `g`: `/.snapshots/@gen-G`.
pub open spec fn snapshot_path_spec(g: u64) -> Seq<char> {
    SNAPSHOTS_DIR@ + "/@gen-"@ + decimal(g as nat)
}

/// The path of generation `g`'s snapshot.
pub fn snapshot_path(g: u64) -> (r: String)
    ensures
        r@ == snapshot_path_spec(g),
{
    let a = concat(SNAPSHOTS_DIR, "/@gen-");
    let n = u64_to_string(g);
    concat(a.as_str(), n.as_str())
}

/// The first word of a command's output, `?` when there is none (the size
/// column of `du -sh`).
pub open spec fn first_word_or_unknown(out: Seq<char>) -> Seq<char> {
    if words(out).len() > 0 {
        words(out)[0]
    } else {
        "?"@
    }
}

/// The size of a snapshot from the output of `du -sh PATH` (empty when
/// `du` could not run).
pub fn snapshot_size(du_output: &str) -> (r: String)
    ensures
        r@ == first_word_or_unknown(du_output@),
{
    let w = words_of(du_output);
    if w.len() > 0 {
        let r = from_chars(w[0].as_slice());
        assert(r@ == views(w@)[0]);
        r
    } else {
        String::from_str("?")
    }
}

} // verus!
