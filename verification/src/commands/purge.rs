//! `mycel purge`: which generation snapshots to delete.
use vstd::prelude::*;
use crate::system::limine::u64_list_contains;

verus! {

/// The generations `1..=n` that have a snapshot, oldest first.
pub open spec fn snapshots_upto(n: nat, snaps: Seq<u64>) -> Seq<u64>
    decreases n,
{
    if n == 0 {
        Seq::<u64>::empty()
    } else {
        let r = snapshots_upto((n - 1) as nat, snaps);
        if snaps.contains(n as u64) {
            r.push(n as u64)
        } else {
            r
        }
    }
}

/// The generations of `s` that are pinned (`want`) or not.
pub open spec fn with_pin(s: Seq<u64>, pinned: Seq<u64>, want: bool) -> Seq<u64>
    decreases s.len(),
{
    if s.len() == 0 {
        s
    } else {
        let r = with_pin(s.drop_last(), pinned, want);
        if pinned.contains(s.last()) == want {
            r.push(s.last())
        } else {
            r
        }
    }
}

/// What a purge does: the older generations with a snapshot (oldest first),
/// the pinned ones among them, and the snapshots to delete: the oldest
/// unpinned ones, leaving the newest `keep - 1` unpinned (the current
/// generation counts as one of the `keep`).
pub struct PurgePlan {
    pub snapshots: Vec<u64>,
    pub pinned: Vec<u64>,
    pub to_delete: Vec<u64>,
}

/// How many older unpinned snapshots a purge keeps: `keep` counts the
/// current generation.
pub open spec fn keep_unpinned(keep: u64) -> nat {
    if keep >= 1 {
        (keep - 1) as nat
    } else {
        0
    }
}

/// The snapshots a purge deletes: the oldest unpinned ones beyond those kept.
pub open spec fn to_delete_spec(current: u64, keep: u64, pinned: Seq<u64>, snaps: Seq<u64>) -> Seq<
    u64,
> {
    let s = snapshots_upto(if current >= 1 { (current - 1) as nat } else { 0 }, snaps);
    let deletable = with_pin(s, pinned, false);
    if deletable.len() > keep_unpinned(keep) {
        deletable.take(deletable.len() - keep_unpinned(keep))
    } else {
        Seq::<u64>::empty()
    }
}

/// Plans a purge for the current generation and the `keep` setting, given
/// which generations are pinned and which have a snapshot.
pub fn purge_plan(current: u64, keep: u64, pinned: &Vec<u64>, snapshots: &Vec<u64>) -> (p: PurgePlan)
    ensures
        p.snapshots@ == snapshots_upto(if current >= 1 { (current - 1) as nat } else { 0 }, snapshots@),
        p.pinned@ == with_pin(p.snapshots@, pinned@, true),
        p.to_delete@ == to_delete_spec(current, keep, pinned@, snapshots@),
{
    let mut snaps: Vec<u64> = Vec::new();
    let mut g: u64 = 0;
    let last = if current >= 1 {
        current - 1
    } else {
        0
    };
    while g < last
        invariant
            g <= last,
            last == (if current >= 1 { (current - 1) as nat } else { 0 }),
            snaps@ == snapshots_upto(g as nat, snapshots@),
        decreases last - g,
    {
        g += 1;
        if u64_list_contains(snapshots, g) {
            snaps.push(g);
        }
    }
    let mut pins: Vec<u64> = Vec::new();
    let mut deletable: Vec<u64> = Vec::new();
    let mut i: usize = 0;
    while i < snaps.len()
        invariant
            i <= snaps.len(),
            pins@ == with_pin(snaps@.take(i as int), pinned@, true),
            deletable@ == with_pin(snaps@.take(i as int), pinned@, false),
        decreases snaps.len() - i,
    {
        assert(snaps@.take(i + 1).drop_last() =~= snaps@.take(i as int));
        if u64_list_contains(pinned, snaps[i]) {
            pins.push(snaps[i]);
        } else {
            deletable.push(snaps[i]);
        }
        i += 1;
    }
    assert(snaps@.take(snaps.len() as int) =~= snaps@);
    let ku: u64 = if keep >= 1 {
        keep - 1
    } else {
        0
    };
    let mut to_delete: Vec<u64> = Vec::new();
    if (deletable.len() as u64) > ku {
        let n = deletable.len() - (ku as usize);
        let mut j: usize = 0;
        while j < n
            invariant
                n <= deletable.len(),
                j <= n,
                to_delete@ == deletable@.take(j as int),
            decreases n - j,
        {
            to_delete.push(deletable[j]);
            assert(deletable@.take(j + 1) =~= deletable@.take(j as int).push(deletable@[j as int]));
            j += 1;
        }
    }
    PurgePlan { snapshots: snaps, pinned: pins, to_delete }
}

proof fn lemma_with_pin(s: Seq<u64>, pinned: Seq<u64>, want: bool)
    ensures
        forall|x: u64| #[trigger] with_pin(s, pinned, want).contains(x) ==> s.contains(x) && pinned.contains(x) == want,
    decreases s.len(),
{
    if s.len() > 0 {
        lemma_with_pin(s.drop_last(), pinned, want);
        let r = with_pin(s.drop_last(), pinned, want);
        assert forall|x: u64| #[trigger] with_pin(s, pinned, want).contains(x) implies s.contains(x) && pinned.contains(x) == want by {
            let w = with_pin(s, pinned, want);
            let k = choose|k: int| 0 <= k < w.len() && w[k] == x;
            if k < r.len() {
                assert(r[k] == x);
                assert(r.contains(x));
                let m = choose|m: int| 0 <= m < s.drop_last().len() && s.drop_last()[m] == x;
                assert(s[m] == x);
            } else {
                assert(s[s.len() - 1] == x);
            }
        }
    }
}

proof fn lemma_snapshots_upto(n: nat, snaps: Seq<u64>)
    requires
        n <= u64::MAX,
    ensures
        forall|x: u64| #[trigger] snapshots_upto(n, snaps).contains(x) ==> 1 <= x <= n,
    decreases n,
{
    if n > 0 {
        lemma_snapshots_upto((n - 1) as nat, snaps);
        let r = snapshots_upto((n - 1) as nat, snaps);
        assert forall|x: u64| #[trigger] snapshots_upto(n, snaps).contains(x) implies 1 <= x <= n by {
            let w = snapshots_upto(n, snaps);
            let k = choose|k: int| 0 <= k < w.len() && w[k] == x;
            if k < r.len() {
                assert(r[k] == x);
                assert(r.contains(x));
            }
        }
    }
}

/// A purge deletes only snapshots of older, unpinned generations: never the
/// current generation and never a pinned one.
pub proof fn lemma_purge_spares(current: u64, keep: u64, pinned: Seq<u64>, snaps: Seq<u64>, g: u64)
    requires
        to_delete_spec(current, keep, pinned, snaps).contains(g),
    ensures
        g < current,
        !pinned.contains(g),
        snaps.contains(g),
{
    let n: nat = if current >= 1 { (current - 1) as nat } else { 0 };
    let s = snapshots_upto(n, snaps);
    let deletable = with_pin(s, pinned, false);
    let t = to_delete_spec(current, keep, pinned, snaps);
    let k = choose|k: int| 0 <= k < t.len() && t[k] == g;
    assert(deletable.contains(g)) by {
        assert(deletable[k] == g);
    }
    lemma_with_pin(s, pinned, false);
    lemma_snapshots_upto(n, snaps);
    lemma_snapshots_have(n, snaps, g);
}

proof fn lemma_snapshots_have(n: nat, snaps: Seq<u64>, g: u64)
    requires
        snapshots_upto(n, snaps).contains(g),
    ensures
        snaps.contains(g),
    decreases n,
{
    if n > 0 {
        let r = snapshots_upto((n - 1) as nat, snaps);
        let w = snapshots_upto(n, snaps);
        let k = choose|k: int| 0 <= k < w.len() && w[k] == g;
        if k < r.len() {
            assert(r[k] == g);
            lemma_snapshots_have((n - 1) as nat, snaps, g);
        }
    }
}

} // verus!
