//! The Limine boot menu: one entry per kept generation, and which
//! generations are kept.
use vstd::prelude::*;
use crate::num::{decimal, u64_to_string};
use crate::text::{join, str_views, join_strings, concat};

verus! {

/// Boot settings taken from `[boot]` in mycel.toml.
pub struct BootConfig<'a> {
    pub timeout: u32,
    pub extra_cmdline: &'a [String],
}

impl<'a> BootConfig<'a> {
    /// The settings used when mycel.toml cannot be read.
    pub fn default_if_missing() -> (b: Self)
        ensures
            b.timeout == 5,
            b.extra_cmdline@.len() == 0,
    {
        BootConfig { timeout: 5, extra_cmdline: &[] }
    }
}

/// The pieces that are not empty.
pub open spec fn keep_nonempty(ps: Seq<Seq<char>>) -> Seq<Seq<char>>
    decreases ps.len(),
{
    if ps.len() == 0 {
        ps
    } else if ps.last().len() > 0 {
        keep_nonempty(ps.drop_last()).push(ps.last())
    } else {
        keep_nonempty(ps.drop_last())
    }
}

/// The kernel command line: root device, subvolume, `rw`, then the
/// non-empty extra arguments separated by spaces.
pub open spec fn cmdline_spec(root_dev: Seq<char>, subvol: Seq<char>, extra: Seq<Seq<char>>) -> Seq<
    char,
> {
    let extras = join(keep_nonempty(extra), " "@);
    let base = "root="@ + root_dev + " rootflags=subvol="@ + subvol + " rw"@;
    if extras.len() == 0 {
        base
    } else {
        base + " "@ + extras
    }
}

/// Builds the kernel command line.
pub fn base_cmdline(root_dev: &str, subvol: &str, extra: &[String]) -> (r: String)
    ensures
        r@ == cmdline_spec(root_dev@, subvol@, str_views(extra@)),
{
    let mut kept: Vec<String> = Vec::new();
    let mut i: usize = 0;
    while i < extra.len()
        invariant
            i <= extra.len(),
            str_views(kept@) == keep_nonempty(str_views(extra@).take(i as int)),
        decreases extra.len() - i,
    {
        assert(str_views(extra@).take(i + 1).drop_last() =~= str_views(extra@).take(i as int));
        if !extra[i].as_str().is_empty() {
            let ghost before = str_views(kept@);
            kept.push(extra[i].clone());
            assert(str_views(kept@) =~= before.push(extra@[i as int]@));
        }
        i += 1;
    }
    assert(str_views(extra@).take(extra.len() as int) =~= str_views(extra@));
    let extras = join_strings(&kept, " ");
    let mut base = concat("root=", root_dev);
    base.append(" rootflags=subvol=");
    base.append(subvol);
    base.append(" rw");
    if extras.as_str().is_empty() {
        base
    } else {
        base.append(" ");
        base.append(extras.as_str());
        base
    }
}

/// The menu label of a generation.
pub open spec fn label(g: u64, current: bool) -> Seq<char> {
    "/MycelOS — Generation "@ + decimal(g as nat) + if current {
        " (current)"@
    } else {
        Seq::<char>::empty()
    }
}

/// The subvolume holding a generation's snapshot.
pub open spec fn snapshot_subvol(g: u64) -> Seq<char> {
    "/.snapshots/@gen-"@ + decimal(g as nat)
}

/// One boot entry.
pub open spec fn entry(label: Seq<char>, cmdline: Seq<char>) -> Seq<char> {
    label + "\n    protocol: linux\n    kernel_path: root():/boot/vmlinuz\n    cmdline: "@ + cmdline
        + "\n    module_path: root():/boot/initramfs.img\n\n"@
}

fn entry_exec(label: String, cmdline: String) -> (r: String)
    ensures
        r@ == entry(label@, cmdline@),
{
    let mut r = label;
    r.append("\n    protocol: linux\n    kernel_path: root():/boot/vmlinuz\n    cmdline: ");
    r.append(cmdline.as_str());
    r.append("\n    module_path: root():/boot/initramfs.img\n\n");
    r
}

fn label_exec(g: u64, current: bool) -> (r: String)
    ensures
        r@ == label(g, current),
{
    let mut r = concat("/MycelOS — Generation ", u64_to_string(g).as_str());
    if current {
        r.append(" (current)");
    } else {
        assert(r@ =~= r@ + Seq::<char>::empty());
    }
    r
}

fn snapshot_subvol_exec(g: u64) -> (r: String)
    ensures
        r@ == snapshot_subvol(g),
{
    concat("/.snapshots/@gen-", u64_to_string(g).as_str())
}

/// `timeout: N` and a blank line.
pub open spec fn timeout_line(t: u32) -> Seq<char> {
    "timeout: "@ + decimal(t as nat) + "\n\n"@
}

fn timeout_exec(t: u32) -> (r: String)
    ensures
        r@ == timeout_line(t),
{
    let mut r = concat("timeout: ", u64_to_string(t as u64).as_str());
    r.append("\n\n");
    r
}

/// Entries for the generations other than `skip`, newest first, each
/// booting its snapshot with no extra arguments.
pub open spec fn snapshot_entries(gens: Seq<u64>, skip: u64, root_dev: Seq<char>) -> Seq<char>
    decreases gens.len(),
{
    if gens.len() == 0 {
        Seq::<char>::empty()
    } else {
        snapshot_entries(gens.drop_first(), skip, root_dev) + if gens[0] == skip {
            Seq::<char>::empty()
        } else {
            entry(label(gens[0], false), cmdline_spec(root_dev, snapshot_subvol(gens[0]), seq![]))
        }
    }
}

/// The boot menu written after a switch: the current generation first (booting
/// `@` with the extra arguments), then every other kept generation, newest
/// first, booting its snapshot.
pub open spec fn menu_spec(
    current: u64,
    root_dev: Seq<char>,
    gens: Seq<u64>,
    timeout: u32,
    extra: Seq<Seq<char>>,
) -> Seq<char> {
    timeout_line(timeout) + entry(label(current, true), cmdline_spec(root_dev, "@"@, extra))
        + snapshot_entries(gens, current, root_dev)
}

/// Renders `/boot/limine.conf` for the current generation and the kept ones.
pub fn render_menu(current_gen: u64, root_dev: &str, gens: &Vec<u64>, boot: &BootConfig) -> (r:
    String)
    ensures
        r@ == menu_spec(current_gen, root_dev@, gens@, boot.timeout, str_views(boot.extra_cmdline@)),
{
    let mut conf = timeout_exec(boot.timeout);
    let cl = base_cmdline(root_dev, "@", boot.extra_cmdline);
    let first = entry_exec(label_exec(current_gen, true), cl);
    conf.append(first.as_str());
    let ghost head = conf@;
    let mut acc = String::new();
    let mut i: usize = gens.len();
    while i > 0
        invariant
            i <= gens.len(),
            acc@ == snapshot_entries(gens@.subrange(i as int, gens@.len() as int), current_gen, root_dev@),
        decreases i,
    {
        i -= 1;
        let g = gens[i];
        assert(gens@.subrange(i as int, gens@.len() as int).drop_first() =~= gens@.subrange(
            i + 1,
            gens@.len() as int,
        ));
        if g != current_gen {
            let e = entry_exec(label_exec(g, false), base_cmdline(root_dev, snapshot_subvol_exec(g).as_str(), &[]));
            assert(str_views(Seq::<String>::empty()) =~= seq![]);
            acc.append(e.as_str());
        } else {
            assert(acc@ =~= acc@ + Seq::<char>::empty());
        }
    }
    assert(gens@.subrange(0, gens@.len() as int) =~= gens@);
    conf.append(acc.as_str());
    conf
}

/// A boot entry of a menu with a chosen default: the current generation
/// boots `@` (with the extra arguments when it is the default), any other
/// its snapshot.
pub open spec fn default_entry(
    g: u64,
    first: bool,
    current: u64,
    root_dev: Seq<char>,
    extra: Seq<Seq<char>>,
) -> Seq<char> {
    let is_cur = g == current;
    let subvol = if is_cur {
        "@"@
    } else {
        snapshot_subvol(g)
    };
    entry(label(g, is_cur), cmdline_spec(root_dev, subvol, if first && is_cur {
        extra
    } else {
        seq![]
    }))
}

pub open spec fn other_entries(gens: Seq<u64>, target: u64, current: u64, root_dev: Seq<char>) -> Seq<
    char,
>
    decreases gens.len(),
{
    if gens.len() == 0 {
        Seq::<char>::empty()
    } else {
        other_entries(gens.drop_first(), target, current, root_dev) + if gens[0] == target {
            Seq::<char>::empty()
        } else {
            default_entry(gens[0], false, current, root_dev, seq![])
        }
    }
}

/// The boot menu with a chosen default generation: the target first,
/// then every other kept generation, newest first.
pub open spec fn default_menu_spec(
    target: u64,
    current: u64,
    root_dev: Seq<char>,
    gens: Seq<u64>,
    timeout: u32,
    extra: Seq<Seq<char>>,
) -> Seq<char> {
    timeout_line(timeout) + default_entry(target, true, current, root_dev, extra) + other_entries(
        gens,
        target,
        current,
        root_dev,
    )
}

fn default_entry_exec(g: u64, first: bool, current: u64, root_dev: &str, extra: &[String]) -> (r:
    String)
    ensures
        r@ == default_entry(g, first, current, root_dev@, str_views(extra@)),
{
    let is_cur = g == current;
    let subvol = if is_cur {
        String::from_str("@")
    } else {
        snapshot_subvol_exec(g)
    };
    let cl = if first && is_cur {
        base_cmdline(root_dev, subvol.as_str(), extra)
    } else {
        assert(str_views(Seq::<String>::empty()) =~= seq![]);
        base_cmdline(root_dev, subvol.as_str(), &[])
    };
    entry_exec(label_exec(g, is_cur), cl)
}

/// Renders `/boot/limine.conf` with `target_gen` as the default entry.
pub fn render_default_menu(
    target_gen: u64,
    current: u64,
    root_dev: &str,
    gens: &Vec<u64>,
    boot: &BootConfig,
) -> (r: String)
    ensures
        r@ == default_menu_spec(
            target_gen,
            current,
            root_dev@,
            gens@,
            boot.timeout,
            str_views(boot.extra_cmdline@),
        ),
{
    let mut conf = timeout_exec(boot.timeout);
    let first = default_entry_exec(target_gen, true, current, root_dev, boot.extra_cmdline);
    conf.append(first.as_str());
    let mut acc = String::new();
    let mut i: usize = gens.len();
    while i > 0
        invariant
            i <= gens.len(),
            acc@ == other_entries(gens@.subrange(i as int, gens@.len() as int), target_gen, current, root_dev@),
        decreases i,
    {
        i -= 1;
        let g = gens[i];
        assert(gens@.subrange(i as int, gens@.len() as int).drop_first() =~= gens@.subrange(
            i + 1,
            gens@.len() as int,
        ));
        if g != target_gen {
            let e = default_entry_exec(g, false, current, root_dev, &[]);
            assert(str_views(Seq::<String>::empty()) =~= seq![]);
            acc.append(e.as_str());
        } else {
            assert(acc@ =~= acc@ + Seq::<char>::empty());
        }
    }
    assert(gens@.subrange(0, gens@.len() as int) =~= gens@);
    conf.append(acc.as_str());
    conf
}


// ---------------------------------------------------------------------------
// which generations the menu lists

/// Whether a list of generations holds `x`.
pub fn u64_list_contains(v: &Vec<u64>, x: u64) -> (r: bool)
    ensures
        r == v@.contains(x),
{
    let mut i: usize = 0;
    while i < v.len()
        invariant
            i <= v.len(),
            forall|k: int| 0 <= k < i ==> v@[k] != x,
        decreases v.len() - i,
    {
        if v[i] == x {
            return true;
        }
        i += 1;
    }
    false
}

/// The generations `1..=n` that are current, pinned or have a snapshot.
pub open spec fn listed(n: nat, current: u64, pinned: Seq<u64>, snaps: Seq<u64>) -> Seq<u64>
    decreases n,
{
    if n == 0 {
        Seq::<u64>::empty()
    } else {
        let r = listed((n - 1) as nat, current, pinned, snaps);
        if n == current || pinned.contains(n as u64) || snaps.contains(n as u64) {
            r.push(n as u64)
        } else {
            r
        }
    }
}

/// `gens` without its first `d` generations that are neither current nor
/// pinned.
pub open spec fn drop_oldest(gens: Seq<u64>, d: nat, current: u64, pinned: Seq<u64>) -> Seq<u64>
    decreases gens.len(),
{
    if gens.len() == 0 {
        gens
    } else if d > 0 && gens[0] != current && !pinned.contains(gens[0]) {
        drop_oldest(gens.drop_first(), (d - 1) as nat, current, pinned)
    } else {
        seq![gens[0]] + drop_oldest(gens.drop_first(), d, current, pinned)
    }
}

/// The generations the boot menu keeps: every generation up to the current
/// one that is current, pinned or has a snapshot; when there are more than
/// `keep`, the oldest unpinned ones go first until `keep` remain or none of
/// them is left.
pub open spec fn kept_generations(keep: u64, current: u64, pinned: Seq<u64>, snaps: Seq<u64>) -> Seq<
    u64,
> {
    if current == 0 {
        Seq::<u64>::empty()
    } else {
        let gens = listed(current as nat, current, pinned, snaps);
        if gens.len() > keep {
            drop_oldest(gens, (gens.len() - keep) as nat, current, pinned)
        } else {
            gens
        }
    }
}

proof fn lemma_listed_len(n: nat, current: u64, pinned: Seq<u64>, snaps: Seq<u64>)
    requires
        n <= u64::MAX,
    ensures
        listed(n, current, pinned, snaps).len() <= n,
        forall|k: int|
            0 <= k < listed(n, current, pinned, snaps).len() ==> 1 <= #[trigger] listed(
                n,
                current,
                pinned,
                snaps,
            )[k] <= n,
    decreases n,
{
    if n > 0 {
        lemma_listed_len((n - 1) as nat, current, pinned, snaps);
        let r = listed((n - 1) as nat, current, pinned, snaps);
        let l = listed(n, current, pinned, snaps);
        assert forall|k: int| 0 <= k < l.len() implies 1 <= #[trigger] l[k] <= n by {
            if k < r.len() {
                assert(l[k] == r[k]);
            }
        }
    }
}

/// Lists the generations the boot menu holds, oldest
/// first. `pinned` and `snapshots` are the generations with a pin marker and
/// with a snapshot.
pub fn all_generations(keep: u64, current: u64, pinned: &Vec<u64>, snapshots: &Vec<u64>) -> (r: Vec<
    u64,
>)
    ensures
        r@ == kept_generations(keep, current, pinned@, snapshots@),
{
    if current == 0 {
        return Vec::new();
    }
    let mut gens: Vec<u64> = Vec::new();
    let mut n: u64 = 0;
    while n < current
        invariant
            n <= current,
            gens@ == listed(n as nat, current, pinned@, snapshots@),
        decreases current - n,
    {
        n += 1;
        if n == current || u64_list_contains(pinned, n) || u64_list_contains(snapshots, n) {
            gens.push(n);
        }
    }
    proof {
        lemma_listed_len(current as nat, current, pinned@, snapshots@);
    }
    if (gens.len() as u64) > keep {
        let mut d: u64 = gens.len() as u64 - keep;
        let mut out: Vec<u64> = Vec::new();
        let mut i: usize = 0;
        let ghost full = gens@;
        assert(full.skip(0) =~= full);
        assert(out@ + drop_oldest(full.skip(0), d as nat, current, pinned@) =~= drop_oldest(full, (full.len() - keep) as nat, current, pinned@));
        while i < gens.len()
            invariant
                full == gens@,
                i <= gens.len(),
                out@ + drop_oldest(full.skip(i as int), d as nat, current, pinned@) == drop_oldest(
                    full,
                    (full.len() - keep) as nat,
                    current,
                    pinned@,
                ),
            decreases gens.len() - i,
        {
            let g = gens[i];
            let ghost rest = full.skip(i as int);
            assert(rest.drop_first() =~= full.skip(i + 1));
            assert(rest[0] == g);
            if d > 0 && g != current && !u64_list_contains(pinned, g) {
                d -= 1;
            } else {
                let ghost o = out@;
                out.push(g);
                assert(out@ + drop_oldest(full.skip(i + 1), d as nat, current, pinned@) =~= o + (seq![g]
                    + drop_oldest(full.skip(i + 1), d as nat, current, pinned@)));
            }
            i += 1;
        }
        assert(full.skip(full.len() as int) =~= Seq::<u64>::empty());
        assert(out@ =~= out@ + drop_oldest(full.skip(full.len() as int), d as nat, current, pinned@));
        out
    } else {
        gens
    }
}


/// A generation the menu may leave out: neither current nor pinned.
pub open spec fn droppable(g: u64, current: u64, pinned: Seq<u64>) -> bool {
    g != current && !pinned.contains(g)
}

proof fn lemma_drop_oldest(gens: Seq<u64>, d: nat, current: u64, pinned: Seq<u64>)
    ensures
        forall|x: u64| drop_oldest(gens, d, current, pinned).contains(x) ==> gens.contains(x),
        forall|x: u64| gens.contains(x) && !droppable(x, current, pinned) ==> drop_oldest(
            gens,
            d,
            current,
            pinned,
        ).contains(x),
        drop_oldest(gens, d, current, pinned).len() <= gens.len(),
        (exists|k: int|
            0 <= k < drop_oldest(gens, d, current, pinned).len() && droppable(
                #[trigger] drop_oldest(gens, d, current, pinned)[k],
                current,
                pinned,
            )) ==> drop_oldest(gens, d, current, pinned).len() + d == gens.len(),
    decreases gens.len(),
{
    if gens.len() > 0 {
        let rest = gens.drop_first();
        let g = gens[0];
        let r = drop_oldest(gens, d, current, pinned);
        assert forall|x: u64| gens.contains(x) implies x == g || rest.contains(x) by {
            let k = choose|k: int| 0 <= k < gens.len() && gens[k] == x;
            if k > 0 {
                assert(rest[k - 1] == x);
            }
        }
        assert forall|x: u64| rest.contains(x) implies gens.contains(x) by {
            let k = choose|k: int| 0 <= k < rest.len() && rest[k] == x;
            assert(gens[k + 1] == x);
        }
        if d > 0 && droppable(g, current, pinned) {
            lemma_drop_oldest(rest, (d - 1) as nat, current, pinned);
        } else {
            lemma_drop_oldest(rest, d, current, pinned);
            let rr = drop_oldest(rest, d, current, pinned);
            assert(r == seq![g] + rr);
            assert forall|x: u64| r.contains(x) implies x == g || rr.contains(x) by {
                let k = choose|k: int| 0 <= k < r.len() && r[k] == x;
                if k > 0 {
                    assert(rr[k - 1] == x);
                }
            }
            assert forall|x: u64| rr.contains(x) implies r.contains(x) by {
                let k = choose|k: int| 0 <= k < rr.len() && rr[k] == x;
                assert(r[k + 1] == x);
            }
            assert(r[0] == g);
            if exists|k: int| 0 <= k < r.len() && droppable(#[trigger] r[k], current, pinned) {
                let k = choose|k: int| 0 <= k < r.len() && droppable(#[trigger] r[k], current, pinned);
                if k > 0 {
                    assert(rr[k - 1] == r[k]);
                } else {
                    assert(d == 0);
                }
                if d > 0 {
                    assert(droppable(rr[k - 1], current, pinned));
                } else {
                    assert(drop_oldest(rest, 0, current, pinned).len() == rest.len()) by {
                        lemma_drop_zero(rest, current, pinned);
                    }
                }
            }
        }
    }
}

proof fn lemma_drop_zero(gens: Seq<u64>, current: u64, pinned: Seq<u64>)
    ensures
        drop_oldest(gens, 0, current, pinned) == gens,
    decreases gens.len(),
{
    if gens.len() > 0 {
        lemma_drop_zero(gens.drop_first(), current, pinned);
        assert(gens =~= seq![gens[0]] + gens.drop_first());
    }
}

proof fn lemma_listed_contains(n: nat, current: u64, pinned: Seq<u64>, snaps: Seq<u64>, g: u64)
    requires
        n <= u64::MAX,
        1 <= g <= n,
        g == current || pinned.contains(g) || snaps.contains(g),
    ensures
        listed(n, current, pinned, snaps).contains(g),
    decreases n,
{
    let r = listed((n - 1) as nat, current, pinned, snaps);
    if g < n {
        lemma_listed_contains((n - 1) as nat, current, pinned, snaps, g);
        let k = choose|k: int| 0 <= k < r.len() && r[k] == g;
        assert(listed(n, current, pinned, snaps)[k] == g);
    } else {
        assert(listed(n, current, pinned, snaps).last() == g);
    }
}

/// The boot menu always keeps the current generation and every pinned one
/// up to it, and it lists more than `keep` generations only when all of them
/// are current or pinned.
pub proof fn lemma_kept_generations(keep: u64, current: u64, pinned: Seq<u64>, snaps: Seq<u64>)
    ensures
        current > 0 ==> kept_generations(keep, current, pinned, snaps).contains(current),
        forall|g: u64|
            1 <= g <= current && pinned.contains(g) ==> kept_generations(
                keep,
                current,
                pinned,
                snaps,
            ).contains(g),
        kept_generations(keep, current, pinned, snaps).len() > keep ==> forall|k: int|
            0 <= k < kept_generations(keep, current, pinned, snaps).len() ==> !droppable(
                #[trigger] kept_generations(keep, current, pinned, snaps)[k],
                current,
                pinned,
            ),
{
    if current > 0 {
        let gens = listed(current as nat, current, pinned, snaps);
        lemma_listed_contains(current as nat, current, pinned, snaps, current);
        assert forall|g: u64| 1 <= g <= current && pinned.contains(g) implies gens.contains(g) by {
            lemma_listed_contains(current as nat, current, pinned, snaps, g);
        }
        if gens.len() > keep {
            let d = (gens.len() - keep) as nat;
            lemma_drop_oldest(gens, d, current, pinned);
            let r = drop_oldest(gens, d, current, pinned);
            if r.len() > keep {
                if exists|k: int| 0 <= k < r.len() && droppable(#[trigger] r[k], current, pinned) {
                    assert(r.len() + d == gens.len());
                }
            }
        }
    }
}


proof fn lemma_contains_cons(g: u64, s: Seq<u64>, x: u64)
    ensures
        (seq![g] + s).contains(x) <==> (x == g || s.contains(x)),
{
    let t = seq![g] + s;
    if t.contains(x) && x != g {
        let k = choose|k: int| 0 <= k < t.len() && t[k] == x;
        assert(s[k - 1] == x);
    }
    if s.contains(x) {
        let k = choose|k: int| 0 <= k < s.len() && s[k] == x;
        assert(t[k + 1] == x);
    }
    if x == g {
        assert(t[0] == x);
    }
}

proof fn lemma_drop_fewer(gens: Seq<u64>, d1: nat, d2: nat, current: u64, pinned: Seq<u64>, x: u64)
    requires
        d2 <= d1,
        drop_oldest(gens, d1, current, pinned).contains(x),
    ensures
        drop_oldest(gens, d2, current, pinned).contains(x),
    decreases gens.len(),
{
    let g = gens[0];
    let rest = gens.drop_first();
    if d1 > 0 && droppable(g, current, pinned) {
        if d2 > 0 {
            lemma_drop_fewer(rest, (d1 - 1) as nat, (d2 - 1) as nat, current, pinned, x);
        } else {
            lemma_drop_oldest(rest, (d1 - 1) as nat, current, pinned);
            lemma_drop_zero(rest, current, pinned);
            lemma_contains_cons(g, rest, x);
        }
    } else {
        lemma_contains_cons(g, drop_oldest(rest, d1, current, pinned), x);
        if x != g {
            lemma_drop_fewer(rest, d1, d2, current, pinned, x);
        }
        lemma_contains_cons(g, drop_oldest(rest, d2, current, pinned), x);
    }
}

/// A larger `keep` never drops a generation that a smaller one keeps: every
/// generation in the menu for `k1` is in the menu for any `k2 >= k1`.
pub proof fn lemma_larger_keep_keeps_more(
    k1: u64,
    k2: u64,
    current: u64,
    pinned: Seq<u64>,
    snaps: Seq<u64>,
)
    requires
        k1 <= k2,
    ensures
        forall|g: u64|
            kept_generations(k1, current, pinned, snaps).contains(g) ==> kept_generations(
                k2,
                current,
                pinned,
                snaps,
            ).contains(g),
{
    if current > 0 {
        let gens = listed(current as nat, current, pinned, snaps);
        assert forall|g: u64|
            kept_generations(k1, current, pinned, snaps).contains(g) implies kept_generations(
                k2,
                current,
                pinned,
                snaps,
            ).contains(g) by {
            if gens.len() > k1 {
                let d1 = (gens.len() - k1) as nat;
                if gens.len() > k2 {
                    lemma_drop_fewer(gens, d1, (gens.len() - k2) as nat, current, pinned, g);
                } else {
                    lemma_drop_oldest(gens, d1, current, pinned);
                }
            }
        }
    }
}

/// With the current generation left out of the list (or it being the
/// target), the other entries of a menu with a chosen default are those the
/// menu after a switch lists: each generation boots its snapshot.
proof fn lemma_other_entries_are_snapshots(gens: Seq<u64>, target: u64, current: u64, root_dev: Seq<char>)
    requires
        !gens.contains(current) || current == target,
    ensures
        other_entries(gens, target, current, root_dev) == snapshot_entries(gens, target, root_dev),
    decreases gens.len(),
{
    if gens.len() > 0 {
        if !gens.contains(current) && gens.drop_first().contains(current) {
            let k = choose|k: int| 0 <= k < gens.drop_first().len() && gens.drop_first()[k] == current;
            assert(gens[k + 1] == current);
        }
        lemma_other_entries_are_snapshots(gens.drop_first(), target, current, root_dev);
        if gens[0] != target {
            assert(gens[0] != current) by {
                if gens[0] == current {
                    assert(gens.contains(current));
                }
            }
        }
    }
}

/// A menu with a chosen default boots what its labels name: the first entry
/// is the target; when the target is not the current generation it is
/// labelled without `(current)` and boots the subvolume
/// `/.snapshots/@gen-<target>` with no extra arguments, and only the current
/// generation boots `@`. Choosing the current generation as the default
/// gives the same menu as after a switch, and every other listed
/// generation that is not the current one boots its own snapshot.
pub proof fn lemma_default_menu_boots_chosen(
    target: u64,
    current: u64,
    root_dev: Seq<char>,
    gens: Seq<u64>,
    timeout: u32,
    extra: Seq<Seq<char>>,
)
    ensures
        target != current ==> default_menu_spec(target, current, root_dev, gens, timeout, extra)
            == timeout_line(timeout) + entry(
            label(target, false),
            cmdline_spec(root_dev, "/.snapshots/@gen-"@ + decimal(target as nat), seq![]),
        ) + other_entries(gens, target, current, root_dev),
        target == current ==> default_menu_spec(target, current, root_dev, gens, timeout, extra)
            == menu_spec(current, root_dev, gens, timeout, extra),
        !gens.contains(current) ==> other_entries(gens, target, current, root_dev) == snapshot_entries(
            gens,
            target,
            root_dev,
        ),
{
    if target == current {
        lemma_other_entries_are_snapshots(gens, target, current, root_dev);
    }
    if !gens.contains(current) {
        lemma_other_entries_are_snapshots(gens, target, current, root_dev);
    }
}

} // verus!
