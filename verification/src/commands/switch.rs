//! `mycel switch`: the decisions that bring the system in line with
//! mycel.toml.
use vstd::prelude::*;
use crate::text::{str_views, str_eq, concat, lines, lines_of, views, split_on, split_chars, contains_str, contains_seq, from_chars};
use crate::order::{sorted_difference, sorted_union, sorted_of_set};

verus! {

/// The package changes of a switch.
pub struct PackagePlan {
    /// Declared (to install or to lock) but not installed.
    pub to_install: Vec<String>,
    /// Installed but neither declared nor locked.
    pub to_remove: Vec<String>,
}

/// The strings of a list, as a set.
pub open spec fn set_of(v: Seq<String>) -> Set<Seq<char>> {
    str_views(v).to_set()
}

/// Plans the package changes: `install` and `lock` from mycel.toml, the
/// installed packages, and the packages locked with `mycel lock`. Both
/// lists are sorted, each name once.
pub fn plan_packages(
    install: &Vec<String>,
    lock: &Vec<String>,
    installed: &Vec<String>,
    lock_markers: &Vec<String>,
) -> (p: PackagePlan)
    ensures
        str_views(p.to_install@) == sorted_of_set(
            set_of(install@).union(set_of(lock@)).difference(set_of(installed@)),
        ),
        str_views(p.to_remove@) == sorted_of_set(
            set_of(installed@).difference(set_of(install@).union(set_of(lock@))).difference(
                set_of(lock@).union(set_of(lock_markers@)),
            ),
        ),
        forall|x: Seq<char>| #[trigger] set_of(p.to_install@).contains(x) <==> ((set_of(install@).contains(x)
            || set_of(lock@).contains(x)) && !set_of(installed@).contains(x)),
        // nothing declared or locked is ever removed
        forall|x: Seq<char>| #[trigger] set_of(p.to_remove@).contains(x) <==> (set_of(installed@).contains(x)
            && !set_of(install@).contains(x) && !set_of(lock@).contains(x) && !set_of(
            lock_markers@,
        ).contains(x)),
{
    let desired = sorted_union(install, lock);
    let locked = sorted_union(lock, lock_markers);
    let to_install = sorted_difference(&desired, installed);
    let not_desired = sorted_difference(installed, &desired);
    let to_remove = sorted_difference(&not_desired, &locked);
    PackagePlan { to_install, to_remove }
}


// ---------------------------------------------------------------------------
// services

/// Core services that a switch never brings down.
pub open spec fn always_up() -> Set<Seq<char>> {
    set!["udevd"@, "dbus"@, "seatd"@, "pipewire"@, "wireplumber"@]
}

/// The core services, as a list.
pub fn always_up_list() -> (v: Vec<String>)
    ensures
        set_of(v@) == always_up(),
{
    let v = vec![
        String::from_str("udevd"),
        String::from_str("dbus"),
        String::from_str("seatd"),
        String::from_str("pipewire"),
        String::from_str("wireplumber"),
    ];
    assert(str_views(v@) =~= seq!["udevd"@, "dbus"@, "seatd"@, "pipewire"@, "wireplumber"@]);
    assert(set_of(v@) =~= always_up()) by {
        assert forall|y: Seq<char>| set_of(v@).contains(y) implies always_up().contains(y) by {
            let k = choose|k: int| 0 <= k < str_views(v@).len() && str_views(v@)[k] == y;
        }
        assert forall|y: Seq<char>| always_up().contains(y) implies set_of(v@).contains(y) by {
            if y == "udevd"@ { assert(str_views(v@)[0] == y); }
            else if y == "dbus"@ { assert(str_views(v@)[1] == y); }
            else if y == "seatd"@ { assert(str_views(v@)[2] == y); }
            else if y == "pipewire"@ { assert(str_views(v@)[3] == y); }
            else { assert(str_views(v@)[4] == y); }
        }
    }
    v
}

/// Which services a switch brings up and down.
pub struct ServicePlan {
    pub to_start: Vec<String>,
    pub to_stop: Vec<String>,
}

/// Brings up the enabled services that are not up; brings down the services
/// that are up but not enabled, except the core ones. Sorted, each once.
pub fn plan_services(desired: &Vec<String>, active: &Vec<String>) -> (p: ServicePlan)
    ensures
        str_views(p.to_start@) == sorted_of_set(set_of(desired@).difference(set_of(active@))),
        str_views(p.to_stop@) == sorted_of_set(
            set_of(active@).difference(set_of(desired@)).difference(always_up()),
        ),
        forall|x: Seq<char>| #[trigger] set_of(p.to_stop@).contains(x) ==> !always_up().contains(x)
            && !set_of(desired@).contains(x),
{
    let to_start = sorted_difference(desired, active);
    let extra = sorted_difference(active, desired);
    let core = always_up_list();
    let to_stop = sorted_difference(&extra, &core);
    ServicePlan { to_start, to_stop }
}

/// The services listed in `s6-rc -a list` output: each line trimmed, the
/// empty ones left out.
pub open spec fn listed_services(ls: Seq<Seq<char>>) -> Seq<Seq<char>>
    decreases ls.len(),
{
    if ls.len() == 0 {
        ls
    } else if crate::text::trim(ls.last()).len() > 0 {
        listed_services(ls.drop_last()).push(crate::text::trim(ls.last()))
    } else {
        listed_services(ls.drop_last())
    }
}

/// The services that `s6-rc -a list` reports up.
pub fn service_list(output: &str) -> (r: Vec<String>)
    ensures
        str_views(r@) == listed_services(lines(output@)),
{
    let ls = lines_of(output);
    let mut r: Vec<String> = Vec::new();
    let mut i: usize = 0;
    while i < ls.len()
        invariant
            i <= ls.len(),
            views(ls@) == lines(output@),
            str_views(r@) == listed_services(views(ls@).take(i as int)),
        decreases ls.len() - i,
    {
        assert(views(ls@).take(i + 1).drop_last() =~= views(ls@).take(i as int));
        let t = crate::text::trim_chars(&ls[i]);
        if t.len() > 0 {
            let ghost before = str_views(r@);
            r.push(from_chars(t.as_slice()));
            assert(str_views(r@) =~= before.push(t@));
        }
        i += 1;
    }
    assert(views(ls@).take(ls.len() as int) =~= views(ls@));
    r
}

// ---------------------------------------------------------------------------
// users

/// The places a bare shell name is looked for, in order.
pub open spec fn shell_candidates_spec(shell: Seq<char>) -> Seq<Seq<char>> {
    seq!["/bin/"@ + shell, "/usr/bin/"@ + shell, "/usr/local/bin/"@ + shell]
}

/// Where a bare shell name is looked for.
pub fn shell_candidates(shell: &str) -> (r: Vec<String>)
    ensures
        str_views(r@) == shell_candidates_spec(shell@),
{
    let r = vec![concat("/bin/", shell), concat("/usr/bin/", shell), concat("/usr/local/bin/", shell)];
    assert(str_views(r@) =~= shell_candidates_spec(shell@));
    r
}

/// The login shell to set: a path as given; a bare name resolved to the first
/// candidate (`shell_candidates`) that exists (`present[i]` tells whether
/// candidate `i` does),
/// else `/bin/<name>`.
pub open spec fn resolved_shell(shell: Seq<char>, present: Seq<bool>) -> Seq<char> {
    if shell.len() > 0 && shell[0] == '/' {
        shell
    } else if present[0] {
        shell_candidates_spec(shell)[0]
    } else if present[1] {
        shell_candidates_spec(shell)[1]
    } else if present[2] {
        shell_candidates_spec(shell)[2]
    } else {
        "/bin/"@ + shell
    }
}

/// Resolves a user's login shell.
pub fn resolve_shell(shell: &str, present: [bool; 3]) -> (r: String)
    ensures
        r@ == resolved_shell(shell@, present@),
{
    let v = crate::text::chars_of(shell);
    if v.len() > 0 && v[0] == '/' {
        return shell.to_owned();
    }
    let c = shell_candidates(shell);
    assert(c@.len() == str_views(c@).len());
    let mut i: usize = 0;
    while i < 3
        invariant
            i <= 3,
            c@.len() == 3,
            present@.len() == 3,
            str_views(c@) == shell_candidates_spec(shell@),
            !(shell@.len() > 0 && shell@[0] == '/'),
            forall|k: int| 0 <= k < i ==> !present@[k],
        decreases 3 - i,
    {
        if present[i] {
            assert(str_views(c@)[i as int] == c@[i as int]@);
            return c[i].clone();
        }
        i += 1;
    }
    concat("/bin/", shell)
}

/// `/etc/passwd` has an entry for the user: a line whose first `:`-separated
/// field is the name.
pub open spec fn passwd_has(text: Seq<char>, name: Seq<char>) -> bool {
    exists|k: int| 0 <= k < lines(text).len() && split_on(#[trigger] lines(text)[k], ':')[0] == name
}

/// Whether `/etc/passwd` (its text) has an entry for the user.
pub fn passwd_has_user(text: &str, name: &str) -> (r: bool)
    ensures
        r == passwd_has(text@, name@),
{
    let ls = lines_of(text);
    let nm = crate::text::chars_of(name);
    let mut i: usize = 0;
    while i < ls.len()
        invariant
            i <= ls.len(),
            views(ls@) == lines(text@),
            nm@ == name@,
            forall|k: int| 0 <= k < i ==> split_on(#[trigger] lines(text@)[k], ':')[0] != name@,
        decreases ls.len() - i,
    {
        let parts = split_chars(&ls[i], ':');
        proof {
            crate::text::lemma_split_on_nonempty(ls@[i as int]@, ':');
        }
        assert(views(parts@)[0] == parts@[0]@);
        if crate::text::str_eq(from_chars(parts[0].as_slice()).as_str(), from_chars(nm.as_slice()).as_str()) {
            assert(lines(text@)[i as int] == ls@[i as int]@);
            return true;
        }
        i += 1;
    }
    false
}

// ---------------------------------------------------------------------------
// system settings

/// The CPU frequency governor of a kernel profile; `None` leaves it as is.
pub open spec fn governor_spec(profile: Seq<char>) -> Option<Seq<char>> {
    if profile == "performance"@ {
        Some("performance"@)
    } else if profile == "battery"@ {
        Some("powersave"@)
    } else if profile == "balanced"@ {
        Some("schedutil"@)
    } else {
        None
    }
}

/// The CPU frequency governor of a kernel profile; none for `auto` or an
/// unknown profile, which leave the governor as it is.
pub fn governor(profile: &str) -> (r: Option<String>)
    ensures
        match r {
            Some(g) => governor_spec(profile@) == Some(g@),
            None => governor_spec(profile@) is None,
        },
{
    if str_eq(profile, "performance") {
        Some(String::from_str("performance"))
    } else if str_eq(profile, "battery") {
        Some(String::from_str("powersave"))
    } else if str_eq(profile, "balanced") {
        Some(String::from_str("schedutil"))
    } else {
        None
    }
}

/// The line `/etc/locale.gen` needs for a locale.
pub open spec fn locale_gen_entry(locale: Seq<char>) -> Seq<char> {
    locale + " UTF-8\n"@
}

/// The new `/etc/locale.gen` text when the locale's line is missing from it;
/// `None` when it is there already.
pub fn locale_gen_update(existing: &str, locale: &str) -> (r: Option<String>)
    ensures
        match r {
            Some(t) => !contains_seq(existing@, locale_gen_entry(locale@)) && t@ == existing@
                + locale_gen_entry(locale@),
            None => contains_seq(existing@, locale_gen_entry(locale@)),
        },
{
    let entry = concat(locale, " UTF-8\n");
    if contains_str(existing, entry.as_str()) {
        None
    } else {
        Some(concat(existing, entry.as_str()))
    }
}

/// `/etc/locale.conf` for a locale.
pub fn locale_conf(locale: &str) -> (r: String)
    ensures
        r@ == "LANG="@ + locale@ + "\n"@,
{
    let mut r = concat("LANG=", locale);
    r.append("\n");
    r
}

/// `/etc/hostname` for a host name.
pub fn hostname_file(hostname: &str) -> (r: String)
    ensures
        r@ == hostname@ + "\n"@,
{
    concat(hostname, "\n")
}

/// The zone file `/etc/localtime` points at.
pub fn zone_path(timezone: &str) -> (r: String)
    ensures
        r@ == "/usr/share/zoneinfo/"@ + timezone@,
{
    concat("/usr/share/zoneinfo/", timezone)
}


// ---------------------------------------------------------------------------
// compiled service databases

/// The timestamp of a `compiled-<digits>` database directory name.
pub open spec fn db_stamp(name: Seq<char>) -> Option<u64> {
    if "compiled-"@.is_prefix_of(name) {
        crate::num::parse_u64(name.skip("compiled-"@.len() as int))
    } else {
        None
    }
}

/// The timestamp of a compiled database directory name.
pub fn db_stamp_exec(name: &str) -> (r: Option<u64>)
    ensures
        r == db_stamp(name@),
{
    match crate::text::strip_prefix(name, "compiled-") {
        Some(rest) => crate::num::parse_u64_str(rest.as_str()),
        None => None,
    }
}

/// How many stamped databases come before `i` when they are ordered newest
/// first, ties kept in listing order.
pub open spec fn newer_count(stamps: Seq<Option<u64>>, i: int, n: int) -> nat
    decreases n,
{
    if n <= 0 {
        0
    } else {
        newer_count(stamps, i, n - 1) + if stamps[n - 1] is Some && (stamps[n - 1]->0 > stamps[i]->0
            || (stamps[n - 1]->0 == stamps[i]->0 && n - 1 < i)) {
            1nat
        } else {
            0nat
        }
    }
}

/// The databases a switch removes: of the `compiled-<digits>` entries of
/// `/etc/s6-rc`, all but the three newest, except the one just activated.
/// `names` are the entry names; the result holds their paths.
pub open spec fn dbs_to_prune_spec(names: Seq<Seq<char>>, keep: Seq<char>) -> Seq<Seq<char>>
    decreases names.len(),
{
    dbs_prune_upto(names, keep, names.len() as int)
}

pub open spec fn dbs_prune_upto(names: Seq<Seq<char>>, keep: Seq<char>, n: int) -> Seq<Seq<char>>
    decreases n,
{
    if n <= 0 {
        Seq::<Seq<char>>::empty()
    } else {
        let stamps = names.map_values(|x: Seq<char>| db_stamp(x));
        let r = dbs_prune_upto(names, keep, n - 1);
        let path = "/etc/s6-rc/"@ + names[n - 1];
        if stamps[n - 1] is Some && newer_count(stamps, n - 1, names.len() as int) >= 3 && path != keep {
            r.push(path)
        } else {
            r
        }
    }
}

/// The compiled databases to remove after a switch activated `keep`.
pub fn dbs_to_prune(names: &Vec<String>, keep: &str) -> (r: Vec<String>)
    requires
        names@.len() < usize::MAX,
    ensures
        str_views(r@) == dbs_to_prune_spec(str_views(names@), keep@),
{
    let ghost nv = str_views(names@);
    let ghost stamps = nv.map_values(|x: Seq<char>| db_stamp(x));
    let mut st: Vec<Option<u64>> = Vec::new();
    let mut i: usize = 0;
    while i < names.len()
        invariant
            i <= names.len(),
            nv == str_views(names@),
            stamps == nv.map_values(|x: Seq<char>| db_stamp(x)),
            st@ == stamps.take(i as int),
        decreases names.len() - i,
    {
        st.push(db_stamp_exec(names[i].as_str()));
        assert(st@ =~= stamps.take(i + 1));
        i += 1;
    }
    assert(st@ =~= stamps);
    let mut r: Vec<String> = Vec::new();
    let mut k: usize = 0;
    while k < names.len()
        invariant
            k <= names.len(),
            names@.len() < usize::MAX,
            nv == str_views(names@),
            stamps == nv.map_values(|x: Seq<char>| db_stamp(x)),
            st@ == stamps,
            st@.len() == names@.len(),
            str_views(r@) == dbs_prune_upto(nv, keep@, k as int),
        decreases names.len() - k,
    {
        if st[k].is_some() {
            let mine = st[k].unwrap();
            let mut cnt: usize = 0;
            let mut j: usize = 0;
            while j < names.len()
                invariant
                    j <= names.len(),
                    k < names.len(),
                    st@ == stamps,
                    st@.len() == names@.len(),
                    stamps[k as int] == Some(mine),
                    cnt == newer_count(stamps, k as int, j as int),
                    cnt <= j,
                decreases names.len() - j,
            {
                match st[j] {
                    Some(t) => {
                        if t > mine || (t == mine && j < k) {
                            cnt += 1;
                        }
                    },
                    None => {},
                }
                j += 1;
            }
            let path = concat("/etc/s6-rc/", names[k].as_str());
            if cnt >= 3 && !str_eq(path.as_str(), keep) {
                let ghost before = str_views(r@);
                r.push(path);
                assert(str_views(r@) =~= before.push("/etc/s6-rc/"@ + nv[k as int]));
            }
        }
        k += 1;
    }
    r
}

/// The directory name of a database compiled at time `stamp`.
pub fn compiled_db_name(stamp: u64) -> (r: String)
    ensures
        r@ == "compiled-"@ + crate::num::decimal(stamp as nat),
{
    let n = crate::num::u64_to_string(stamp);
    concat("compiled-", n.as_str())
}

/// A freshly compiled database is one that pruning recognises by its
/// stamp.
pub proof fn lemma_compiled_db_stamped(stamp: u64)
    ensures
        db_stamp("compiled-"@ + crate::num::decimal(stamp as nat)) == Some(stamp),
{
    reveal_strlit("compiled-");
    let name = "compiled-"@ + crate::num::decimal(stamp as nat);
    assert("compiled-"@ =~= name.subrange(0, 9));
    assert(name.skip(9) =~= crate::num::decimal(stamp as nat));
    crate::num::lemma_parse_decimal(stamp);
}

} // verus!
