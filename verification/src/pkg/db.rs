//! The package database: one TOML record per installed package.
use vstd::prelude::*;
use crate::pkg::schema::{InstalledFiles, InstalledPackage};
use crate::order::{sort_dedup, sorted_set, sorted, strictly_sorted, lex_lt, lemma_sorted_set, lemma_lex_irreflexive, lemma_lex_asymmetric};
use crate::text::{concat, concat3, split_char, split_on, str_eq, str_views, from_chars, lemma_split_on_nonempty, views};

verus! {

/// Where the records are kept.
pub const DB_PATH: &'static str = "/var/lib/mycel/packages";

/// Where a package's recipe is kept after install.
pub const RECIPES_DIR: &'static str = "/var/lib/mycel/recipes";

/// The record of package `name`: `DB_PATH/NAME.toml`.
pub fn record_path(name: &str) -> (r: String)
    ensures
        r@ == DB_PATH@ + "/"@ + name@ + ".toml"@,
{
    let a = concat3(DB_PATH, "/", name);
    concat(a.as_str(), ".toml")
}

/// The kept recipe of package `name`: `RECIPES_DIR/NAME.myc`.
pub fn kept_recipe_path(name: &str) -> (r: String)
    ensures
        r@ == RECIPES_DIR@ + "/"@ + name@ + ".myc"@,
{
    let a = concat3(RECIPES_DIR, "/", name);
    concat(a.as_str(), ".myc")
}

/// The date part of an RFC 3339 time: what precedes the first `T`.
pub open spec fn date_part(t: Seq<char>) -> Seq<char> {
    split_on(t, 'T')[0]
}

/// The installation date of a record, as `mycel-pkg list` shows it.
pub fn install_date(installed_at: &str) -> (r: String)
    ensures
        r@ == date_part(installed_at@),
{
    let pieces = split_char(installed_at, 'T');
    proof {
        lemma_split_on_nonempty(installed_at@, 'T');
    }
    let first = &pieces[0];
    assert(first@ == views(pieces@)[0]);
    from_chars(first.as_slice())
}

/// A record as plain values: name, version, time, files.
pub open spec fn pkg_view(p: InstalledPackage) -> (Seq<char>, Seq<char>, Seq<char>, Seq<Seq<char>>) {
    (p.name@, p.version@, p.installed_at@, str_views(p.files.installed@))
}

pub open spec fn pkg_views(v: Seq<InstalledPackage>) -> Seq<(Seq<char>, Seq<char>, Seq<char>, Seq<Seq<char>>)> {
    v.map_values(|p: InstalledPackage| pkg_view(p))
}

pub open spec fn names_of(v: Seq<InstalledPackage>) -> Seq<Seq<char>> {
    v.map_values(|p: InstalledPackage| p.name@)
}

/// The records named `n`, in their order.
pub open spec fn with_name(v: Seq<InstalledPackage>, n: Seq<char>) -> Seq<InstalledPackage>
    decreases v.len(),
{
    if v.len() == 0 {
        Seq::empty()
    } else if v.last().name@ == n {
        with_name(v.drop_last(), n).push(v.last())
    } else {
        with_name(v.drop_last(), n)
    }
}

/// The records grouped by the names `ns`, in that order.
pub open spec fn grouped(v: Seq<InstalledPackage>, ns: Seq<Seq<char>>) -> Seq<InstalledPackage>
    decreases ns.len(),
{
    if ns.len() == 0 {
        Seq::empty()
    } else {
        grouped(v, ns.drop_last()) + with_name(v, ns.last())
    }
}

/// The records sorted by name, records of one name in their first order
/// (what a stable sort by name gives).
pub open spec fn sorted_by_name(v: Seq<InstalledPackage>) -> Seq<InstalledPackage> {
    grouped(v, sorted_set(names_of(v)))
}

fn copy_strings(v: &Vec<String>) -> (r: Vec<String>)
    ensures
        str_views(r@) == str_views(v@),
{
    let mut r: Vec<String> = Vec::new();
    let mut i: usize = 0;
    while i < v.len()
        invariant
            i <= v.len(),
            str_views(r@) == str_views(v@).take(i as int),
        decreases v.len() - i,
    {
        let c = v[i].clone();
        r.push(c);
        assert(str_views(r@) =~= str_views(v@).take(i + 1)) by {
            assert(str_views(r@).drop_last() =~= str_views(v@).take(i as int));
        }
        i += 1;
    }
    assert(str_views(v@).take(v.len() as int) =~= str_views(v@));
    r
}

fn copy_pkg(p: &InstalledPackage) -> (r: InstalledPackage)
    ensures
        pkg_view(r) == pkg_view(*p),
{
    InstalledPackage {
        name: p.name.clone(),
        version: p.version.clone(),
        installed_at: p.installed_at.clone(),
        files: InstalledFiles { installed: copy_strings(&p.files.installed) },
    }
}

fn name_list(v: &Vec<InstalledPackage>) -> (r: Vec<String>)
    ensures
        str_views(r@) == names_of(v@),
{
    let mut r: Vec<String> = Vec::new();
    let mut i: usize = 0;
    while i < v.len()
        invariant
            i <= v.len(),
            str_views(r@) == names_of(v@.take(i as int)),
        decreases v.len() - i,
    {
        let c = v[i].name.clone();
        let ghost old_r = str_views(r@);
        r.push(c);
        assert(str_views(r@) =~= old_r.push(v@[i as int].name@));
        assert(names_of(v@.take(i + 1)) =~= names_of(v@.take(i as int)).push(v@[i as int].name@));
        i += 1;
    }
    assert(v@.take(v.len() as int) =~= v@);
    r
}

/// Appends the records named `n` to `out`, in their order.
fn append_named(v: &Vec<InstalledPackage>, n: &str, out: &mut Vec<InstalledPackage>)
    ensures
        pkg_views(final(out)@) == pkg_views(old(out)@) + pkg_views(with_name(v@, n@)),
{
    let ghost start = pkg_views(out@);
    let mut i: usize = 0;
    while i < v.len()
        invariant
            i <= v.len(),
            pkg_views(out@) == start + pkg_views(with_name(v@.take(i as int), n@)),
        decreases v.len() - i,
    {
        assert(v@.take(i + 1).drop_last() =~= v@.take(i as int));
        if str_eq(v[i].name.as_str(), n) {
            let c = copy_pkg(&v[i]);
            let ghost old_o = pkg_views(out@);
            out.push(c);
            assert(pkg_views(out@) =~= old_o.push(pkg_view(v@[i as int])));
            assert(v@.take(i + 1).last() == v@[i as int]);
            assert(with_name(v@.take(i + 1), n@) == with_name(v@.take(i as int), n@).push(v@[i as int]));
            assert(pkg_views(with_name(v@.take(i + 1), n@)) =~= pkg_views(with_name(v@.take(i as int), n@)).push(pkg_view(v@[i as int])));
            assert(pkg_views(out@) =~= start + pkg_views(with_name(v@.take(i + 1), n@)));
        } else {
            assert(pkg_views(out@) =~= start + pkg_views(with_name(v@.take(i + 1), n@)));
        }
        i += 1;
    }
    assert(v@.take(v.len() as int) =~= v@);
}

/// The records sorted by package name; records of one name keep their
/// order.
pub fn sort_by_name(v: &Vec<InstalledPackage>) -> (r: Vec<InstalledPackage>)
    ensures
        pkg_views(r@) == pkg_views(sorted_by_name(v@)),
{
    let names = sort_dedup(name_list(v));
    let mut out: Vec<InstalledPackage> = Vec::new();
    let mut k: usize = 0;
    while k < names.len()
        invariant
            k <= names.len(),
            str_views(names@) == sorted_set(names_of(v@)),
            pkg_views(out@) == pkg_views(grouped(v@, str_views(names@).take(k as int))),
        decreases names.len() - k,
    {
        assert(str_views(names@).take(k + 1).drop_last() =~= str_views(names@).take(k as int));
        append_named(v, names[k].as_str(), &mut out);
        assert(pkg_views(out@) =~= pkg_views(grouped(v@, str_views(names@).take(k + 1))));
        k += 1;
    }
    assert(str_views(names@).take(names.len() as int) =~= str_views(names@));
    out
}

proof fn lemma_with_name(v: Seq<InstalledPackage>, n: Seq<char>)
    ensures
        forall|i: int| 0 <= i < with_name(v, n).len() ==> (#[trigger] with_name(v, n)[i]).name@ == n,
        forall|i: int| 0 <= i < with_name(v, n).len() ==> v.contains(#[trigger] with_name(v, n)[i]),
        forall|i: int| 0 <= i < v.len() && (#[trigger] v[i]).name@ == n ==> with_name(v, n).contains(v[i]),
    decreases v.len(),
{
    if v.len() > 0 {
        let d = v.drop_last();
        lemma_with_name(d, n);
        let w = with_name(v, n);
        let wd = with_name(d, n);
        assert forall|i: int| 0 <= i < w.len() implies v.contains(#[trigger] w[i]) by {
            if i < wd.len() {
                assert(w[i] == wd[i]);
                assert(d.contains(wd[i]));
                let k = choose|k: int| 0 <= k < d.len() && d[k] == wd[i];
                assert(v[k] == d[k]);
            } else {
                assert(w[i] == v[v.len() - 1]);
            }
        }
        assert forall|i: int| 0 <= i < v.len() && (#[trigger] v[i]).name@ == n implies w.contains(v[i]) by {
            if i < v.len() - 1 {
                assert(d[i] == v[i]);
                assert(wd.contains(d[i]));
                let k = choose|k: int| 0 <= k < wd.len() && wd[k] == d[i];
                assert(w[k] == wd[k]);
            } else {
                assert(w[w.len() - 1] == v[i]);
            }
        }
    }
}

proof fn lemma_grouped(v: Seq<InstalledPackage>, ns: Seq<Seq<char>>)
    requires
        strictly_sorted(ns),
    ensures
        sorted(names_of(grouped(v, ns))),
        forall|i: int| 0 <= i < grouped(v, ns).len() ==> ns.contains(#[trigger] grouped(v, ns)[i].name@),
        forall|i: int| 0 <= i < grouped(v, ns).len() ==> v.contains(#[trigger] grouped(v, ns)[i]),
        forall|i: int| 0 <= i < v.len() && ns.contains((#[trigger] v[i]).name@) ==> grouped(v, ns).contains(v[i]),
    decreases ns.len(),
{
    if ns.len() > 0 {
        let nd = ns.drop_last();
        let l = ns.last();
        assert(strictly_sorted(nd));
        lemma_grouped(v, nd);
        lemma_with_name(v, l);
        let g = grouped(v, ns);
        let gd = grouped(v, nd);
        let w = with_name(v, l);
        assert(g == gd + w);
        assert forall|i: int| 0 <= i < g.len() implies ns.contains(#[trigger] g[i].name@) && v.contains(g[i]) by {
            if i < gd.len() {
                assert(g[i] == gd[i]);
                let k = choose|k: int| 0 <= k < nd.len() && nd[k] == gd[i].name@;
                assert(ns[k] == nd[k]);
            } else {
                assert(g[i] == w[i - gd.len()]);
                assert(ns[ns.len() - 1] == l);
            }
        }
        assert forall|a: int, b: int| 0 <= a < b < names_of(g).len() implies !lex_lt(
            #[trigger] names_of(g)[b],
            #[trigger] names_of(g)[a],
        ) by {
            if b < gd.len() {
                assert(names_of(g)[a] == names_of(gd)[a]);
                assert(names_of(g)[b] == names_of(gd)[b]);
            } else if a >= gd.len() {
                assert(g[a] == w[a - gd.len()]);
                assert(g[b] == w[b - gd.len()]);
                lemma_lex_irreflexive(l);
            } else {
                assert(g[a] == gd[a]);
                assert(g[b] == w[b - gd.len()]);
                let k = choose|k: int| 0 <= k < nd.len() && nd[k] == gd[a].name@;
                assert(lex_lt(ns[k], ns[ns.len() - 1]));
                lemma_lex_asymmetric(ns[k], l);
            }
        }
        assert forall|i: int| 0 <= i < v.len() && ns.contains((#[trigger] v[i]).name@) implies g.contains(v[i]) by {
            let k = choose|k: int| 0 <= k < ns.len() && ns[k] == v[i].name@;
            if k < ns.len() - 1 {
                assert(nd[k] == ns[k]);
                assert(gd.contains(v[i]));
                let p = choose|p: int| 0 <= p < gd.len() && gd[p] == v[i];
                assert(g[p] == gd[p]);
            } else {
                assert(w.contains(v[i]));
                let p = choose|p: int| 0 <= p < w.len() && w[p] == v[i];
                assert(g[gd.len() + p] == w[p]);
            }
        }
    }
}

/// `mycel-pkg list` shows the records in order of name, each record that
/// the database holds and no other.
pub proof fn lemma_sorted_by_name(v: Seq<InstalledPackage>)
    ensures
        sorted(names_of(sorted_by_name(v))),
        forall|p: InstalledPackage| #[trigger] sorted_by_name(v).contains(p) <==> v.contains(p),
{
    let ns = sorted_set(names_of(v));
    lemma_sorted_set(names_of(v));
    lemma_grouped(v, ns);
    let g = sorted_by_name(v);
    assert forall|p: InstalledPackage| #[trigger] g.contains(p) <==> v.contains(p) by {
        if g.contains(p) {
            let i = choose|i: int| 0 <= i < g.len() && g[i] == p;
        }
        if v.contains(p) {
            let i = choose|i: int| 0 <= i < v.len() && v[i] == p;
            assert(names_of(v)[i] == p.name@);
            assert(names_of(v).to_set().contains(p.name@));
            assert(ns.to_set().contains(p.name@));
        }
    }
}

proof fn lemma_with_name_count(v: Seq<InstalledPackage>, n: Seq<char>, p: InstalledPackage)
    ensures
        with_name(v, n).to_multiset().count(p) == (if p.name@ == n {
            v.to_multiset().count(p)
        } else {
            0
        }),
    decreases v.len(),
{
    broadcast use vstd::seq_lib::group_to_multiset_ensures;
    broadcast use vstd::multiset::group_multiset_axioms;

    if v.len() == 0 {
        assert(with_name(v, n) =~= Seq::<InstalledPackage>::empty());
    } else {
        let d = v.drop_last();
        lemma_with_name_count(d, n, p);
        assert(v =~= d.push(v.last()));
    }
}

proof fn lemma_grouped_count(v: Seq<InstalledPackage>, ns: Seq<Seq<char>>, p: InstalledPackage)
    requires
        strictly_sorted(ns),
    ensures
        grouped(v, ns).to_multiset().count(p) == (if ns.contains(p.name@) {
            v.to_multiset().count(p)
        } else {
            0
        }),
    decreases ns.len(),
{
    broadcast use vstd::seq_lib::group_to_multiset_ensures;
    broadcast use vstd::multiset::group_multiset_axioms;

    if ns.len() == 0 {
        assert(grouped(v, ns) =~= Seq::<InstalledPackage>::empty());
    } else {
        let nd = ns.drop_last();
        let l = ns.last();
        assert(strictly_sorted(nd));
        lemma_grouped_count(v, nd, p);
        lemma_with_name_count(v, l, p);
        vstd::seq_lib::lemma_multiset_commutative(grouped(v, nd), with_name(v, l));
        if p.name@ == l {
            if nd.contains(l) {
                let k = choose|k: int| 0 <= k < nd.len() && nd[k] == l;
                assert(lex_lt(ns[k], ns[ns.len() - 1]));
                lemma_lex_irreflexive(l);
            }
        } else {
            if nd.contains(p.name@) {
                let k = choose|k: int| 0 <= k < nd.len() && nd[k] == p.name@;
                assert(ns[k] == p.name@);
            }
            if ns.contains(p.name@) {
                let k = choose|k: int| 0 <= k < ns.len() && ns[k] == p.name@;
                assert(k != ns.len() - 1);
                assert(nd[k] == p.name@);
            }
        }
    }
}

/// `mycel-pkg list` neither loses nor repeats a record: the sorted list holds
/// each record as many times as the database does.
pub proof fn lemma_sorted_by_name_permutes(v: Seq<InstalledPackage>)
    ensures
        sorted_by_name(v).to_multiset() == v.to_multiset(),
{
    broadcast use vstd::seq_lib::group_to_multiset_ensures;

    let ns = sorted_set(names_of(v));
    lemma_sorted_set(names_of(v));
    assert forall|p: InstalledPackage| sorted_by_name(v).to_multiset().count(p) == v.to_multiset().count(p) by {
        lemma_grouped_count(v, ns, p);
        if v.contains(p) && !ns.contains(p.name@) {
            let i = choose|i: int| 0 <= i < v.len() && v[i] == p;
            assert(names_of(v)[i] == p.name@);
            assert(names_of(v).to_set().contains(p.name@));
            assert(ns.to_set().contains(p.name@));
        }
    }
    assert(sorted_by_name(v).to_multiset() =~= v.to_multiset());
}

} // verus!
