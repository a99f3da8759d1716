//! `mycel diff`: the package differences between two generations.
use vstd::prelude::*;
use crate::text::{str_views, str_eq};
use crate::order::{sorted_difference, sorted_of_set};
use crate::system::records::{PackageVersion, names};

verus! {

/// The version recorded for a package: the last record of that name (later
/// records replace earlier ones, as in a map).
pub open spec fn version_in(v: Seq<PackageVersion>, name: Seq<char>) -> Option<Seq<char>>
    decreases v.len(),
{
    if v.len() == 0 {
        None
    } else if v.last().name@ == name {
        Some(v.last().version@)
    } else {
        version_in(v.drop_last(), name)
    }
}

/// The version a generation records for a package.
pub fn version_of(v: &Vec<PackageVersion>, name: &str) -> (r: Option<String>)
    ensures
        match r {
            Some(x) => version_in(v@, name@) == Some(x@),
            None => version_in(v@, name@) is None,
        },
{
    let mut found: Option<String> = None;
    let mut i: usize = 0;
    while i < v.len()
        invariant
            i <= v.len(),
            match found {
                Some(x) => version_in(v@.take(i as int), name@) == Some(x@),
                None => version_in(v@.take(i as int), name@) is None,
            },
        decreases v.len() - i,
    {
        assert(v@.take(i + 1).drop_last() =~= v@.take(i as int));
        if str_eq(v[i].name.as_str(), name) {
            found = Some(v[i].version.clone());
        }
        i += 1;
    }
    assert(v@.take(v.len() as int) =~= v@);
    found
}

/// A package whose version differs between the generations.
pub struct Upgrade {
    pub name: String,
    pub from: String,
    pub to: String,
}

impl View for Upgrade {
    type V = (Seq<char>, Seq<char>, Seq<char>);

    open spec fn view(&self) -> (Seq<char>, Seq<char>, Seq<char>) {
        (self.name@, self.from@, self.to@)
    }
}

/// Of the names, those whose versions in `a` and `b` differ, with both
/// versions.
pub open spec fn upgrades(common: Seq<Seq<char>>, a: Seq<PackageVersion>, b: Seq<PackageVersion>) -> Seq<
    (Seq<char>, Seq<char>, Seq<char>),
>
    decreases common.len(),
{
    if common.len() == 0 {
        Seq::empty()
    } else {
        let n = common.last();
        let r = upgrades(common.drop_last(), a, b);
        match (version_in(a, n), version_in(b, n)) {
            (Some(va), Some(vb)) => if va != vb {
                r.push((n, va, vb))
            } else {
                r
            },
            _ => r,
        }
    }
}

/// How two generations differ in their packages.
pub struct GenerationDiff {
    /// In the second generation only, sorted.
    pub added: Vec<String>,
    /// In the first generation only, sorted.
    pub removed: Vec<String>,
    /// In both at different versions, sorted by name.
    pub upgraded: Vec<Upgrade>,
}

pub open spec fn upgrade_views(v: Seq<Upgrade>) -> Seq<(Seq<char>, Seq<char>, Seq<char>)> {
    v.map_values(|u: Upgrade| u@)
}

fn names_vec(v: &Vec<PackageVersion>) -> (r: Vec<String>)
    ensures
        str_views(r@) == names(v@),
{
    let mut r: Vec<String> = Vec::new();
    let mut i: usize = 0;
    while i < v.len()
        invariant
            i <= v.len(),
            str_views(r@) == names(v@.take(i as int)),
        decreases v.len() - i,
    {
        let ghost before = str_views(r@);
        r.push(v[i].name.clone());
        assert(str_views(r@) =~= before.push(v@[i as int].name@));
        assert(names(v@.take(i + 1)) =~= names(v@.take(i as int)).push(v@[i as int].name@));
        i += 1;
    }
    assert(v@.take(v.len() as int) =~= v@);
    r
}

/// Compares the packages of generation `a` with those of generation `b`.
pub fn diff_generations(a: &Vec<PackageVersion>, b: &Vec<PackageVersion>) -> (d: GenerationDiff)
    ensures
        str_views(d.added@) == sorted_of_set(names(b@).to_set().difference(names(a@).to_set())),
        str_views(d.removed@) == sorted_of_set(names(a@).to_set().difference(names(b@).to_set())),
        upgrade_views(d.upgraded@) == upgrades(
            sorted_of_set(names(a@).to_set().intersect(names(b@).to_set())),
            a@,
            b@,
        ),
{
    let na = names_vec(a);
    let nb = names_vec(b);
    let added = sorted_difference(&nb, &na);
    let removed = sorted_difference(&na, &nb);
    let common = sorted_difference(&na, &removed);
    assert(names(a@).to_set().difference(names(a@).to_set().difference(names(b@).to_set())) =~= names(
        a@,
    ).to_set().intersect(names(b@).to_set()));
    let mut up: Vec<Upgrade> = Vec::new();
    let mut i: usize = 0;
    while i < common.len()
        invariant
            i <= common.len(),
            upgrade_views(up@) == upgrades(str_views(common@).take(i as int), a@, b@),
        decreases common.len() - i,
    {
        assert(str_views(common@).take(i + 1).drop_last() =~= str_views(common@).take(i as int));
        let n = common[i].as_str();
        match (version_of(a, n), version_of(b, n)) {
            (Some(va), Some(vb)) => {
                if !str_eq(va.as_str(), vb.as_str()) {
                    let ghost before = upgrade_views(up@);
                    up.push(Upgrade { name: common[i].clone(), from: va, to: vb });
                    assert(upgrade_views(up@) =~= before.push((common@[i as int]@, va@, vb@)));
                }
            },
            _ => {},
        }
        i += 1;
    }
    assert(str_views(common@).take(common.len() as int) =~= str_views(common@));
    GenerationDiff { added, removed, upgraded: up }
}

} // verus!
