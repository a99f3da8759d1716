//! Installed-package records (`/var/lib/mycel/packages/<name>.toml`) as the
//! generation tools read them: the file's name and its `version` line.
use vstd::prelude::*;
use crate::text::{
    lines, first_with_prefix, split_once, trim, trim_matches, find_line_with_prefix, find_char,
    trim_chars, trim_matches_chars, from_chars,
};

verus! {

/// One installed package of a generation.
pub struct PackageVersion {
    pub name: String,
    pub version: String,
}

/// The version a record's text states: from the first line starting with
/// `version`, what follows its first `=`, trimmed and without surrounding
/// double quotes. `None` when there is no such line or it has no `=`.
pub open spec fn record_version(content: Seq<char>) -> Option<Seq<char>> {
    match first_with_prefix(lines(content), "version"@) {
        None => None,
        Some(l) => match split_once(l, '=') {
            None => None,
            Some(p) => Some(trim_matches(trim(p.1), '"')),
        },
    }
}

/// Reads the version out of a record's text without a full parse.
pub fn version_from_record(content: &str) -> (r: Option<String>)
    ensures
        match r {
            Some(v) => record_version(content@) == Some(v@),
            None => record_version(content@) is None,
        },
{
    match find_line_with_prefix(content, "version") {
        None => None,
        Some(l) => match find_char(&l, '=') {
            None => None,
            Some(k) => {
                let mut rest: Vec<char> = Vec::new();
                let mut j: usize = k + 1;
                while j < l.len()
                    invariant
                        k < l.len(),
                        k + 1 <= j <= l.len(),
                        rest@ == l@.subrange(k + 1, j as int),
                    decreases l.len() - j,
                {
                    rest.push(l[j]);
                    assert(l@.subrange(k + 1, j + 1) =~= l@.subrange(k + 1, j as int).push(l@[j as int]));
                    j += 1;
                }
                assert(rest@ =~= l@.skip(k + 1));
                let t = trim_chars(&rest);
                let q = trim_matches_chars(&t, '"');
                Some(from_chars(q.as_slice()))
            },
        },
    }
}

/// The names of the packages.
pub open spec fn names(v: Seq<PackageVersion>) -> Seq<Seq<char>> {
    v.map_values(|p: PackageVersion| p.name@)
}

/// The packages of `a` whose name is not among `b`, in order.
pub open spec fn missing_from(a: Seq<PackageVersion>, b: Seq<Seq<char>>) -> Seq<PackageVersion>
    decreases a.len(),
{
    if a.len() == 0 {
        a
    } else if b.contains(a.last().name@) {
        missing_from(a.drop_last(), b)
    } else {
        missing_from(a.drop_last(), b).push(a.last())
    }
}

/// Whether a package of that name is in the list.
pub fn name_listed(v: &Vec<PackageVersion>, name: &str) -> (r: bool)
    ensures
        r == names(v@).contains(name@),
{
    let mut j: usize = 0;
    while j < v.len()
        invariant
            j <= v.len(),
            forall|k: int| 0 <= k < j ==> v@[k].name@ != name@,
        decreases v.len() - j,
    {
        if crate::text::str_eq(v[j].name.as_str(), name) {
            assert(names(v@)[j as int] == name@);
            return true;
        }
        j += 1;
    }
    assert forall|k: int| 0 <= k < names(v@).len() implies names(v@)[k] != name@ by {
        assert(names(v@)[k] == v@[k].name@);
    }
    false
}

fn copy_pv(p: &PackageVersion) -> (r: PackageVersion)
    ensures
        r == *p,
{
    PackageVersion { name: p.name.clone(), version: p.version.clone() }
}

/// The packages of `a` whose name `b` does not list.
pub fn packages_missing_from(a: &Vec<PackageVersion>, b: &Vec<PackageVersion>) -> (r: Vec<PackageVersion>)
    ensures
        r@ == missing_from(a@, names(b@)),
{
    let mut r: Vec<PackageVersion> = Vec::new();
    let mut i: usize = 0;
    while i < a.len()
        invariant
            i <= a.len(),
            r@ == missing_from(a@.take(i as int), names(b@)),
        decreases a.len() - i,
    {
        assert(a@.take(i + 1).drop_last() =~= a@.take(i as int));
        if !name_listed(b, a[i].name.as_str()) {
            r.push(copy_pv(&a[i]));
        }
        i += 1;
    }
    assert(a@.take(a.len() as int) =~= a@);
    r
}

/// The packages of `a` that `keep` does not name.
pub fn packages_not_named(a: &Vec<PackageVersion>, keep: &Vec<String>) -> (r: Vec<PackageVersion>)
    ensures
        r@ == missing_from(a@, crate::text::str_views(keep@)),
{
    let mut r: Vec<PackageVersion> = Vec::new();
    let mut i: usize = 0;
    while i < a.len()
        invariant
            i <= a.len(),
            r@ == missing_from(a@.take(i as int), crate::text::str_views(keep@)),
        decreases a.len() - i,
    {
        assert(a@.take(i + 1).drop_last() =~= a@.take(i as int));
        if !crate::order::list_contains(keep, a[i].name.as_str()) {
            r.push(copy_pv(&a[i]));
        }
        i += 1;
    }
    assert(a@.take(a.len() as int) =~= a@);
    r
}

/// The package a database entry records: the file name without its
/// `.toml` extension. A name without that extension, or one that is only
/// `.toml` (a hidden file without extension), records none.
pub open spec fn record_stem(name: Seq<char>) -> Option<Seq<char>> {
    if ".toml"@.is_suffix_of(name) && name.len() > 5 {
        Some(name.take(name.len() - 5))
    } else {
        None
    }
}

/// The package recorded by a database entry named `name`, if any.
pub fn record_stem_of(name: &str) -> (r: Option<String>)
    ensures
        match r {
            Some(s) => record_stem(name@) == Some(s@),
            None => record_stem(name@) is None,
        },
{
    proof {
        reveal_strlit(".toml");
    }
    let v = crate::text::chars_of(name);
    if crate::text::ends_with(name, ".toml") && v.len() > 5 {
        let stem = from_chars(&v.as_slice()[0..v.len() - 5]);
        assert(v@.subrange(0, v.len() - 5) =~= name@.take(name@.len() - 5));
        Some(stem)
    } else {
        None
    }
}

/// The packages recorded by the entries of the database directory, in the
/// order of the entries.
pub open spec fn recorded(names: Seq<String>) -> Seq<Seq<char>>
    decreases names.len(),
{
    if names.len() == 0 {
        Seq::empty()
    } else {
        match record_stem(names.last()@) {
            Some(s) => recorded(names.drop_last()).push(s),
            None => recorded(names.drop_last()),
        }
    }
}

/// The installed packages, from the names of the database directory's
/// entries.
pub fn installed_names(entries: &Vec<String>) -> (r: Vec<String>)
    ensures
        crate::text::str_views(r@) == recorded(entries@),
{
    let mut r: Vec<String> = Vec::new();
    let mut i: usize = 0;
    while i < entries.len()
        invariant
            i <= entries.len(),
            crate::text::str_views(r@) == recorded(entries@.take(i as int)),
        decreases entries.len() - i,
    {
        assert(entries@.take(i + 1).drop_last() =~= entries@.take(i as int));
        match record_stem_of(entries[i].as_str()) {
            Some(s) => {
                let ghost before = crate::text::str_views(r@);
                let ghost sv = s@;
                r.push(s);
                assert(crate::text::str_views(r@) =~= before.push(sv));
            },
            None => {},
        }
        i += 1;
    }
    assert(entries@.take(entries.len() as int) =~= entries@);
    r
}

} // verus!
