//! `mycel get`: installing packages and recording them in mycel.toml.
use vstd::prelude::*;
use crate::order::list_contains;
use crate::text::str_views;

verus! {

/// The packages of `new` that `existing` does not list, each once, in the
/// order of their first occurrence.
pub open spec fn appended(existing: Seq<Seq<char>>, new: Seq<Seq<char>>) -> Seq<Seq<char>>
    decreases new.len(),
{
    if new.len() == 0 {
        Seq::empty()
    } else {
        let r = appended(existing, new.drop_last());
        if existing.contains(new.last()) || r.contains(new.last()) {
            r
        } else {
            r.push(new.last())
        }
    }
}

/// What to append to `packages.install`: each newly installed package that
/// the list does not already hold, once.
pub fn packages_to_append(existing: &Vec<String>, new_pkgs: &Vec<String>) -> (r: Vec<String>)
    ensures
        str_views(r@) == appended(str_views(existing@), str_views(new_pkgs@)),
{
    let mut r: Vec<String> = Vec::new();
    let mut i: usize = 0;
    while i < new_pkgs.len()
        invariant
            i <= new_pkgs.len(),
            str_views(r@) == appended(str_views(existing@), str_views(new_pkgs@).take(i as int)),
        decreases new_pkgs.len() - i,
    {
        assert(str_views(new_pkgs@).take(i + 1).drop_last() =~= str_views(new_pkgs@).take(i as int));
        let n = new_pkgs[i].as_str();
        if !list_contains(existing, n) && !list_contains(&r, n) {
            let ghost before = str_views(r@);
            let c = new_pkgs[i].clone();
            r.push(c);
            assert(str_views(r@) =~= before.push(new_pkgs@[i as int]@));
        }
        i += 1;
    }
    assert(str_views(new_pkgs@).take(new_pkgs.len() as int) =~= str_views(new_pkgs@));
    r
}

/// The values of `[packages] install` that `toml_edit` reads in a
/// mycel.toml text, each a string (`Some`) or another value (`None`); none
/// when the text is not TOML or that item is not an array.
pub uninterp spec fn install_entries(text: Seq<char>) -> Option<Seq<Option<Seq<char>>>>;

/// The text `toml_edit` writes after pushing each of `extra` onto
/// `[packages] install`, the rest of the document kept as it was; none when
/// the text is not TOML or that item is not an array.
pub uninterp spec fn with_install_appended(text: Seq<char>, extra: Seq<Seq<char>>) -> Option<Seq<char>>;

pub open spec fn opt_views(v: Seq<Option<String>>) -> Seq<Option<Seq<char>>> {
    v.map_values(|o: Option<String>| match o {
        Some(s) => Some(s@),
        None => None,
    })
}

/// `toml_edit`: parses the text as a `DocumentMut` and reads the values of
/// `packages.install` (through `Item::get` and `Item::as_array`), each
/// string value as its string (`Value::as_str`); the result is named
/// `install_entries`.
#[verifier::external_body]
fn read_install(text: &str) -> (r: Option<Vec<Option<String>>>)
    ensures
        match r {
            Some(v) => install_entries(text@) == Some(opt_views(v@)),
            None => install_entries(text@) is None,
        },
{
    let doc: toml_edit::DocumentMut = text.parse().ok()?;
    let arr = doc.get("packages")?.get("install")?.as_array()?;
    Some(arr.iter().map(|v| v.as_str().map(|s| s.to_string())).collect())
}

/// `toml_edit`: parses the text as a `DocumentMut`, pushes each of `extra`
/// onto the array at `packages.install` (`Item::get_mut`,
/// `Item::as_array_mut`, `Array::push`) and writes the document back
/// (`Display`); the result is named `with_install_appended`.
#[verifier::external_body]
fn append_install(text: &str, extra: &Vec<String>) -> (r: Option<String>)
    ensures
        match r {
            Some(t) => with_install_appended(text@, str_views(extra@)) == Some(t@),
            None => with_install_appended(text@, str_views(extra@)) is None,
        },
{
    let mut doc: toml_edit::DocumentMut = text.parse().ok()?;
    let arr = doc.as_item_mut().get_mut("packages")?.get_mut("install")?.as_array_mut()?;
    for p in extra {
        arr.push(p.as_str());
    }
    Some(doc.to_string())
}

/// The strings among TOML values, in order.
pub open spec fn strings_of(v: Seq<Option<Seq<char>>>) -> Seq<Seq<char>>
    decreases v.len(),
{
    if v.len() == 0 {
        Seq::empty()
    } else {
        match v.last() {
            Some(s) => strings_of(v.drop_last()).push(s),
            None => strings_of(v.drop_last()),
        }
    }
}

fn strings(v: &Vec<Option<String>>) -> (r: Vec<String>)
    ensures
        str_views(r@) == strings_of(opt_views(v@)),
{
    let mut r: Vec<String> = Vec::new();
    let mut i: usize = 0;
    while i < v.len()
        invariant
            i <= v.len(),
            str_views(r@) == strings_of(opt_views(v@).take(i as int)),
        decreases v.len() - i,
    {
        assert(opt_views(v@).take(i + 1).drop_last() =~= opt_views(v@).take(i as int));
        match &v[i] {
            Some(s) => {
                let ghost before = str_views(r@);
                r.push(s.clone());
                assert(str_views(r@) =~= before.push(s@));
            },
            None => {},
        }
        i += 1;
    }
    assert(opt_views(v@).take(v.len() as int) =~= opt_views(v@));
    r
}

/// The text of mycel.toml cannot be edited: it is not TOML, or its
/// `[packages] install` is not an array.
#[derive(Clone, Copy, Debug, PartialEq, Eq, Structural)]
pub enum ConfigError {
    InstallNotAnArray,
}

/// The new text of mycel.toml after `mycel get` installed `new_pkgs`: each
/// of them that `[packages] install` does not list is appended once, in the
/// order given, and the rest of the file is kept as it is.
pub fn add_to_config(text: &str, new_pkgs: &Vec<String>) -> (r: Result<String, ConfigError>)
    ensures
        match install_entries(text@) {
            Some(i0) => match with_install_appended(text@, appended(strings_of(i0), str_views(new_pkgs@))) {
                Some(t) => r matches Ok(s) && s@ == t,
                None => r == Err::<String, ConfigError>(ConfigError::InstallNotAnArray),
            },
            None => r == Err::<String, ConfigError>(ConfigError::InstallNotAnArray),
        },
{
    match read_install(text) {
        None => Err(ConfigError::InstallNotAnArray),
        Some(values) => {
            let existing = strings(&values);
            let extra = packages_to_append(&existing, new_pkgs);
            match append_install(text, &extra) {
                Some(t) => Ok(t),
                None => Err(ConfigError::InstallNotAnArray),
            }
        },
    }
}

/// After the append, the list holds every newly installed package, what it
/// held before is left as it was, and no package is listed twice that was
/// not listed twice before: the appended names are new and distinct.
pub proof fn lemma_appended_saves_all(existing: Seq<Seq<char>>, new: Seq<Seq<char>>)
    ensures
        forall|x: Seq<char>| new.contains(x) ==> #[trigger] (existing + appended(existing, new)).contains(x),
        (existing + appended(existing, new)).take(existing.len() as int) == existing,
        forall|k: int| 0 <= k < appended(existing, new).len() ==> !existing.contains(#[trigger] appended(existing, new)[k]),
        forall|a: int, b: int| 0 <= a < b < appended(existing, new).len() ==> appended(existing, new)[a] != appended(existing, new)[b],
    decreases new.len(),
{
    let app = appended(existing, new);
    let all = existing + app;
    if new.len() > 0 {
        lemma_appended_saves_all(existing, new.drop_last());
        let r = appended(existing, new.drop_last());
        let prev = existing + r;
        assert forall|x: Seq<char>| new.contains(x) implies #[trigger] all.contains(x) by {
            let k = choose|k: int| 0 <= k < new.len() && new[k] == x;
            if k < new.len() - 1 {
                assert(new.drop_last()[k] == x);
                assert(prev.contains(x));
                let p = choose|p: int| 0 <= p < prev.len() && prev[p] == x;
                assert(all[p] == x);
            } else if existing.contains(x) {
                let p = choose|p: int| 0 <= p < existing.len() && existing[p] == x;
                assert(all[p] == x);
            } else if r.contains(x) {
                let p = choose|p: int| 0 <= p < r.len() && r[p] == x;
                assert(all[existing.len() + p] == x);
            } else {
                assert(all[all.len() - 1] == x);
            }
        }
        if !(existing.contains(new.last()) || r.contains(new.last())) {
            assert(app == r.push(new.last()));
            assert forall|k: int| 0 <= k < app.len() implies !existing.contains(#[trigger] app[k]) by {
                if k < r.len() {
                    assert(app[k] == r[k]);
                }
            }
            assert forall|a: int, b: int| 0 <= a < b < app.len() implies app[a] != app[b] by {
                if b == app.len() - 1 {
                    assert(app[a] == r[a]);
                }
            }
        }
    }
    assert(all.take(existing.len() as int) =~= existing);
}

} // verus!
