//! `mycel check`: which installed packages have a newer recipe.
use vstd::prelude::*;
use crate::text::str_eq;

verus! {

/// A package whose recipe names another version than the installed one.
pub struct Update {
    pub name: String,
    pub installed: String,
    pub latest: String,
}

pub open spec fn update_view(u: Update) -> (Seq<char>, Seq<char>, Seq<char>) {
    (u.name@, u.installed@, u.latest@)
}

pub open spec fn update_views(v: Seq<Update>) -> Seq<(Seq<char>, Seq<char>, Seq<char>)> {
    v.map_values(|u: Update| update_view(u))
}

/// The updates among installed packages `(name, installed version, version
/// its recipe names)`, the last none when no recipe was found or read.
pub open spec fn updates(
    installed: Seq<(String, String, Option<String>)>,
) -> Seq<(Seq<char>, Seq<char>, Seq<char>)>
    decreases installed.len(),
{
    if installed.len() == 0 {
        Seq::empty()
    } else {
        let rest = updates(installed.drop_last());
        let p = installed.last();
        match p.2 {
            Some(l) => if l@ != p.1@ {
                rest.push((p.0@, p.1@, l@))
            } else {
                rest
            },
            None => rest,
        }
    }
}

/// What `mycel check` reports, over all inputs: the reports for two runs of
/// packages one after the other are those of the first run, then those of
/// the second; a single package is reported, with its installed and its
/// recipe's version, exactly when its recipe names a version and that
/// version differs from the installed one (any difference, not only a
/// greater one); and whatever is reported names two different versions.
pub proof fn lemma_updates_report_differences(
    a: Seq<(String, String, Option<String>)>,
    b: Seq<(String, String, Option<String>)>,
    p: (String, String, Option<String>),
)
    ensures
        updates(a + b) == updates(a) + updates(b),
        updates(seq![p]) == (match p.2 {
            Some(l) => if l@ != p.1@ {
                seq![(p.0@, p.1@, l@)]
            } else {
                Seq::empty()
            },
            None => Seq::empty(),
        }),
        forall|k: int| 0 <= k < updates(a).len() ==> (#[trigger] updates(a)[k]).1 != updates(a)[k].2,
    decreases b.len(),
{
    assert(seq![p].drop_last() =~= Seq::<(String, String, Option<String>)>::empty());
    assert(seq![p].last() == p);
    assert(updates(Seq::<(String, String, Option<String>)>::empty()) == Seq::<(Seq<char>, Seq<char>, Seq<char>)>::empty());
    match p.2 {
        Some(l) => {
            if l@ != p.1@ {
                assert(updates(seq![p]) =~= seq![(p.0@, p.1@, l@)]);
            } else {
                assert(updates(seq![p]) =~= Seq::empty());
            }
        },
        None => {
            assert(updates(seq![p]) =~= Seq::empty());
        },
    }
    if b.len() == 0 {
        assert(a + b =~= a);
        assert(updates(a) + updates(b) =~= updates(a));
    } else {
        lemma_updates_report_differences(a, b.drop_last(), p);
        assert((a + b).drop_last() =~= a + b.drop_last());
        assert((a + b).last() == b.last());
        let q = b.last();
        match q.2 {
            Some(l) => {
                if l@ != q.1@ {
                    assert(updates(a + b) =~= updates(a) + updates(b));
                }
            },
            None => {},
        }
    }
    lemma_reported_differ(a);
}

proof fn lemma_reported_differ(a: Seq<(String, String, Option<String>)>)
    ensures
        forall|k: int| 0 <= k < updates(a).len() ==> (#[trigger] updates(a)[k]).1 != updates(a)[k].2,
    decreases a.len(),
{
    if a.len() > 0 {
        lemma_reported_differ(a.drop_last());
        let rest = updates(a.drop_last());
        assert forall|k: int| 0 <= k < updates(a).len() implies (#[trigger] updates(a)[k]).1 != updates(a)[k].2 by {
            if k < rest.len() {
                assert(updates(a)[k] == rest[k]);
            }
        }
    }
}

/// The pending updates, in the order of the installed packages.
pub fn pending_updates(installed: &Vec<(String, String, Option<String>)>) -> (r: Vec<Update>)
    ensures
        update_views(r@) == updates(installed@),
{
    let mut r: Vec<Update> = Vec::new();
    let mut i: usize = 0;
    while i < installed.len()
        invariant
            i <= installed.len(),
            update_views(r@) == updates(installed@.take(i as int)),
        decreases installed.len() - i,
    {
        assert(installed@.take(i + 1).drop_last() =~= installed@.take(i as int));
        let p = &installed[i];
        match &p.2 {
            Some(l) => {
                if !str_eq(l.as_str(), p.1.as_str()) {
                    let ghost before = update_views(r@);
                    let u = Update { name: p.0.clone(), installed: p.1.clone(), latest: l.clone() };
                    r.push(u);
                    assert(update_views(r@) =~= before.push((p.0@, p.1@, l@)));
                }
            },
            None => {},
        }
        i += 1;
    }
    assert(installed@.take(installed.len() as int) =~= installed@);
    r
}

} // verus!
