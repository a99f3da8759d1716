//! `mycel-pkg search`: matching recipes against a query, and the list of
//! hits that is shown.
use vstd::prelude::*;
use crate::order::{sort_dedup, sorted_set, strictly_sorted, lemma_sorted_set};
use crate::text::{contains_seq, contains_str, lowercase, str_eq, str_views, to_lowercase};

verus! {

/// The query as it is matched: lowercased.
pub fn query_key(query: &str) -> (r: String)
    ensures
        r@ == lowercase(query@),
{
    to_lowercase(query)
}

/// A recipe matches when the (lowercased) query occurs in its lowercased
/// name or description.
pub open spec fn hit(name: Seq<char>, description: Seq<char>, key: Seq<char>) -> bool {
    contains_seq(lowercase(name), key) || contains_seq(lowercase(description), key)
}

/// Searching finds a query anywhere: a recipe is a hit exactly when its
/// lowercased name or its lowercased description is some text, then the
/// query key, then some more text.
pub proof fn lemma_hit_anywhere(name: Seq<char>, description: Seq<char>, key: Seq<char>)
    ensures
        hit(name, description, key) <==> (exists|a: Seq<char>, b: Seq<char>|
            lowercase(name) == a + key + b) || (exists|a: Seq<char>, b: Seq<char>|
            lowercase(description) == a + key + b),
{
    lemma_piece(lowercase(name), key);
    lemma_piece(lowercase(description), key);
}

proof fn lemma_piece(s: Seq<char>, key: Seq<char>)
    ensures
        contains_seq(s, key) <==> exists|a: Seq<char>, b: Seq<char>| s == a + key + b,
{
    if contains_seq(s, key) {
        let i = choose|i: int| 0 <= i && i + key.len() <= s.len() && #[trigger] s.subrange(i, i + key.len()) == key;
        let a = s.subrange(0, i);
        let b = s.subrange(i + key.len(), s.len() as int);
        assert(s =~= a + key + b);
    }
    if exists|a: Seq<char>, b: Seq<char>| s == a + key + b {
        let (a, b) = choose|a: Seq<char>, b: Seq<char>| s == a + key + b;
        assert(s.subrange(a.len() as int, (a.len() + key.len()) as int) =~= key);
    }
}

/// Whether a recipe with this name and description matches the query key.
pub fn matches_query(name: &str, description: &str, key: &str) -> (r: bool)
    ensures
        r == hit(name@, description@, key@),
{
    let n = to_lowercase(name);
    if contains_str(n.as_str(), key) {
        return true;
    }
    let d = to_lowercase(description);
    contains_str(d.as_str(), key)
}

/// A hit as plain values: name, version, description.
pub type HitV = (Seq<char>, Seq<char>, Seq<char>);

pub open spec fn hit_views(v: Seq<(String, String, String)>) -> Seq<HitV> {
    v.map_values(|t: (String, String, String)| (t.0@, t.1@, t.2@))
}

pub open spec fn hit_names(v: Seq<HitV>) -> Seq<Seq<char>> {
    v.map_values(|h: HitV| h.0)
}

/// The first hit named `n`.
pub open spec fn first_with(v: Seq<HitV>, n: Seq<char>) -> Option<HitV>
    decreases v.len(),
{
    if v.len() == 0 {
        None
    } else if v[0].0 == n {
        Some(v[0])
    } else {
        first_with(v.drop_first(), n)
    }
}

pub open spec fn first_or_blank(v: Seq<HitV>, n: Seq<char>) -> HitV {
    match first_with(v, n) {
        Some(h) => h,
        None => (n, Seq::empty(), Seq::empty()),
    }
}

/// The hits shown: one per name (the first found), sorted by name.
pub open spec fn shown(v: Seq<HitV>) -> Seq<HitV> {
    sorted_set(hit_names(v)).map_values(|n: Seq<char>| first_or_blank(v, n))
}

proof fn lemma_first_with(v: Seq<HitV>, n: Seq<char>, i: int)
    requires
        0 <= i < v.len(),
        v[i].0 == n,
        forall|k: int| 0 <= k < i ==> (#[trigger] v[k]).0 != n,
    ensures
        first_with(v, n) == Some(v[i]),
    decreases i,
{
    if i > 0 {
        assert forall|k: int| 0 <= k < i - 1 implies (#[trigger] v.drop_first()[k]).0 != n by {
            assert(v.drop_first()[k] == v[k + 1]);
        }
        lemma_first_with(v.drop_first(), n, i - 1);
    }
}

fn find_hit(v: &Vec<(String, String, String)>, n: &str) -> (r: Option<usize>)
    ensures
        match r {
            Some(i) => i < v.len() && v@[i as int].0@ == n@ && forall|k: int| 0 <= k < i ==> (#[trigger] v@[k]).0@ != n@,
            None => forall|k: int| 0 <= k < v.len() ==> (#[trigger] v@[k]).0@ != n@,
        },
{
    let mut i: usize = 0;
    while i < v.len()
        invariant
            i <= v.len(),
            forall|k: int| 0 <= k < i ==> (#[trigger] v@[k]).0@ != n@,
        decreases v.len() - i,
    {
        if str_eq(v[i].0.as_str(), n) {
            return Some(i);
        }
        i += 1;
    }
    None
}

fn name_list(v: &Vec<(String, String, String)>) -> (r: Vec<String>)
    ensures
        str_views(r@) == hit_names(hit_views(v@)),
{
    let mut r: Vec<String> = Vec::new();
    let mut i: usize = 0;
    while i < v.len()
        invariant
            i <= v.len(),
            str_views(r@) == hit_names(hit_views(v@.take(i as int))),
        decreases v.len() - i,
    {
        let c = v[i].0.clone();
        let ghost old_r = str_views(r@);
        r.push(c);
        assert(str_views(r@) =~= old_r.push(v@[i as int].0@));
        assert(hit_names(hit_views(v@.take(i + 1))) =~= hit_names(hit_views(v@.take(i as int))).push(v@[i as int].0@));
        i += 1;
    }
    assert(v@.take(v.len() as int) =~= v@);
    r
}

/// Keeps the first hit of each name and sorts the hits by name.
pub fn dedup_hits(results: &Vec<(String, String, String)>) -> (r: Vec<(String, String, String)>)
    ensures
        hit_views(r@) == shown(hit_views(results@)),
{
    let ghost hv = hit_views(results@);
    let names = sort_dedup(name_list(results));
    let mut out: Vec<(String, String, String)> = Vec::new();
    let mut k: usize = 0;
    while k < names.len()
        invariant
            k <= names.len(),
            hv == hit_views(results@),
            str_views(names@) == sorted_set(hit_names(hv)),
            str_views(names@).to_set() == hit_names(hv).to_set(),
            hit_views(out@) == str_views(names@).take(k as int).map_values(|n: Seq<char>| first_or_blank(hv, n)),
        decreases names.len() - k,
    {
        let n = names[k].as_str();
        assert(str_views(names@)[k as int] == n@);
        assert(hit_names(hv).to_set().contains(n@));
        match find_hit(results, n) {
            Some(i) => {
                proof {
                    assert forall|j: int| 0 <= j < i implies (#[trigger] hv[j]).0 != n@ by {
                        assert(hv[j].0 == results@[j].0@);
                    }
                    lemma_first_with(hv, n@, i as int);
                }
                let t = (results[i].0.clone(), results[i].1.clone(), results[i].2.clone());
                let ghost old_o = hit_views(out@);
                out.push(t);
                assert(hit_views(out@) =~= old_o.push(hv[i as int]));
                assert(str_views(names@).take(k + 1).map_values(|n: Seq<char>| first_or_blank(hv, n))
                    =~= str_views(names@).take(k as int).map_values(|n: Seq<char>| first_or_blank(hv, n)).push(
                    first_or_blank(hv, n@),
                ));
            },
            None => {
                proof {
                    let j = choose|j: int| 0 <= j < hit_names(hv).len() && hit_names(hv)[j] == n@;
                    assert(results@[j].0@ == n@);
                }
            },
        }
        k += 1;
    }
    assert(str_views(names@).take(names.len() as int) =~= str_views(names@));
    out
}

proof fn lemma_first_with_named(v: Seq<HitV>, n: Seq<char>)
    ensures
        first_with(v, n) matches Some(h) ==> h.0 == n && v.contains(h),
    decreases v.len(),
{
    if v.len() > 0 && v[0].0 != n {
        lemma_first_with_named(v.drop_first(), n);
        if first_with(v, n) is Some {
            let h = first_with(v, n)->0;
            let k = choose|k: int| 0 <= k < v.drop_first().len() && v.drop_first()[k] == h;
            assert(v[k + 1] == h);
        }
    } else if v.len() > 0 {
        assert(v[0] == v[0]);
    }
}

/// The hits shown name each name of the found recipes exactly once, in
/// increasing order, and each is the first hit found under its name.
pub proof fn lemma_shown(v: Seq<HitV>)
    ensures
        hit_names(shown(v)) == sorted_set(hit_names(v)),
        strictly_sorted(hit_names(shown(v))),
        hit_names(shown(v)).to_set() == hit_names(v).to_set(),
        forall|i: int| 0 <= i < shown(v).len() ==> first_with(v, #[trigger] shown(v)[i].0) == Some(shown(v)[i]),
{
    let ns = sorted_set(hit_names(v));
    lemma_sorted_set(hit_names(v));
    assert forall|i: int| 0 <= i < ns.len() implies #[trigger] first_or_blank(v, ns[i]).0 == ns[i] by {
        lemma_first_with_named(v, ns[i]);
    }
    assert(hit_names(shown(v)) =~= ns);
    assert forall|i: int| 0 <= i < shown(v).len() implies first_with(v, #[trigger] shown(v)[i].0) == Some(shown(v)[i]) by {
        let n = ns[i];
        assert(shown(v)[i] == first_or_blank(v, n));
        lemma_first_with_named(v, n);
        assert(ns.to_set().contains(n));
        assert(hit_names(v).to_set().contains(n));
        let k = choose|k: int| 0 <= k < hit_names(v).len() && hit_names(v)[k] == n;
        if first_with(v, n) is None {
            lemma_first_with_none(v, n, k);
        }
    }
}

proof fn lemma_first_with_none(v: Seq<HitV>, n: Seq<char>, k: int)
    requires
        0 <= k < v.len(),
        v[k].0 == n,
    ensures
        first_with(v, n) is Some,
    decreases k,
{
    if v[0].0 != n {
        assert(v.drop_first()[k - 1] == v[k]);
        lemma_first_with_none(v.drop_first(), n, k - 1);
    }
}

} // verus!
