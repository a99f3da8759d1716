//! The order of `String`s (`Ord for str`: byte order of the UTF-8 encoding,
//! which is the order of the code points) and sorting by it.
use vstd::prelude::*;
use crate::text::{chars_of, str_views};

verus! {

/// `a < b` for strings: at the first difference the smaller character wins,
/// and a proper prefix comes first.
pub open spec fn lex_lt(a: Seq<char>, b: Seq<char>) -> bool
    decreases a.len(),
{
    if b.len() == 0 {
        false
    } else if a.len() == 0 {
        true
    } else if a[0] < b[0] {
        true
    } else if a[0] == b[0] {
        lex_lt(a.drop_first(), b.drop_first())
    } else {
        false
    }
}

/// No string is below itself.
pub proof fn lemma_lex_irreflexive(a: Seq<char>)
    ensures
        !lex_lt(a, a),
    decreases a.len(),
{
    if a.len() > 0 {
        lemma_lex_irreflexive(a.drop_first());
    }
}

/// The string order is transitive.
pub proof fn lemma_lex_transitive(a: Seq<char>, b: Seq<char>, c: Seq<char>)
    requires
        lex_lt(a, b),
        lex_lt(b, c),
    ensures
        lex_lt(a, c),
    decreases a.len(),
{
    if a.len() > 0 && b.len() > 0 && c.len() > 0 {
        if a[0] == b[0] && b[0] == c[0] {
            lemma_lex_transitive(a.drop_first(), b.drop_first(), c.drop_first());
        }
    }
}

/// Any two strings are equal or one is below the other.
pub proof fn lemma_lex_total(a: Seq<char>, b: Seq<char>)
    ensures
        a == b || lex_lt(a, b) || lex_lt(b, a),
    decreases a.len(),
{
    if a.len() > 0 && b.len() > 0 {
        if a[0] == b[0] {
            lemma_lex_total(a.drop_first(), b.drop_first());
            if a.drop_first() == b.drop_first() {
                assert(a =~= seq![a[0]] + a.drop_first());
                assert(b =~= seq![b[0]] + b.drop_first());
            }
        }
    } else if a.len() == 0 && b.len() == 0 {
        assert(a =~= b);
    }
}

/// No two strings are each below the other.
pub proof fn lemma_lex_asymmetric(a: Seq<char>, b: Seq<char>)
    ensures
        !(lex_lt(a, b) && lex_lt(b, a)),
{
    if lex_lt(a, b) && lex_lt(b, a) {
        lemma_lex_transitive(a, b, a);
        lemma_lex_irreflexive(a);
    }
}

proof fn lemma_lex_skip(a: Seq<char>, b: Seq<char>, i: int)
    requires
        0 <= i <= a.len(),
        i <= b.len(),
        forall|j: int| 0 <= j < i ==> a[j] == b[j],
    ensures
        lex_lt(a, b) == lex_lt(a.skip(i), b.skip(i)),
    decreases i,
{
    if i > 0 {
        lemma_lex_skip(a.drop_first(), b.drop_first(), i - 1);
        assert(a.drop_first().skip(i - 1) =~= a.skip(i));
        assert(b.drop_first().skip(i - 1) =~= b.skip(i));
    } else {
        assert(a.skip(0) =~= a);
        assert(b.skip(0) =~= b);
    }
}

/// `a < b` on character vectors.
pub fn chars_lt(a: &Vec<char>, b: &Vec<char>) -> (r: bool)
    ensures
        r == lex_lt(a@, b@),
{
    let mut i: usize = 0;
    while i < a.len() && i < b.len()
        invariant
            i <= a.len(),
            i <= b.len(),
            forall|j: int| 0 <= j < i ==> a@[j] == b@[j],
        decreases a.len() - i,
    {
        if a[i] != b[i] {
            proof {
                lemma_lex_skip(a@, b@, i as int);
            }
            return a[i] < b[i];
        }
        i += 1;
    }
    proof {
        lemma_lex_skip(a@, b@, i as int);
    }
    i < b.len()
}

/// `a < b` for strings.
pub fn str_lt(a: &str, b: &str) -> (r: bool)
    ensures
        r == lex_lt(a@, b@),
{
    chars_lt(&chars_of(a), &chars_of(b))
}

/// Every element is smaller than every later one.
pub open spec fn strictly_sorted(s: Seq<Seq<char>>) -> bool {
    forall|i: int, j: int| 0 <= i < j < s.len() ==> lex_lt(#[trigger] s[i], #[trigger] s[j])
}

/// Every element is at most every later one.
pub open spec fn sorted(s: Seq<Seq<char>>) -> bool {
    forall|i: int, j: int| 0 <= i < j < s.len() ==> !lex_lt(#[trigger] s[j], #[trigger] s[i])
}

/// The strings of `s` in increasing order, each once (the only strictly
/// sorted sequence with the same elements).
pub open spec fn sorted_set(s: Seq<Seq<char>>) -> Seq<Seq<char>> {
    sorted_of_set(s.to_set())
}

/// The elements of a finite set of strings in increasing order.
pub open spec fn sorted_of_set(s: Set<Seq<char>>) -> Seq<Seq<char>> {
    choose|m: Seq<Seq<char>>| strictly_sorted(m) && m.to_set() == s
}

/// Two strictly sorted sequences with the same elements are equal.
pub proof fn lemma_strictly_sorted_unique(a: Seq<Seq<char>>, b: Seq<Seq<char>>)
    requires
        strictly_sorted(a),
        strictly_sorted(b),
        a.to_set() == b.to_set(),
    ensures
        a == b,
    decreases a.len() + b.len(),
{
    if a.len() == 0 || b.len() == 0 {
        if a.len() > 0 {
            assert(a.to_set().contains(a[0]));
        }
        if b.len() > 0 {
            assert(b.to_set().contains(b[0]));
        }
        assert(a =~= b);
    } else {
        assert(a.to_set().contains(a[0]));
        assert(b.to_set().contains(b[0]));
        let k = choose|k: int| 0 <= k < b.len() && b[k] == a[0];
        let j = choose|j: int| 0 <= j < a.len() && a[j] == b[0];
        if k > 0 {
            if j > 0 {
                assert(lex_lt(a[0], a[j]));
                assert(lex_lt(b[0], b[k]));
                lemma_lex_asymmetric(a[0], b[0]);
            } else {
                assert(lex_lt(b[0], b[k]));
                lemma_lex_irreflexive(b[0]);
            }
        }
        assert(a[0] == b[0]);
        let a1 = a.drop_first();
        let b1 = b.drop_first();
        assert(a1.to_set() =~= b1.to_set()) by {
            assert forall|y: Seq<char>| a1.to_set().contains(y) implies b1.to_set().contains(y) by {
                let i = choose|i: int| 0 <= i < a1.len() && a1[i] == y;
                assert(a.to_set().contains(y));
                let m = choose|m: int| 0 <= m < b.len() && b[m] == y;
                assert(lex_lt(a[0], a[i + 1]));
                if m == 0 {
                    lemma_lex_irreflexive(y);
                }
                assert(b1[m - 1] == y);
            }
            assert forall|y: Seq<char>| b1.to_set().contains(y) implies a1.to_set().contains(y) by {
                let i = choose|i: int| 0 <= i < b1.len() && b1[i] == y;
                assert(b.to_set().contains(y));
                let m = choose|m: int| 0 <= m < a.len() && a[m] == y;
                assert(lex_lt(b[0], b[i + 1]));
                if m == 0 {
                    lemma_lex_irreflexive(y);
                }
                assert(a1[m - 1] == y);
            }
        }
        lemma_strictly_sorted_unique(a1, b1);
        assert(a =~= seq![a[0]] + a1);
        assert(b =~= seq![b[0]] + b1);
    }
}

/// `m` with `x` put in its place (left out when `m` already has it).
pub open spec fn insert_sorted(m: Seq<Seq<char>>, x: Seq<char>) -> Seq<Seq<char>>
    decreases m.len(),
{
    if m.len() == 0 {
        seq![x]
    } else if lex_lt(m.last(), x) {
        m.push(x)
    } else if m.last() == x {
        m
    } else {
        insert_sorted(m.drop_last(), x).push(m.last())
    }
}

proof fn lemma_insert_sorted(m: Seq<Seq<char>>, x: Seq<char>)
    requires
        strictly_sorted(m),
    ensures
        strictly_sorted(insert_sorted(m, x)),
        insert_sorted(m, x).to_set() == m.to_set().insert(x),
        insert_sorted(m, x).len() > 0,
        forall|y: Seq<char>| #[trigger] insert_sorted(m, x).to_set().contains(y) ==> y == x || m.to_set().contains(y),
    decreases m.len(),
{
    let r = insert_sorted(m, x);
    if m.len() == 0 {
        assert(r.to_set() =~= m.to_set().insert(x)) by {
            assert forall|y: Seq<char>| r.to_set().contains(y) implies m.to_set().insert(x).contains(y) by {
                let k = choose|k: int| 0 <= k < r.len() && r[k] == y;
            }
            assert(r[0] == x);
        }
    } else if lex_lt(m.last(), x) {
        assert forall|a: int, b: int| 0 <= a < b < r.len() implies lex_lt(#[trigger] r[a], #[trigger] r[b]) by {
            if b == r.len() - 1 && a < m.len() - 1 {
                lemma_lex_transitive(m[a], m.last(), x);
            }
        }
        m.lemma_push_to_set_commute(x);
    } else if m.last() == x {
        assert(m.to_set().insert(x) =~= m.to_set()) by {
            assert(m.to_set().contains(m[m.len() - 1]));
        }
    } else {
        let d = m.drop_last();
        let l = m.last();
        assert(strictly_sorted(d));
        lemma_insert_sorted(d, x);
        let q = insert_sorted(d, x);
        lemma_lex_total(l, x);
        assert(lex_lt(x, l));
        assert forall|y: Seq<char>| #[trigger] q.to_set().contains(y) implies lex_lt(y, l) by {
            if y == x {
            } else {
                let k = choose|k: int| 0 <= k < d.len() && d[k] == y;
                assert(m[k] == y);
            }
        }
        assert forall|a: int, b: int| 0 <= a < b < r.len() implies lex_lt(#[trigger] r[a], #[trigger] r[b]) by {
            if b == r.len() - 1 {
                assert(q.to_set().contains(q[a]));
            } else {
                assert(r[a] == q[a] && r[b] == q[b]);
            }
        }
        q.lemma_push_to_set_commute(l);
        d.lemma_push_to_set_commute(l);
        assert(m =~= d.push(l));
        assert(r.to_set() =~= m.to_set().insert(x));
    }
}

proof fn sorted_witness(s: Seq<Seq<char>>) -> (m: Seq<Seq<char>>)
    ensures
        strictly_sorted(m),
        m.to_set() == s.to_set(),
    decreases s.len(),
{
    if s.len() == 0 {
        let m = Seq::<Seq<char>>::empty();
        assert(m.to_set() =~= s.to_set());
        m
    } else {
        let m0 = sorted_witness(s.drop_last());
        lemma_insert_sorted(m0, s.last());
        s.drop_last().lemma_push_to_set_commute(s.last());
        assert(s =~= s.drop_last().push(s.last()));
        insert_sorted(m0, s.last())
    }
}

/// `sorted_set(s)` is strictly increasing and has the elements of `s`.
pub proof fn lemma_sorted_set(s: Seq<Seq<char>>)
    ensures
        strictly_sorted(sorted_set(s)),
        sorted_set(s).to_set() == s.to_set(),
{
    let m = sorted_witness(s);
    assert(strictly_sorted(m) && m.to_set() == s.to_set());
}

/// `v.sort(); v.dedup();` on strings: the distinct strings of `v`, in
/// increasing order.
pub fn sort_dedup(v: Vec<String>) -> (r: Vec<String>)
    ensures
        strictly_sorted(str_views(r@)),
        str_views(r@).to_set() == str_views(v@).to_set(),
        str_views(r@) == sorted_set(str_views(v@)),
{
    let mut r: Vec<String> = Vec::new();
    let mut i: usize = 0;
    while i < v.len()
        invariant
            i <= v.len(),
            strictly_sorted(str_views(r@)),
            str_views(r@).to_set() == str_views(v@).take(i as int).to_set(),
        decreases v.len() - i,
    {
        let x = v[i].clone();
        let xs = chars_of(x.as_str());
        let ghost before = str_views(r@);
        // first position whose element is not below x
        let mut p: usize = 0;
        while p < r.len() && str_lt(r[p].as_str(), x.as_str())
            invariant
                p <= r.len(),
                str_views(r@) == before,
                forall|k: int| 0 <= k < p ==> lex_lt(#[trigger] before[k], x@),
            decreases r.len() - p,
        {
            p += 1;
        }
        assert(str_views(v@).take(i + 1) =~= str_views(v@).take(i as int).push(x@));
        proof {
            str_views(v@).take(i as int).lemma_push_to_set_commute(x@);
        }
        if p < r.len() && crate::text::str_eq(r[p].as_str(), x.as_str()) {
            assert(before[p as int] == x@);
            assert(before.to_set().insert(x@) =~= before.to_set());
        } else {
            proof {
                if p < before.len() {
                    lemma_lex_total(before[p as int], x@);
                }
            }
            r.insert(p, x);
            let ghost after = str_views(r@);
            assert(after =~= before.insert(p as int, x@));
            proof {
                assert forall|a: int, b: int| 0 <= a < b < after.len() implies lex_lt(
                    #[trigger] after[a],
                    #[trigger] after[b],
                ) by {
                    if b < p {
                    } else if a < p && b == p {
                    } else if a < p && b > p {
                        assert(lex_lt(before[a], before[b - 1]));
                    } else if a == p {
                        if b - 1 > p {
                            lemma_lex_transitive(x@, before[p as int], before[b - 1]);
                        }
                    } else {
                    }
                }
                assert(after.to_set() =~= before.to_set().insert(x@)) by {
                    assert forall|y: Seq<char>| after.to_set().contains(y) implies before.to_set().insert(x@).contains(y) by {
                        let k = choose|k: int| 0 <= k < after.len() && after[k] == y;
                        if k < p { assert(before[k] == y); }
                        else if k > p { assert(before[k - 1] == y); }
                    }
                    assert forall|y: Seq<char>| before.to_set().insert(x@).contains(y) implies after.to_set().contains(y) by {
                        if y == x@ { assert(after[p as int] == y); }
                        else {
                            let k = choose|k: int| 0 <= k < before.len() && before[k] == y;
                            if k < p { assert(after[k] == y); } else { assert(after[k + 1] == y); }
                        }
                    }
                }
            }
        }
        i += 1;
    }
    assert(str_views(v@).take(v.len() as int) =~= str_views(v@));
    proof {
        let m = sorted_set(str_views(v@));
        assert(strictly_sorted(str_views(r@)) && str_views(r@).to_set() == str_views(v@).to_set());
        lemma_strictly_sorted_unique(m, str_views(r@));
    }
    r
}


/// Whether `x` is among the strings of `v`.
pub fn list_contains(v: &Vec<String>, x: &str) -> (r: bool)
    ensures
        r == str_views(v@).contains(x@),
{
    let mut j: usize = 0;
    while j < v.len()
        invariant
            j <= v.len(),
            forall|k: int| 0 <= k < j ==> v@[k]@ != x@,
        decreases v.len() - j,
    {
        if crate::text::str_eq(v[j].as_str(), x) {
            assert(str_views(v@)[j as int] == x@);
            return true;
        }
        j += 1;
    }
    assert forall|k: int| 0 <= k < str_views(v@).len() implies str_views(v@)[k] != x@ by {
        assert(str_views(v@)[k] == v@[k]@);
    }
    false
}

/// The strings of `a` that are not in any of `b`, sorted, each once.
pub fn sorted_difference(a: &Vec<String>, b: &Vec<String>) -> (r: Vec<String>)
    ensures
        str_views(r@) == sorted_of_set(str_views(a@).to_set().difference(str_views(b@).to_set())),
        str_views(r@).to_set() == str_views(a@).to_set().difference(str_views(b@).to_set()),
        strictly_sorted(str_views(r@)),
{
    let mut v: Vec<String> = Vec::new();
    let mut i: usize = 0;
    while i < a.len()
        invariant
            i <= a.len(),
            str_views(v@).to_set() == str_views(a@).take(i as int).to_set().difference(
                str_views(b@).to_set(),
            ),
        decreases a.len() - i,
    {
        let ghost before = str_views(v@);
        assert(str_views(a@).take(i + 1) =~= str_views(a@).take(i as int).push(a@[i as int]@));
        proof {
            str_views(a@).take(i as int).lemma_push_to_set_commute(a@[i as int]@);
        }
        if !list_contains(b, a[i].as_str()) {
            v.push(a[i].clone());
            assert(str_views(v@) =~= before.push(a@[i as int]@));
            proof {
                before.lemma_push_to_set_commute(a@[i as int]@);
            }
        }
        assert(str_views(v@).to_set() =~= str_views(a@).take(i + 1).to_set().difference(
            str_views(b@).to_set(),
        ));
        i += 1;
    }
    assert(str_views(a@).take(a.len() as int) =~= str_views(a@));
    sort_dedup(v)
}

/// The strings of `a` and of `b`, sorted, each once.
pub fn sorted_union(a: &Vec<String>, b: &Vec<String>) -> (r: Vec<String>)
    ensures
        str_views(r@) == sorted_of_set(str_views(a@).to_set().union(str_views(b@).to_set())),
        str_views(r@).to_set() == str_views(a@).to_set().union(str_views(b@).to_set()),
        strictly_sorted(str_views(r@)),
{
    let mut v = a.clone();
    let mut w = b.clone();
    assert(str_views(v@) =~= str_views(a@));
    assert(str_views(w@) =~= str_views(b@));
    let ghost va = str_views(v@);
    let ghost wb = str_views(w@);
    v.append(&mut w);
    assert(str_views(v@) =~= va + wb);
    assert((va + wb).to_set() =~= va.to_set().union(wb.to_set())) by {
        assert forall|y: Seq<char>| (va + wb).to_set().contains(y) implies va.to_set().union(wb.to_set()).contains(y) by {
            let k = choose|k: int| 0 <= k < (va + wb).len() && (va + wb)[k] == y;
            if k < va.len() { assert(va[k] == y); } else { assert(wb[k - va.len()] == y); }
        }
        assert forall|y: Seq<char>| va.to_set().union(wb.to_set()).contains(y) implies (va + wb).to_set().contains(y) by {
            if va.to_set().contains(y) {
                let k = choose|k: int| 0 <= k < va.len() && va[k] == y;
                assert((va + wb)[k] == y);
            } else {
                let k = choose|k: int| 0 <= k < wb.len() && wb[k] == y;
                assert((va + wb)[k + va.len()] == y);
            }
        }
    }
    sort_dedup(v)
}

} // verus!
