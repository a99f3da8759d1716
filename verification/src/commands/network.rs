//! `mycel network`: the list of system generations.
use vstd::prelude::*;
use crate::num::{decimal, parse_u64, parse_u64_str, u64_to_string};
use crate::text::{concat, concat3, from_chars, lines, lines_of, views, words, words_of_chars};

verus! {

/// The nix profile whose generations are listed.
pub const PROFILE_PATH: &'static str = "/nix/var/nix/profiles/mycel-system";

/// One generation listed by `nix-env --list-generations`.
pub struct GenerationRow {
    pub id: u64,
    /// The date and the time, separated by a space.
    pub date: String,
}

/// The row a line of the listing gives: at least three words, the first a
/// number.
pub open spec fn row_of(l: Seq<char>) -> Option<(u64, Seq<char>)> {
    let w = words(l);
    if w.len() < 3 {
        None
    } else {
        match parse_u64(w[0]) {
            Some(id) => Some((id, w[1] + " "@ + w[2])),
            None => None,
        }
    }
}

/// The rows of the listing lines, in order.
pub open spec fn rows(ls: Seq<Seq<char>>) -> Seq<(u64, Seq<char>)>
    decreases ls.len(),
{
    if ls.len() == 0 {
        Seq::empty()
    } else {
        match row_of(ls.last()) {
            Some(r) => rows(ls.drop_last()).push(r),
            None => rows(ls.drop_last()),
        }
    }
}

pub open spec fn row_views(v: Seq<GenerationRow>) -> Seq<(u64, Seq<char>)> {
    v.map_values(|r: GenerationRow| (r.id, r.date@))
}

fn row(l: &Vec<char>) -> (r: Option<GenerationRow>)
    ensures
        match (r, row_of(l@)) {
            (Some(a), Some(b)) => a.id == b.0 && a.date@ == b.1,
            (None, None) => true,
            _ => false,
        },
{
    let w = words_of_chars(l);
    if w.len() < 3 {
        return None;
    }
    let first = from_chars(w[0].as_slice());
    assert(first@ == views(w@)[0]);
    match parse_u64_str(first.as_str()) {
        Some(id) => {
            let d = from_chars(w[1].as_slice());
            let t = from_chars(w[2].as_slice());
            assert(d@ == views(w@)[1] && t@ == views(w@)[2]);
            Some(GenerationRow { id, date: concat3(d.as_str(), " ", t.as_str()) })
        },
        None => None,
    }
}

/// The generations in the output of `nix-env --list-generations`, in order;
/// lines that are not rows are skipped.
pub fn parse_generation_list(listing: &str) -> (r: Vec<GenerationRow>)
    ensures
        row_views(r@) == rows(lines(listing@)),
{
    let ls = lines_of(listing);
    let mut r: Vec<GenerationRow> = Vec::new();
    let mut i: usize = 0;
    while i < ls.len()
        invariant
            i <= ls.len(),
            views(ls@) == lines(listing@),
            row_views(r@) == rows(views(ls@).take(i as int)),
        decreases ls.len() - i,
    {
        assert(views(ls@).take(i + 1).drop_last() =~= views(ls@).take(i as int));
        assert(views(ls@).take(i + 1).last() == ls@[i as int]@);
        match row(&ls[i]) {
            Some(g) => {
                let ghost before = row_views(r@);
                let ghost item = (g.id, g.date@);
                r.push(g);
                assert(row_views(r@) =~= before.push(item));
            },
            None => {},
        }
        i += 1;
    }
    assert(views(ls@).take(ls.len() as int) =~= views(ls@));
    r
}

/// The store link of generation `id`: `PROFILE_PATH-ID-link`.
pub fn store_link(id: u64) -> (r: String)
    ensures
        r@ == PROFILE_PATH@ + "-"@ + decimal(id as nat) + "-link"@,
{
    let n = u64_to_string(id);
    let a = concat3(PROFILE_PATH, "-", n.as_str());
    concat(a.as_str(), "-link")
}

} // verus!
