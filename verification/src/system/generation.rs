//! The generation counter kept in `/etc/mycel/generation`.
use vstd::prelude::*;
use crate::num::{parse_u64, parse_u64_str, decimal, u64_to_string, lemma_parse_decimal};
use crate::text::{trim, trim_str};

verus! {

/// The generation a counter file holds: its trimmed text as a number, 0 when
/// that is not a number.
pub open spec fn generation_of(text: Seq<char>) -> u64 {
    match parse_u64(trim(text)) {
        Some(n) => n,
        None => 0,
    }
}

/// Reads the generation out of the counter file's text.
pub fn parse_generation(text: &str) -> (g: u64)
    ensures
        g == generation_of(text@),
{
    let t = trim_str(text);
    match parse_u64_str(t.as_str()) {
        Some(n) => n,
        None => 0,
    }
}

/// The next generation and the text to write to the counter file; `None`
/// when the counter cannot grow.
pub fn bump_generation(text: &str) -> (r: Option<(u64, String)>)
    ensures
        match r {
            Some((next, out)) => generation_of(text@) < u64::MAX && next == generation_of(text@)
                + 1 && out@ == decimal(next as nat),
            None => generation_of(text@) == u64::MAX,
        },
{
    let cur = parse_generation(text);
    if cur == u64::MAX {
        return None;
    }
    let next = cur + 1;
    Some((next, u64_to_string(next)))
}

proof fn lemma_trim_digits(s: Seq<char>)
    requires
        crate::num::all_digits(s),
    ensures
        trim(s) == s,
{
    if s.len() > 0 {
        assert(crate::num::is_digit(s[0]));
        assert(crate::num::is_digit(s.last()));
    }
}

/// After a bump, the counter file reads back as the new generation.
pub proof fn lemma_bump_reads_back(next: u64)
    ensures
        generation_of(decimal(next as nat)) == next,
{
    lemma_parse_decimal(next);
    crate::num::lemma_decimal_all_digits(next as nat);
    lemma_trim_digits(decimal(next as nat));
}

} // verus!
