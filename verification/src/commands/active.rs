//! `mycel active`: what the running system reports about itself.
use vstd::prelude::*;
use crate::num::{decimal, u64_to_string};
use crate::text::{concat, concat3, from_chars, trim, trim_str, views, words, words_of};

verus! {

/// The generation shown: the counter file's trimmed text, `0` when the
/// file could not be read.
pub fn generation_label(counter: Option<&str>) -> (r: String)
    ensures
        r@ == (match counter {
            Some(t) => trim(t@),
            None => "0"@,
        }),
{
    match counter {
        Some(t) => trim_str(t),
        None => String::from_str("0"),
    }
}

/// The kernel release: the third word of `/proc/version`, `unknown` when
/// there is none.
pub open spec fn kernel_of(version: Seq<char>) -> Seq<char> {
    if words(version).len() > 2 {
        words(version)[2]
    } else {
        "unknown"@
    }
}

/// The kernel release from the text of `/proc/version`.
pub fn kernel_release(version: &str) -> (r: String)
    ensures
        r@ == kernel_of(version@),
{
    let w = words_of(version);
    if w.len() > 2 {
        let r = from_chars(w[2].as_slice());
        assert(r@ == views(w@)[2]);
        r
    } else {
        String::from_str("unknown")
    }
}

/// Whole hours and the minutes past them: `Hh Mm`.
pub open spec fn uptime_text(secs: u64) -> Seq<char> {
    decimal((secs / 3600) as nat) + "h "@ + decimal(((secs % 3600) / 60) as nat) + "m"@
}

/// Formats an uptime given in whole seconds.
pub fn format_uptime(secs: u64) -> (r: String)
    ensures
        r@ == uptime_text(secs),
{
    let h = u64_to_string(secs / 3600);
    let m = u64_to_string((secs % 3600) / 60);
    let a = concat3(h.as_str(), "h ", m.as_str());
    concat(a.as_str(), "m")
}

} // verus!
