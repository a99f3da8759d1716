//! `mycel isolate`: pinning a generation so that purges spare it.
use vstd::prelude::*;
use crate::num::{decimal, u64_to_string};
use crate::text::concat;

verus! {

/// A pinned generation has an empty file here, named by its number.
pub const PINS_DIR: &'static str = "/etc/mycel/pins";

/// The pin file of a generation.
pub open spec fn pin_path_spec(g: u64) -> Seq<char> {
    PINS_DIR@ + "/"@ + decimal(g as nat)
}

/// The pin file of generation `g`: `PINS_DIR/G`.
pub fn pin_path(g: u64) -> (r: String)
    ensures
        r@ == pin_path_spec(g),
{
    let a = concat(PINS_DIR, "/");
    let n = u64_to_string(g);
    concat(a.as_str(), n.as_str())
}

} // verus!
