//! `mycel lock`: packages that survive rollbacks and removals.
use vstd::prelude::*;
use crate::text::concat3;

verus! {

/// A locked package has an empty marker file here, named by the package.
pub const LOCKS_DIR: &'static str = "/var/lib/mycel/locks";

/// The marker of package `name`: `LOCKS_DIR/NAME`.
pub fn lock_marker(name: &str) -> (r: String)
    ensures
        r@ == LOCKS_DIR@ + "/"@ + name@,
{
    concat3(LOCKS_DIR, "/", name)
}

} // verus!
