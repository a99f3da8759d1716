//! Where `fessus.toml` lives.
use vstd::prelude::*;
use crate::text::{strip_prefix, concat3};

verus! {

/// The configuration file, relative to the home directory.
pub const CONFIG_PATH: &'static str = "~/.config/fessus.toml";

/// The home directory used when `$HOME` is unset.
pub const DEFAULT_HOME: &'static str = "/root";

/// `~/rest` becomes `HOME/rest` (`/root` when there is no home); any other
/// path is returned as it is.
pub open spec fn expand_tilde(path: Seq<char>, home: Option<Seq<char>>) -> Seq<char> {
    if "~/"@.is_prefix_of(path) {
        let h = match home {
            Some(h) => h,
            None => DEFAULT_HOME@,
        };
        h + "/"@ + path.skip(2)
    } else {
        path
    }
}

/// Expands a leading `~/` with the given home directory.
pub fn shellexpand_tilde(path: &str, home: Option<&str>) -> (r: String)
    ensures
        r@ == expand_tilde(path@, match home {
            Some(h) => Some(h@),
            None => None,
        }),
{
    proof {
        reveal_strlit("~/");
    }
    match strip_prefix(path, "~/") {
        Some(rest) => {
            let h = match home {
                Some(h) => h,
                None => DEFAULT_HOME,
            };
            concat3(h, "/", rest.as_str())
        },
        None => path.to_string(),
    }
}

} // verus!
