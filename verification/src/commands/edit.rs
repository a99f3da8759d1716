//! `mycel edit`: which configuration file to open, and whether to apply it.
use vstd::prelude::*;
use crate::text::{concat, lowercase, str_eq, to_lowercase, trim, trim_str};

verus! {

pub const MYCEL_TOML: &'static str = "/etc/mycel.toml";

/// The file to edit.
#[derive(Clone, Copy, Debug, PartialEq, Eq, Structural)]
pub enum EditTarget {
    Mycel,
    Fessus,
}

/// A target other than `mycel` or `fessus`.
#[derive(Clone, Copy, Debug, PartialEq, Eq, Structural)]
pub enum EditError {
    UnknownTarget,
}

/// `fessus` edits fessus.toml; `mycel`, or no target, edits mycel.toml.
pub fn edit_target(target: Option<&str>) -> (r: Result<EditTarget, EditError>)
    ensures
        r == (match target {
            None => Ok::<EditTarget, EditError>(EditTarget::Mycel),
            Some(t) => if t@ == "fessus"@ {
                Ok(EditTarget::Fessus)
            } else if t@ == "mycel"@ {
                Ok(EditTarget::Mycel)
            } else {
                Err(EditError::UnknownTarget)
            },
        }),
{
    match target {
        None => Ok(EditTarget::Mycel),
        Some(t) => if str_eq(t, "fessus") {
            Ok(EditTarget::Fessus)
        } else if str_eq(t, "mycel") {
            Ok(EditTarget::Mycel)
        } else {
            Err(EditError::UnknownTarget)
        },
    }
}

/// The path of a target's file: `/etc/mycel.toml`, or the user's
/// `HOME/.config/fessus.toml`.
pub fn target_path(t: EditTarget, home: &str) -> (r: String)
    ensures
        r@ == (match t {
            EditTarget::Mycel => MYCEL_TOML@,
            EditTarget::Fessus => home@ + "/.config/fessus.toml"@,
        }),
{
    match t {
        EditTarget::Mycel => MYCEL_TOML.to_string(),
        EditTarget::Fessus => concat(home, "/.config/fessus.toml"),
    }
}

/// The answer to "apply changes now? [Y/n]": anything but `n` (after
/// trimming and lowercasing) is a yes.
pub fn wants_apply(answer: &str) -> (r: bool)
    ensures
        r == (lowercase(trim(answer@)) != "n"@),
{
    let t = trim_str(answer);
    let l = to_lowercase(t.as_str());
    !str_eq(l.as_str(), "n")
}

} // verus!
