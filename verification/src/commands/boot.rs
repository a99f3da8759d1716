//! `mycel boot`: choosing the generation the next boot starts.
use vstd::prelude::*;

verus! {

/// Why a generation cannot be made the boot target.
#[derive(Clone, Copy, Debug, PartialEq, Eq, Structural)]
pub enum BootError {
    /// The generation is not the current one and has no snapshot.
    NoSnapshot,
    /// The root filesystem is not btrfs.
    NotBtrfs,
}

/// Checks that generation `target` can be booted: it is the current
/// generation or has a snapshot, and the root filesystem is btrfs (tested
/// in that order).
pub fn check_boot_target(target: u64, current: u64, has_snapshot: bool, btrfs_root: bool) -> (r: Result<(), BootError>)
    ensures
        r == (if target != current && !has_snapshot {
            Err::<(), BootError>(BootError::NoSnapshot)
        } else if !btrfs_root {
            Err(BootError::NotBtrfs)
        } else {
            Ok(())
        }),
{
    if target != current && !has_snapshot {
        Err(BootError::NoSnapshot)
    } else if !btrfs_root {
        Err(BootError::NotBtrfs)
    } else {
        Ok(())
    }
}

} // verus!
