//! `mycel rollback`: the target generation and the live package changes.
use vstd::prelude::*;
use crate::system::records::{PackageVersion, names, missing_from, packages_missing_from, packages_not_named};
use crate::text::str_views;

verus! {

/// Where a rollback goes.
#[derive(Clone, Copy, Debug, PartialEq, Eq, Structural)]
pub enum RollbackTarget {
    /// The requested generation is the current one: nothing to do.
    AlreadyCurrent,
    /// Roll back to this older generation (its snapshot must exist).
    To(u64),
}

#[derive(Clone, Copy, Debug, PartialEq, Eq, Structural)]
/// Why there is nothing to roll back to.
pub enum RollbackError {
    /// No generation is recorded yet.
    NoGenerations,
    /// At generation 1 and no target given.
    AtFirstGeneration,
    /// The requested generation is newer than the current one.
    InTheFuture { target: u64, current: u64 },
}

/// The target of `mycel rollback [id]`: the requested generation, or the one
/// before the current.
pub fn rollback_target(current: u64, requested: Option<u64>) -> (r: Result<RollbackTarget, RollbackError>)
    ensures
        current == 0 ==> r == Err::<RollbackTarget, RollbackError>(RollbackError::NoGenerations),
        current > 0 && requested is None && current == 1 ==> r == Err::<RollbackTarget, RollbackError>(
            RollbackError::AtFirstGeneration,
        ),
        current > 1 && requested is None ==> r == Ok::<RollbackTarget, RollbackError>(
            RollbackTarget::To((current - 1) as u64),
        ),
        requested matches Some(t) ==> current > 0 ==> r == (if t == current {
            Ok::<RollbackTarget, RollbackError>(RollbackTarget::AlreadyCurrent)
        } else if t > current {
            Err(RollbackError::InTheFuture { target: t, current })
        } else {
            Ok(RollbackTarget::To(t))
        }),
{
    if current == 0 {
        return Err(RollbackError::NoGenerations);
    }
    let to = match requested {
        Some(g) => g,
        None => {
            if current == 1 {
                return Err(RollbackError::AtFirstGeneration);
            }
            current - 1
        },
    };
    if to == current {
        return Ok(RollbackTarget::AlreadyCurrent);
    }
    if to > current {
        return Err(RollbackError::InTheFuture { target: to, current });
    }
    Ok(RollbackTarget::To(to))
}

/// The live package changes of a rollback: packages of the old generation
/// that are not installed now get reinstalled; installed packages the old
/// generation lacks get removed, unless they are locked.
pub struct PackageChanges {
    pub to_install: Vec<PackageVersion>,
    pub to_remove: Vec<PackageVersion>,
}

/// The packages to reinstall and to remove when rolling back from the
/// current packages `cur` to those of an old generation `old`; `locked`
/// names the packages that survive rollbacks.
pub fn package_changes(old: &Vec<PackageVersion>, cur: &Vec<PackageVersion>, locked: &Vec<String>) -> (c: PackageChanges)
    ensures
        c.to_install@ == missing_from(old@, names(cur@)),
        c.to_remove@ == missing_from(missing_from(cur@, names(old@)), str_views(locked@)),
{
    let gone = packages_missing_from(cur, old);
    PackageChanges {
        to_install: packages_missing_from(old, cur),
        to_remove: packages_not_named(&gone, locked),
    }
}

proof fn lemma_missing_from(a: Seq<PackageVersion>, b: Seq<Seq<char>>)
    ensures
        forall|x: Seq<char>| #[trigger] names(missing_from(a, b)).contains(x) <==> (names(a).contains(x)
            && !b.contains(x)),
    decreases a.len(),
{
    if a.len() > 0 {
        let r = missing_from(a.drop_last(), b);
        lemma_missing_from(a.drop_last(), b);
        assert(names(a.drop_last()) =~= names(a).drop_last());
        let m = missing_from(a, b);
        assert forall|x: Seq<char>| #[trigger] names(m).contains(x) <==> (names(a).contains(x) && !b.contains(x)) by {
            if b.contains(a.last().name@) {
                assert(m == r);
                if names(a).contains(x) && !b.contains(x) {
                    let k = choose|k: int| 0 <= k < names(a).len() && names(a)[k] == x;
                    if k < a.len() - 1 {
                        assert(names(a.drop_last())[k] == x);
                    }
                }
                if names(r).contains(x) {
                    let k = choose|k: int| 0 <= k < names(a.drop_last()).len() && names(a.drop_last())[k] == x;
                    assert(names(a)[k] == x);
                }
            } else {
                assert(m == r.push(a.last()));
                assert(names(m) =~= names(r).push(a.last().name@));
                if names(a).contains(x) && !b.contains(x) {
                    let k = choose|k: int| 0 <= k < names(a).len() && names(a)[k] == x;
                    if k < a.len() - 1 {
                        assert(names(a.drop_last())[k] == x);
                        assert(names(r).contains(x));
                        let j = choose|j: int| 0 <= j < names(r).len() && names(r)[j] == x;
                        assert(names(m)[j] == x);
                    } else {
                        assert(names(m)[names(m).len() - 1] == x);
                    }
                }
                if names(m).contains(x) {
                    let k = choose|k: int| 0 <= k < names(m).len() && names(m)[k] == x;
                    if k < names(r).len() {
                        assert(names(r)[k] == x);
                        assert(names(r).contains(x));
                        let j = choose|j: int| 0 <= j < names(a.drop_last()).len() && names(a.drop_last())[j] == x;
                        assert(names(a)[j] == x);
                    } else {
                        assert(names(a)[a.len() - 1] == x);
                    }
                }
            }
        }
    }
}

/// Rolling back restores the old generation's package set, and locked
/// packages survive it: after removing `to_remove` and reinstalling
/// `to_install`, a package is installed exactly when the old generation had
/// it, or it is installed now and locked; no locked package is removed.
pub proof fn lemma_rollback_restores(old: Seq<PackageVersion>, cur: Seq<PackageVersion>, locked: Seq<Seq<char>>)
    ensures
        forall|x: Seq<char>|
            ((names(cur).contains(x) && !names(missing_from(missing_from(cur, names(old)), locked)).contains(x))
                || names(missing_from(old, names(cur))).contains(x)) <==> (#[trigger] names(old).contains(x)
                || (names(cur).contains(x) && locked.contains(x))),
        forall|x: Seq<char>|
            locked.contains(x) ==> !(#[trigger] names(missing_from(missing_from(cur, names(old)), locked)).contains(x)),
{
    lemma_missing_from(cur, names(old));
    lemma_missing_from(missing_from(cur, names(old)), locked);
    lemma_missing_from(old, names(cur));
}

} // verus!
