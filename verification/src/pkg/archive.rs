//! Recognising the archive format of a download by its file name.
use vstd::prelude::*;
use crate::text::ends_with;

verus! {

/// The archive formats that can be unpacked.
#[derive(Clone, Copy, Debug, PartialEq, Eq, Structural)]
pub enum ArchiveKind {
    /// `.tar.gz`, `.tgz`
    TarGz,
    /// `.tar.bz2`, `.tbz`
    TarBz2,
    /// `.tar.zst`
    TarZst,
    /// `.tar.xz`, `.txz`
    TarXz,
    /// `.zip`
    Zip,
}

pub open spec fn ends(name: Seq<char>, suffix: Seq<char>) -> bool {
    suffix.is_suffix_of(name)
}

/// The format of an archive by its file name, tested in this order; none
/// for a name that no format claims.
pub open spec fn kind_of(name: Seq<char>) -> Option<ArchiveKind> {
    if ends(name, ".tar.gz"@) || ends(name, ".tgz"@) {
        Some(ArchiveKind::TarGz)
    } else if ends(name, ".tar.bz2"@) || ends(name, ".tbz"@) {
        Some(ArchiveKind::TarBz2)
    } else if ends(name, ".tar.zst"@) {
        Some(ArchiveKind::TarZst)
    } else if ends(name, ".tar.xz"@) || ends(name, ".txz"@) {
        Some(ArchiveKind::TarXz)
    } else if ends(name, ".zip"@) {
        Some(ArchiveKind::Zip)
    } else {
        None
    }
}

/// The format of the archive with this file name.
pub fn archive_kind(name: &str) -> (r: Option<ArchiveKind>)
    ensures
        r == kind_of(name@),
{
    if ends_with(name, ".tar.gz") || ends_with(name, ".tgz") {
        Some(ArchiveKind::TarGz)
    } else if ends_with(name, ".tar.bz2") || ends_with(name, ".tbz") {
        Some(ArchiveKind::TarBz2)
    } else if ends_with(name, ".tar.zst") {
        Some(ArchiveKind::TarZst)
    } else if ends_with(name, ".tar.xz") || ends_with(name, ".txz") {
        Some(ArchiveKind::TarXz)
    } else if ends_with(name, ".zip") {
        Some(ArchiveKind::Zip)
    } else {
        None
    }
}

} // verus!
