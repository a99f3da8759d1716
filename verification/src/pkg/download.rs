//! Where a recipe's source is downloaded from, and to.
use vstd::prelude::*;
use crate::pkg::schema::Source;
use crate::text::{str_eq, concat3, split_char, split_on, views, from_chars, lemma_split_on_nonempty};

verus! {

/// Why a recipe's source names no URL.
#[derive(Clone, Copy, Debug, PartialEq, Eq, Structural)]
pub enum SourceError {
    /// `github-release` without `repo`.
    MissingRepo,
    /// `github-release` without `tag`.
    MissingTag,
    /// `github-release` without `asset`.
    MissingAsset,
    /// `url` or `git` without `url`.
    MissingUrl,
    /// A `type` that is not known.
    UnknownType,
}

pub open spec fn opt_view(o: Option<String>) -> Option<Seq<char>> {
    match o {
        Some(s) => Some(s@),
        None => None,
    }
}

/// The URL a source downloads from.
pub open spec fn source_url(s: Source) -> Result<Seq<char>, SourceError> {
    let t = s.source_type@;
    if t == "github-release"@ {
        match (opt_view(s.repo), opt_view(s.tag), opt_view(s.asset)) {
            (None, _, _) => Err(SourceError::MissingRepo),
            (Some(_), None, _) => Err(SourceError::MissingTag),
            (Some(_), Some(_), None) => Err(SourceError::MissingAsset),
            (Some(r), Some(g), Some(a)) => Ok(
                "https://github.com/"@ + r + "/releases/download/"@ + g + "/"@ + a,
            ),
        }
    } else if t == "url"@ || t == "git"@ {
        match opt_view(s.url) {
            Some(u) => Ok(u),
            None => Err(SourceError::MissingUrl),
        }
    } else {
        Err(SourceError::UnknownType)
    }
}

fn copy_opt(o: &Option<String>) -> (r: Option<String>)
    ensures
        opt_view(r) == opt_view(*o),
{
    match o {
        Some(s) => Some(s.clone()),
        None => None,
    }
}

/// Resolves the URL that a recipe's source downloads from.
pub fn resolve_url(source: &Source) -> (r: Result<String, SourceError>)
    ensures
        match source_url(*source) {
            Ok(u) => r matches Ok(v) && v@ == u,
            Err(e) => r matches Err(f) && f == e,
        },
{
    let t = source.source_type.as_str();
    if str_eq(t, "github-release") {
        let repo = match &source.repo {
            Some(r) => r,
            None => return Err(SourceError::MissingRepo),
        };
        let tag = match &source.tag {
            Some(g) => g,
            None => return Err(SourceError::MissingTag),
        };
        let asset = match &source.asset {
            Some(a) => a,
            None => return Err(SourceError::MissingAsset),
        };
        let head = concat3("https://github.com/", repo.as_str(), "/releases/download/");
        let url = concat3(head.as_str(), tag.as_str(), "/");
        let url = concat3(url.as_str(), asset.as_str(), "");
        proof {
            reveal_strlit("");
        }
        assert(url@ =~= "https://github.com/"@ + repo@ + "/releases/download/"@ + tag@ + "/"@ + asset@);
        Ok(url)
    } else if str_eq(t, "url") || str_eq(t, "git") {
        match copy_opt(&source.url) {
            Some(u) => Ok(u),
            None => Err(SourceError::MissingUrl),
        }
    } else {
        Err(SourceError::UnknownType)
    }
}

/// The last `/`-separated piece of a URL: the name the download is saved
/// under.
pub open spec fn file_name_of(url: Seq<char>) -> Seq<char> {
    split_on(url, '/').last()
}

/// Where a download lands: `DEST/NAME`, `NAME` the URL's last piece.
pub struct DownloadTarget {
    pub url: String,
    pub file_name: String,
    pub path: String,
}

/// The URL of a recipe's source, and the file it is saved to under `dest`.
pub fn download_target(source: &Source, dest: &str) -> (r: Result<DownloadTarget, SourceError>)
    ensures
        match source_url(*source) {
            Ok(u) => r matches Ok(t) && t.url@ == u && t.file_name@ == file_name_of(u)
                && t.path@ == dest@ + "/"@ + file_name_of(u),
            Err(e) => r matches Err(f) && f == e,
        },
{
    let url = resolve_url(source)?;
    let pieces = split_char(url.as_str(), '/');
    proof {
        lemma_split_on_nonempty(url@, '/');
    }
    let last = &pieces[pieces.len() - 1];
    let file_name = from_chars(last.as_slice());
    assert(file_name@ == views(pieces@).last());
    let path = concat3(dest, "/", file_name.as_str());
    Ok(DownloadTarget { url, file_name, path })
}

} // verus!
