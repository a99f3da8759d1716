//! Overlay sources: where an overlay is cached and which git steps bring the
//! cache up to date.
use vstd::prelude::*;
use crate::text::{chars_of, from_chars, strip_prefix, concat3, str_eq, str_views};

verus! {

/// Where cloned overlays are kept.
pub const CACHE_DIR: &'static str = "/var/lib/mycel/overlay-cache";

/// The one source format that is understood.
pub const GITHUB_PREFIX: &'static str = "github:";

/// Why an overlay source cannot be fetched.
#[derive(Clone, Copy, Debug, PartialEq, Eq, Structural)]
pub enum OverlayError {
    /// The source is not of the form `github:OWNER/REPO`.
    UnsupportedSource,
}

/// One git operation on an overlay's cache directory.
pub enum GitStep {
    /// `git fetch --tags`.
    FetchTags,
    /// Check out the newest tag, when `git describe --tags` names one.
    CheckoutLatestTag,
    /// `git pull`.
    Pull,
    /// `git clone --depth=1` of the URL into the cache directory; the fetch
    /// fails when this fails.
    Clone { url: String },
}

pub open spec fn step_view(s: GitStep) -> (int, Seq<char>) {
    match s {
        GitStep::FetchTags => (0, Seq::empty()),
        GitStep::CheckoutLatestTag => (1, Seq::empty()),
        GitStep::Pull => (2, Seq::empty()),
        GitStep::Clone { url } => (3, url@),
    }
}

pub open spec fn steps_view(v: Seq<GitStep>) -> Seq<(int, Seq<char>)> {
    v.map_values(|s: GitStep| step_view(s))
}

/// How to bring one overlay's cache up to date.
pub struct FetchPlan {
    /// The cache directory, which `fetch` returns.
    pub cache_path: String,
    /// The steps when the cache directory already exists.
    pub when_cached: Vec<GitStep>,
    /// The steps when it does not.
    pub when_missing: Vec<GitStep>,
}

/// The repository named by a `github:` source.
pub open spec fn github_repo(source: Seq<char>) -> Option<Seq<char>> {
    if GITHUB_PREFIX@.is_prefix_of(source) {
        Some(source.skip(GITHUB_PREFIX@.len() as int))
    } else {
        None
    }
}

/// `repo` with each `/` replaced by `-`.
pub open spec fn cache_name(repo: Seq<char>) -> Seq<char> {
    repo.map_values(|c: char| if c == '/' { '-' } else { c })
}

pub open spec fn cache_path_spec(repo: Seq<char>) -> Seq<char> {
    CACHE_DIR@ + "/"@ + cache_name(repo)
}

pub open spec fn clone_url(repo: Seq<char>) -> Seq<char> {
    "https://github.com/"@ + repo + ".git"@
}

/// Refreshing a cache: on the stable channel the newest tag, else the tip.
pub open spec fn refresh_steps(stable: bool) -> Seq<(int, Seq<char>)> {
    if stable {
        seq![(0, Seq::empty()), (1, Seq::empty())]
    } else {
        seq![(2, Seq::empty())]
    }
}

/// A first fetch: a shallow clone, then on the stable channel the newest tag.
pub open spec fn first_fetch_steps(repo: Seq<char>, stable: bool) -> Seq<(int, Seq<char>)> {
    if stable {
        seq![(3, clone_url(repo)), (0, Seq::empty()), (1, Seq::empty())]
    } else {
        seq![(3, clone_url(repo))]
    }
}

/// `str::replace` of one character by another.
pub fn replace_char(s: &str, from: char, to: char) -> (r: String)
    ensures
        r@ == s@.map_values(|c: char| if c == from { to } else { c }),
{
    let v = chars_of(s);
    let mut out: Vec<char> = Vec::new();
    let mut i: usize = 0;
    while i < v.len()
        invariant
            i <= v.len(),
            out@ == v@.take(i as int).map_values(|c: char| if c == from { to } else { c }),
        decreases v.len() - i,
    {
        let c = v[i];
        if c == from {
            out.push(to);
        } else {
            out.push(c);
        }
        assert(v@.take(i + 1).map_values(|c: char| if c == from { to } else { c }) =~= out@);
        i += 1;
    }
    assert(v@.take(v.len() as int) =~= v@);
    from_chars(out.as_slice())
}

fn refresh(stable: bool) -> (r: Vec<GitStep>)
    ensures
        steps_view(r@) == refresh_steps(stable),
{
    let r = if stable {
        vec![GitStep::FetchTags, GitStep::CheckoutLatestTag]
    } else {
        vec![GitStep::Pull]
    };
    assert(steps_view(r@) =~= refresh_steps(stable));
    r
}

/// Plans the fetch of an overlay source (`github:OWNER/REPO`) on a channel
/// (`"stable"` follows tags, anything else the default branch).
pub fn fetch(source: &str, channel: &str) -> (r: Result<FetchPlan, OverlayError>)
    ensures
        match github_repo(source@) {
            None => r == Err::<FetchPlan, OverlayError>(OverlayError::UnsupportedSource),
            Some(repo) => r matches Ok(p) && p.cache_path@ == cache_path_spec(repo)
                && steps_view(p.when_cached@) == refresh_steps(channel@ == "stable"@)
                && steps_view(p.when_missing@) == first_fetch_steps(repo, channel@ == "stable"@),
        },
{
    match strip_prefix(source, GITHUB_PREFIX) {
        None => Err(OverlayError::UnsupportedSource),
        Some(repo) => {
            let stable = str_eq(channel, "stable");
            let name = replace_char(repo.as_str(), '/', '-');
            let cache_path = concat3(CACHE_DIR, "/", name.as_str());
            let url = concat3("https://github.com/", repo.as_str(), ".git");
            let when_cached = refresh(stable);
            let mut when_missing: Vec<GitStep> = vec![GitStep::Clone { url }];
            if stable {
                when_missing.push(GitStep::FetchTags);
                when_missing.push(GitStep::CheckoutLatestTag);
            }
            assert(steps_view(when_missing@) =~= first_fetch_steps(repo@, stable));
            Ok(FetchPlan { cache_path, when_cached, when_missing })
        },
    }
}

/// The steps that bring each cached overlay up to date (`mycel update`).
pub fn update_steps(channel: &str) -> (r: Vec<GitStep>)
    ensures
        steps_view(r@) == refresh_steps(channel@ == "stable"@),
{
    refresh(str_eq(channel, "stable"))
}

/// The overlays `(name, HEAD before, HEAD after)` whose HEAD moved, in
/// the order given.
pub open spec fn moved(heads: Seq<(String, String, String)>) -> Seq<Seq<char>>
    decreases heads.len(),
{
    if heads.len() == 0 {
        Seq::empty()
    } else {
        let rest = moved(heads.drop_last());
        let h = heads.last();
        if h.1@ != h.2@ {
            rest.push(h.0@)
        } else {
            rest
        }
    }
}

/// The names of the overlays whose HEAD differs before and after an update.
pub fn updated_overlays(heads: &Vec<(String, String, String)>) -> (r: Vec<String>)
    ensures
        str_views(r@) == moved(heads@),
{
    let mut r: Vec<String> = Vec::new();
    let mut i: usize = 0;
    while i < heads.len()
        invariant
            i <= heads.len(),
            str_views(r@) == moved(heads@.take(i as int)),
        decreases heads.len() - i,
    {
        assert(heads@.take(i + 1).drop_last() =~= heads@.take(i as int));
        let h = &heads[i];
        if !str_eq(h.1.as_str(), h.2.as_str()) {
            let ghost before = str_views(r@);
            r.push(h.0.clone());
            assert(str_views(r@) =~= before.push(h.0@));
        }
        i += 1;
    }
    assert(heads@.take(heads.len() as int) =~= heads@);
    r
}

} // verus!
