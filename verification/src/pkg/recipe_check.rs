//! `mycel-pkg verify` and `submit`: what a recipe must have, and the entry
//! it gets in the community index.
use vstd::prelude::*;
use crate::pkg::schema::Recipe;
use crate::text::concat3;

verus! {

/// The outcome of each check on a recipe.
pub struct RecipeChecks {
    /// `package.name` is not empty.
    pub name_set: bool,
    /// `package.version` is not empty.
    pub version_set: bool,
    /// `package.description` is not empty.
    pub description_set: bool,
    /// `source.type` is not empty.
    pub source_type_set: bool,
    /// `source.checksum` is present.
    pub checksum_present: bool,
    /// `install.binaries` is a non-empty list, or `install.script` is set.
    pub install_defined: bool,
}

impl RecipeChecks {
    /// Every check passed: the recipe is valid.
    pub open spec fn valid(self) -> bool {
        self.name_set && self.version_set && self.description_set && self.source_type_set
            && self.checksum_present && self.install_defined
    }

    /// Whether the recipe passed every check.
    pub fn all_passed(&self) -> (r: bool)
        ensures
            r == self.valid(),
    {
        self.name_set && self.version_set && self.description_set && self.source_type_set
            && self.checksum_present && self.install_defined
    }
}

/// Checks a recipe.
pub fn check_recipe(r: &Recipe) -> (c: RecipeChecks)
    ensures
        c.name_set == (r.package.name@.len() > 0),
        c.version_set == (r.package.version@.len() > 0),
        c.description_set == (r.package.description@.len() > 0),
        c.source_type_set == (r.source.source_type@.len() > 0),
        c.checksum_present == (r.source.checksum is Some),
        c.install_defined == ((r.install.binaries matches Some(b) && b@.len() > 0) || r.install.script is Some),
{
    let has_binaries = match &r.install.binaries {
        Some(b) => b.len() > 0,
        None => false,
    };
    RecipeChecks {
        name_set: !r.package.name.as_str().is_empty(),
        version_set: !r.package.version.as_str().is_empty(),
        description_set: !r.package.description.as_str().is_empty(),
        source_type_set: !r.source.source_type.as_str().is_empty(),
        checksum_present: r.source.checksum.is_some(),
        install_defined: has_binaries || r.install.script.is_some(),
    }
}

/// The lines of a recipe's entry in `community/index.toml`; the maintainer
/// defaults to a placeholder.
pub open spec fn index_entry(r: Recipe) -> Seq<Seq<char>> {
    seq![
        "[[overlays]]"@,
        "name        = \""@ + r.package.name@ + "\""@,
        "repo        = \"github:YOUR_USERNAME/YOUR_OVERLAY_REPO\""@,
        "description = \""@ + r.package.description@ + "\""@,
        "maintainer  = \""@ + (match r.package.maintainer {
            Some(m) => m@,
            None => "YOUR_USERNAME"@,
        }) + "\""@,
        "verified    = false"@,
    ]
}

/// The index entry for submitting a recipe, line by line.
pub fn index_entry_lines(r: &Recipe) -> (v: Vec<String>)
    ensures
        v@.map_values(|s: String| s@) == index_entry(*r),
{
    let maintainer: &str = match &r.package.maintainer {
        Some(m) => m.as_str(),
        None => "YOUR_USERNAME",
    };
    let v = vec![
        String::from_str("[[overlays]]"),
        concat3("name        = \"", r.package.name.as_str(), "\""),
        String::from_str("repo        = \"github:YOUR_USERNAME/YOUR_OVERLAY_REPO\""),
        concat3("description = \"", r.package.description.as_str(), "\""),
        concat3("maintainer  = \"", maintainer, "\""),
        String::from_str("verified    = false"),
    ];
    assert(v@.map_values(|s: String| s@) =~= index_entry(*r));
    v
}

} // verus!
