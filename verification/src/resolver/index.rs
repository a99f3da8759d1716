//! The package index: package name → path of its `.myc` recipe.
use vstd::prelude::*;
use crate::text::{chars_of, str_eq};

verus! {

/// Maps package name → path to its .myc recipe file.
pub struct PackageIndex {
    entries: Vec<(String, String)>,
}

/// The map that a list of (name, path) pairs stands for; a later pair for
/// the same name replaces an earlier one.
pub open spec fn map_of(e: Seq<(String, String)>) -> Map<Seq<char>, Seq<char>>
    decreases e.len(),
{
    if e.len() == 0 {
        Map::empty()
    } else {
        map_of(e.drop_last()).insert(e.last().0@, e.last().1@)
    }
}

pub open spec fn unique_names(e: Seq<(String, String)>) -> bool {
    forall|i: int, j: int| 0 <= i < j < e.len() ==> (#[trigger] e[i]).0@ != (#[trigger] e[j]).0@
}

proof fn lemma_map_of(e: Seq<(String, String)>)
    requires
        unique_names(e),
    ensures
        map_of(e).dom() == e.map_values(|p: (String, String)| p.0@).to_set(),
        map_of(e).dom().finite(),
        map_of(e).dom().len() == e.len(),
        forall|i: int| 0 <= i < e.len() ==> map_of(e)[(#[trigger] e[i]).0@] == e[i].1@,
    decreases e.len(),
{
    let ks = e.map_values(|p: (String, String)| p.0@);
    if e.len() == 0 {
        assert(map_of(e).dom() =~= ks.to_set());
    } else {
        let d = e.drop_last();
        lemma_map_of(d);
        let kd = d.map_values(|p: (String, String)| p.0@);
        assert(ks =~= kd.push(e.last().0@));
        kd.lemma_push_to_set_commute(e.last().0@);
        assert(!kd.contains(e.last().0@)) by {
            if kd.contains(e.last().0@) {
                let k = choose|k: int| 0 <= k < kd.len() && kd[k] == e.last().0@;
                assert(e[k].0@ == e[e.len() - 1].0@);
            }
        }
        assert(map_of(e).dom() =~= ks.to_set());
        assert forall|i: int| 0 <= i < e.len() implies map_of(e)[(#[trigger] e[i]).0@] == e[i].1@ by {
            if i < e.len() - 1 {
                assert(d[i] == e[i]);
            }
        }
    }
}

impl View for PackageIndex {
    type V = Map<Seq<char>, Seq<char>>;

    closed spec fn view(&self) -> Map<Seq<char>, Seq<char>> {
        map_of(self.entries@)
    }
}

impl PackageIndex {
    #[verifier::type_invariant]
    spec fn inv(self) -> bool {
        unique_names(self.entries@)
    }

    /// An empty index.
    pub fn new() -> (s: Self)
        ensures
            s@ == Map::<Seq<char>, Seq<char>>::empty(),
    {
        PackageIndex { entries: Vec::new() }
    }

    fn position(&self, name: &str) -> (r: Option<usize>)
        ensures
            match r {
                Some(i) => i < self.entries@.len() && self.entries@[i as int].0@ == name@,
                None => forall|i: int| 0 <= i < self.entries@.len() ==> (#[trigger] self.entries@[i]).0@ != name@,
            },
    {
        let mut i: usize = 0;
        while i < self.entries.len()
            invariant
                i <= self.entries@.len(),
                forall|k: int| 0 <= k < i ==> (#[trigger] self.entries@[k]).0@ != name@,
            decreases self.entries.len() - i,
        {
            if str_eq(self.entries[i].0.as_str(), name) {
                return Some(i);
            }
            i += 1;
        }
        None
    }

    /// Records that `name`'s recipe is at `path`, replacing an earlier path.
    pub fn insert(&mut self, name: String, path: String)
        ensures
            final(self)@ == old(self)@.insert(name@, path@),
    {
        proof {
            use_type_invariant(&*self);
        }
        let ghost e0 = self.entries@;
        match self.position(name.as_str()) {
            Some(i) => {
                let mut entries: Vec<(String, String)> = Vec::new();
                std::mem::swap(&mut entries, &mut self.entries);
                proof {
                    lemma_map_of(e0);
                }
                let ghost before = entries@;
                entries.set(i, (name, path));
                let ghost e1 = entries@;
                assert(unique_names(e1)) by {
                    assert forall|a: int, b: int| 0 <= a < b < e1.len() implies (#[trigger] e1[a]).0@ != (#[trigger] e1[b]).0@ by {
                        if a != i && b != i {
                            assert(e1[a] == e0[a] && e1[b] == e0[b]);
                        } else if a == i {
                            assert(e0[a].0@ == name@);
                            assert(e1[b] == e0[b]);
                        } else {
                            assert(e0[b].0@ == name@);
                            assert(e1[a] == e0[a]);
                        }
                    }
                }
                proof {
                    lemma_map_of(e1);
                    assert(map_of(e1) =~= map_of(e0).insert(name@, path@)) by {
                        let k0 = e0.map_values(|p: (String, String)| p.0@);
                        let k1 = e1.map_values(|p: (String, String)| p.0@);
                        assert(k1 =~= k0.update(i as int, name@));
                        assert forall|x: Seq<char>| map_of(e1).dom().contains(x) <==> map_of(e0).insert(name@, path@).dom().contains(x) by {
                            if k1.to_set().contains(x) {
                                let k = choose|k: int| 0 <= k < k1.len() && k1[k] == x;
                                if k != i { assert(k0[k] == x); }
                            }
                            if k0.to_set().contains(x) && x != name@ {
                                let k = choose|k: int| 0 <= k < k0.len() && k0[k] == x;
                                assert(k != i);
                                assert(k1[k] == x);
                            }
                            if x == name@ { assert(k1[i as int] == x); }
                        }
                        assert forall|x: Seq<char>| #[trigger] map_of(e1).dom().contains(x) implies map_of(e1)[x] == map_of(e0).insert(name@, path@)[x] by {
                            let k = choose|k: int| 0 <= k < k1.len() && k1[k] == x;
                            assert(e1[k].0@ == x);
                            if k != i { assert(e0[k] == e1[k]); }
                        }
                    }
                }
                self.entries = entries;
            },
            None => {
                let mut entries: Vec<(String, String)> = Vec::new();
                std::mem::swap(&mut entries, &mut self.entries);
                entries.push((name, path));
                let ghost e1 = entries@;
                assert(e1.drop_last() =~= e0);
                assert(unique_names(e1)) by {
                    assert forall|a: int, b: int| 0 <= a < b < e1.len() implies (#[trigger] e1[a]).0@ != (#[trigger] e1[b]).0@ by {
                        if b == e1.len() - 1 {
                            assert(e1[a] == e0[a]);
                        } else {
                            assert(e1[a] == e0[a] && e1[b] == e0[b]);
                        }
                    }
                }
                self.entries = entries;
            },
        }
    }

    /// Find the recipe path for a package name.
    pub fn find(&self, name: &str) -> (r: Option<&String>)
        ensures
            match r {
                Some(p) => self@.contains_key(name@) && p@ == self@[name@],
                None => !self@.contains_key(name@),
            },
    {
        proof {
            use_type_invariant(self);
            lemma_map_of(self.entries@);
        }
        match self.position(name) {
            Some(i) => {
                let ghost ks = self.entries@.map_values(|p: (String, String)| p.0@);
                assert(ks[i as int] == name@);
                Some(&self.entries[i].1)
            },
            None => {
                let ghost ks = self.entries@.map_values(|p: (String, String)| p.0@);
                assert(!ks.contains(name@)) by {
                    if ks.contains(name@) {
                        let k = choose|k: int| 0 <= k < ks.len() && ks[k] == name@;
                        assert(self.entries@[k].0@ == name@);
                    }
                }
                None
            },
        }
    }

    /// The number of packages indexed.
    pub fn len(&self) -> (n: usize)
        ensures
            n == self@.dom().len(),
    {
        proof {
            use_type_invariant(self);
            lemma_map_of(self.entries@);
        }
        self.entries.len()
    }
}

/// One recipe found while walking an overlay: its path and the package name
/// it declares.
pub struct FoundRecipe {
    pub path: String,
    pub name: String,
}

/// The index after recording each found recipe in turn.
pub open spec fn with_recipes(m: Map<Seq<char>, Seq<char>>, found: Seq<FoundRecipe>) -> Map<Seq<char>, Seq<char>>
    decreases found.len(),
{
    if found.len() == 0 {
        m
    } else {
        with_recipes(m, found.drop_last()).insert(found.last().name@, found.last().path@)
    }
}

/// Records the recipes found in an overlay, in the order they were found (a
/// later recipe for the same package replaces an earlier one).
pub fn scan_overlay(found: &Vec<FoundRecipe>, index: &mut PackageIndex)
    ensures
        final(index)@ == with_recipes(old(index)@, found@),
{
    let mut i: usize = 0;
    while i < found.len()
        invariant
            i <= found.len(),
            index@ == with_recipes(old(index)@, found@.take(i as int)),
        decreases found.len() - i,
    {
        assert(found@.take(i + 1).drop_last() =~= found@.take(i as int));
        index.insert(found[i].name.clone(), found[i].path.clone());
        i += 1;
    }
    assert(found@.take(found.len() as int) =~= found@);
}

/// What a lookup gives back of a record: after `insert(name, path)`, `find`
/// gives `path` for `name` and what it gave before for every other name.
pub proof fn lemma_find_after_insert(
    m: Map<Seq<char>, Seq<char>>,
    name: Seq<char>,
    path: Seq<char>,
    other: Seq<char>,
)
    ensures
        m.insert(name, path).contains_key(name),
        m.insert(name, path)[name] == path,
        other != name ==> m.insert(name, path).contains_key(other) == m.contains_key(other),
        other != name && m.contains_key(other) ==> m.insert(name, path)[other] == m[other],
{
}

/// When overlays are scanned, the last recipe found for a package is the one
/// the index keeps.
pub proof fn lemma_last_recipe_wins(m: Map<Seq<char>, Seq<char>>, found: Seq<FoundRecipe>, j: int)
    requires
        0 <= j < found.len(),
        forall|k: int| j < k < found.len() ==> (#[trigger] found[k]).name@ != found[j].name@,
    ensures
        with_recipes(m, found).contains_key(found[j].name@),
        with_recipes(m, found)[found[j].name@] == found[j].path@,
    decreases found.len(),
{
    if j < found.len() - 1 {
        let d = found.drop_last();
        assert forall|k: int| j < k < d.len() implies (#[trigger] d[k]).name@ != d[j].name@ by {
            assert(d[k] == found[k]);
        }
        lemma_last_recipe_wins(m, d, j);
        assert(found.last() == found[found.len() - 1]);
    }
}

/// The package names declared by the recipes found.
pub open spec fn recipe_names(found: Seq<FoundRecipe>) -> Set<Seq<char>> {
    Set::new(|n: Seq<char>| exists|k: int| 0 <= k < found.len() && (#[trigger] found[k]).name@ == n)
}

/// Scanning adds to the index exactly the names the found recipes declare,
/// each with the path of a recipe that declares it; so an index built from
/// nothing finds a name if and only if some found recipe declares it, and
/// its length is the number of distinct names declared.
pub proof fn lemma_scanned_names(m: Map<Seq<char>, Seq<char>>, found: Seq<FoundRecipe>)
    ensures
        with_recipes(m, found).dom() == m.dom().union(recipe_names(found)),
        forall|n: Seq<char>|
            #[trigger] with_recipes(m, found).contains_key(n) && !m.contains_key(n) ==> exists|k: int|
                0 <= k < found.len() && found[k].name@ == n && found[k].path@ == with_recipes(
                    m,
                    found,
                )[n],
        m.dom().finite() ==> with_recipes(m, found).dom().finite(),
        m == Map::<Seq<char>, Seq<char>>::empty() ==> with_recipes(m, found).dom().len()
            == recipe_names(found).len(),
    decreases found.len(),
{
    if found.len() > 0 {
        let d = found.drop_last();
        let r = found.last();
        lemma_scanned_names(m, d);
        let w = with_recipes(m, found);
        let wd = with_recipes(m, d);
        assert forall|n: Seq<char>| recipe_names(found).contains(n) <==> (recipe_names(d).contains(n) || n == r.name@) by {
            if recipe_names(found).contains(n) {
                let k = choose|k: int| 0 <= k < found.len() && (#[trigger] found[k]).name@ == n;
                if k < d.len() {
                    assert(d[k] == found[k]);
                }
            }
            if recipe_names(d).contains(n) {
                let k = choose|k: int| 0 <= k < d.len() && (#[trigger] d[k]).name@ == n;
                assert(found[k] == d[k]);
            }
            if n == r.name@ {
                assert(found[found.len() - 1].name@ == n);
            }
        }
        assert(w.dom() =~= m.dom().union(recipe_names(found)));
        assert forall|n: Seq<char>| #[trigger] w.contains_key(n) && !m.contains_key(n) implies exists|k: int|
            0 <= k < found.len() && found[k].name@ == n && found[k].path@ == w[n] by {
            if n == r.name@ {
                assert(found[found.len() - 1] == r);
            } else {
                assert(wd.contains_key(n));
                let k = choose|k: int| 0 <= k < d.len() && d[k].name@ == n && d[k].path@ == wd[n];
                assert(found[k] == d[k]);
            }
        }
    } else {
        assert(recipe_names(found) =~= Set::<Seq<char>>::empty());
        assert(m.dom().union(recipe_names(found)) =~= m.dom());
    }
    if m == Map::<Seq<char>, Seq<char>>::empty() {
        assert(m.dom().union(recipe_names(found)) =~= recipe_names(found));
    }
}

/// A file met while walking an overlay: its path, its file name and its
/// text.
pub struct OverlayFile {
    pub path: String,
    pub file_name: String,
    pub text: String,
}

/// A file name whose extension is `myc`: it ends in `.myc` after at least
/// one other character.
pub open spec fn is_recipe_file(file_name: Seq<char>) -> bool {
    let n = file_name.len();
    &&& n > 4
    &&& file_name[n - 4] == '.'
    &&& file_name[n - 3] == 'm'
    &&& file_name[n - 2] == 'y'
    &&& file_name[n - 1] == 'c'
}

/// What the `package` key of a recipe holds, as far as a package name is
/// read from it.
pub enum PackageItem {
    /// A table: its `name` key, when that is a string.
    Table(Option<String>),
    /// An array: each of its elements, when that is a string.
    Array(Vec<Option<String>>),
    /// Any other value.
    Other,
}

pub enum PackageItemView {
    Table(Option<Seq<char>>),
    Array(Seq<Option<Seq<char>>>),
    Other,
}

pub open spec fn opt_str_view(o: Option<String>) -> Option<Seq<char>> {
    match o {
        Some(s) => Some(s@),
        None => None,
    }
}

impl View for PackageItem {
    type V = PackageItemView;

    open spec fn view(&self) -> PackageItemView {
        match self {
            PackageItem::Table(n) => PackageItemView::Table(opt_str_view(*n)),
            PackageItem::Array(v) => PackageItemView::Array(v@.map_values(|o: Option<String>| opt_str_view(o))),
            PackageItem::Other => PackageItemView::Other,
        }
    }
}

/// What `toml` reads under the `package` key of a recipe text; none when
/// the text is not TOML or has no `package` key.
pub uninterp spec fn package_item(text: Seq<char>) -> Option<PackageItemView>;

/// `toml`: parses the text as a `toml::Table` (`FromStr`), takes its
/// `package` value (`get`) and tells a table, whose `name` it reads as a
/// string (`get`, `Value::as_str`), from an array, whose elements it reads
/// as strings, and from any other value; the result is named
/// `package_item`.
#[verifier::external_body]
fn read_package_item(text: &str) -> (r: Option<PackageItem>)
    ensures
        match r {
            Some(i) => package_item(text@) == Some(i@),
            None => package_item(text@) is None,
        },
{
    let table: toml::Table = text.parse().ok()?;
    Some(match table.get("package")? {
        toml::Value::Table(t) => PackageItem::Table(t.get("name").and_then(|v| v.as_str()).map(|s| s.to_string())),
        toml::Value::Array(a) => PackageItem::Array(a.iter().map(|v| v.as_str().map(|s| s.to_string())).collect()),
        _ => PackageItem::Other,
    })
}

/// The package name a recipe declares, read as serde reads `package` into
/// a struct whose one field is a string `name`: from a table, its `name`
/// when that is a string; from an array (the struct's fields in order), its
/// first element when that is a string; none otherwise.
pub open spec fn declared_name(text: Seq<char>) -> Option<Seq<char>> {
    match package_item(text) {
        Some(PackageItemView::Table(n)) => n,
        Some(PackageItemView::Array(vs)) => if vs.len() > 0 {
            vs[0]
        } else {
            None
        },
        _ => None,
    }
}

fn read_declared_name(text: &str) -> (r: Option<String>)
    ensures
        match r {
            Some(n) => declared_name(text@) == Some(n@),
            None => declared_name(text@) is None,
        },
{
    match read_package_item(text) {
        Some(PackageItem::Table(n)) => n,
        Some(PackageItem::Array(vs)) => {
            if vs.len() > 0 {
                match &vs[0] {
                    Some(s) => Some(s.clone()),
                    None => None,
                }
            } else {
                None
            }
        },
        _ => None,
    }
}

/// Whether the walk reads a file as a recipe.
pub fn is_recipe_file_name(file_name: &str) -> (r: bool)
    ensures
        r == is_recipe_file(file_name@),
{
    let c = chars_of(file_name);
    let n = c.len();
    n > 4 && c[n - 4] == '.' && c[n - 3] == 'm' && c[n - 2] == 'y' && c[n - 1] == 'c'
}

/// A file gives a recipe when its extension is `myc` and its text declares
/// a package name.
pub open spec fn recipe_in(f: OverlayFile) -> bool {
    is_recipe_file(f.file_name@) && declared_name(f.text@) is Some
}

/// The (name, path) of each recipe the files give, in the order walked.
pub open spec fn found_views(files: Seq<OverlayFile>) -> Seq<(Seq<char>, Seq<char>)>
    decreases files.len(),
{
    if files.len() == 0 {
        Seq::empty()
    } else {
        let f = files.last();
        let r = found_views(files.drop_last());
        if recipe_in(f) {
            r.push((declared_name(f.text@).unwrap(), f.path@))
        } else {
            r
        }
    }
}

/// The (name, path) of each found recipe.
pub open spec fn recipe_views(found: Seq<FoundRecipe>) -> Seq<(Seq<char>, Seq<char>)> {
    found.map_values(|f: FoundRecipe| (f.name@, f.path@))
}

/// The recipe one file of an overlay gives, if any.
pub fn recipe_of(file: &OverlayFile) -> (r: Option<FoundRecipe>)
    ensures
        match r {
            Some(f) => recipe_in(*file) && declared_name(file.text@) == Some(f.name@) && f.path@
                == file.path@,
            None => !recipe_in(*file),
        },
{
    if !is_recipe_file_name(file.file_name.as_str()) {
        return None;
    }
    match read_declared_name(file.text.as_str()) {
        Some(name) => Some(FoundRecipe { path: file.path.clone(), name }),
        None => None,
    }
}

/// The recipes that the files walked in an overlay give, in the order
/// walked.
pub fn recipes_in(files: &Vec<OverlayFile>) -> (r: Vec<FoundRecipe>)
    ensures
        recipe_views(r@) == found_views(files@),
{
    let mut r: Vec<FoundRecipe> = Vec::new();
    let mut i: usize = 0;
    while i < files.len()
        invariant
            i <= files.len(),
            recipe_views(r@) == found_views(files@.take(i as int)),
        decreases files.len() - i,
    {
        assert(files@.take(i + 1).drop_last() =~= files@.take(i as int));
        assert(files@.take(i + 1).last() == files@[i as int]);
        let ghost before = r@;
        match recipe_of(&files[i]) {
            Some(f) => {
                r.push(f);
                assert(recipe_views(r@) =~= recipe_views(before).push((r@.last().name@, r@.last().path@)));
            },
            None => {},
        }
        i += 1;
    }
    assert(files@.take(files.len() as int) =~= files@);
    r
}

proof fn lemma_found_names(files: Seq<OverlayFile>, found: Seq<FoundRecipe>, n: Seq<char>)
    requires
        recipe_views(found) == found_views(files),
    ensures
        recipe_names(found).contains(n) <==> exists|k: int|
            0 <= k < files.len() && recipe_in(#[trigger] files[k]) && declared_name(files[k].text@)
                == Some(n),
    decreases files.len(),
{
    if files.len() == 0 {
        assert(found.len() == recipe_views(found).len());
        if recipe_names(found).contains(n) {
            let j = choose|j: int| 0 <= j < found.len() && (#[trigger] found[j]).name@ == n;
        }
    } else {
        let d = files.drop_last();
        let f = files.last();
        let wit_in_d = exists|k: int|
            0 <= k < d.len() && recipe_in(#[trigger] d[k]) && declared_name(d[k].text@) == Some(n);
        assert(wit_in_d ==> exists|k: int|
            0 <= k < files.len() && recipe_in(#[trigger] files[k]) && declared_name(files[k].text@)
                == Some(n)) by {
            if wit_in_d {
                let k = choose|k: int|
                    0 <= k < d.len() && recipe_in(#[trigger] d[k]) && declared_name(d[k].text@) == Some(n);
                assert(files[k] == d[k]);
            }
        }
        if (exists|k: int|
            0 <= k < files.len() && recipe_in(#[trigger] files[k]) && declared_name(files[k].text@)
                == Some(n)) {
            let k = choose|k: int|
                0 <= k < files.len() && recipe_in(#[trigger] files[k]) && declared_name(files[k].text@)
                    == Some(n);
            if k < d.len() {
                assert(d[k] == files[k]);
            }
        }
        if recipe_in(f) {
            assert(found_views(files) == found_views(d).push((declared_name(f.text@).unwrap(), f.path@)));
            assert(found_views(files).drop_last() =~= found_views(d));
            assert(recipe_views(found).len() == found.len());
            let fd = found.drop_last();
            assert(recipe_views(fd) =~= recipe_views(found).drop_last());
            lemma_found_names(d, fd, n);
            let last = found[found.len() - 1];
            assert(recipe_views(found)[found.len() - 1] == (last.name@, last.path@));
            assert(last.name@ == declared_name(f.text@).unwrap());
            if recipe_names(found).contains(n) {
                let j = choose|j: int| 0 <= j < found.len() && (#[trigger] found[j]).name@ == n;
                if j < fd.len() {
                    assert(fd[j] == found[j]);
                } else {
                    assert(files[files.len() - 1] == f);
                }
            }
            if recipe_names(fd).contains(n) {
                let j = choose|j: int| 0 <= j < fd.len() && (#[trigger] fd[j]).name@ == n;
                assert(found[j] == fd[j]);
            }
            if recipe_in(f) && declared_name(f.text@) == Some(n) {
                assert(found[found.len() - 1].name@ == n);
            }
        } else {
            lemma_found_names(d, found, n);
        }
    }
}

/// An index built by scanning the recipes of an overlay's files finds a
/// name exactly when some walked file with the extension `myc` declares that
/// name, gives for it the path of such a file, and holds as many packages as
/// distinct names are declared.
pub proof fn lemma_index_of_files(files: Seq<OverlayFile>, found: Seq<FoundRecipe>)
    requires
        recipe_views(found) == found_views(files),
    ensures
        forall|n: Seq<char>|
            #[trigger] with_recipes(Map::empty(), found).contains_key(n) <==> exists|k: int|
                0 <= k < files.len() && recipe_in(#[trigger] files[k]) && declared_name(
                    files[k].text@,
                ) == Some(n),
        forall|n: Seq<char>|
            #[trigger] with_recipes(Map::empty(), found).contains_key(n) ==> exists|k: int|
                0 <= k < found.len() && found[k].name@ == n && found[k].path@ == with_recipes(
                    Map::empty(),
                    found,
                )[n],
        with_recipes(Map::empty(), found).dom().len() == recipe_names(found).len(),
{
    lemma_scanned_names(Map::empty(), found);
    assert forall|n: Seq<char>|
        #[trigger] with_recipes(Map::empty(), found).contains_key(n) <==> exists|k: int|
            0 <= k < files.len() && recipe_in(#[trigger] files[k]) && declared_name(files[k].text@)
                == Some(n) by {
        lemma_found_names(files, found, n);
    }
}

/// The file is a recipe that declares package `n`.
pub open spec fn declares(f: OverlayFile, n: Seq<char>) -> bool {
    recipe_in(f) && declared_name(f.text@) == Some(n)
}

/// Some file of the walk declares package `n`.
pub open spec fn walk_declares(w: Seq<OverlayFile>, n: Seq<char>) -> bool {
    exists|k: int| 0 <= k < w.len() && declares(#[trigger] w[k], n)
}

/// The last file of the walk that declares package `n` has path `p`.
pub open spec fn last_declared_at(w: Seq<OverlayFile>, n: Seq<char>, p: Seq<char>) -> bool {
    exists|k: int|
        0 <= k < w.len() && declares(#[trigger] w[k], n) && w[k].path@ == p && forall|l: int|
            k < l < w.len() ==> !declares(#[trigger] w[l], n)
}

/// The map after recording each (name, path) in turn.
pub open spec fn with_views(m: Map<Seq<char>, Seq<char>>, vs: Seq<(Seq<char>, Seq<char>)>) -> Map<
    Seq<char>,
    Seq<char>,
>
    decreases vs.len(),
{
    if vs.len() == 0 {
        m
    } else {
        with_views(m, vs.drop_last()).insert(vs.last().0, vs.last().1)
    }
}

/// The index after scanning the walked files of each overlay in turn,
/// starting from an empty one.
pub open spec fn overlay_index(walks: Seq<Seq<OverlayFile>>) -> Map<Seq<char>, Seq<char>>
    decreases walks.len(),
{
    if walks.len() == 0 {
        Map::empty()
    } else {
        with_views(overlay_index(walks.drop_last()), found_views(walks.last()))
    }
}

/// The package names that some file of some overlay declares.
pub open spec fn overlay_names(walks: Seq<Seq<OverlayFile>>) -> Set<Seq<char>> {
    Set::new(|n: Seq<char>| exists|i: int| 0 <= i < walks.len() && walk_declares(#[trigger] walks[i], n))
}

pub open spec fn walk_views(walks: Seq<Vec<OverlayFile>>) -> Seq<Seq<OverlayFile>> {
    walks.map_values(|w: Vec<OverlayFile>| w@)
}

proof fn lemma_with_recipes_views(m: Map<Seq<char>, Seq<char>>, found: Seq<FoundRecipe>)
    ensures
        with_recipes(m, found) == with_views(m, recipe_views(found)),
    decreases found.len(),
{
    if found.len() > 0 {
        lemma_with_recipes_views(m, found.drop_last());
        assert(recipe_views(found).drop_last() =~= recipe_views(found.drop_last()));
        assert(recipe_views(found).last() == (found.last().name@, found.last().path@));
    }
}

/// Builds the package index from the files walked in each fetched overlay,
/// in the order the overlays were fetched.
pub fn index_overlays(walks: &Vec<Vec<OverlayFile>>) -> (idx: PackageIndex)
    ensures
        idx@ == overlay_index(walk_views(walks@)),
{
    let mut idx = PackageIndex::new();
    let mut i: usize = 0;
    assert(walk_views(walks@.take(0)) =~= Seq::<Seq<OverlayFile>>::empty());
    while i < walks.len()
        invariant
            i <= walks.len(),
            idx@ == overlay_index(walk_views(walks@.take(i as int))),
        decreases walks.len() - i,
    {
        let found = recipes_in(&walks[i]);
        proof {
            lemma_with_recipes_views(idx@, found@);
        }
        scan_overlay(&found, &mut idx);
        proof {
            let next = walk_views(walks@.take(i + 1));
            assert(next.drop_last() =~= walk_views(walks@.take(i as int)));
            assert(next.last() == walks@[i as int]@);
        }
        i += 1;
    }
    assert(walks@.take(walks.len() as int) =~= walks@);
    idx
}

proof fn lemma_scan_walk(m: Map<Seq<char>, Seq<char>>, w: Seq<OverlayFile>, n: Seq<char>)
    ensures
        with_views(m, found_views(w)).contains_key(n) <==> (m.contains_key(n) || walk_declares(w, n)),
        walk_declares(w, n) ==> last_declared_at(w, n, with_views(m, found_views(w))[n]),
        !walk_declares(w, n) ==> with_views(m, found_views(w))[n] == m[n],
        m.dom().finite() ==> with_views(m, found_views(w)).dom().finite(),
    decreases w.len(),
{
    if w.len() > 0 {
        let d = w.drop_last();
        let f = w.last();
        lemma_scan_walk(m, d, n);
        let md = with_views(m, found_views(d));
        let mw = with_views(m, found_views(w));
        assert(f == w[w.len() - 1]);
        assert(walk_declares(w, n) <==> (walk_declares(d, n) || declares(f, n))) by {
            if walk_declares(d, n) {
                let k = choose|k: int| 0 <= k < d.len() && declares(#[trigger] d[k], n);
                assert(w[k] == d[k]);
            }
            if walk_declares(w, n) && !declares(f, n) {
                let k = choose|k: int| 0 <= k < w.len() && declares(#[trigger] w[k], n);
                assert(d[k] == w[k]);
            }
        }
        if recipe_in(f) {
            let x = (declared_name(f.text@).unwrap(), f.path@);
            assert(found_views(w) == found_views(d).push(x));
            assert(found_views(w).drop_last() =~= found_views(d));
            assert(mw == md.insert(x.0, x.1));
        } else {
            assert(mw == md);
        }
        if declares(f, n) {
            assert(mw[n] == f.path@);
            assert(last_declared_at(w, n, mw[n])) by {
                assert(declares(w[w.len() - 1], n));
            }
        } else if walk_declares(d, n) {
            assert(mw[n] == md[n]);
            let k = choose|k: int|
                0 <= k < d.len() && declares(#[trigger] d[k], n) && d[k].path@ == md[n] && forall|l: int|
                    k < l < d.len() ==> !declares(#[trigger] d[l], n);
            assert(w[k] == d[k]);
            assert forall|l: int| k < l < w.len() implies !declares(#[trigger] w[l], n) by {
                if l < d.len() {
                    assert(w[l] == d[l]);
                }
            }
        }
    }
}

proof fn lemma_overlays_at(walks: Seq<Seq<OverlayFile>>, n: Seq<char>)
    ensures
        overlay_index(walks).contains_key(n) <==> exists|i: int|
            0 <= i < walks.len() && walk_declares(#[trigger] walks[i], n),
        overlay_index(walks).contains_key(n) ==> exists|i: int|
            0 <= i < walks.len() && last_declared_at(#[trigger] walks[i], n, overlay_index(walks)[n])
                && forall|j: int| i < j < walks.len() ==> !walk_declares(#[trigger] walks[j], n),
        overlay_index(walks).dom().finite(),
    decreases walks.len(),
{
    if walks.len() > 0 {
        let p = walks.drop_last();
        let w = walks.last();
        let last = walks.len() - 1;
        assert(walks[last] == w);
        lemma_overlays_at(p, n);
        lemma_scan_walk(overlay_index(p), w, n);
        let mp = overlay_index(p);
        let m = overlay_index(walks);
        assert((exists|i: int| 0 <= i < walks.len() && walk_declares(#[trigger] walks[i], n)) <==> (
        (exists|i: int| 0 <= i < p.len() && walk_declares(#[trigger] p[i], n)) || walk_declares(w, n)))
            by {
            if exists|i: int| 0 <= i < p.len() && walk_declares(#[trigger] p[i], n) {
                let i = choose|i: int| 0 <= i < p.len() && walk_declares(#[trigger] p[i], n);
                assert(walks[i] == p[i]);
            }
            if exists|i: int| 0 <= i < walks.len() && walk_declares(#[trigger] walks[i], n) {
                let i = choose|i: int| 0 <= i < walks.len() && walk_declares(#[trigger] walks[i], n);
                if i < last {
                    assert(p[i] == walks[i]);
                }
            }
        }
        if m.contains_key(n) {
            if walk_declares(w, n) {
                assert(last_declared_at(walks[last], n, m[n]));
            } else {
                let i = choose|i: int|
                    0 <= i < p.len() && last_declared_at(#[trigger] p[i], n, mp[n]) && forall|j: int|
                        i < j < p.len() ==> !walk_declares(#[trigger] p[j], n);
                assert(walks[i] == p[i]);
                assert forall|j: int| i < j < walks.len() implies !walk_declares(#[trigger] walks[j], n) by {
                    if j < last {
                        assert(walks[j] == p[j]);
                    }
                }
                assert(last_declared_at(walks[i], n, m[n]));
            }
        }
    }
}

/// Scanning several overlays in turn: the index holds exactly the names
/// that some `.myc` file of some overlay declares (so as many packages as
/// distinct names); for each it gives the path of the last file walked that
/// declares it, in the last overlay that declares it; and no overlays give
/// an empty index.
pub proof fn lemma_overlays_index(walks: Seq<Seq<OverlayFile>>)
    ensures
        walks.len() == 0 ==> overlay_index(walks) == Map::<Seq<char>, Seq<char>>::empty(),
        overlay_index(walks).dom() == overlay_names(walks),
        overlay_index(walks).dom().finite(),
        forall|n: Seq<char>|
            #[trigger] overlay_index(walks).contains_key(n) ==> exists|i: int|
                0 <= i < walks.len() && last_declared_at(#[trigger] walks[i], n, overlay_index(walks)[n])
                    && forall|j: int| i < j < walks.len() ==> !walk_declares(#[trigger] walks[j], n),
{
    lemma_overlays_at(walks, Seq::empty());
    assert forall|n: Seq<char>|
        #[trigger] overlay_index(walks).contains_key(n) implies exists|i: int|
            0 <= i < walks.len() && last_declared_at(#[trigger] walks[i], n, overlay_index(walks)[n])
                && forall|j: int| i < j < walks.len() ==> !walk_declares(#[trigger] walks[j], n) by {
        lemma_overlays_at(walks, n);
    }
    assert forall|n: Seq<char>| overlay_index(walks).dom().contains(n) <==> overlay_names(walks).contains(n) by {
        lemma_overlays_at(walks, n);
    }
    assert(overlay_index(walks).dom() =~= overlay_names(walks));
}

} // verus!
