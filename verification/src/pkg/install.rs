//! Installing a package: where each file goes, the `.desktop` entry, and
//! the AppImage layout.
use vstd::prelude::*;
use crate::pkg::schema::{BinaryEntry, Desktop, Icon, Recipe};
use crate::text::{concat, concat3, ends_with, join, join_strings, str_views, to_lowercase, lowercase};
use crate::num::{decimal, u64_to_string};

verus! {

/// Downloads and builds happen under this directory.
pub const TMP_DIR: &'static str = "/tmp/mycel-pkg";

/// The scratch directory of one package version, `TMP_DIR/NAME-VERSION`.
pub open spec fn scratch_dir(name: Seq<char>, version: Seq<char>) -> Seq<char> {
    TMP_DIR@ + "/"@ + name + "-"@ + version
}

/// The scratch directory of a package version, and the directory its
/// archive is unpacked into (`/src` below it).
pub fn scratch_dirs(name: &str, version: &str) -> (r: (String, String))
    ensures
        r.0@ == scratch_dir(name@, version@),
        r.1@ == scratch_dir(name@, version@) + "/src"@,
{
    let a = concat3(TMP_DIR, "/", name);
    let tmp = concat3(a.as_str(), "-", version);
    assert(tmp@ =~= scratch_dir(name@, version@));
    let src = concat(tmp.as_str(), "/src");
    (tmp, src)
}

/// `(from, to)` of a binary entry: a plain path is copied from the unpacked
/// source under its own name; a table gives `from` (empty when missing) and
/// `to` (`from` when missing); anything else gives two empty strings.
pub open spec fn binary_paths(e: BinaryEntry, work_dir: Seq<char>) -> (Seq<char>, Seq<char>) {
    match e {
        BinaryEntry::Path(s) => (work_dir + "/"@ + s@, s@),
        BinaryEntry::Table { from, to } => {
            let f = match from {
                Some(f) => f@,
                None => Seq::<char>::empty(),
            };
            let t = match to {
                Some(t) => t@,
                None => f,
            };
            (work_dir + "/"@ + f, t)
        },
        BinaryEntry::Other => (Seq::<char>::empty(), Seq::<char>::empty()),
    }
}

/// The source path and installed name of one `install.binaries` entry.
pub fn parse_binary_entry(e: &BinaryEntry, work_dir: &str) -> (r: (String, String))
    ensures
        (r.0@, r.1@) == binary_paths(*e, work_dir@),
{
    match e {
        BinaryEntry::Path(s) => (concat3(work_dir, "/", s.as_str()), s.clone()),
        BinaryEntry::Table { from, to } => {
            let f: &str = match from {
                Some(f) => f.as_str(),
                None => "",
            };
            let t: &str = match to {
                Some(t) => t.as_str(),
                None => f,
            };
            proof {
                reveal_strlit("");
            }
            (concat3(work_dir, "/", f), t.to_string())
        },
        BinaryEntry::Other => (String::new(), String::new()),
    }
}

/// An ELF file carrying the AppImage type-2 marker `AI\x02` at offset 8.
pub open spec fn appimage_magic(h: Seq<u8>) -> bool {
    &&& h.len() >= 12
    &&& h[0] == 0x7f && h[1] == 0x45 && h[2] == 0x4c && h[3] == 0x46
    &&& h[8] == 0x41 && h[9] == 0x49 && h[10] == 0x02
}

/// A download is an AppImage when its lowercased path ends in `.appimage`,
/// or when its first twelve bytes (`header`, empty when they could not be
/// read) carry the AppImage marker.
pub fn is_appimage(path: &str, header: &[u8]) -> (r: bool)
    ensures
        r == (".appimage"@.is_suffix_of(lowercase(path@)) || appimage_magic(header@)),
{
    let lower = to_lowercase(path);
    if ends_with(lower.as_str(), ".appimage") {
        return true;
    }
    header.len() >= 12 && header[0] == 0x7f && header[1] == 0x45 && header[2] == 0x4c && header[3]
        == 0x46 && header[8] == 0x41 && header[9] == 0x49 && header[10] == 0x02
}

pub open spec fn categories_line(d: Desktop) -> Seq<char> {
    match d.categories {
        Some(c) => join(str_views(c@), ";"@) + ";"@,
        None => Seq::<char>::empty(),
    }
}

pub open spec fn mime_line(d: Desktop) -> Seq<char> {
    match d.mime {
        Some(m) => "MimeType="@ + join(str_views(m@), ";"@) + "\n"@,
        None => Seq::<char>::empty(),
    }
}

/// The `.desktop` entry of a recipe's `[desktop]` table.
pub open spec fn desktop_entry(d: Desktop) -> Seq<char> {
    "[Desktop Entry]\nType=Application\nName="@ + d.name@ + "\nExec="@ + d.exec_cmd@ + "\nIcon="@
        + d.icon@ + "\nCategories="@ + categories_line(d) + "\n"@ + mime_line(d)
}

/// The `Categories=` line lists each category of the recipe followed by
/// `;`: nothing when there is no `categories` key, `t;` for the one
/// category `t`, and adding a category `t` after others adds `t;`.
pub proof fn lemma_categories_terminated(d: Desktop, e: Desktop, t: String)
    ensures
        d.categories is None ==> categories_line(d) == Seq::<char>::empty(),
        (d.categories is Some && d.categories->0@ == seq![t]) ==> categories_line(d) == t@ + ";"@,
        (d.categories is Some && d.categories->0@.len() > 0 && e.categories is Some
            && e.categories->0@ == d.categories->0@.push(t)) ==> categories_line(e) == categories_line(d)
            + t@ + ";"@,
{
    match d.categories {
        Some(c) => {
            if c@ == seq![t] {
                assert(str_views(c@) =~= seq![t@]);
            }
            match e.categories {
                Some(c2) => {
                    if c@.len() > 0 && c2@ == c@.push(t) {
                        let v = str_views(c@);
                        let v2 = str_views(c2@);
                        assert(v2 =~= v.push(t@));
                        assert(v2.drop_last() =~= v);
                        assert(join(v2, ";"@) == join(v, ";"@) + ";"@ + t@);
                        assert(categories_line(e) =~= categories_line(d) + t@ + ";"@);
                    }
                },
                None => {},
            }
        },
        None => {},
    }
}

/// The `.desktop` entry declares each MIME type of the recipe on its own:
/// with no `mime` key the entry ends after its `Categories=` line; with one
/// type `t` the line `MimeType=t` ends the entry; and adding a type `t`
/// after others adds `;t` to the end of that line.
pub proof fn lemma_mime_types_separated(d: Desktop, e: Desktop, t: String)
    requires
        e.name == d.name,
        e.exec_cmd == d.exec_cmd,
        e.icon == d.icon,
        e.categories == d.categories,
    ensures
        d.mime is None ==> desktop_entry(d) == "[Desktop Entry]\nType=Application\nName="@ + d.name@
            + "\nExec="@ + d.exec_cmd@ + "\nIcon="@ + d.icon@ + "\nCategories="@ + categories_line(d)
            + "\n"@,
        (d.mime is None && e.mime is Some && e.mime->0@ == seq![t]) ==> desktop_entry(e)
            == desktop_entry(d) + "MimeType="@ + t@ + "\n"@,
        (d.mime is Some && d.mime->0@.len() > 0 && e.mime is Some && e.mime->0@ == d.mime->0@.push(t))
            ==> desktop_entry(e) == desktop_entry(d).drop_last() + ";"@ + t@ + "\n"@,
{
    reveal_strlit("\n");
    assert(categories_line(e) == categories_line(d));
    let pre = "[Desktop Entry]\nType=Application\nName="@ + d.name@ + "\nExec="@ + d.exec_cmd@
        + "\nIcon="@ + d.icon@ + "\nCategories="@ + categories_line(d) + "\n"@;
    match d.mime {
        None => {
            assert(desktop_entry(d) =~= pre);
        },
        Some(_) => {},
    }
    match e.mime {
        Some(m2) => {
            let v2 = str_views(m2@);
            match d.mime {
                None => {
                    if m2@ == seq![t] {
                        assert(v2 =~= seq![t@]);
                        assert(desktop_entry(e) =~= desktop_entry(d) + "MimeType="@ + t@ + "\n"@);
                    }
                },
                Some(m) => {
                    if m@.len() > 0 && m2@ == m@.push(t) {
                        let v = str_views(m@);
                        assert(v2 =~= v.push(t@));
                        assert(v2.drop_last() =~= v);
                        assert(join(v2, ";"@) == join(v, ";"@) + ";"@ + t@);
                        assert(desktop_entry(d) =~= pre + "MimeType="@ + join(v, ";"@) + "\n"@);
                        assert(desktop_entry(d).drop_last() =~= pre + "MimeType="@ + join(v, ";"@));
                        assert(desktop_entry(e) =~= pre + "MimeType="@ + join(v2, ";"@) + "\n"@);
                    }
                },
            }
        },
        None => {},
    }
}

/// Writes the `.desktop` entry for a package.
pub fn generate_desktop(name: &str, d: &Desktop) -> (r: String)
    ensures
        r@ == desktop_entry(*d),
{
    let categories = match &d.categories {
        Some(c) => {
            let j = join_strings(c, ";");
            concat(j.as_str(), ";")
        },
        None => String::new(),
    };
    let mime = match &d.mime {
        Some(m) => {
            let j = join_strings(m, ";");
            concat3("MimeType=", j.as_str(), "\n")
        },
        None => String::new(),
    };
    let a = concat3("[Desktop Entry]\nType=Application\nName=", d.name.as_str(), "\nExec=");
    let b = concat3(a.as_str(), d.exec_cmd.as_str(), "\nIcon=");
    let c = concat3(b.as_str(), d.icon.as_str(), "\nCategories=");
    let e = concat3(c.as_str(), categories.as_str(), "\n");
    let r = concat(e.as_str(), mime.as_str());
    assert(r@ =~= desktop_entry(*d));
    r
}

/// The install prefix: the system root followed by the recipe's prefix
/// (`/usr` when it has none).
pub open spec fn prefix_of(r: Recipe, root: Seq<char>) -> Seq<char> {
    root + match r.install.prefix {
        Some(p) => p@,
        None => "/usr"@,
    }
}

pub open spec fn binary_target(e: BinaryEntry, work_dir: Seq<char>, prefix: Seq<char>) -> (Seq<char>, Seq<char>) {
    (binary_paths(e, work_dir).0, prefix + "/bin/"@ + binary_paths(e, work_dir).1)
}

pub open spec fn icon_target(i: Icon, work_dir: Seq<char>, root: Seq<char>) -> (Seq<char>, Seq<char>) {
    (
        work_dir + "/"@ + i.src@,
        root + "/usr/share/icons/hicolor/"@ + decimal(i.size as nat) + "x"@ + decimal(i.size as nat)
            + "/apps/"@ + i.name@,
    )
}

pub open spec fn desktop_path(root: Seq<char>, name: Seq<char>) -> Seq<char> {
    root + "/usr/share/applications/"@ + name + ".desktop"@
}

pub open spec fn pair_views(v: Seq<(String, String)>) -> Seq<(Seq<char>, Seq<char>)> {
    v.map_values(|p: (String, String)| (p.0@, p.1@))
}

/// Where an installed package's files go.
pub struct InstallPlan {
    /// The install prefix.
    pub prefix: String,
    /// `PREFIX/bin`, created before the binaries are copied.
    pub bin_dir: String,
    /// `(from, to)` for each binary, copied and made executable.
    pub binaries: Vec<(String, String)>,
    /// `(from, to)` for each icon, copied when `from` exists.
    pub icons: Vec<(String, String)>,
    /// The `.desktop` file and what it holds.
    pub desktop: Option<(String, String)>,
    /// The post-install hook, run with `sh -c`.
    pub post_install: Option<String>,
    /// The recipe's install script, run with `bash` in the unpacked source.
    pub script: Option<String>,
}

fn binary_targets(v: &Vec<BinaryEntry>, work_dir: &str, prefix: &str) -> (r: Vec<(String, String)>)
    ensures
        pair_views(r@) == v@.map_values(|e: BinaryEntry| binary_target(e, work_dir@, prefix@)),
{
    let mut r: Vec<(String, String)> = Vec::new();
    let mut i: usize = 0;
    while i < v.len()
        invariant
            i <= v.len(),
            pair_views(r@) == v@.take(i as int).map_values(|e: BinaryEntry| binary_target(e, work_dir@, prefix@)),
        decreases v.len() - i,
    {
        let (from, to) = parse_binary_entry(&v[i], work_dir);
        let dest = concat3(prefix, "/bin/", to.as_str());
        let ghost old_r = r@;
        let ghost item = (from@, dest@);
        assert(item == binary_target(v@[i as int], work_dir@, prefix@));
        r.push((from, dest));
        assert(pair_views(r@) =~= pair_views(old_r).push(item));
        assert(v@.take(i + 1).map_values(|e: BinaryEntry| binary_target(e, work_dir@, prefix@)) =~= v@.take(
            i as int,
        ).map_values(|e: BinaryEntry| binary_target(e, work_dir@, prefix@)).push(item));
        assert(pair_views(r@) =~= v@.take(i + 1).map_values(|e: BinaryEntry| binary_target(e, work_dir@, prefix@)));
        i += 1;
    }
    assert(v@.take(v.len() as int) =~= v@);
    r
}

fn icon_targets(v: &Vec<Icon>, work_dir: &str, root: &str) -> (r: Vec<(String, String)>)
    ensures
        pair_views(r@) == v@.map_values(|i: Icon| icon_target(i, work_dir@, root@)),
{
    let mut r: Vec<(String, String)> = Vec::new();
    let mut k: usize = 0;
    while k < v.len()
        invariant
            k <= v.len(),
            pair_views(r@) == v@.take(k as int).map_values(|i: Icon| icon_target(i, work_dir@, root@)),
        decreases v.len() - k,
    {
        let icon = &v[k];
        let src = concat3(work_dir, "/", icon.src.as_str());
        let size = u64_to_string(icon.size as u64);
        let a = concat3(root, "/usr/share/icons/hicolor/", size.as_str());
        let b = concat3(a.as_str(), "x", size.as_str());
        let dest = concat3(b.as_str(), "/apps/", icon.name.as_str());
        assert(dest@ =~= icon_target(*icon, work_dir@, root@).1);
        let ghost old_r = r@;
        let ghost item = (src@, dest@);
        r.push((src, dest));
        assert(pair_views(r@) =~= pair_views(old_r).push(item));
        assert(v@.take(k + 1).map_values(|i: Icon| icon_target(i, work_dir@, root@)) =~= v@.take(
            k as int,
        ).map_values(|i: Icon| icon_target(i, work_dir@, root@)).push(item));
        assert(pair_views(r@) =~= v@.take(k + 1).map_values(|i: Icon| icon_target(i, work_dir@, root@)));
        k += 1;
    }
    assert(v@.take(v.len() as int) =~= v@);
    r
}

fn copy_opt(o: &Option<String>) -> (r: Option<String>)
    ensures
        match (r, *o) {
            (Some(a), Some(b)) => a@ == b@,
            (None, None) => true,
            _ => false,
        },
{
    match o {
        Some(s) => Some(s.clone()),
        None => None,
    }
}

/// Plans where a recipe's files are installed, for a system rooted at
/// `root` (empty for the live system), from the unpacked source `work_dir`.
pub fn install_plan(recipe: &Recipe, root: &str, work_dir: &str) -> (p: InstallPlan)
    ensures
        p.prefix@ == prefix_of(*recipe, root@),
        p.bin_dir@ == prefix_of(*recipe, root@) + "/bin"@,
        pair_views(p.binaries@) == (match recipe.install.binaries {
            Some(b) => b@.map_values(|e: BinaryEntry| binary_target(e, work_dir@, prefix_of(*recipe, root@))),
            None => Seq::empty(),
        }),
        pair_views(p.icons@) == (match recipe.install.icons {
            Some(v) => v@.map_values(|i: Icon| icon_target(i, work_dir@, root@)),
            None => Seq::empty(),
        }),
        match (p.desktop, recipe.desktop) {
            (Some((path, content)), Some(d)) => path@ == desktop_path(root@, recipe.package.name@)
                && content@ == desktop_entry(d),
            (None, None) => true,
            _ => false,
        },
        match (p.post_install, recipe.hooks) {
            (Some(c), Some(h)) => h.post_install matches Some(x) && c@ == x@,
            (None, Some(h)) => h.post_install is None,
            (None, None) => true,
            _ => false,
        },
        match (p.script, recipe.install.script) {
            (Some(s), Some(x)) => s@ == work_dir@ + "/"@ + x@,
            (None, None) => true,
            _ => false,
        },
{
    let prefix = match &recipe.install.prefix {
        Some(p) => concat(root, p.as_str()),
        None => concat(root, "/usr"),
    };
    let bin_dir = concat(prefix.as_str(), "/bin");
    let binaries = match &recipe.install.binaries {
        Some(b) => binary_targets(b, work_dir, prefix.as_str()),
        None => Vec::new(),
    };
    let icons = match &recipe.install.icons {
        Some(v) => icon_targets(v, work_dir, root),
        None => Vec::new(),
    };
    let name = recipe.package.name.as_str();
    let desktop = match &recipe.desktop {
        Some(d) => {
            let a = concat3(root, "/usr/share/applications/", name);
            let path = concat(a.as_str(), ".desktop");
            Some((path, generate_desktop(name, d)))
        },
        None => None,
    };
    let post_install = match &recipe.hooks {
        Some(h) => copy_opt(&h.post_install),
        None => None,
    };
    let script = match &recipe.install.script {
        Some(s) => Some(concat3(work_dir, "/", s.as_str())),
        None => None,
    };
    InstallPlan { prefix, bin_dir, binaries, icons, desktop, post_install, script }
}

/// Where an AppImage and its companions go, for a system rooted at `root`.
pub struct AppImageLayout {
    /// `ROOT/opt/appimages`
    pub app_dir: String,
    /// `ROOT/usr/bin`
    pub bin_dir: String,
    /// `APP_DIR/NAME.AppImage`, the image itself.
    pub app_file: String,
    /// `BIN_DIR/NAME`, a script that runs the image.
    pub wrapper: String,
    /// What the wrapper script holds.
    pub wrapper_script: String,
    /// Where a `.desktop` entry goes.
    pub desktop: String,
    /// The icons looked for in the unpacked image, in order.
    pub icon_names: Vec<String>,
}

pub open spec fn wrapper_text(app_file: Seq<char>) -> Seq<char> {
    "#!/bin/sh\nexec "@ + app_file + " \"$@\"\n"@
}

/// Lays out the installation of an AppImage for package `name`.
pub fn appimage_layout(root: &str, name: &str) -> (l: AppImageLayout)
    ensures
        l.app_dir@ == root@ + "/opt/appimages"@,
        l.bin_dir@ == root@ + "/usr/bin"@,
        l.app_file@ == root@ + "/opt/appimages"@ + "/"@ + name@ + ".AppImage"@,
        l.wrapper@ == root@ + "/usr/bin"@ + "/"@ + name@,
        l.wrapper_script@ == wrapper_text(l.app_file@),
        l.desktop@ == desktop_path(root@, name@),
        str_views(l.icon_names@) == seq![name@ + ".png"@, name@ + ".svg"@, ".DirIcon"@],
{
    let app_dir = concat(root, "/opt/appimages");
    let bin_dir = concat(root, "/usr/bin");
    let app_file = concat3(app_dir.as_str(), "/", name);
    let app_file = concat(app_file.as_str(), ".AppImage");
    let wrapper = concat3(bin_dir.as_str(), "/", name);
    let wrapper_script = concat3("#!/bin/sh\nexec ", app_file.as_str(), " \"$@\"\n");
    let d = concat3(root, "/usr/share/applications/", name);
    let desktop = concat(d.as_str(), ".desktop");
    let icon_names = vec![concat(name, ".png"), concat(name, ".svg"), String::from_str(".DirIcon")];
    assert(str_views(icon_names@) =~= seq![name@ + ".png"@, name@ + ".svg"@, ".DirIcon"@]);
    AppImageLayout { app_dir, bin_dir, app_file, wrapper, wrapper_script, desktop, icon_names }
}

/// Where an icon found in an unpacked AppImage is installed: as
/// `NAME.svg` when the found file ends in `.svg`, else as `NAME.png`.
pub fn appimage_icon_dest(root: &str, name: &str, found: &str) -> (r: String)
    ensures
        r@ == root@ + "/usr/share/icons/hicolor/256x256/apps/"@ + name@ + "."@ + (if ".svg"@.is_suffix_of(found@) {
            "svg"@
        } else {
            "png"@
        }),
{
    let ext = if ends_with(found, ".svg") {
        "svg"
    } else {
        "png"
    };
    let a = concat3(root, "/usr/share/icons/hicolor/256x256/apps/", name);
    concat3(a.as_str(), ".", ext)
}

} // verus!
