use mycel::pkg::archive::{archive_kind, ArchiveKind};
use mycel::pkg::checksum::{compute, expected_digest, verify, ChecksumError};
use mycel::pkg::compile::{run, BuildError};
use mycel::pkg::db::{install_date, kept_recipe_path, record_path, sort_by_name};
use mycel::pkg::download::{download_target, resolve_url, SourceError};
use mycel::pkg::install::{
    appimage_icon_dest, appimage_layout, generate_desktop, install_plan, is_appimage, parse_binary_entry,
    scratch_dirs,
};
use mycel::pkg::recipe_check::{check_recipe, index_entry_lines};
use mycel::pkg::schema::{
    BinaryEntry, Build, Desktop, Hooks, Icon, Install, InstalledFiles, InstalledPackage, Package, Recipe, Source,
};
use mycel::pkg::search::{dedup_hits, matches_query, query_key};

const ABC_SHA256: &str = "ba7816bf8f01cfea414140de5dae2223b00361a396177a9cb410ff61f20015ad";

fn source(kind: &str) -> Source {
    Source { source_type: kind.to_string(), repo: None, tag: None, asset: None, url: None, checksum: None }
}

fn recipe() -> Recipe {
    Recipe {
        package: Package {
            name: "btop".to_string(),
            version: "1.4.7".to_string(),
            description: "Resource monitor".to_string(),
            license: Some("Apache-2.0".to_string()),
            maintainer: None,
            arch: None,
        },
        source: Source {
            source_type: "github-release".to_string(),
            repo: Some("aristocratos/btop".to_string()),
            tag: Some("v1.4.7".to_string()),
            asset: Some("btop-x86_64-unknown-linux-gnu.tar.gz".to_string()),
            url: None,
            checksum: Some("sha256:abc".to_string()),
        },
        build: None,
        install: Install {
            prefix: None,
            binaries: Some(vec![BinaryEntry::Table { from: Some("btop/bin/btop".to_string()), to: Some("btop".to_string()) }]),
            icons: None,
            script: None,
        },
        desktop: None,
        dependencies: None,
        hooks: None,
    }
}

#[test]
fn checksum_of_known_bytes() {
    assert_eq!(compute(b"abc"), format!("sha256:{}", ABC_SHA256));
    assert_eq!(compute(b""), "sha256:e3b0c44298fc1c149afbf4c8996fb92427ae41e4649b934ca495991b7852b855");
}

#[test]
fn checksum_verifies_what_it_computes() {
    let c = compute(b"some archive bytes");
    assert!(verify(b"some archive bytes", &c).is_ok());
}

#[test]
fn checksum_mismatch_and_missing_prefix() {
    match verify(b"abc", "sha256:00") {
        Err(ChecksumError::Mismatch { expected, actual }) => {
            assert_eq!(expected, "00");
            assert_eq!(actual, ABC_SHA256);
        }
        _ => panic!("expected a mismatch"),
    }
    assert!(matches!(verify(b"abc", ABC_SHA256), Err(ChecksumError::MissingPrefix)));
    assert_eq!(expected_digest("sha256:ff"), Some("ff".to_string()));
    assert_eq!(expected_digest("md5:ff"), None);
}

#[test]
fn build_commands_by_system() {
    let b = Build { system: "make".to_string(), commands: None };
    assert_eq!(run(&b).unwrap(), vec!["make", "make install PREFIX=/usr"]);
    let b = Build { system: "meson".to_string(), commands: Some(vec!["meson setup x".to_string()]) };
    assert_eq!(run(&b).unwrap(), vec!["meson setup x"]);
    let b = Build { system: "cmake".to_string(), commands: None };
    assert_eq!(run(&b).unwrap().len(), 3);
    let b = Build { system: "cargo".to_string(), commands: Some(vec!["ignored".to_string()]) };
    assert_eq!(run(&b).unwrap(), vec!["cargo build --release"]);
    let b = Build { system: "go".to_string(), commands: None };
    assert_eq!(run(&b).unwrap(), vec!["go build -o /usr/bin/$(basename $(pwd))"]);
    let b = Build { system: "script".to_string(), commands: None };
    assert_eq!(run(&b).unwrap(), vec!["bash install.sh"]);
    let b = Build { system: "scons".to_string(), commands: None };
    assert_eq!(run(&b), Err(BuildError::UnknownSystem));
}

#[test]
fn url_of_each_source_type() {
    let r = recipe();
    assert_eq!(
        resolve_url(&r.source).unwrap(),
        "https://github.com/aristocratos/btop/releases/download/v1.4.7/btop-x86_64-unknown-linux-gnu.tar.gz"
    );
    let mut s = source("github-release");
    s.repo = Some("a/b".to_string());
    assert_eq!(resolve_url(&s), Err(SourceError::MissingTag));
    assert_eq!(resolve_url(&source("github-release")), Err(SourceError::MissingRepo));
    s.tag = Some("v1".to_string());
    assert_eq!(resolve_url(&s), Err(SourceError::MissingAsset));
    let mut u = source("url");
    assert_eq!(resolve_url(&u), Err(SourceError::MissingUrl));
    u.url = Some("https://x.org/f.tar.gz".to_string());
    assert_eq!(resolve_url(&u).unwrap(), "https://x.org/f.tar.gz");
    assert_eq!(resolve_url(&source("git")), Err(SourceError::MissingUrl));
    assert_eq!(resolve_url(&source("ftp")), Err(SourceError::UnknownType));
}

#[test]
fn download_lands_under_the_last_url_piece() {
    let t = download_target(&recipe().source, "/tmp/mycel-pkg/btop-1.4.7").unwrap();
    assert_eq!(t.file_name, "btop-x86_64-unknown-linux-gnu.tar.gz");
    assert_eq!(t.path, "/tmp/mycel-pkg/btop-1.4.7/btop-x86_64-unknown-linux-gnu.tar.gz");
    let mut u = source("url");
    u.url = Some("https://x.org/dir/".to_string());
    let t = download_target(&u, "/d").unwrap();
    assert_eq!(t.file_name, "");
    assert_eq!(t.path, "/d/");
}

#[test]
fn archive_formats_by_name() {
    assert_eq!(archive_kind("a.tar.gz"), Some(ArchiveKind::TarGz));
    assert_eq!(archive_kind("a.tgz"), Some(ArchiveKind::TarGz));
    assert_eq!(archive_kind("a.tbz"), Some(ArchiveKind::TarBz2));
    assert_eq!(archive_kind("a.tar.bz2"), Some(ArchiveKind::TarBz2));
    assert_eq!(archive_kind("a.tar.zst"), Some(ArchiveKind::TarZst));
    assert_eq!(archive_kind("a.txz"), Some(ArchiveKind::TarXz));
    assert_eq!(archive_kind("a.zip"), Some(ArchiveKind::Zip));
    assert_eq!(archive_kind("a.rar"), None);
}

#[test]
fn binary_entries() {
    assert_eq!(
        parse_binary_entry(&BinaryEntry::Path("bin/tool".to_string()), "/w"),
        ("/w/bin/tool".to_string(), "bin/tool".to_string())
    );
    assert_eq!(
        parse_binary_entry(&BinaryEntry::Table { from: Some("x/y".to_string()), to: None }, "/w"),
        ("/w/x/y".to_string(), "x/y".to_string())
    );
    assert_eq!(
        parse_binary_entry(&BinaryEntry::Table { from: None, to: Some("t".to_string()) }, "/w"),
        ("/w/".to_string(), "t".to_string())
    );
    assert_eq!(parse_binary_entry(&BinaryEntry::Other, "/w"), (String::new(), String::new()));
}

#[test]
fn appimages_by_name_or_magic() {
    assert!(is_appimage("/tmp/Foo.AppImage", &[]));
    let mut h = [0u8; 12];
    h[0] = 0x7f;
    h[1] = b'E';
    h[2] = b'L';
    h[3] = b'F';
    h[8] = 0x41;
    h[9] = 0x49;
    h[10] = 0x02;
    assert!(is_appimage("/tmp/foo", &h));
    h[10] = 0x01;
    assert!(!is_appimage("/tmp/foo", &h));
    assert!(!is_appimage("/tmp/foo.tar.gz", &h[..8]));
}

#[test]
fn desktop_entry_text() {
    let d = Desktop {
        name: "Btop".to_string(),
        exec_cmd: "btop".to_string(),
        icon: "btop".to_string(),
        categories: Some(vec!["System".to_string(), "Monitor".to_string()]),
        mime: Some(vec!["text/plain".to_string()]),
    };
    assert_eq!(
        generate_desktop("btop", &d),
        "[Desktop Entry]\nType=Application\nName=Btop\nExec=btop\nIcon=btop\nCategories=System;Monitor;\nMimeType=text/plain\n"
    );
    let d = Desktop { categories: None, mime: None, ..d };
    assert_eq!(generate_desktop("btop", &d), "[Desktop Entry]\nType=Application\nName=Btop\nExec=btop\nIcon=btop\nCategories=\n");
}

#[test]
fn install_plan_paths() {
    let mut r = recipe();
    r.install.icons = Some(vec![Icon { src: "share/btop.png".to_string(), name: "btop.png".to_string(), size: 48 }]);
    r.install.script = Some("post.sh".to_string());
    r.hooks = Some(Hooks { post_install: Some("ldconfig".to_string()), post_remove: None });
    r.desktop = Some(Desktop {
        name: "Btop".to_string(),
        exec_cmd: "btop".to_string(),
        icon: "btop".to_string(),
        categories: None,
        mime: None,
    });
    let p = install_plan(&r, "/mnt", "/tmp/w/src");
    assert_eq!(p.prefix, "/mnt/usr");
    assert_eq!(p.bin_dir, "/mnt/usr/bin");
    assert_eq!(p.binaries, vec![("/tmp/w/src/btop/bin/btop".to_string(), "/mnt/usr/bin/btop".to_string())]);
    assert_eq!(
        p.icons,
        vec![("/tmp/w/src/share/btop.png".to_string(), "/mnt/usr/share/icons/hicolor/48x48/apps/btop.png".to_string())]
    );
    assert_eq!(p.desktop.as_ref().unwrap().0, "/mnt/usr/share/applications/btop.desktop");
    assert_eq!(p.post_install, Some("ldconfig".to_string()));
    assert_eq!(p.script, Some("/tmp/w/src/post.sh".to_string()));
    r.install.prefix = Some("/opt/btop".to_string());
    assert_eq!(install_plan(&r, "", "/w").binaries[0].1, "/opt/btop/bin/btop");
}

#[test]
fn scratch_directories() {
    assert_eq!(
        scratch_dirs("btop", "1.4.7"),
        ("/tmp/mycel-pkg/btop-1.4.7".to_string(), "/tmp/mycel-pkg/btop-1.4.7/src".to_string())
    );
}

#[test]
fn appimage_paths() {
    let l = appimage_layout("", "obsidian");
    assert_eq!(l.app_file, "/opt/appimages/obsidian.AppImage");
    assert_eq!(l.wrapper, "/usr/bin/obsidian");
    assert_eq!(l.wrapper_script, "#!/bin/sh\nexec /opt/appimages/obsidian.AppImage \"$@\"\n");
    assert_eq!(l.desktop, "/usr/share/applications/obsidian.desktop");
    assert_eq!(l.icon_names, vec!["obsidian.png", "obsidian.svg", ".DirIcon"]);
    assert_eq!(appimage_icon_dest("", "obsidian", "/x/obsidian.svg"), "/usr/share/icons/hicolor/256x256/apps/obsidian.svg");
    assert_eq!(appimage_icon_dest("/r", "o", "/x/.DirIcon"), "/r/usr/share/icons/hicolor/256x256/apps/o.png");
}

#[test]
fn database_paths_and_dates() {
    assert_eq!(record_path("btop"), "/var/lib/mycel/packages/btop.toml");
    assert_eq!(kept_recipe_path("btop"), "/var/lib/mycel/recipes/btop.myc");
    assert_eq!(install_date("2024-05-01T10:00:00+00:00"), "2024-05-01");
    assert_eq!(install_date("yesterday"), "yesterday");
}

fn installed(name: &str, version: &str) -> InstalledPackage {
    InstalledPackage {
        name: name.to_string(),
        version: version.to_string(),
        installed_at: String::new(),
        files: InstalledFiles { installed: vec![format!("/usr/bin/{}", name)] },
    }
}

#[test]
fn list_is_sorted_by_name_and_stable() {
    let v = vec![installed("zed", "1"), installed("btop", "1"), installed("zed", "2"), installed("alacritty", "3")];
    let s = sort_by_name(&v);
    let got: Vec<(String, String)> = s.iter().map(|p| (p.name.clone(), p.version.clone())).collect();
    assert_eq!(
        got,
        vec![
            ("alacritty".to_string(), "3".to_string()),
            ("btop".to_string(), "1".to_string()),
            ("zed".to_string(), "1".to_string()),
            ("zed".to_string(), "2".to_string()),
        ]
    );
    assert_eq!(s[0].files.installed, vec!["/usr/bin/alacritty"]);
}

#[test]
fn search_is_case_insensitive() {
    let k = query_key("BTop");
    assert_eq!(k, "btop");
    assert!(matches_query("btop", "Resource monitor", &k));
    assert!(matches_query("Monitor", "shows BTOP stats", &k));
    assert!(!matches_query("htop", "Resource monitor", &k));
}

#[test]
fn search_hits_deduplicated_and_sorted() {
    let t = |a: &str, b: &str, c: &str| (a.to_string(), b.to_string(), c.to_string());
    let v = vec![t("zed", "1", "first zed"), t("btop", "2", "b"), t("zed", "9", "second zed")];
    assert_eq!(dedup_hits(&v), vec![t("btop", "2", "b"), t("zed", "1", "first zed")]);
    assert!(dedup_hits(&vec![]).is_empty());
}

#[test]
fn recipe_checks() {
    let r = recipe();
    let c = check_recipe(&r);
    assert!(c.all_passed());
    let mut bad = recipe();
    bad.source.checksum = None;
    bad.install.binaries = Some(vec![]);
    let c = check_recipe(&bad);
    assert!(!c.checksum_present);
    assert!(!c.install_defined);
    assert!(!c.all_passed());
    bad.install.script = Some("install.sh".to_string());
    assert!(check_recipe(&bad).install_defined);
}

#[test]
fn submission_entry() {
    let lines = index_entry_lines(&recipe());
    assert_eq!(
        lines,
        vec![
            "[[overlays]]",
            "name        = \"btop\"",
            "repo        = \"github:YOUR_USERNAME/YOUR_OVERLAY_REPO\"",
            "description = \"Resource monitor\"",
            "maintainer  = \"YOUR_USERNAME\"",
            "verified    = false",
        ]
    );
}
