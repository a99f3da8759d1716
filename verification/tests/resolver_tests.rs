use mycel::config::schema::{overlay_sources, Boot, Desktop, MycelConfig, Overlays, Packages, Services, System};
use mycel::fessus::parser::shellexpand_tilde;
use mycel::resolver::index::{
    index_overlays, is_recipe_file_name, recipe_of, recipes_in, scan_overlay, FoundRecipe, OverlayFile, PackageIndex,
};
use mycel::resolver::overlay::{fetch, update_steps, updated_overlays, GitStep, OverlayError};

fn s(v: &[&str]) -> Vec<String> {
    v.iter().map(|x| x.to_string()).collect()
}

fn step_names(v: &[GitStep]) -> Vec<String> {
    v.iter()
        .map(|g| match g {
            GitStep::FetchTags => "fetch-tags".to_string(),
            GitStep::CheckoutLatestTag => "checkout-tag".to_string(),
            GitStep::Pull => "pull".to_string(),
            GitStep::Clone { url } => format!("clone {}", url),
        })
        .collect()
}

#[test]
fn index_insert_find_len() {
    let mut idx = PackageIndex::new();
    assert_eq!(idx.len(), 0);
    idx.insert("btop".to_string(), "/c/btop.myc".to_string());
    idx.insert("git".to_string(), "/c/git.myc".to_string());
    idx.insert("btop".to_string(), "/d/btop.myc".to_string());
    assert_eq!(idx.len(), 2);
    assert_eq!(idx.find("btop").map(|p| p.as_str()), Some("/d/btop.myc"));
    assert_eq!(idx.find("git").map(|p| p.as_str()), Some("/c/git.myc"));
    assert!(idx.find("vim").is_none());
}

#[test]
fn later_recipes_replace_earlier_ones() {
    let mut idx = PackageIndex::new();
    let found = vec![
        FoundRecipe { path: "/o1/btop.myc".to_string(), name: "btop".to_string() },
        FoundRecipe { path: "/o2/btop.myc".to_string(), name: "btop".to_string() },
        FoundRecipe { path: "/o2/kitty.myc".to_string(), name: "kitty".to_string() },
    ];
    scan_overlay(&found, &mut idx);
    assert_eq!(idx.len(), 2);
    assert_eq!(idx.find("btop").unwrap(), "/o2/btop.myc");
}

#[test]
fn overlay_fetch_plans() {
    let p = fetch("github:mycel-linux/community", "stable").ok().unwrap();
    assert_eq!(p.cache_path, "/var/lib/mycel/overlay-cache/mycel-linux-community");
    assert_eq!(step_names(&p.when_cached), vec!["fetch-tags", "checkout-tag"]);
    assert_eq!(
        step_names(&p.when_missing),
        vec!["clone https://github.com/mycel-linux/community.git", "fetch-tags", "checkout-tag"]
    );
    let p = fetch("github:a/b", "unstable").ok().unwrap();
    assert_eq!(step_names(&p.when_cached), vec!["pull"]);
    assert_eq!(step_names(&p.when_missing), vec!["clone https://github.com/a/b.git"]);
    assert!(matches!(fetch("gitlab:a/b", "stable"), Err(OverlayError::UnsupportedSource)));
    assert_eq!(step_names(&update_steps("stable")), vec!["fetch-tags", "checkout-tag"]);
    assert_eq!(step_names(&update_steps("main")), vec!["pull"]);
}

#[test]
fn moved_overlays_are_reported() {
    let t = |a: &str, b: &str, c: &str| (a.to_string(), b.to_string(), c.to_string());
    let heads = vec![t("a", "1", "1"), t("b", "2", "9"), t("c", "3", "4")];
    assert_eq!(updated_overlays(&heads), vec!["b", "c"]);
}

#[test]
fn tilde_expansion() {
    assert_eq!(shellexpand_tilde("~/.config/fessus.toml", Some("/home/alice")), "/home/alice/.config/fessus.toml");
    assert_eq!(shellexpand_tilde("~/.config/fessus.toml", None), "/root/.config/fessus.toml");
    assert_eq!(shellexpand_tilde("/etc/x", Some("/home/a")), "/etc/x");
    assert_eq!(shellexpand_tilde("~alice/x", Some("/home/a")), "~alice/x");
}

#[test]
fn config_overlay_sources() {
    let mut c = MycelConfig {
        system: System {
            hostname: "mycelbox".to_string(),
            timezone: "UTC".to_string(),
            locale: "en_US.UTF-8".to_string(),
            kernel: "performance".to_string(),
            immutable: true,
        },
        boot: Boot { timeout: 5, cmdline: vec![] },
        packages: Packages { install: s(&["git"]), lock: vec![] },
        overlays: None,
        desktop: Desktop { environment: "plasma".to_string() },
        services: Services { enable: vec![] },
        users: vec![],
    };
    assert!(overlay_sources(&c).is_empty());
    c.overlays = Some(Overlays { sources: s(&["github:mycel-linux/community"]) });
    assert_eq!(overlay_sources(&c), vec!["github:mycel-linux/community"]);
}

#[test]
fn scanned_index_holds_exactly_the_declared_names() {
    let mut idx = PackageIndex::new();
    let found = vec![
        FoundRecipe { path: "/o1/a.myc".to_string(), name: "alpha".to_string() },
        FoundRecipe { path: "/o1/b.myc".to_string(), name: "beta".to_string() },
        FoundRecipe { path: "/o2/a.myc".to_string(), name: "alpha".to_string() },
        FoundRecipe { path: "/o2/g.myc".to_string(), name: "gamma".to_string() },
    ];
    scan_overlay(&found, &mut idx);
    assert_eq!(idx.len(), 3);
    for n in ["alpha", "beta", "gamma"] {
        assert!(idx.find(n).is_some());
    }
    assert!(idx.find("delta").is_none());
    let mut empty = PackageIndex::new();
    scan_overlay(&vec![], &mut empty);
    assert_eq!(empty.len(), 0);
}

fn overlay_file(path: &str, text: &str) -> OverlayFile {
    OverlayFile {
        path: path.to_string(),
        file_name: path.rsplit('/').next().unwrap().to_string(),
        text: text.to_string(),
    }
}

#[test]
fn recipe_files_are_named_by_their_extension() {
    assert!(is_recipe_file_name("btop.myc"));
    assert!(is_recipe_file_name("..myc"));
    assert!(!is_recipe_file_name(".myc"));
    assert!(!is_recipe_file_name("btop.myc.bak"));
    assert!(!is_recipe_file_name("btop.toml"));
    assert!(!is_recipe_file_name("myc"));
}

#[test]
fn recipes_come_from_declared_package_names() {
    let btop = overlay_file("/o/utils/btop.myc", "[package]\nname = \"btop\"\nversion = \"1.4\"\n");
    let f = recipe_of(&btop).unwrap();
    assert_eq!((f.name.as_str(), f.path.as_str()), ("btop", "/o/utils/btop.myc"));
    assert!(recipe_of(&overlay_file("/o/readme.txt", "[package]\nname = \"x\"\n")).is_none());
    assert!(recipe_of(&overlay_file("/o/bad.myc", "[package]\nname = 3\n")).is_none());
    assert!(recipe_of(&overlay_file("/o/broken.myc", "[package\n")).is_none());
    assert!(recipe_of(&overlay_file("/o/none.myc", "[source]\nurl = \"x\"\n")).is_none());

    let files = vec![
        btop,
        overlay_file("/o/a/kitty.myc", "[package]\nname = \"kitty\"\n"),
        overlay_file("/o/b/broken.myc", "not toml ["),
        overlay_file("/o/b/btop.myc", "[package]\nname = \"btop\"\n"),
    ];
    let found = recipes_in(&files);
    let names: Vec<&str> = found.iter().map(|f| f.name.as_str()).collect();
    assert_eq!(names, vec!["btop", "kitty", "btop"]);
    let mut idx = PackageIndex::new();
    scan_overlay(&found, &mut idx);
    assert_eq!(idx.len(), 2);
    assert_eq!(idx.find("btop").unwrap(), "/o/b/btop.myc");
    assert!(idx.find("broken").is_none());
}

#[test]
fn package_names_read_as_serde_reads_them() {
    let name = |text: &str| recipe_of(&overlay_file("/o/x.myc", text)).map(|f| f.name);
    assert_eq!(name("package = [\"btop\"]\n"), Some("btop".to_string()));
    assert_eq!(name("package = [\"btop\", \"1.4\"]\n"), Some("btop".to_string()));
    assert_eq!(name("package = []\n"), None);
    assert_eq!(name("package = [3]\n"), None);
    assert_eq!(name("package = { name = \"fd\" }\n"), Some("fd".to_string()));
    assert_eq!(name("package = \"fd\"\n"), None);
    assert_eq!(name("[[package]]\nname = \"fd\"\n"), None);
    assert_eq!(name("[package]\nversion = \"1\"\n"), None);
}

#[test]
fn overlays_are_indexed_in_turn() {
    assert_eq!(index_overlays(&vec![]).len(), 0);
    let walks = vec![
        vec![
            overlay_file("/c/one/btop.myc", "[package]\nname = \"btop\"\n"),
            overlay_file("/c/one/fd.myc", "[package]\nname = \"fd\"\n"),
        ],
        vec![],
        vec![
            overlay_file("/c/two/a/btop.myc", "[package]\nname = \"btop\"\n"),
            overlay_file("/c/two/b/btop.myc", "[package]\nname = \"btop\"\n"),
            overlay_file("/c/two/notes.txt", "[package]\nname = \"notes\"\n"),
        ],
    ];
    let idx = index_overlays(&walks);
    assert_eq!(idx.len(), 2);
    assert_eq!(idx.find("btop").unwrap(), "/c/two/b/btop.myc");
    assert_eq!(idx.find("fd").unwrap(), "/c/one/fd.myc");
    assert!(idx.find("notes").is_none());
}
