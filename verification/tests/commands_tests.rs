use mycel::commands::active::{format_uptime, generation_label, kernel_release};
use mycel::commands::boot::{check_boot_target, BootError};
use mycel::commands::check::pending_updates;
use mycel::commands::diff::diff_generations;
use mycel::commands::doctor::{avail_mb, disk_state, fessus_config_path, missing_core, verdict, DiskState, Verdict};
use mycel::commands::edit::{edit_target, target_path, wants_apply, EditError, EditTarget};
use mycel::commands::get::{add_to_config, packages_to_append, ConfigError};
use mycel::commands::guide::{run as guide_run, topics, GuidePage, Topic};
use mycel::commands::isolate::pin_path;
use mycel::commands::lock::lock_marker;
use mycel::commands::network::{parse_generation_list, store_link};
use mycel::commands::purge::purge_plan;
use mycel::commands::rollback::{package_changes, rollback_target, RollbackError, RollbackTarget};
use mycel::commands::spore::{bin_candidates, spore_dir, spore_path, spore_rc};
use mycel::commands::switch::{
    dbs_to_prune, governor, hostname_file, locale_conf, locale_gen_update, passwd_has_user, plan_packages,
    plan_services, resolve_shell, service_list, zone_path,
};
use mycel::commands::theme::{
    accent_rgb, apply_theme, find_theme, fessus_path, run as theme_run, themes, ThemeAction, ThemeError,
};
use mycel::system::records::PackageVersion;
use mycel::commands::users::{chown_command, create_commands, update_commands};
use mycel::config::schema::User;
use mycel::commands::switch::{compiled_db_name, db_stamp_exec};

fn s(v: &[&str]) -> Vec<String> {
    v.iter().map(|x| x.to_string()).collect()
}

fn pv(name: &str, version: &str) -> PackageVersion {
    PackageVersion { name: name.to_string(), version: version.to_string() }
}

#[test]
fn active_system_facts() {
    assert_eq!(generation_label(Some(" 4\n")), "4");
    assert_eq!(generation_label(None), "0");
    assert_eq!(kernel_release("Linux version 6.9.1-mycel (gcc) #1 SMP"), "6.9.1-mycel");
    assert_eq!(kernel_release("Linux version"), "unknown");
    assert_eq!(format_uptime(3725), "1h 2m");
    assert_eq!(format_uptime(59), "0h 0m");
}

#[test]
fn boot_target_checks() {
    assert_eq!(check_boot_target(3, 3, false, true), Ok(()));
    assert_eq!(check_boot_target(2, 3, false, true), Err(BootError::NoSnapshot));
    assert_eq!(check_boot_target(2, 3, true, false), Err(BootError::NotBtrfs));
    assert_eq!(check_boot_target(2, 3, true, true), Ok(()));
}

#[test]
fn updates_pending() {
    let installed = vec![
        ("btop".to_string(), "1.0".to_string(), Some("1.1".to_string())),
        ("git".to_string(), "2.4".to_string(), Some("2.4".to_string())),
        ("kitty".to_string(), "0.3".to_string(), None),
    ];
    let u = pending_updates(&installed);
    assert_eq!(u.len(), 1);
    assert_eq!((u[0].name.as_str(), u[0].installed.as_str(), u[0].latest.as_str()), ("btop", "1.0", "1.1"));
}

#[test]
fn generation_diff() {
    let a = vec![pv("btop", "1"), pv("git", "2"), pv("vim", "9")];
    let b = vec![pv("btop", "2"), pv("git", "2"), pv("kitty", "1")];
    let d = diff_generations(&a, &b);
    assert_eq!(d.added, vec!["kitty"]);
    assert_eq!(d.removed, vec!["vim"]);
    assert_eq!(d.upgraded.len(), 1);
    assert_eq!((d.upgraded[0].name.as_str(), d.upgraded[0].from.as_str(), d.upgraded[0].to.as_str()), ("btop", "1", "2"));
}

#[test]
fn doctor_verdicts() {
    assert_eq!(disk_state(100), DiskState::Critical);
    assert_eq!(disk_state(512), DiskState::Low);
    assert_eq!(disk_state(2047), DiskState::Low);
    assert_eq!(disk_state(2048), DiskState::Fine);
    assert_eq!(avail_mb(" Avail\n 10240M\n"), Some(10240));
    assert_eq!(avail_mb("Avail\nlots\n"), Some(0));
    assert_eq!(avail_mb("Avail\n"), None);
    assert_eq!(missing_core(&s(&["dbus", "udevd", "pipewire"])), vec!["seatd", "wireplumber"]);
    assert_eq!(fessus_config_path("alice"), "/home/alice/.config/fessus.toml");
    assert_eq!(verdict(0, 0), Verdict::Healthy);
    assert_eq!(verdict(1, 3), Verdict::Errors);
    assert_eq!(verdict(0, 2), Verdict::Warnings);
}

#[test]
fn edit_targets() {
    assert_eq!(edit_target(None), Ok(EditTarget::Mycel));
    assert_eq!(edit_target(Some("mycel")), Ok(EditTarget::Mycel));
    assert_eq!(edit_target(Some("fessus")), Ok(EditTarget::Fessus));
    assert_eq!(edit_target(Some("grub")), Err(EditError::UnknownTarget));
    assert_eq!(target_path(EditTarget::Mycel, "/home/alice"), "/etc/mycel.toml");
    assert_eq!(target_path(EditTarget::Fessus, "/home/alice"), "/home/alice/.config/fessus.toml");
    assert_eq!(target_path(EditTarget::Fessus, "/root"), "/root/.config/fessus.toml");
    assert!(wants_apply("\n"));
    assert!(wants_apply("y"));
    assert!(!wants_apply(" N \n"));
}

#[test]
fn get_appends_only_new_packages() {
    let existing = s(&["firefox", "git"]);
    assert_eq!(packages_to_append(&existing, &s(&["git", "btop", "btop"])), vec!["btop"]);
    assert_eq!(packages_to_append(&existing, &s(&["zsh", "btop", "zsh", "fd"])), vec!["zsh", "btop", "fd"]);
    assert!(packages_to_append(&existing, &s(&["firefox"])).is_empty());
    assert!(packages_to_append(&existing, &s(&[])).is_empty());
}

#[test]
fn get_edits_the_install_list_in_place() {
    let text = "# my machine\n[system]\nhostname = \"box\"\n\n[packages]\ninstall = [\"git\"]\n";
    let out = add_to_config(text, &s(&["foo", "git", "foo"])).unwrap();
    assert!(out.starts_with("# my machine\n[system]\nhostname = \"box\"\n"));
    assert_eq!(out.matches("\"foo\"").count(), 1);
    assert_eq!(out.matches("\"git\"").count(), 1);
    assert!(out.find("\"git\"").unwrap() < out.find("\"foo\"").unwrap());
    let same = add_to_config(text, &s(&["git"])).unwrap();
    assert_eq!(same, text);
    assert_eq!(add_to_config("[packages]\ninstall = \"git\"\n", &s(&["foo"])), Err(ConfigError::InstallNotAnArray));
    assert_eq!(add_to_config("[packages]\n", &s(&["foo"])), Err(ConfigError::InstallNotAnArray));
    assert_eq!(add_to_config("not = [valid", &s(&["foo"])), Err(ConfigError::InstallNotAnArray));
}

#[test]
fn theme_edits_fessus_toml_in_place() {
    let text = "# colours\n[fessus]\naccent_color = \"#000000\"\ntheme = \"light\"\nfont = \"Inter\"\n";
    let out = apply_theme(text, "nord").unwrap();
    assert!(out.contains("\"#88c0d0\""));
    assert!(out.contains("\"dark\""));
    assert!(!out.contains("#000000"));
    assert!(out.starts_with("# colours\n[fessus]\n"));
    assert!(out.contains("font = \"Inter\""));
    assert_eq!(apply_theme(text, "solarised"), Err(ThemeError::UnknownTheme));
    let added = apply_theme("[other]\nx = 1\n", "nord").unwrap();
    assert!(added.starts_with("fessus = {"));
    assert!(added.contains("\"#88c0d0\"") && added.contains("[other]\nx = 1\n"));
    assert_eq!(apply_theme("fessus = 3\n", "nord"), Err(ThemeError::NotEditable));
    assert_eq!(apply_theme("[fessus\n", "nord"), Err(ThemeError::NotEditable));
}

#[test]
fn guide_pages() {
    assert_eq!(guide_run(None), GuidePage::Index);
    assert_eq!(guide_run(Some("spore")), GuidePage::Topic(Topic::Spore));
    assert_eq!(guide_run(Some("packaging")), GuidePage::Topic(Topic::Packaging));
    assert_eq!(guide_run(Some("nope")), GuidePage::Unknown);
    let t = topics();
    assert_eq!(t.len(), 8);
    assert_eq!(t[0].0, "start");
    assert_eq!(t[2].1, "Switch, boot, rollback \u{2014} the generation system");
    for (name, _) in &t {
        assert!(matches!(guide_run(Some(name.as_str())), GuidePage::Topic(_)));
    }
}

#[test]
fn pins_locks_and_links() {
    assert_eq!(pin_path(12), "/etc/mycel/pins/12");
    assert_eq!(lock_marker("firefox"), "/var/lib/mycel/locks/firefox");
    assert_eq!(store_link(3), "/nix/var/nix/profiles/mycel-system-3-link");
}

#[test]
fn generation_listing() {
    let text = "   1   2024-01-01 10:00:00\n   2   2024-02-01 11:00:00   (current)\nnot a row\nx 1 2\n";
    let rows = parse_generation_list(text);
    assert_eq!(rows.len(), 2);
    assert_eq!(rows[0].id, 1);
    assert_eq!(rows[0].date, "2024-01-01 10:00:00");
    assert_eq!(rows[1].id, 2);
}

#[test]
fn purge_keeps_newest_and_pinned() {
    // current 6, snapshots 1..5, 2 pinned, keep 3: two unpinned older ones stay
    let p = purge_plan(6, 3, &vec![2], &vec![1, 2, 3, 4, 5]);
    assert_eq!(p.snapshots, vec![1, 2, 3, 4, 5]);
    assert_eq!(p.pinned, vec![2]);
    assert_eq!(p.to_delete, vec![1, 3]);
}

#[test]
fn rollback_targets_and_changes() {
    assert_eq!(rollback_target(0, None), Err(RollbackError::NoGenerations));
    assert_eq!(rollback_target(1, None), Err(RollbackError::AtFirstGeneration));
    assert_eq!(rollback_target(5, None), Ok(RollbackTarget::To(4)));
    assert_eq!(rollback_target(5, Some(5)), Ok(RollbackTarget::AlreadyCurrent));
    assert_eq!(rollback_target(5, Some(9)), Err(RollbackError::InTheFuture { target: 9, current: 5 }));
    assert_eq!(rollback_target(5, Some(2)), Ok(RollbackTarget::To(2)));
    let old = vec![pv("btop", "1"), pv("vim", "9")];
    let cur = vec![pv("btop", "2"), pv("kitty", "1"), pv("firefox", "130")];
    let c = package_changes(&old, &cur, &vec![]);
    assert_eq!(c.to_install.len(), 1);
    assert_eq!(c.to_install[0].name, "vim");
    let removed: Vec<&str> = c.to_remove.iter().map(|p| p.name.as_str()).collect();
    assert_eq!(removed, vec!["kitty", "firefox"]);
    // a locked package survives the rollback
    let c = package_changes(&old, &cur, &s(&["firefox"]));
    let removed: Vec<&str> = c.to_remove.iter().map(|p| p.name.as_str()).collect();
    assert_eq!(removed, vec!["kitty"]);
}

#[test]
fn spore_shell_setup() {
    assert_eq!(spore_dir(42), "/tmp/mycel-spore-42");
    assert_eq!(bin_candidates("/s"), vec!["/s/usr/bin", "/s/usr/sbin", "/s/bin"]);
    assert_eq!(spore_path(&s(&["/s/usr/bin", "/s/bin"]), "/usr/bin:/bin"), "/s/usr/bin:/s/bin:/usr/bin:/bin");
    assert_eq!(
        spore_rc(&s(&["jq", "ripgrep"]), "/s/bin:/bin"),
        "export PS1='(spore:jq+ripgrep) \\u@\\h:\\w\\$ '\nexport PATH='/s/bin:/bin'\n"
    );
}

#[test]
fn switch_package_plan_never_removes_declared_or_locked() {
    let p = plan_packages(
        &s(&["firefox", "git"]),
        &s(&["btop"]),
        &s(&["git", "vim", "btop", "htop"]),
        &s(&["htop"]),
    );
    assert_eq!(p.to_install, vec!["firefox"]);
    assert_eq!(p.to_remove, vec!["vim"]);
}

#[test]
fn switch_service_plan_spares_core_services() {
    let p = plan_services(&s(&["pipewire", "NetworkManager"]), &s(&["dbus", "cups", "pipewire"]));
    assert_eq!(p.to_start, vec!["NetworkManager"]);
    assert_eq!(p.to_stop, vec!["cups"]);
    assert_eq!(service_list("dbus\n  udevd \n\n"), vec!["dbus", "udevd"]);
}

#[test]
fn switch_system_settings() {
    assert_eq!(resolve_shell("/bin/zsh", [false, false, false]), "/bin/zsh");
    assert_eq!(resolve_shell("fish", [false, true, true]), "/usr/bin/fish");
    assert_eq!(resolve_shell("fish", [false, false, false]), "/bin/fish");
    assert!(passwd_has_user("root:x:0:0::/root:/bin/sh\nalice:x:1000:1000::/home/alice:/bin/bash\n", "alice"));
    assert!(!passwd_has_user("root:x:0:0::/root:/bin/sh\n", "ali"));
    assert_eq!(governor("battery"), Some("powersave".to_string()));
    assert_eq!(governor("balanced"), Some("schedutil".to_string()));
    assert_eq!(governor("performance"), Some("performance".to_string()));
    assert_eq!(governor("turbo"), None);
    assert_eq!(locale_gen_update("en_US.UTF-8 UTF-8\n", "de_DE.UTF-8"), Some("en_US.UTF-8 UTF-8\nde_DE.UTF-8 UTF-8\n".to_string()));
    assert_eq!(locale_gen_update("de_DE.UTF-8 UTF-8\n", "de_DE.UTF-8"), None);
    assert_eq!(locale_conf("en_US.UTF-8"), "LANG=en_US.UTF-8\n");
    assert_eq!(hostname_file("mycelbox"), "mycelbox\n");
    assert_eq!(zone_path("Europe/Berlin"), "/usr/share/zoneinfo/Europe/Berlin");
}

#[test]
fn switch_prunes_all_but_three_newest_dbs() {
    let names = s(&["compiled-100", "compiled-400", "compiled", "compiled-200", "compiled-300", "compiled-50"]);
    assert_eq!(dbs_to_prune(&names, "/etc/s6-rc/compiled-400"), vec!["/etc/s6-rc/compiled-100", "/etc/s6-rc/compiled-50"]);
    assert_eq!(dbs_to_prune(&names, "/etc/s6-rc/compiled-50"), vec!["/etc/s6-rc/compiled-100"]);
}

#[test]
fn themes_table_and_lookup() {
    let all = themes();
    assert_eq!(all.len(), 11);
    assert_eq!(all[5].label, "Ros\u{e9} Pine");
    let t = find_theme("nord").unwrap();
    assert_eq!((t.accent.as_str(), t.mode.as_str()), ("#88c0d0", "dark"));
    assert!(find_theme("solarised").is_none());
    assert!(matches!(theme_run(None), Ok(ThemeAction::List)));
    match theme_run(Some("latte")) {
        Ok(ThemeAction::Apply(t)) => assert_eq!(t.mode, "light"),
        _ => panic!("latte should apply"),
    }
    assert!(matches!(theme_run(Some("x")), Err(ThemeError::UnknownTheme)));
    assert_eq!(fessus_path("/home/alice"), "/home/alice/.config/fessus.toml");
    assert_eq!(accent_rgb("#3F549E"), (0x3f, 0x54, 0x9e));
    assert_eq!(accent_rgb("#zz0010"), (127, 0, 16));
    assert_eq!(accent_rgb("#+f0000"), (15, 0, 0));
    assert_eq!(accent_rgb("#\u{e9}eeeee"), (127, 0xee, 0xee));
}

#[test]
fn account_commands() {
    let u = User {
        name: "alice".to_string(),
        shell: "bash".to_string(),
        groups: s(&["wheel", "audio"]),
        password_hash: "$6$x".to_string(),
    };
    assert_eq!(
        create_commands(&u, "/bin/bash"),
        vec![
            s(&["useradd", "-m", "-s", "/bin/bash", "-G", "wheel,audio", "alice"]),
            s(&["usermod", "-p", "$6$x", "alice"]),
        ]
    );
    assert_eq!(chown_command(&u), s(&["chown", "-R", "alice:alice", "/home/alice"]));
    assert_eq!(
        update_commands(&u, "/bin/bash"),
        vec![
            s(&["usermod", "-s", "/bin/bash", "alice"]),
            s(&["usermod", "-aG", "wheel", "alice"]),
            s(&["usermod", "-aG", "audio", "alice"]),
            s(&["usermod", "-p", "$6$x", "alice"]),
        ]
    );
    let bare = User { name: "bob".to_string(), shell: "sh".to_string(), groups: vec![], password_hash: String::new() };
    assert_eq!(create_commands(&bare, "/bin/sh"), vec![s(&["useradd", "-m", "-s", "/bin/sh", "bob"])]);
    assert_eq!(update_commands(&bare, "/bin/sh"), vec![s(&["usermod", "-s", "/bin/sh", "bob"])]);
}

#[test]
fn compiled_database_names_carry_their_stamp() {
    assert_eq!(compiled_db_name(1700000000), "compiled-1700000000");
    assert_eq!(db_stamp_exec(&compiled_db_name(42)), Some(42));
    assert_eq!(db_stamp_exec("compiled-initial"), None);
}
