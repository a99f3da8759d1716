use mycel::system::btrfs::{is_btrfs_root, root_device, snapshot_path, snapshot_size};
use mycel::system::generation::{bump_generation, parse_generation};
use mycel::system::limine::{all_generations, base_cmdline, render_default_menu, render_menu, BootConfig};
use mycel::system::records::{installed_names, packages_missing_from, record_stem_of, version_from_record, PackageVersion};

#[test]
fn btrfs_root_from_mounts() {
    let mounts = "proc /proc proc rw 0 0\n/dev/sda2 / btrfs rw,relatime 0 0\n";
    assert!(is_btrfs_root(mounts));
    assert!(!is_btrfs_root("/dev/sda2 / ext4 rw 0 0\n/dev/sda3 /home btrfs rw 0 0\n"));
    assert!(!is_btrfs_root(""));
}

#[test]
fn root_device_is_trimmed() {
    assert_eq!(root_device("  /dev/nvme0n1p2\n"), "/dev/nvme0n1p2");
}

#[test]
fn snapshot_paths_and_sizes() {
    assert_eq!(snapshot_path(7), "/.snapshots/@gen-7");
    assert_eq!(snapshot_size("1.2G\t/.snapshots/@gen-7\n"), "1.2G");
    assert_eq!(snapshot_size(""), "?");
}

#[test]
fn generation_counter() {
    assert_eq!(parse_generation(" 12\n"), 12);
    assert_eq!(parse_generation("junk"), 0);
    assert_eq!(bump_generation("41\n"), Some((42, "42".to_string())));
    let (next, text) = bump_generation("").unwrap();
    assert_eq!(next, 1);
    assert_eq!(parse_generation(&text), next);
    assert_eq!(bump_generation("18446744073709551615"), None);
}

#[test]
fn kernel_command_line() {
    let extra = vec!["quiet".to_string(), "".to_string(), "splash".to_string()];
    assert_eq!(base_cmdline("/dev/sda2", "@", &extra), "root=/dev/sda2 rootflags=subvol=@ rw quiet splash");
    assert_eq!(base_cmdline("/dev/sda2", "/.snapshots/@gen-3", &[]), "root=/dev/sda2 rootflags=subvol=/.snapshots/@gen-3 rw");
}

#[test]
fn boot_menu_lists_current_then_older_newest_first() {
    let extra = vec!["quiet".to_string()];
    let boot = BootConfig { timeout: 3, extra_cmdline: &extra };
    let menu = render_menu(3, "/dev/sda2", &vec![1, 2, 3], &boot);
    let expected = "timeout: 3\n\n\
/MycelOS \u{2014} Generation 3 (current)\n    protocol: linux\n    kernel_path: root():/boot/vmlinuz\n    cmdline: root=/dev/sda2 rootflags=subvol=@ rw quiet\n    module_path: root():/boot/initramfs.img\n\n\
/MycelOS \u{2014} Generation 2\n    protocol: linux\n    kernel_path: root():/boot/vmlinuz\n    cmdline: root=/dev/sda2 rootflags=subvol=/.snapshots/@gen-2 rw\n    module_path: root():/boot/initramfs.img\n\n\
/MycelOS \u{2014} Generation 1\n    protocol: linux\n    kernel_path: root():/boot/vmlinuz\n    cmdline: root=/dev/sda2 rootflags=subvol=/.snapshots/@gen-1 rw\n    module_path: root():/boot/initramfs.img\n\n";
    assert_eq!(menu, expected);
}

#[test]
fn default_menu_puts_target_first() {
    let boot = BootConfig::default_if_missing();
    assert_eq!(boot.timeout, 5);
    let menu = render_default_menu(1, 2, "/dev/sda2", &vec![1, 2], &boot);
    assert!(menu.starts_with("timeout: 5\n\n/MycelOS \u{2014} Generation 1\n"));
    assert!(menu.contains("/MycelOS \u{2014} Generation 2 (current)\n    protocol: linux\n    kernel_path: root():/boot/vmlinuz\n    cmdline: root=/dev/sda2 rootflags=subvol=@ rw\n"));
}

#[test]
fn kept_generations_spare_current_and_pinned() {
    // generations 1..=5 with snapshots of 1..4; 2 is pinned; keep 2
    let g = all_generations(2, 5, &vec![2], &vec![1, 2, 3, 4]);
    assert!(g.contains(&5));
    assert!(g.contains(&2));
    assert_eq!(g, vec![2, 5]);
    assert_eq!(all_generations(10, 5, &vec![], &vec![1, 3]), vec![1, 3, 5]);
    assert!(all_generations(3, 0, &vec![], &vec![]).is_empty());
}

#[test]
fn record_versions() {
    assert_eq!(version_from_record("name = \"btop\"\nversion = \"1.4.7\"\n"), Some("1.4.7".to_string()));
    let a = vec![
        PackageVersion { name: "a".to_string(), version: "1".to_string() },
        PackageVersion { name: "b".to_string(), version: "2".to_string() },
    ];
    let b = vec![PackageVersion { name: "b".to_string(), version: "3".to_string() }];
    let m = packages_missing_from(&a, &b);
    assert_eq!(m.len(), 1);
    assert_eq!(m[0].name, "a");
}

#[test]
fn database_entries_name_their_packages() {
    assert_eq!(record_stem_of("btop.toml"), Some("btop".to_string()));
    assert_eq!(record_stem_of("a.b.toml"), Some("a.b".to_string()));
    assert_eq!(record_stem_of(".toml"), None);
    assert_eq!(record_stem_of("btop.myc"), None);
    let entries: Vec<String> = ["git.toml", "README", "kitty.toml", ".toml"].iter().map(|s| s.to_string()).collect();
    assert_eq!(installed_names(&entries), vec!["git", "kitty"]);
}

#[test]
fn larger_keep_keeps_every_generation_a_smaller_one_keeps() {
    let pinned = vec![3];
    let snaps = vec![1, 2, 3, 4, 5, 6];
    for k1 in 0..8u64 {
        for k2 in k1..8u64 {
            let small = all_generations(k1, 7, &pinned, &snaps);
            let large = all_generations(k2, 7, &pinned, &snaps);
            assert!(small.iter().all(|g| large.contains(g)), "keep {k1} vs {k2}");
        }
    }
    assert_eq!(all_generations(1, 7, &pinned, &snaps), vec![3, 7]);
    assert_eq!(all_generations(4, 7, &pinned, &snaps), vec![3, 5, 6, 7]);
}
