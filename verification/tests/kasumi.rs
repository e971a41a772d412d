use hybrid_mount::config::Config;
use hybrid_mount::kasumi_cli::{
    handle_kasumi_add_maps_rule, handle_kasumi_clear_cmdline, handle_kasumi_clear_hide_uids,
    handle_kasumi_clear_maps_rules, handle_kasumi_clear_uname, handle_kasumi_set_cmdline,
    handle_kasumi_set_debug, handle_kasumi_set_enabled, handle_kasumi_set_hide_uids,
    handle_kasumi_set_hidexattr, handle_kasumi_set_maps_spoof, handle_kasumi_set_mirror,
    handle_kasumi_set_mount_hide, handle_kasumi_set_statfs_spoof, handle_kasumi_set_stealth,
    handle_kasumi_set_uname, handle_kasumi_upsert_kstat_rule, KasumiCliError,
};

fn kstat(config: &mut Config, ino: u64, path: &str, size: i64) {
    handle_kasumi_upsert_kstat_rule(
        config, ino, path, 7, 8, 1, size, 10, 11, 12, 13, 14, 15, 4096, 2, false,
    );
}

#[test]
fn simple_switches_set_their_field_only() {
    let mut c = Config::default();
    handle_kasumi_set_enabled(&mut c, true);
    handle_kasumi_set_hidexattr(&mut c, true);
    handle_kasumi_set_debug(&mut c, true);
    handle_kasumi_set_stealth(&mut c, true);
    handle_kasumi_set_maps_spoof(&mut c, true);
    assert!(c.kasumi.enabled);
    assert!(c.kasumi.enable_hidexattr);
    assert!(c.kasumi.enable_kernel_debug);
    assert!(c.kasumi.enable_stealth);
    assert!(c.kasumi.enable_maps_spoof);
    assert!(!c.kasumi.enable_mount_hide);
    assert!(!c.kasumi.enable_statfs_spoof);
    assert!(!c.hymofs.enabled);
    handle_kasumi_set_enabled(&mut c, false);
    assert!(!c.kasumi.enabled);
    assert!(c.kasumi.enable_stealth);
}

#[test]
fn mirror_and_cmdline_are_stored_and_cleared() {
    let mut c = Config::default();
    handle_kasumi_set_mirror(&mut c, "/dev/kasumi_mirror");
    assert_eq!(c.kasumi.mirror_path, "/dev/kasumi_mirror");
    handle_kasumi_set_cmdline(&mut c, "androidboot.verifiedbootstate=green");
    assert_eq!(c.kasumi.cmdline_value, "androidboot.verifiedbootstate=green");
    handle_kasumi_clear_cmdline(&mut c);
    assert_eq!(c.kasumi.cmdline_value, "");
    assert_eq!(c.kasumi.mirror_path, "/dev/kasumi_mirror");
}

#[test]
fn mount_hide_keeps_pattern_when_none_given_and_clears_when_disabled() {
    let mut c = Config::default();
    handle_kasumi_set_mount_hide(&mut c, true, Some("/data/adb/*"));
    assert!(c.kasumi.enable_mount_hide);
    assert!(c.kasumi.mount_hide.enabled);
    assert_eq!(c.kasumi.mount_hide.path_pattern, "/data/adb/*");
    handle_kasumi_set_mount_hide(&mut c, true, None);
    assert_eq!(c.kasumi.mount_hide.path_pattern, "/data/adb/*");
    handle_kasumi_set_mount_hide(&mut c, false, Some("/ignored"));
    assert!(!c.kasumi.enable_mount_hide);
    assert!(!c.kasumi.mount_hide.enabled);
    assert_eq!(c.kasumi.mount_hide.path_pattern, "");
}

#[test]
fn statfs_spoof_fields_follow_the_switch() {
    let mut c = Config::default();
    handle_kasumi_set_statfs_spoof(&mut c, true, Some("/system"), Some(0xEF53));
    assert!(c.kasumi.enable_statfs_spoof);
    assert_eq!(c.kasumi.statfs_spoof.path, "/system");
    assert_eq!(c.kasumi.statfs_spoof.spoof_f_type, 0xEF53);
    handle_kasumi_set_statfs_spoof(&mut c, true, None, None);
    assert_eq!(c.kasumi.statfs_spoof.path, "/system");
    assert_eq!(c.kasumi.statfs_spoof.spoof_f_type, 0xEF53);
    handle_kasumi_set_statfs_spoof(&mut c, false, Some("/x"), Some(1));
    assert!(!c.kasumi.statfs_spoof.enabled);
    assert_eq!(c.kasumi.statfs_spoof.path, "");
    assert_eq!(c.kasumi.statfs_spoof.spoof_f_type, 0);
}

#[test]
fn uname_without_fields_is_refused_and_changes_nothing() {
    let mut c = Config::default();
    let r = handle_kasumi_set_uname(&mut c, None, None, None, None, None, None);
    assert_eq!(r, Err(KasumiCliError::NoUnameFields));
    assert_eq!(c.kasumi.uname.sysname, "");
    assert_eq!(
        KasumiCliError::NoUnameFields.message(),
        "No uname fields were provided. Use `kasumi uname clear` to clear spoofing."
    );
    assert_eq!(
        hybrid_mount::kasumi_cli::check_uname_fields(None, None, None, None, None, None),
        Err(KasumiCliError::NoUnameFields)
    );
    assert_eq!(
        hybrid_mount::kasumi_cli::check_uname_fields(None, None, None, None, Some("x"), None),
        Ok(())
    );
}

#[test]
fn uname_sets_given_fields_and_keeps_others() {
    let mut c = Config::default();
    handle_kasumi_set_uname(&mut c, Some("Linux"), None, Some("5.10"), None, None, None).unwrap();
    handle_kasumi_set_uname(&mut c, None, Some("localhost"), None, None, None, None).unwrap();
    assert_eq!(c.kasumi.uname.sysname, "Linux");
    assert_eq!(c.kasumi.uname.nodename, "localhost");
    assert_eq!(c.kasumi.uname.release, "5.10");
    assert_eq!(c.kasumi.uname.machine, "");
    handle_kasumi_clear_uname(&mut c);
    assert_eq!(c.kasumi.uname.sysname, "");
    assert_eq!(c.kasumi.uname.release, "");
}

#[test]
fn hide_uids_are_replaced_then_cleared() {
    let mut c = Config::default();
    handle_kasumi_set_hide_uids(&mut c, &[10001, 10002]);
    handle_kasumi_set_hide_uids(&mut c, &[10003]);
    assert_eq!(c.kasumi.hide_uids, vec![10003]);
    handle_kasumi_clear_hide_uids(&mut c);
    assert!(c.kasumi.hide_uids.is_empty());
}

#[test]
fn maps_rule_with_same_key_is_replaced_in_place() {
    let mut c = Config::default();
    handle_kasumi_add_maps_rule(&mut c, 1, 2, 3, 4, "/a");
    handle_kasumi_add_maps_rule(&mut c, 5, 6, 7, 8, "/b");
    handle_kasumi_add_maps_rule(&mut c, 1, 2, 30, 40, "/c");
    assert_eq!(c.kasumi.maps_rules.len(), 2);
    assert_eq!(c.kasumi.maps_rules[0].target_ino, 1);
    assert_eq!(c.kasumi.maps_rules[0].spoofed_ino, 30);
    assert_eq!(c.kasumi.maps_rules[0].spoofed_dev, 40);
    assert_eq!(c.kasumi.maps_rules[0].spoofed_pathname, "/c");
    assert_eq!(c.kasumi.maps_rules[1].spoofed_pathname, "/b");
    handle_kasumi_add_maps_rule(&mut c, 1, 3, 0, 0, "/d");
    assert_eq!(c.kasumi.maps_rules.len(), 3);
    handle_kasumi_clear_maps_rules(&mut c);
    assert!(c.kasumi.maps_rules.is_empty());
}

#[test]
fn adding_same_maps_rule_twice_equals_adding_it_once() {
    let mut once = Config::default();
    handle_kasumi_add_maps_rule(&mut once, 9, 9, 1, 1, "/x");
    let mut twice = Config::default();
    handle_kasumi_add_maps_rule(&mut twice, 9, 9, 1, 1, "/x");
    handle_kasumi_add_maps_rule(&mut twice, 9, 9, 1, 1, "/x");
    assert_eq!(once.kasumi.maps_rules.len(), twice.kasumi.maps_rules.len());
    assert_eq!(twice.kasumi.maps_rules[0].spoofed_pathname, "/x");
}

#[test]
fn kstat_rule_key_compares_paths_by_components() {
    let mut c = Config::default();
    kstat(&mut c, 100, "/system/bin/app", 1);
    kstat(&mut c, 100, "/system//bin/./app/", 2);
    assert_eq!(c.kasumi.kstat_rules.len(), 1);
    assert_eq!(c.kasumi.kstat_rules[0].spoofed_size, 2);
    assert_eq!(c.kasumi.kstat_rules[0].target_pathname, "/system//bin/./app/");
    kstat(&mut c, 101, "/system/bin/app", 3);
    kstat(&mut c, 100, "/system/bin/other", 4);
    assert_eq!(c.kasumi.kstat_rules.len(), 3);
    assert_eq!(c.kasumi.kstat_rules[0].spoofed_atime_sec, 10);
    assert_eq!(c.kasumi.kstat_rules[0].spoofed_blksize, 4096);
}

#[test]
fn clearing_kstat_rules_leaves_maps_rules() {
    let mut c = Config::default();
    kstat(&mut c, 1, "/a", 1);
    handle_kasumi_add_maps_rule(&mut c, 1, 2, 3, 4, "/m");
    hybrid_mount::kasumi_cli::handle_kasumi_clear_kstat_rules_config(&mut c);
    assert!(c.kasumi.kstat_rules.is_empty());
    assert_eq!(c.kasumi.maps_rules.len(), 1);
}
