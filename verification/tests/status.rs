use hybrid_mount::config::Config;
use hybrid_mount::hymofs_status::{
    can_operate, collect_runtime_info, hook_lines, require_live, HymoFsProbe, LkmProbe,
};
use hybrid_mount::logs::{last_lines, lines};

fn probe() -> HymoFsProbe {
    HymoFsProbe {
        status_name: "available".to_string(),
        available: true,
        protocol_version: Some(12),
        feature_bits: Some(3),
        feature_names: vec!["a".to_string(), "b".to_string()],
        hooks: Some("  vfs_open \n\n\titerate_dir\r\n   \n".to_string()),
        rule_count: Some(5),
    }
}

fn lkm() -> LkmProbe {
    LkmProbe { loaded: true, current_kmi: "android14-6.1".to_string(), user_hide_rule_count: 2 }
}

#[test]
fn hook_lines_are_trimmed_and_blank_lines_dropped() {
    assert_eq!(hook_lines("  vfs_open \n\n\titerate_dir\r\n   \n"), vec!["vfs_open", "iterate_dir"]);
    assert!(hook_lines("").is_empty());
    assert!(hook_lines(" \n \n").is_empty());
    assert_eq!(hook_lines("x"), vec!["x"]);
}

#[test]
fn require_live_names_operation_and_status() {
    assert_eq!(require_live(true, "rule sync", "available"), Ok(()));
    assert_eq!(
        require_live(false, "rule sync", "not_present"),
        Err("HymoFS is not available for rule sync (status=not_present)".to_string())
    );
}

#[test]
fn can_operate_passes_the_mismatch_switch() {
    let mut c = Config::default();
    assert!(!can_operate(&c, |ignore| ignore));
    c.hymofs.ignore_protocol_mismatch = true;
    assert!(can_operate(&c, |ignore| ignore));
}

#[test]
fn disabled_hymofs_reports_disabled() {
    let mut c = Config::default();
    c.hymofs.lkm_autoload = true;
    c.hymofs.lkm_dir = "/data/adb/lkm".to_string();
    let info = collect_runtime_info(&c, &lkm(), &probe());
    assert_eq!(info.status, "disabled");
    assert!(!info.available);
    assert!(info.lkm_loaded);
    assert!(info.lkm_autoload);
    assert_eq!(info.lkm_current_kmi, "android14-6.1");
    assert_eq!(info.lkm_dir, "/data/adb/lkm");
    assert_eq!(info.protocol_version, None);
    assert_eq!(info.feature_bits, None);
    assert!(info.feature_names.is_empty());
    assert!(info.hooks.is_empty());
    assert_eq!(info.rule_count, 0);
    assert_eq!(info.user_hide_rule_count, 2);
}

#[test]
fn enabled_hymofs_reports_the_probe() {
    let mut c = Config::default();
    c.hymofs.enabled = true;
    c.hymofs.mirror_path = "/dev/hymo_mirror".to_string();
    let info = collect_runtime_info(&c, &lkm(), &probe());
    assert_eq!(info.status, "available");
    assert!(info.available);
    assert_eq!(info.protocol_version, Some(12));
    assert_eq!(info.feature_bits, Some(3));
    assert_eq!(info.feature_names, vec!["a", "b"]);
    assert_eq!(info.hooks, vec!["vfs_open", "iterate_dir"]);
    assert_eq!(info.rule_count, 5);
    assert_eq!(info.mirror_path, "/dev/hymo_mirror");
    let mut p = probe();
    p.feature_bits = None;
    p.hooks = None;
    p.rule_count = None;
    let info = collect_runtime_info(&c, &lkm(), &p);
    assert!(info.feature_names.is_empty());
    assert!(info.hooks.is_empty());
    assert_eq!(info.rule_count, 0);
}

#[test]
fn lines_match_str_lines() {
    for s in ["", "a", "a\n", "a\r\nb", "a\n\nb\n", "\r\n", "x\ry\n", "\n\n", "tail\r"] {
        let expected: Vec<String> = s.lines().map(str::to_owned).collect();
        assert_eq!(lines(s), expected, "input {:?}", s);
    }
}

#[test]
fn last_lines_keeps_the_newest_in_order() {
    let log = "one\ntwo\r\nthree\nfour\n";
    assert_eq!(last_lines(log, 2), vec!["three", "four"]);
    assert_eq!(last_lines(log, 10), vec!["one", "two", "three", "four"]);
    assert!(last_lines(log, 0).is_empty());
    assert!(last_lines("", 3).is_empty());
}
