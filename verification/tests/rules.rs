use hybrid_mount::hymofs_rules::{
    build_dtype, classify_entry, file_rule, mirror_module_path, mirror_module_root, mirror_root_outcome,
    note_partition_root, CompiledRules, EntryDecision, FileKind, FileRuleKind,
};
use hybrid_mount::magic_mount::{
    entry_action, plan_directory, sorted_module_ids, ChildEntry, EntryAction, MountStats,
    NodeFileType,
};
use hybrid_mount::nuke::{
    kpm_call_args, setting_or, ApatchNuke, ApatchNukeSettings, CommandOutcome, NukeAction,
    NukeError,
};
use hybrid_mount::storage::{Ext4Backend, TmpfsBackend};
use hybrid_mount::sync::{is_orphaned_entry, sync_paths, ModuleSync, SyncAction, SyncEvent, SyncPhase};
use hybrid_mount::sysutil::{
    e2fsck_verdict, get_mnt, is_mounted_in, resolve_link_target, ImageRepairError,
};

fn strings(v: &[&str]) -> Vec<String> {
    v.iter().map(|s| s.to_string()).collect()
}

#[test]
fn dtype_codes_follow_libc() {
    assert_eq!(build_dtype(FileKind::Regular, 0), (libc::DT_REG as i32, false));
    assert_eq!(build_dtype(FileKind::Directory, 0), (libc::DT_DIR as i32, false));
    assert_eq!(build_dtype(FileKind::Symlink, 0), (libc::DT_LNK as i32, false));
    assert_eq!(build_dtype(FileKind::BlockDevice, 5), (libc::DT_BLK as i32, false));
    assert_eq!(build_dtype(FileKind::CharDevice, 5), (libc::DT_CHR as i32, false));
    assert_eq!(build_dtype(FileKind::Fifo, 0), (libc::DT_FIFO as i32, false));
    assert_eq!(build_dtype(FileKind::Socket, 0), (libc::DT_SOCK as i32, false));
    assert_eq!(build_dtype(FileKind::Other, 0), (libc::DT_UNKNOWN as i32, false));
    assert_eq!(build_dtype(FileKind::CharDevice, 0), (0, true));
    assert_eq!(file_rule(FileKind::CharDevice, 0), FileRuleKind::Hide);
    assert_eq!(file_rule(FileKind::Regular, 0), FileRuleKind::Add(8));
}

#[test]
fn walked_entries_are_classified() {
    assert_eq!(classify_entry(0, true, false, true, false, true, true), EntryDecision::Skip);
    assert_eq!(classify_entry(1, false, false, false, false, true, false), EntryDecision::Skip);
    assert_eq!(classify_entry(1, true, true, false, false, false, false), EntryDecision::Skip);
    assert_eq!(classify_entry(2, true, false, true, false, true, true), EntryDecision::Merge);
    assert_eq!(classify_entry(2, true, false, true, false, true, false), EntryDecision::Skip);
    assert_eq!(
        classify_entry(2, true, false, false, true, true, true),
        EntryDecision::SkipSymlinkOverDir
    );
    assert_eq!(classify_entry(2, true, false, false, true, false, false), EntryDecision::FileRule);
    assert_eq!(classify_entry(3, true, false, false, false, true, false), EntryDecision::FileRule);
    assert_eq!(mirror_module_path("/dev/mirror", "mod_a"), "/dev/mirror/mod_a");
}

#[test]
fn mirror_root_must_exist() {
    assert_eq!(mirror_module_root("/", "usr").0, Ok("/usr".to_string()));
    assert_eq!(
        mirror_module_root("/no_such_mirror", "m").0,
        Err("missing HymoFS mirror content for module m at /no_such_mirror/m".to_string())
    );
}

#[test]
fn mirror_outcome_follows_the_answer() {
    assert_eq!(mirror_root_outcome("/d/m".to_string(), "m", true), Ok("/d/m".to_string()));
    assert_eq!(
        mirror_root_outcome("/d/m".to_string(), "m", false),
        Err("missing HymoFS mirror content for module m at /d/m".to_string())
    );
}

#[test]
fn compiled_rules_follow_entry_decisions() {
    let mut c = CompiledRules::new();
    assert!(c.record_entry(EntryDecision::Merge, None, "/system/etc", "/m/system/etc"));
    assert!(!c.record_entry(EntryDecision::Skip, None, "/x", "/m/x"));
    assert!(!c.record_entry(EntryDecision::SkipSymlinkOverDir, None, "/y", "/m/y"));
    let add = Some(file_rule(FileKind::Regular, 0));
    assert!(!c.record_entry(EntryDecision::FileRule, add, "/system/bin/a", "/m/system/bin/a"));
    let hide = Some(file_rule(FileKind::CharDevice, 0));
    assert!(!c.record_entry(EntryDecision::FileRule, hide, "/system/bin/gone", "/m/gone"));
    assert_eq!(c.merge_rules.len(), 1);
    assert_eq!(c.merge_rules[0].target, "/system/etc");
    assert_eq!(c.merge_rules[0].source, "/m/system/etc");
    assert_eq!(c.add_rules.len(), 1);
    assert_eq!(c.add_rules[0].target, "/system/bin/a");
    assert_eq!(c.add_rules[0].file_type, libc::DT_REG as i32);
    assert_eq!(c.hide_rules, vec!["/system/bin/gone".to_string()]);
}

#[test]
fn partition_roots_are_deduplicated_as_paths() {
    let mut seen = Vec::new();
    assert!(note_partition_root(&mut seen, "/m/system"));
    assert!(!note_partition_root(&mut seen, "/m//system/"));
    assert!(note_partition_root(&mut seen, "/m/vendor"));
    assert_eq!(seen, strings(&["/m/system", "/m/vendor"]));
}

fn child(file_type: NodeFileType, real: Option<NodeFileType>) -> ChildEntry {
    ChildEntry { file_type, skip: false, real_exists: real.is_some(), real_type: real }
}

#[test]
fn directory_plan_creates_tmpfs_when_a_child_needs_one() {
    let children = vec![
        child(NodeFileType::RegularFile, Some(NodeFileType::RegularFile)),
        child(NodeFileType::Symlink, None),
    ];
    let p = plan_directory(false, NodeFileType::RegularFile, false, true, &children);
    assert!(p.tmpfs);
    assert!(p.has_tmpfs);
    assert!(p.child_errors_fatal);
    assert_eq!(p.skip, vec![false, false]);
    assert_eq!(p.ignored, 0);
    let p = plan_directory(false, NodeFileType::RegularFile, false, false, &children);
    assert!(!p.tmpfs);
    assert_eq!(p.skip, vec![false, true]);
    assert_eq!(p.ignored, 1);
    let p = plan_directory(false, NodeFileType::Directory, true, false, &vec![]);
    assert!(p.replace_without_module);
    assert!(!p.tmpfs);
    let p = plan_directory(true, NodeFileType::Directory, true, true, &children);
    assert!(!p.tmpfs);
    assert!(p.has_tmpfs);
}

#[test]
fn entry_actions() {
    assert_eq!(entry_action(true, true, true), EntryAction::Skip);
    assert_eq!(entry_action(true, false, false), EntryAction::MountChild);
    assert_eq!(entry_action(false, false, true), EntryAction::Mirror);
    assert_eq!(entry_action(false, false, false), EntryAction::Ignore);
}

#[test]
fn module_ids_sorted_and_unique() {
    assert_eq!(sorted_module_ids(&strings(&["b", "a", "b", "c"])), strings(&["a", "b", "c"]));
    assert!(sorted_module_ids(&vec![]).is_empty());
}

#[test]
fn mount_stats_count_each_kind() {
    let mut s = MountStats::default();
    s.record_file();
    s.record_file();
    s.record_ignored();
    s.record_symlink();
    assert_eq!((s.mounted_files, s.ignored_files, s.mounted_symlinks), (2, 1, 1));
}

#[test]
fn nuke_settings_and_kpm_arguments() {
    let s = ApatchNukeSettings::from_env_values(None, Some("/m.kpm".to_string()), None, None, None);
    assert_eq!(s.kp_bin, "/data/adb/ap/bin/kp");
    assert_eq!(s.kpm_module, "/m.kpm");
    assert_eq!(s.kpm_id, "nuke_ext4_sysfs");
    assert_eq!(s.call_mode, "control");
    assert_eq!(s.control_name, "nuke_ext4_sysfs");
    assert_eq!(setting_or(None, "d"), "d");
    assert_eq!(
        kpm_call_args("control", None, "nuke", "/data/x.img").unwrap(),
        strings(&["kpm", "control", "nuke", "/data/x.img"])
    );
    assert_eq!(
        kpm_call_args("NR", Some("451"), "nuke", "/p").unwrap(),
        strings(&["kpm", "call", "451", "/p"])
    );
    assert_eq!(kpm_call_args("nr", None, "nuke", "/p"), Err(NukeError::NrMissing));
}

#[test]
fn sync_naming_and_orphans() {
    let p = sync_paths("/data/adb/modules_mnt", "mod");
    assert_eq!(p.dst, "/data/adb/modules_mnt/mod");
    assert_eq!(p.backup, "/data/adb/modules_mnt/.backup_mod");
    assert_eq!(p.tmp, "/data/adb/modules_mnt/.tmp_mod");
    let active = strings(&["a"]);
    assert!(is_orphaned_entry("b", &active));
    assert!(!is_orphaned_entry("a", &active));
    assert!(!is_orphaned_entry("lost+found", &active));
    assert!(!is_orphaned_entry("hybrid_mount", &active));
    assert!(!is_orphaned_entry(".backup_b", &active));
}

fn run_sync(events: &[SyncEvent]) -> (ModuleSync, Vec<SyncAction>) {
    let mut m = ModuleSync::new();
    let mut all = Vec::new();
    for e in events {
        all.extend(m.step(*e));
    }
    (m, all)
}

#[test]
fn module_sync_success_with_previous_copy() {
    let (m, acts) = run_sync(&[
        SyncEvent::Content(true),
        SyncEvent::Synced(true),
        SyncEvent::PreviousExists(true),
        SyncEvent::BackedUp(true),
        SyncEvent::Committed(true),
    ]);
    assert_eq!(m.phase, SyncPhase::Finished);
    assert_eq!(
        acts,
        vec![SyncAction::ClearTmp, SyncAction::SyncDir, SyncAction::PruneEmptyDirs, SyncAction::ApplyOpaqueFlags, SyncAction::CheckPrevious, SyncAction::BackupPrevious, SyncAction::Commit, SyncAction::RemoveBackup]
    );
}

#[test]
fn module_sync_failures_clean_up() {
    let (m, acts) = run_sync(&[SyncEvent::Content(true), SyncEvent::Synced(false)]);
    assert_eq!(m.phase, SyncPhase::Failed);
    assert_eq!(acts, vec![SyncAction::ClearTmp, SyncAction::SyncDir, SyncAction::RemoveTmp, SyncAction::ReportFailure]);
    let (m, acts) = run_sync(&[
        SyncEvent::Content(true),
        SyncEvent::Synced(true),
        SyncEvent::PreviousExists(true),
        SyncEvent::BackedUp(true),
        SyncEvent::Committed(false),
    ]);
    assert_eq!(m.phase, SyncPhase::Failed);
    assert_eq!(&acts[acts.len() - 3..], &[SyncAction::RestoreBackup, SyncAction::RemoveTmp, SyncAction::ReportFailure]);
    let (_, acts) = run_sync(&[
        SyncEvent::Content(true),
        SyncEvent::Synced(true),
        SyncEvent::PreviousExists(false),
        SyncEvent::Committed(false),
    ]);
    assert_eq!(&acts[acts.len() - 2..], &[SyncAction::RemoveTmp, SyncAction::ReportFailure]);
    assert!(!acts.contains(&SyncAction::RestoreBackup));
    let (m, acts) = run_sync(&[SyncEvent::Content(false), SyncEvent::Synced(true)]);
    assert_eq!(m.phase, SyncPhase::Finished);
    assert_eq!(acts, vec![SyncAction::Skip]);
}

#[test]
fn runtime_mount_point_shape() {
    let a = get_mnt();
    assert_eq!(a.len(), 15);
    assert!(a.starts_with("/mnt/"));
    assert!(a[5..].chars().all(|c| c.is_ascii_alphanumeric()));
    assert_ne!(a, "/mnt/");
}

#[test]
fn mount_lookup_ignores_trailing_slashes() {
    let mounts = strings(&["/", "/data", "/system/app"]);
    assert!(is_mounted_in("/data/", &mounts));
    assert!(is_mounted_in("/", &mounts));
    assert!(is_mounted_in("/system/app//", &mounts));
    assert!(!is_mounted_in("/system", &mounts));
}

#[test]
fn link_targets_resolve_against_the_parent() {
    assert_eq!(resolve_link_target("/system/lib/x.so", Some("../lib64/y.so")), "/system/lib64/y.so");
    assert_eq!(resolve_link_target("/a/b", Some("/c/./d")), "/c/d");
    assert_eq!(resolve_link_target("/a//b/", None), "/a/b");
    assert_eq!(resolve_link_target("/top", Some("t")), "/t");
}

#[test]
fn e2fsck_exit_codes() {
    assert_eq!(e2fsck_verdict(Some(0)), Ok(()));
    assert_eq!(e2fsck_verdict(Some(2)), Ok(()));
    assert_eq!(e2fsck_verdict(Some(4)), Err(ImageRepairError::ExitCode(4)));
    assert_eq!(e2fsck_verdict(None), Err(ImageRepairError::Signal));
}

#[test]
fn storage_backends_keep_mount_point() {
    let e = Ext4Backend::new("/mnt/a");
    assert_eq!(e.mount_point, "/mnt/a");
    assert_eq!(e.mode, "ext4");
    let t = TmpfsBackend::new("/mnt/b");
    assert_eq!(t.mode, "tmpfs");
}

fn settings(mode: &str) -> ApatchNukeSettings {
    ApatchNukeSettings::from_env_values(None, None, None, Some(mode.to_string()), None)
}

fn run_args(a: NukeAction) -> Vec<String> {
    match a {
        NukeAction::Run(v) => v,
        other => panic!("expected a command, got {:?}", other),
    }
}

const OK: CommandOutcome = CommandOutcome::Exited { success: true, code: Some(0) };

#[test]
fn apatch_nuke_loads_calls_and_unloads() {
    let mut n = ApatchNuke::new(settings("control"), None, "/data/adb/x.img");
    assert_eq!(
        run_args(n.tool_checked(true)),
        strings(&["kpm", "load", "/data/adb/hybrid-mount/kpm/nuke_ext4_sysfs.kpm"])
    );
    assert_eq!(
        run_args(n.loaded(OK)),
        strings(&["kpm", "control", "nuke_ext4_sysfs", "/data/adb/x.img"])
    );
    assert_eq!(run_args(n.called(OK)), strings(&["kpm", "unload", "nuke_ext4_sysfs"]));
    let (warn, result) = n.unloaded(CommandOutcome::Exited { success: false, code: Some(1) });
    assert!(matches!(warn, Some(NukeAction::WarnUnload(Some(1)))));
    assert_eq!(result, Ok(()));
}

#[test]
fn apatch_nuke_failures() {
    let mut n = ApatchNuke::new(settings("control"), None, "/p");
    assert!(matches!(n.tool_checked(false), NukeAction::Finish(Err(NukeError::KpMissing))));
    let mut n = ApatchNuke::new(settings("control"), None, "/p");
    n.tool_checked(true);
    let a = n.loaded(CommandOutcome::Exited { success: false, code: Some(3) });
    assert!(matches!(a, NukeAction::Finish(Err(NukeError::LoadFailed(Some(3))))));
    let mut n = ApatchNuke::new(settings("Nr"), None, "/p");
    n.tool_checked(true);
    assert!(matches!(n.loaded(OK), NukeAction::Finish(Err(NukeError::NrMissing))));
    let mut n = ApatchNuke::new(settings("nr"), Some("450".to_string()), "/p");
    n.tool_checked(true);
    assert_eq!(run_args(n.loaded(OK)), strings(&["kpm", "call", "450", "/p"]));
    n.called(CommandOutcome::Exited { success: false, code: None });
    let (warn, result) = n.unloaded(OK);
    assert!(warn.is_none());
    assert_eq!(result, Err(NukeError::InvokeFailed(None)));
    let mut n = ApatchNuke::new(settings("control"), None, "/p");
    n.tool_checked(true);
    n.loaded(OK);
    n.called(CommandOutcome::SpawnFailed);
    assert_eq!(n.unloaded(OK).1, Err(NukeError::CallSpawn));
}

#[test]
fn modules_compile_last_first_and_only_when_active() {
    let ids = strings(&["m1", "m2", "m3", "m4"]);
    assert_eq!(hybrid_mount::hymofs_rules::compile_order(&ids, &strings(&["m4", "m1", "m3"])), vec![3, 2, 0]);
    assert!(hybrid_mount::hymofs_rules::compile_order(&ids, &vec![]).is_empty());
}

#[test]
fn entry_targets_and_markers() {
    let t = hybrid_mount::hymofs_rules::entry_target("/m/mod", "/m/mod/system/no_such_dir_w/f").unwrap();
    assert_eq!(t.relative, "system/no_such_dir_w/f");
    assert_eq!(t.target, "/system/no_such_dir_w/f");
    assert!(!t.probes.is_empty());
    assert!(hybrid_mount::hymofs_rules::entry_target("/m/mod", "/other/x").is_none());
    assert!(hybrid_mount::hymofs_rules::is_replace_marker("/m/mod/system/app/.replace"));
    assert!(!hybrid_mount::hymofs_rules::is_replace_marker("/m/mod/system/app/replace"));
    assert_eq!(hybrid_mount::sysutil::mnt_from_draws(&vec!['a', 'B', '3']), "/mnt/aB3");
}
