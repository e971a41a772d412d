use hybrid_mount::magic_mount::{attribute_failure, MagicMountModuleFailure};
use hybrid_mount::recovery::{
    join_strings, mark_failed_modules, AttemptOutcome, FailureStage, ModuleStageFailure,
    RecoveryNext, RecoveryState,
};

fn strings(v: &[&str]) -> Vec<String> {
    v.iter().map(|s| s.to_string()).collect()
}

fn failure(ids: &[&str]) -> AttemptOutcome {
    AttemptOutcome::ModuleFailure(strings(ids))
}

#[test]
fn stage_names_and_messages() {
    assert_eq!(FailureStage::Sync.name(), "sync");
    assert_eq!(FailureStage::Execute.name(), "execute");
    let f = ModuleStageFailure::new(FailureStage::Sync, strings(&["a", "b"]), "boom".to_string());
    assert_eq!(f.message(), "module stage failure during sync for [a, b]: boom");
    let g = ModuleStageFailure::new(FailureStage::Execute, vec![], "late".to_string());
    assert_eq!(g.message(), "module stage failure during execute: late");
}

#[test]
fn magic_mount_failure_messages() {
    let f = MagicMountModuleFailure::new(strings(&["m1"]), "denied".to_string());
    assert_eq!(f.message(), "magic mount module failure for [m1]: denied");
    let g = MagicMountModuleFailure::new(vec![], "denied".to_string());
    assert_eq!(g.message(), "magic mount module failure: denied");
    assert!(attribute_failure(vec![], "x".to_string()).is_none());
    let h = attribute_failure(strings(&["m2", "m3"]), "y".to_string()).unwrap();
    assert_eq!(h.module_ids, strings(&["m2", "m3"]));
    assert_eq!(h.source, "y");
}

#[test]
fn join_strings_matches_std_join() {
    let v = strings(&["x", "y", "z"]);
    assert_eq!(join_strings(&v, ", "), v.join(", "));
    assert_eq!(join_strings(&vec![], ","), "");
    assert_eq!(join_strings(&strings(&["only"]), "-"), "only");
}

#[test]
fn restart_limit_is_candidates_plus_one() {
    let s = RecoveryState::new(3);
    assert_eq!(s.max_restarts, 4);
    assert_eq!(s.restart_round, 0);
    assert!(s.auto_skipped.is_empty());
    assert!(!s.unattributed_retry_used);
    assert_eq!(RecoveryState::new(usize::MAX).max_restarts, usize::MAX);
}

#[test]
fn success_and_other_failures_end_the_loop() {
    let known = strings(&["a"]);
    let mut s = RecoveryState::new(1);
    assert_eq!(s.step(&AttemptOutcome::Success, &known).next, RecoveryNext::Finish);
    assert_eq!(s.step(&AttemptOutcome::OtherFailure, &known).next, RecoveryNext::Fail);
    assert_eq!(s.restart_round, 0);
}

#[test]
fn unattributed_failure_is_retried_once() {
    let known = strings(&["a", "b"]);
    let mut s = RecoveryState::new(2);
    let d = s.step(&failure(&[]), &known);
    assert_eq!(d.next, RecoveryNext::Retry);
    assert!(s.unattributed_retry_used);
    assert_eq!(s.restart_round, 1);
    let d = s.step(&failure(&[]), &known);
    assert_eq!(d.next, RecoveryNext::Fail);
    assert_eq!(s.restart_round, 1);
}

#[test]
fn failing_modules_are_skipped_once_then_abort() {
    let known = strings(&["a", "b"]);
    let mut s = RecoveryState::new(2);
    let d = s.step(&failure(&["a", "ghost"]), &known);
    assert_eq!(d.next, RecoveryNext::Retry);
    assert_eq!(d.marks.newly_marked, strings(&["a"]));
    assert_eq!(d.marks.unknown_modules, strings(&["ghost"]));
    assert!(d.marks.already_marked.is_empty());
    assert_eq!(s.auto_skipped, strings(&["a"]));
    let d = s.step(&failure(&["a"]), &known);
    assert_eq!(d.next, RecoveryNext::Fail);
    assert_eq!(d.marks.already_marked, strings(&["a"]));
    assert_eq!(s.restart_round, 1);
}

#[test]
fn rounds_past_the_limit_abort() {
    let known = strings(&["a", "b", "c"]);
    let mut s = RecoveryState::new(0);
    assert_eq!(s.step(&failure(&["a"]), &known).next, RecoveryNext::Retry);
    assert_eq!(s.step(&failure(&["b"]), &known).next, RecoveryNext::AbortRetryLimit);
    assert_eq!(s.restart_round, 2);
}

#[test]
fn marking_sorts_ids_into_three_lists() {
    let mut skipped = strings(&["old"]);
    let m = mark_failed_modules(
        &strings(&["old", "new", "nope", "new"]),
        &strings(&["old", "new"]),
        &mut skipped,
    );
    assert_eq!(m.newly_marked, strings(&["new"]));
    assert_eq!(m.already_marked, strings(&["old", "new"]));
    assert_eq!(m.unknown_modules, strings(&["nope"]));
    assert_eq!(skipped, strings(&["old", "new"]));
}

#[test]
fn a_run_over_its_modules_never_reaches_the_limit() {
    let known = strings(&["a", "b"]);
    let mut s = RecoveryState::new(known.len());
    assert_eq!(s.step(&failure(&[]), &known).next, RecoveryNext::Retry);
    assert_eq!(s.step(&failure(&["a"]), &known).next, RecoveryNext::Retry);
    assert_eq!(s.step(&failure(&["b", "a"]), &known).next, RecoveryNext::Retry);
    assert_eq!(s.restart_round, 3);
    assert_eq!(s.restart_round, s.max_restarts);
    assert_eq!(s.step(&failure(&["a", "b"]), &known).next, RecoveryNext::Fail);
    assert_eq!(s.step(&AttemptOutcome::Success, &known).next, RecoveryNext::Finish);
}
