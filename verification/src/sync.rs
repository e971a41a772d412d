//! Decisions of the module sync: which stored entries are orphans and where
//! a module's copy, its staging copy and its backup live.

use vstd::prelude::*;
use crate::path::push;
use crate::path_exec::{chars_eq, push_exec};
use crate::recovery::names;
use crate::text::{chars_of, string_from_chars};

verus! {

broadcast use vstd::string::group_string_axioms;

/// A stored entry is an orphan unless it is reserved, hidden (starts with `.`)
/// or the storage of an active module.
pub open spec fn is_orphan(name: Seq<char>, active_ids: Seq<Seq<char>>) -> bool {
    &&& name != "lost+found"@
    &&& name != "hybrid_mount"@
    &&& !(name.len() > 0 && name[0] == '.')
    &&& !active_ids.contains(name)
}

/// Whether a stored entry is to be pruned.
pub fn is_orphaned_entry(name: &str, active_ids: &Vec<String>) -> (r: bool)
    ensures
        r == is_orphan(name@, names(active_ids@)),
        (exists|j: int| 0 <= j < active_ids@.len() && (#[trigger] active_ids@[j])@ == name@) ==> !r,
        name@ != "lost+found"@ && name@ != "hybrid_mount"@ && !(name@.len() > 0 && name@[0] == '.')
            && (forall|j: int| 0 <= j < active_ids@.len() ==> (#[trigger] active_ids@[j])@ != name@)
            ==> r,
{
    proof {
        lemma_orphans(name@, names(active_ids@));
        if exists|j: int| 0 <= j < active_ids@.len() && (#[trigger] active_ids@[j])@ == name@ {
            let j = choose|j: int| 0 <= j < active_ids@.len() && (#[trigger] active_ids@[j])@ == name@;
            assert(names(active_ids@)[j] == name@);
        }
        if forall|j: int| 0 <= j < active_ids@.len() ==> (#[trigger] active_ids@[j])@ != name@ {
            assert forall|j: int| 0 <= j < names(active_ids@).len() implies names(active_ids@)[j]
                != name@ by {
                assert(names(active_ids@)[j] == active_ids@[j]@);
            }
        }
    }
    let n = chars_of(name);
    let lf = chars_of("lost+found");
    let hm = chars_of("hybrid_mount");
    if chars_eq(&n, &lf) || chars_eq(&n, &hm) {
        return false;
    }
    if n.len() > 0 && n[0] == '.' {
        return false;
    }
    let mut i: usize = 0;
    while i < active_ids.len()
        invariant
            i <= active_ids.len(),
            n@ == name@,
            forall|j: int| 0 <= j < i ==> names(active_ids@)[j] != name@,
        decreases active_ids.len() - i,
    {
        let a = chars_of(active_ids[i].as_str());
        if chars_eq(&a, &n) {
            assert(names(active_ids@)[i as int] == name@);
            return false;
        }
        i += 1;
    }
    true
}

/// The places a module's storage moves through during a sync.
pub struct SyncPaths {
    /// The module's storage.
    pub dst: String,
    /// Where the previous storage is kept until the new one is in place.
    pub backup: String,
    /// Where the new storage is built.
    pub tmp: String,
}

pub fn sync_paths(target_base: &str, module_id: &str) -> (r: SyncPaths)
    ensures
        r.dst@ == push(target_base@, module_id@),
        r.backup@ == push(target_base@, ".backup_"@ + module_id@),
        r.tmp@ == push(target_base@, ".tmp_"@ + module_id@),
{
    let base = chars_of(target_base);
    let id = chars_of(module_id);
    let dst = push_exec(&base, &id);
    let mut b = String::new();
    b.append(".backup_");
    b.append(module_id);
    let bc = chars_of(b.as_str());
    let backup = push_exec(&base, &bc);
    let mut t = String::new();
    t.append(".tmp_");
    t.append(module_id);
    let tc = chars_of(t.as_str());
    let tmp = push_exec(&base, &tc);
    assert(b@ =~= ".backup_"@ + module_id@);
    assert(t@ =~= ".tmp_"@ + module_id@);
    SyncPaths {
        dst: string_from_chars(&dst),
        backup: string_from_chars(&backup),
        tmp: string_from_chars(&tmp),
    }
}

/// Where the sync of one module stands.
#[derive(Debug, Clone, Copy, PartialEq, Eq, Structural)]
pub enum SyncPhase {
    /// Nothing done yet; waiting to learn whether the module has content.
    Start,
    /// The staging copy is being written.
    Syncing,
    /// Waiting to learn whether a previous copy exists.
    Checking,
    /// The previous copy is being moved aside.
    BackingUp,
    /// The staging copy is being moved into place.
    Committing,
    /// The module is synced, or had nothing to sync.
    Finished,
    /// The module's sync failed.
    Failed,
}

/// What the outside work reported.
#[derive(Debug, Clone, Copy, PartialEq, Eq, Structural)]
pub enum SyncEvent {
    /// Whether the module has files under a managed partition.
    Content(bool),
    /// Whether copying the module into the staging copy succeeded.
    Synced(bool),
    /// Whether a previous copy of the module exists.
    PreviousExists(bool),
    /// Whether moving the previous copy aside succeeded.
    BackedUp(bool),
    /// Whether moving the staging copy into place succeeded.
    Committed(bool),
}

/// The outside work to do next, in order.
#[derive(Debug, Clone, Copy, PartialEq, Eq, Structural)]
pub enum SyncAction {
    /// Skip the module: it has nothing to mount.
    Skip,
    /// Remove a leftover staging copy, if any.
    ClearTmp,
    /// Copy the module into the staging copy.
    SyncDir,
    /// Remove empty directories from the staging copy (failure only warns).
    PruneEmptyDirs,
    /// Mark replaced directories opaque (failure only warns).
    ApplyOpaqueFlags,
    /// Look whether a previous copy exists.
    CheckPrevious,
    /// Move the previous copy to the backup path.
    BackupPrevious,
    /// Move the staging copy to the module's path.
    Commit,
    /// Move the backup back to the module's path.
    RestoreBackup,
    /// Remove the staging copy.
    RemoveTmp,
    /// Remove the backup (failure only warns).
    RemoveBackup,
    /// Report the module's sync as failed.
    ReportFailure,
}

/// The sync of one module: a copy into a staging path, then a swap with the
/// previous copy, which is kept until the new one is in place.
pub struct ModuleSync {
    pub phase: SyncPhase,
    pub backup_created: bool,
}

/// The transition of the sync: next phase, whether a backup exists, and the
/// actions to perform. An event that does not belong to the phase changes nothing.
pub open spec fn sync_next(phase: SyncPhase, backup: bool, e: SyncEvent) -> (
    SyncPhase,
    bool,
    Seq<SyncAction>,
) {
    match (phase, e) {
        (SyncPhase::Start, SyncEvent::Content(has)) => if has {
            (SyncPhase::Syncing, backup, seq![SyncAction::ClearTmp, SyncAction::SyncDir])
        } else {
            (SyncPhase::Finished, backup, seq![SyncAction::Skip])
        },
        (SyncPhase::Syncing, SyncEvent::Synced(ok)) => if ok {
            (
                SyncPhase::Checking,
                backup,
                seq![
                    SyncAction::PruneEmptyDirs,
                    SyncAction::ApplyOpaqueFlags,
                    SyncAction::CheckPrevious,
                ],
            )
        } else {
            (SyncPhase::Failed, backup, seq![SyncAction::RemoveTmp, SyncAction::ReportFailure])
        },
        (SyncPhase::Checking, SyncEvent::PreviousExists(exists)) => if exists {
            (SyncPhase::BackingUp, backup, seq![SyncAction::BackupPrevious])
        } else {
            (SyncPhase::Committing, false, seq![SyncAction::Commit])
        },
        (SyncPhase::BackingUp, SyncEvent::BackedUp(ok)) => if ok {
            (SyncPhase::Committing, true, seq![SyncAction::Commit])
        } else {
            (SyncPhase::Failed, false, seq![SyncAction::RemoveTmp, SyncAction::ReportFailure])
        },
        (SyncPhase::Committing, SyncEvent::Committed(ok)) => if ok {
            (
                SyncPhase::Finished,
                backup,
                if backup {
                    seq![SyncAction::RemoveBackup]
                } else {
                    Seq::empty()
                },
            )
        } else {
            (
                SyncPhase::Failed,
                backup,
                if backup {
                    seq![SyncAction::RestoreBackup, SyncAction::RemoveTmp, SyncAction::ReportFailure]
                } else {
                    seq![SyncAction::RemoveTmp, SyncAction::ReportFailure]
                },
            )
        },
        _ => (phase, backup, Seq::empty()),
    }
}

impl ModuleSync {
    pub fn new() -> (r: Self)
        ensures
            r.phase == SyncPhase::Start,
            !r.backup_created,
    {
        ModuleSync { phase: SyncPhase::Start, backup_created: false }
    }

    /// Takes what the last actions reported and gives the next actions.
    pub fn step(&mut self, e: SyncEvent) -> (actions: Vec<SyncAction>)
        ensures
            (final(self).phase, final(self).backup_created, actions@) == sync_next(
                old(self).phase,
                old(self).backup_created,
                e,
            ),
            old(self).phase == SyncPhase::Committing && e == SyncEvent::Committed(true) ==> {
                &&& final(self).phase == SyncPhase::Finished
                &&& !actions@.contains(SyncAction::ReportFailure)
                &&& !actions@.contains(SyncAction::RemoveTmp)
                &&& (actions@.contains(SyncAction::RemoveBackup) <==> old(self).backup_created)
            },
            reports_success(old(self).phase, e) ==> final(self).phase != SyncPhase::Failed
                && !actions@.contains(SyncAction::ReportFailure),
            reports_failure(old(self).phase, e) ==> final(self).phase == SyncPhase::Failed
                && actions@.len() >= 2 && actions@.last() == SyncAction::ReportFailure
                && actions@[actions@.len() - 2] == SyncAction::RemoveTmp,
    {
        proof {
            lemma_commit_success_finishes(self.backup_created);
            lemma_success_never_fails(self.phase, self.backup_created, e);
            if reports_failure(self.phase, e) {
                lemma_failure_cleans_up(self.phase, self.backup_created, e);
            }
        }
        let (phase, backup, actions) = match (self.phase, e) {
            (SyncPhase::Start, SyncEvent::Content(has)) => if has {
                (SyncPhase::Syncing, self.backup_created, vec![SyncAction::ClearTmp, SyncAction::SyncDir])
            } else {
                (SyncPhase::Finished, self.backup_created, vec![SyncAction::Skip])
            },
            (SyncPhase::Syncing, SyncEvent::Synced(ok)) => if ok {
                (
                    SyncPhase::Checking,
                    self.backup_created,
                    vec![
                        SyncAction::PruneEmptyDirs,
                        SyncAction::ApplyOpaqueFlags,
                        SyncAction::CheckPrevious,
                    ],
                )
            } else {
                (
                    SyncPhase::Failed,
                    self.backup_created,
                    vec![SyncAction::RemoveTmp, SyncAction::ReportFailure],
                )
            },
            (SyncPhase::Checking, SyncEvent::PreviousExists(exists)) => if exists {
                (SyncPhase::BackingUp, self.backup_created, vec![SyncAction::BackupPrevious])
            } else {
                (SyncPhase::Committing, false, vec![SyncAction::Commit])
            },
            (SyncPhase::BackingUp, SyncEvent::BackedUp(ok)) => if ok {
                (SyncPhase::Committing, true, vec![SyncAction::Commit])
            } else {
                (SyncPhase::Failed, false, vec![SyncAction::RemoveTmp, SyncAction::ReportFailure])
            },
            (SyncPhase::Committing, SyncEvent::Committed(ok)) => if ok {
                (
                    SyncPhase::Finished,
                    self.backup_created,
                    if self.backup_created {
                        vec![SyncAction::RemoveBackup]
                    } else {
                        Vec::new()
                    },
                )
            } else {
                (
                    SyncPhase::Failed,
                    self.backup_created,
                    if self.backup_created {
                        vec![SyncAction::RestoreBackup, SyncAction::RemoveTmp, SyncAction::ReportFailure]
                    } else {
                        vec![SyncAction::RemoveTmp, SyncAction::ReportFailure]
                    },
                )
            },
            _ => (self.phase, self.backup_created, Vec::new()),
        };
        self.phase = phase;
        self.backup_created = backup;
        proof {
            assert(actions@ == sync_next(old(self).phase, old(self).backup_created, e).2);
        }
        actions
    }
}

/// A sync that fails removes the staging copy and then reports the failure,
/// and puts the previous copy back exactly when it had been moved aside.
pub proof fn lemma_failure_cleans_up(phase: SyncPhase, backup: bool, e: SyncEvent)
    requires
        phase != SyncPhase::Failed,
        sync_next(phase, backup, e).0 == SyncPhase::Failed,
    ensures
        ({
            let acts = sync_next(phase, backup, e).2;
            &&& acts.len() >= 2
            &&& acts.last() == SyncAction::ReportFailure
            &&& acts[acts.len() - 2] == SyncAction::RemoveTmp
            &&& acts.contains(SyncAction::RestoreBackup) <==> (backup
                && phase == SyncPhase::Committing)
        }),
{
    let acts = sync_next(phase, backup, e).2;
    if acts.contains(SyncAction::RestoreBackup) {
        let k = choose|k: int| 0 <= k < acts.len() && acts[k] == SyncAction::RestoreBackup;
        assert(acts[k] == SyncAction::RestoreBackup);
    }
    if backup && phase == SyncPhase::Committing {
        assert(acts[0] == SyncAction::RestoreBackup);
    }
}

/// The backup is removed only once the new copy is in place, and a backup is
/// only ever created by a successful move of the previous copy.
pub proof fn lemma_backup_only_after_commit(phase: SyncPhase, backup: bool, e: SyncEvent)
    ensures
        sync_next(phase, backup, e).2.contains(SyncAction::RemoveBackup) ==> e
            == SyncEvent::Committed(true) && backup,
        sync_next(phase, backup, e).1 && !backup ==> phase == SyncPhase::BackingUp && e
            == SyncEvent::BackedUp(true),
{
    let acts = sync_next(phase, backup, e).2;
    if acts.contains(SyncAction::RemoveBackup) {
        let k = choose|k: int| 0 <= k < acts.len() && acts[k] == SyncAction::RemoveBackup;
        assert(acts[k] == SyncAction::RemoveBackup);
    }
}


/// The event is the success the phase was waiting for.
pub open spec fn reports_success(phase: SyncPhase, e: SyncEvent) -> bool {
    ||| phase == SyncPhase::Start && e is Content
    ||| phase == SyncPhase::Syncing && e == SyncEvent::Synced(true)
    ||| phase == SyncPhase::Checking && e is PreviousExists
    ||| phase == SyncPhase::BackingUp && e == SyncEvent::BackedUp(true)
    ||| phase == SyncPhase::Committing && e == SyncEvent::Committed(true)
}

/// The event is the failure of the step the phase was waiting for.
pub open spec fn reports_failure(phase: SyncPhase, e: SyncEvent) -> bool {
    ||| phase == SyncPhase::Syncing && e == SyncEvent::Synced(false)
    ||| phase == SyncPhase::BackingUp && e == SyncEvent::BackedUp(false)
    ||| phase == SyncPhase::Committing && e == SyncEvent::Committed(false)
}

/// Law: a successful commit finishes the module's sync, whether or not a
/// previous copy was kept: nothing is reported as failed and the new copy is
/// not removed; the backup is removed exactly when one was made.
pub proof fn lemma_commit_success_finishes(backup: bool)
    ensures
        ({
            let st = sync_next(SyncPhase::Committing, backup, SyncEvent::Committed(true));
            &&& st.0 == SyncPhase::Finished
            &&& !st.2.contains(SyncAction::ReportFailure)
            &&& !st.2.contains(SyncAction::RemoveTmp)
            &&& (st.2.contains(SyncAction::RemoveBackup) <==> backup)
        }),
{
    let st = sync_next(SyncPhase::Committing, backup, SyncEvent::Committed(true));
    if st.2.contains(SyncAction::ReportFailure) || st.2.contains(SyncAction::RemoveTmp) {
        let k = choose|k: int| 0 <= k < st.2.len() && (st.2[k] == SyncAction::ReportFailure || st.2[k] == SyncAction::RemoveTmp);
        assert(st.2[k] == SyncAction::RemoveBackup);
    }
    if backup {
        assert(st.2[0] == SyncAction::RemoveBackup);
    } else {
        assert(st.2.len() == 0);
    }
}

/// Law: an event that reports the awaited success never fails the sync and
/// never reports a failure.
pub proof fn lemma_success_never_fails(phase: SyncPhase, backup: bool, e: SyncEvent)
    ensures
        reports_success(phase, e) ==> sync_next(phase, backup, e).0 != SyncPhase::Failed
            && !sync_next(phase, backup, e).2.contains(SyncAction::ReportFailure),
{
    if reports_success(phase, e) {
        let acts = sync_next(phase, backup, e).2;
        if acts.contains(SyncAction::ReportFailure) {
            let k = choose|k: int| 0 <= k < acts.len() && acts[k] == SyncAction::ReportFailure;
            assert(acts[k] == SyncAction::ReportFailure);
        }
    }
}

/// Law: an event that reports a failed copy, backup or commit fails the sync,
/// and the last two actions remove the staging copy and report the failure.
pub proof fn lemma_failure_event_fails(phase: SyncPhase, backup: bool, e: SyncEvent)
    requires
        reports_failure(phase, e),
    ensures
        sync_next(phase, backup, e).0 == SyncPhase::Failed,
        sync_next(phase, backup, e).2.len() >= 2,
        sync_next(phase, backup, e).2.last() == SyncAction::ReportFailure,
        sync_next(phase, backup, e).2[sync_next(phase, backup, e).2.len() - 2] == SyncAction::RemoveTmp,
{
    lemma_failure_cleans_up(phase, backup, e);
}

/// Law: once finished or failed, a sync stays as it is and does nothing more.
pub proof fn lemma_done_is_final(phase: SyncPhase, backup: bool, e: SyncEvent)
    requires
        phase == SyncPhase::Finished || phase == SyncPhase::Failed,
    ensures
        sync_next(phase, backup, e) == (phase, backup, Seq::<SyncAction>::empty()),
{
}

/// Law: a stored entry named like an active module is never an orphan, nor is
/// a reserved (`lost+found`, `hybrid_mount`) or hidden entry; any other entry
/// that names no active module is one.
pub proof fn lemma_orphans(name: Seq<char>, active_ids: Seq<Seq<char>>)
    ensures
        (exists|j: int| 0 <= j < active_ids.len() && active_ids[j] == name) ==> !is_orphan(
            name,
            active_ids,
        ),
        name == "lost+found"@ || name == "hybrid_mount"@ || (name.len() > 0 && name[0] == '.')
            ==> !is_orphan(name, active_ids),
        name != "lost+found"@ && name != "hybrid_mount"@ && !(name.len() > 0 && name[0] == '.')
            && (forall|j: int| 0 <= j < active_ids.len() ==> active_ids[j] != name) ==> is_orphan(
            name,
            active_ids,
        ),
{
    if exists|j: int| 0 <= j < active_ids.len() && active_ids[j] == name {
        let j = choose|j: int| 0 <= j < active_ids.len() && active_ids[j] == name;
        assert(active_ids.contains(name));
    }
}

} // verus!
