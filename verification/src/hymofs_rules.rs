//! Compiling module mirror content into HymoFS rules: the directory-entry
//! type codes, and what each walked entry becomes.

use vstd::prelude::*;
use crate::kasumi_cli::owned as owned_str;
use crate::path::{file_name, path_eq, push, strip_prefix};
use crate::path_exec::{chars_eq, file_name_exec, path_eq_exec, push_exec, strip_prefix_exec};
use crate::resolve::{asks_match, probe_records, resolve_path_with_root, resolve_replay};
use crate::recovery::names as names_of;
use crate::disk::{path_exists, Probe};
use crate::text::{chars_of, string_from_chars};

verus! {

broadcast use vstd::string::group_string_axioms;

/// `libc::DT_UNKNOWN` (0 on Linux).
#[verifier::external_body]
fn dt_unknown() -> (r: i32)
    ensures
        r == 0,
{
    libc::DT_UNKNOWN as i32
}

/// `libc::DT_FIFO` (1 on Linux).
#[verifier::external_body]
fn dt_fifo() -> (r: i32)
    ensures
        r == 1,
{
    libc::DT_FIFO as i32
}

/// `libc::DT_CHR` (2 on Linux).
#[verifier::external_body]
fn dt_chr() -> (r: i32)
    ensures
        r == 2,
{
    libc::DT_CHR as i32
}

/// `libc::DT_DIR` (4 on Linux).
#[verifier::external_body]
fn dt_dir() -> (r: i32)
    ensures
        r == 4,
{
    libc::DT_DIR as i32
}

/// `libc::DT_BLK` (6 on Linux).
#[verifier::external_body]
fn dt_blk() -> (r: i32)
    ensures
        r == 6,
{
    libc::DT_BLK as i32
}

/// `libc::DT_REG` (8 on Linux).
#[verifier::external_body]
fn dt_reg() -> (r: i32)
    ensures
        r == 8,
{
    libc::DT_REG as i32
}

/// `libc::DT_LNK` (10 on Linux).
#[verifier::external_body]
fn dt_lnk() -> (r: i32)
    ensures
        r == 10,
{
    libc::DT_LNK as i32
}

/// `libc::DT_SOCK` (12 on Linux).
#[verifier::external_body]
fn dt_sock() -> (r: i32)
    ensures
        r == 12,
{
    libc::DT_SOCK as i32
}

/// The kind of a file, links not followed.
#[derive(Debug, Clone, Copy, PartialEq, Eq, Structural)]
pub enum FileKind {
    Regular,
    Symlink,
    Directory,
    BlockDevice,
    CharDevice,
    Fifo,
    Socket,
    Other,
}

/// The directory-entry type code of a file kind, and whether the entry only hides:
/// a character device with device number 0 is a whiteout.
pub open spec fn dtype_of(kind: FileKind, rdev: u64) -> (i32, bool) {
    if kind == FileKind::CharDevice && rdev == 0 {
        (0, true)
    } else {
        (match kind {
            FileKind::Regular => 8i32,
            FileKind::Symlink => 10i32,
            FileKind::Directory => 4i32,
            FileKind::BlockDevice => 6i32,
            FileKind::CharDevice => 2i32,
            FileKind::Fifo => 1i32,
            FileKind::Socket => 12i32,
            FileKind::Other => 0i32,
        }, false)
    }
}

/// `build_dtype`, given the file's kind and device number.
pub fn build_dtype(kind: FileKind, rdev: u64) -> (r: (i32, bool))
    ensures
        r == dtype_of(kind, rdev),
{
    if kind == FileKind::CharDevice && rdev == 0 {
        return (dt_unknown(), true);
    }
    let d = match kind {
        FileKind::Regular => dt_reg(),
        FileKind::Symlink => dt_lnk(),
        FileKind::Directory => dt_dir(),
        FileKind::BlockDevice => dt_blk(),
        FileKind::CharDevice => dt_chr(),
        FileKind::Fifo => dt_fifo(),
        FileKind::Socket => dt_sock(),
        FileKind::Other => dt_unknown(),
    };
    (d, false)
}

/// What one walked entry of a module's mirror becomes.
#[derive(Debug, Clone, Copy, PartialEq, Eq, Structural)]
pub enum EntryDecision {
    /// Not a rule: the walk root, another mount mode, a replace marker, or a
    /// directory whose target is not a directory.
    Skip,
    /// Merge the directory into its existing target, and do not descend into it.
    Merge,
    /// A symbolic link over an existing directory: skipped with a warning.
    SkipSymlinkOverDir,
    /// A file: its type decides between an add rule and a hide rule.
    FileRule,
}

/// Classifies a walked entry.
pub fn classify_entry(
    depth: usize,
    is_hymofs_mode: bool,
    is_replace_marker: bool,
    entry_is_dir: bool,
    entry_is_symlink: bool,
    target_exists: bool,
    target_is_dir: bool,
) -> (r: EntryDecision)
    ensures
        r == (if depth == 0 || !is_hymofs_mode || is_replace_marker {
            EntryDecision::Skip
        } else if entry_is_dir {
            if target_is_dir {
                EntryDecision::Merge
            } else {
                EntryDecision::Skip
            }
        } else if entry_is_symlink && target_exists && target_is_dir {
            EntryDecision::SkipSymlinkOverDir
        } else {
            EntryDecision::FileRule
        }),
{
    if depth == 0 || !is_hymofs_mode || is_replace_marker {
        EntryDecision::Skip
    } else if entry_is_dir {
        if target_is_dir {
            EntryDecision::Merge
        } else {
            EntryDecision::Skip
        }
    } else if entry_is_symlink && target_exists && target_is_dir {
        EntryDecision::SkipSymlinkOverDir
    } else {
        EntryDecision::FileRule
    }
}

/// The rule a file entry becomes once its type is known.
#[derive(Debug, Clone, Copy, PartialEq, Eq, Structural)]
pub enum FileRuleKind {
    Hide,
    Add(i32),
}

pub fn file_rule(kind: FileKind, rdev: u64) -> (r: FileRuleKind)
    ensures
        r == (if dtype_of(kind, rdev).1 {
            FileRuleKind::Hide
        } else {
            FileRuleKind::Add(dtype_of(kind, rdev).0)
        }),
{
    let (d, hide_only) = build_dtype(kind, rdev);
    if hide_only {
        FileRuleKind::Hide
    } else {
        FileRuleKind::Add(d)
    }
}

/// Where a module's mirrored content lives.
pub fn mirror_module_path(mirror_path: &str, module_id: &str) -> (r: String)
    ensures
        r@ == push(mirror_path@, module_id@),
{
    let m = chars_of(mirror_path);
    let id = chars_of(module_id);
    let p = push_exec(&m, &id);
    string_from_chars(&p)
}

pub open spec fn missing_mirror_message(module_id: Seq<char>, root: Seq<char>) -> Seq<char> {
    "missing HymoFS mirror content for module "@ + module_id + " at "@ + root
}

/// The mirror root once the disk has said whether it exists: the root itself
/// when it does, otherwise the missing-mirror error.
pub fn mirror_root_outcome(root: String, module_id: &str, exists: bool) -> (r: Result<String, String>)
    ensures
        exists <==> r is Ok,
        r matches Ok(p) ==> p@ == root@,
        r matches Err(m) ==> m@ == missing_mirror_message(module_id@, root@),
{
    if exists {
        Ok(root)
    } else {
        let mut m = String::new();
        m.append("missing HymoFS mirror content for module ");
        m.append(module_id);
        m.append(" at ");
        m.append(root.as_str());
        Err(m)
    }
}

/// The module's mirror root, which must exist on disk. The second part of
/// the result records the path the disk was asked about, the mirror path
/// joined with the module id, and its answer; the result is `Ok` exactly when
/// that answer says the root exists.
pub fn mirror_module_root(mirror_path: &str, module_id: &str) -> (r: (Result<String, String>, Probe))
    ensures
        r.1@.0 == push(mirror_path@, module_id@),
        r.1@.1 <==> r.0 is Ok,
        r.0 matches Ok(p) ==> p@ == push(mirror_path@, module_id@),
        r.0 matches Err(m) ==> m@ == missing_mirror_message(
            module_id@,
            push(mirror_path@, module_id@),
        ),
{
    let root = mirror_module_path(mirror_path, module_id);
    let probe = path_exists(root.as_str());
    let exists = probe.found();
    (mirror_root_outcome(root, module_id, exists), probe)
}

/// A rule that adds a module file at a target path.
pub struct HymofsAddRule {
    pub target: String,
    pub source: String,
    pub file_type: i32,
}

/// A rule that merges a module directory into an existing target directory.
pub struct HymofsMergeRule {
    pub target: String,
    pub source: String,
}

/// The rules compiled from the walked mirror content.
pub struct CompiledRules {
    pub add_rules: Vec<HymofsAddRule>,
    pub merge_rules: Vec<HymofsMergeRule>,
    pub hide_rules: Vec<String>,
}

pub open spec fn add_rule_is(r: HymofsAddRule, target: Seq<char>, source: Seq<char>, t: i32) -> bool {
    r.target@ == target && r.source@ == source && r.file_type == t
}

pub open spec fn merge_rule_is(r: HymofsMergeRule, target: Seq<char>, source: Seq<char>) -> bool {
    r.target@ == target && r.source@ == source
}

impl CompiledRules {
    pub fn new() -> (r: Self)
        ensures
            r.add_rules@.len() == 0,
            r.merge_rules@.len() == 0,
            r.hide_rules@.len() == 0,
    {
        CompiledRules { add_rules: Vec::new(), merge_rules: Vec::new(), hide_rules: Vec::new() }
    }

    /// Records one walked entry under its decision; a file entry also needs its
    /// rule. Returns whether the walk must not descend into the entry (a merged
    /// directory).
    pub fn record_entry(
        &mut self,
        decision: EntryDecision,
        rule: Option<FileRuleKind>,
        target: &str,
        source: &str,
    ) -> (skip_dir: bool)
        requires
            decision == EntryDecision::FileRule ==> rule is Some,
        ensures
            skip_dir == (decision == EntryDecision::Merge),
            decision == EntryDecision::Merge ==> {
                &&& final(self).merge_rules@.len() == old(self).merge_rules@.len() + 1
                &&& final(self).merge_rules@.drop_last() == old(self).merge_rules@
                &&& merge_rule_is(final(self).merge_rules@.last(), target@, source@)
                &&& final(self).add_rules@ == old(self).add_rules@
                &&& final(self).hide_rules@ == old(self).hide_rules@
            },
            decision == EntryDecision::FileRule && rule == Some(FileRuleKind::Hide) ==> {
                &&& names_of(final(self).hide_rules@) == names_of(old(self).hide_rules@).push(
                    target@,
                )
                &&& final(self).add_rules@ == old(self).add_rules@
                &&& final(self).merge_rules@ == old(self).merge_rules@
            },
            decision == EntryDecision::FileRule ==> (rule matches Some(FileRuleKind::Add(t)) ==> {
                &&& final(self).add_rules@.len() == old(self).add_rules@.len() + 1
                &&& final(self).add_rules@.drop_last() == old(self).add_rules@
                &&& add_rule_is(final(self).add_rules@.last(), target@, source@, t)
                &&& final(self).merge_rules@ == old(self).merge_rules@
                &&& final(self).hide_rules@ == old(self).hide_rules@
            }),
            decision == EntryDecision::Skip || decision == EntryDecision::SkipSymlinkOverDir ==> {
                &&& final(self).add_rules@ == old(self).add_rules@
                &&& final(self).merge_rules@ == old(self).merge_rules@
                &&& final(self).hide_rules@ == old(self).hide_rules@
            },
    {
        match decision {
            EntryDecision::Merge => {
                let ghost before = self.merge_rules@;
                self.merge_rules.push(
                    HymofsMergeRule { target: owned_str(target), source: owned_str(source) },
                );
                assert(self.merge_rules@.drop_last() =~= before);
                true
            },
            EntryDecision::FileRule => {
                match rule {
                    Some(FileRuleKind::Hide) => {
                        let ghost before = names_of(self.hide_rules@);
                        self.hide_rules.push(owned_str(target));
                        assert(names_of(self.hide_rules@) =~= before.push(target@));
                    },
                    Some(FileRuleKind::Add(t)) => {
                        let ghost before = self.add_rules@;
                        self.add_rules.push(
                            HymofsAddRule {
                                target: owned_str(target),
                                source: owned_str(source),
                                file_type: t,
                            },
                        );
                        assert(self.add_rules@.drop_last() =~= before);
                    },
                    None => {},
                }
                false
            },
            _ => false,
        }
    }
}

/// Records a scanned partition root (`HashSet::insert` on paths): true when no
/// root equal to it as a path was recorded before, and only then it is added.
pub fn note_partition_root(seen: &mut Vec<String>, root: &str) -> (inserted: bool)
    ensures
        inserted == !(exists|j: int|
            0 <= j < old(seen)@.len() && path_eq(#[trigger] old(seen)@[j]@, root@)),
        inserted ==> names_of(final(seen)@) == names_of(old(seen)@).push(root@),
        !inserted ==> final(seen)@ == old(seen)@,
{
    let r = chars_of(root);
    let mut i: usize = 0;
    while i < seen.len()
        invariant
            i <= seen.len(),
            r@ == root@,
            forall|j: int| 0 <= j < i ==> !path_eq(#[trigger] seen@[j]@, root@),
        decreases seen.len() - i,
    {
        let s = chars_of(seen[i].as_str());
        if path_eq_exec(&s, &r) {
            return false;
        }
        i += 1;
    }
    let ghost before = names_of(seen@);
    seen.push(owned_str(root));
    assert(names_of(seen@) =~= before.push(root@));
    true
}


/// The positions, from last to first, of the modules whose id is active.
pub open spec fn active_desc(ids: Seq<Seq<char>>, active: Seq<Seq<char>>, k: int) -> Seq<int>
    decreases ids.len() - k,
{
    if k < 0 || k >= ids.len() {
        Seq::empty()
    } else if active.contains(ids[k]) {
        active_desc(ids, active, k + 1).push(k)
    } else {
        active_desc(ids, active, k + 1)
    }
}

/// The order in which modules are compiled into rules: last module first,
/// skipping modules whose id is not active.
pub fn compile_order(module_ids: &Vec<String>, active_ids: &Vec<String>) -> (r: Vec<usize>)
    ensures
        r@.map_values(|i: usize| i as int) == active_desc(names_of(module_ids@), names_of(active_ids@), 0),
{
    let ghost ids = names_of(module_ids@);
    let ghost act = names_of(active_ids@);
    let mut r: Vec<usize> = Vec::new();
    let mut i: usize = module_ids.len();
    assert(r@.map_values(|i: usize| i as int) =~= active_desc(ids, act, i as int));
    while i > 0
        invariant
            i <= module_ids.len(),
            ids == names_of(module_ids@),
            act == names_of(active_ids@),
            r@.map_values(|i: usize| i as int) == active_desc(ids, act, i as int),
        decreases i,
    {
        i -= 1;
        let ghost before = r@;
        if crate::conf::contains_name(active_ids, module_ids[i].as_str()) {
            r.push(i);
            assert(r@.map_values(|i: usize| i as int) =~= before.map_values(|i: usize| i as int).push(
                i as int,
            ));
        }
        assert(ids[i as int] == module_ids@[i as int]@);
    }
    r
}


/// Where a walked entry of a module's mirror goes: its path below the module
/// root, the target that path resolves to from `/`, and the disk's answers
/// used for the resolution.
pub struct EntryTarget {
    pub relative: String,
    pub target: String,
    pub probes: Vec<Probe>,
}

/// The target of a walked entry: its path below the module root, seen from
/// `/` and resolved against the existing directories. `None` when the entry is
/// not below the module root.
pub fn entry_target(module_root: &str, entry_path: &str) -> (r: Option<EntryTarget>)
    ensures
        r is None <==> strip_prefix(entry_path@, module_root@) is None,
        r matches Some(t) ==> {
            &&& strip_prefix(entry_path@, module_root@) == Some(t.relative@)
            &&& exists|f: spec_fn(nat) -> bool|
                t.target@ == #[trigger] resolve_replay(seq!['/'], push(seq!['/'], t.relative@), f)
                    && asks_match(
                    probe_records(t.probes@),
                    seq!['/'],
                    push(seq!['/'], t.relative@),
                    f,
                )
        },
{
    let e = chars_of(entry_path);
    let m = chars_of(module_root);
    match strip_prefix_exec(&e, &m) {
        None => None,
        Some(rel) => {
            let mut sl: Vec<char> = Vec::new();
            sl.push('/');
            assert(sl@ =~= seq!['/']);
            let v = push_exec(&sl, &rel);
            let vs = string_from_chars(&v);
            let root = string_from_chars(&sl);
            let (target, probes) = resolve_path_with_root(root.as_str(), vs.as_str());
            let relative = string_from_chars(&rel);
            proof {
                let f = choose|f: spec_fn(nat) -> bool|
                    target@ == #[trigger] resolve_replay(root@, vs@, f) && asks_match(
                        probe_records(probes@),
                        root@,
                        vs@,
                        f,
                    );
                assert(root@ == seq!['/']);
                assert(vs@ == push(seq!['/'], relative@));
                assert(target@ == resolve_replay(seq!['/'], push(seq!['/'], relative@), f));
            }
            Some(EntryTarget { relative, target, probes })
        },
    }
}

/// The name of the marker file that declares a directory replaced.
pub open spec fn replace_marker_name() -> Seq<char> {
    seq!['.', 'r', 'e', 'p', 'l', 'a', 'c', 'e']
}

/// Whether a walked entry is a replace marker: its file name is `.replace`.
pub fn is_replace_marker(entry_path: &str) -> (r: bool)
    ensures
        r == (file_name(entry_path@) == Some(replace_marker_name())),
{
    let e = chars_of(entry_path);
    match file_name_exec(&e) {
        None => false,
        Some(n) => {
            let mut k: Vec<char> = Vec::new();
            k.push('.');
            k.push('r');
            k.push('e');
            k.push('p');
            k.push('l');
            k.push('a');
            k.push('c');
            k.push('e');
            assert(k@ =~= replace_marker_name());
            chars_eq(&n, &k)
        },
    }
}

} // verus!
