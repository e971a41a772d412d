//! Decisions of the magic mount: when a directory must be rebuilt on a tmpfs,
//! which children are ignored, and what happens to each entry found on disk.

use vstd::prelude::*;
use crate::partitions::{select_partition_names, selection};
use crate::recovery::{join_strings, join_with, names};

verus! {

broadcast use vstd::string::group_string_axioms;

/// A failure of the magic mount attributed to modules, with the underlying error's message.
#[derive(Debug)]
pub struct MagicMountModuleFailure {
    pub module_ids: Vec<String>,
    pub source: String,
}

pub open spec fn magic_mount_message(ids: Seq<Seq<char>>, source: Seq<char>) -> Seq<char> {
    if ids.len() == 0 {
        "magic mount module failure: "@ + source
    } else {
        "magic mount module failure for ["@ + join_with(ids, ", "@) + "]: "@ + source
    }
}

impl MagicMountModuleFailure {
    pub fn new(module_ids: Vec<String>, source: String) -> (r: Self)
        ensures
            r.module_ids == module_ids,
            r.source == source,
    {
        MagicMountModuleFailure { module_ids, source }
    }

    /// The failure as text.
    pub fn message(&self) -> (r: String)
        ensures
            r@ == magic_mount_message(names(self.module_ids@), self.source@),
    {
        let mut r = String::new();
        if self.module_ids.len() == 0 {
            r.append("magic mount module failure: ");
        } else {
            r.append("magic mount module failure for [");
            let joined = join_strings(&self.module_ids, ", ");
            r.append(joined.as_str());
            r.append("]: ");
        }
        r.append(self.source.as_str());
        assert(names(self.module_ids@).len() == self.module_ids@.len());
        assert(r@ =~= magic_mount_message(names(self.module_ids@), self.source@));
        r
    }
}

/// Counters of one magic mount run.
#[derive(Debug, Default)]
pub struct MountStats {
    pub mounted_files: u32,
    pub ignored_files: u32,
    pub mounted_symlinks: u32,
}

impl MountStats {
    pub fn record_file(&mut self)
        requires
            old(self).mounted_files < u32::MAX,
        ensures
            final(self).mounted_files == old(self).mounted_files + 1,
            final(self).ignored_files == old(self).ignored_files,
            final(self).mounted_symlinks == old(self).mounted_symlinks,
    {
        self.mounted_files += 1;
    }

    pub fn record_ignored(&mut self)
        requires
            old(self).ignored_files < u32::MAX,
        ensures
            final(self).ignored_files == old(self).ignored_files + 1,
            final(self).mounted_files == old(self).mounted_files,
            final(self).mounted_symlinks == old(self).mounted_symlinks,
    {
        self.ignored_files += 1;
    }

    pub fn record_symlink(&mut self)
        requires
            old(self).mounted_symlinks < u32::MAX,
        ensures
            final(self).mounted_symlinks == old(self).mounted_symlinks + 1,
            final(self).mounted_files == old(self).mounted_files,
            final(self).ignored_files == old(self).ignored_files,
    {
        self.mounted_symlinks += 1;
    }
}

/// The kind of a node in the module file tree.
#[derive(Debug, Clone, Copy, PartialEq, Eq, Structural)]
pub enum NodeFileType {
    RegularFile,
    Directory,
    Symlink,
    Whiteout,
}

/// A child of a directory node, with what the real file system holds at its path.
pub struct ChildEntry {
    pub file_type: NodeFileType,
    pub skip: bool,
    /// Whether anything exists at the child's real path.
    pub real_exists: bool,
    /// The kind of what is at the child's real path, links not followed.
    pub real_type: Option<NodeFileType>,
}

/// Whether mounting this child over the real directory needs the directory on a tmpfs.
pub open spec fn child_needs_tmpfs(c: ChildEntry, dir_type: NodeFileType) -> bool {
    match c.file_type {
        NodeFileType::Symlink => true,
        NodeFileType::Whiteout => c.real_exists,
        _ => match c.real_type {
            Some(t) => t != dir_type || t == NodeFileType::Symlink,
            None => true,
        },
    }
}

pub struct DirectoryPlan {
    /// A tmpfs is created for this directory.
    pub tmpfs: bool,
    /// This directory (and so its children) lives on a tmpfs.
    pub has_tmpfs: bool,
    /// The children's skip flags after planning.
    pub skip: Vec<bool>,
    /// How many children were ignored.
    pub ignored: usize,
    /// The directory is declared replaced but has no module content: an error.
    pub replace_without_module: bool,
    /// A failing child makes the whole directory fail.
    pub child_errors_fatal: bool,
}

pub open spec fn count_needing(cs: Seq<ChildEntry>, dir_type: NodeFileType) -> nat
    decreases cs.len(),
{
    if cs.len() == 0 {
        0
    } else {
        count_needing(cs.drop_last(), dir_type) + if child_needs_tmpfs(cs.last(), dir_type) {
            1nat
        } else {
            0nat
        }
    }
}

fn needs_tmpfs(c: &ChildEntry, dir_type: NodeFileType) -> (r: bool)
    ensures
        r == child_needs_tmpfs(*c, dir_type),
{
    match c.file_type {
        NodeFileType::Symlink => true,
        NodeFileType::Whiteout => c.real_exists,
        _ => match c.real_type {
            Some(t) => t != dir_type || t == NodeFileType::Symlink,
            None => true,
        },
    }
}

/// A child that adds an entry (a file or a directory) where the real
/// directory has nothing.
pub open spec fn children_new_entry(c: ChildEntry) -> bool {
    &&& c.file_type != NodeFileType::Symlink
    &&& c.file_type != NodeFileType::Whiteout
    &&& c.real_type is None
}

/// A child that the real directory can hold as it is: a file or directory
/// over a real entry of the directory's own type, or a whiteout of nothing.
pub open spec fn fits_real_directory(c: ChildEntry, dir_type: NodeFileType) -> bool {
    ||| (c.file_type == NodeFileType::Whiteout && !c.real_exists)
    ||| (c.file_type != NodeFileType::Symlink && c.file_type != NodeFileType::Whiteout
        && c.real_type == Some(dir_type) && dir_type != NodeFileType::Symlink)
}

/// Law: a module entry (file or directory) with nothing at its real path
/// needs a tmpfs: the real directory cannot hold a new entry.
pub proof fn lemma_new_entry_needs_tmpfs(c: ChildEntry, dir_type: NodeFileType)
    requires
        children_new_entry(c),
    ensures
        child_needs_tmpfs(c, dir_type),
{
}

/// Law: a module symlink always needs a tmpfs, and a whiteout needs one
/// exactly when there is something real to hide.
pub proof fn lemma_symlink_or_whiteout_needs_tmpfs(c: ChildEntry, dir_type: NodeFileType)
    ensures
        c.file_type == NodeFileType::Symlink ==> child_needs_tmpfs(c, dir_type),
        c.file_type == NodeFileType::Whiteout ==> (child_needs_tmpfs(c, dir_type) <==> c.real_exists),
{
}

/// Law: a child that the real directory can hold as it is needs no tmpfs.
pub proof fn lemma_fitting_child_needs_nothing(c: ChildEntry, dir_type: NodeFileType)
    requires
        fits_real_directory(c, dir_type),
    ensures
        !child_needs_tmpfs(c, dir_type),
{
}

/// Plans one directory of the magic mount. A replaced directory with module
/// content gets a tmpfs; otherwise, outside a tmpfs, a child that the real
/// directory cannot hold asks for one: granted when the directory has module
/// content, else every such child is ignored.
pub fn plan_directory(
    has_tmpfs: bool,
    dir_type: NodeFileType,
    replace: bool,
    has_module_path: bool,
    children: &Vec<ChildEntry>,
) -> (r: DirectoryPlan)
    ensures
        r.skip@.len() == children@.len(),
        r.tmpfs == ((!has_tmpfs && replace && has_module_path) || (!has_tmpfs && has_module_path
            && exists|i: int|
            0 <= i < children@.len() && child_needs_tmpfs(#[trigger] children@[i], dir_type))),
        r.has_tmpfs == (r.tmpfs || has_tmpfs),
        forall|i: int|
            0 <= i < children@.len() ==> #[trigger] r.skip@[i] == (children@[i].skip || (!has_tmpfs
                && !has_module_path && child_needs_tmpfs(children@[i], dir_type))),
        r.ignored == (if !has_tmpfs && !has_module_path {
            count_needing(children@, dir_type)
        } else {
            0
        }),
        r.replace_without_module == (replace && !has_module_path),
        r.child_errors_fatal == r.has_tmpfs,
        r.tmpfs ==> !has_tmpfs && has_module_path,
        !has_tmpfs && has_module_path && replace ==> r.tmpfs,
        !has_tmpfs && has_module_path && (exists|i: int|
            0 <= i < children@.len() && children_new_entry(#[trigger] children@[i])) ==> r.tmpfs,
        !has_tmpfs && has_module_path && (exists|i: int|
            0 <= i < children@.len() && (#[trigger] children@[i]).file_type == NodeFileType::Symlink)
            ==> r.tmpfs,
        !has_tmpfs && has_module_path && (exists|i: int|
            0 <= i < children@.len() && (#[trigger] children@[i]).file_type == NodeFileType::Whiteout
                && children@[i].real_exists) ==> r.tmpfs,
        !replace && (forall|i: int|
            0 <= i < children@.len() ==> fits_real_directory(#[trigger] children@[i], dir_type))
            ==> !r.tmpfs,
        forall|i: int|
            0 <= i < children@.len() && !has_tmpfs && !has_module_path && children_new_entry(
                #[trigger] children@[i],
            ) ==> r.skip@[i],
        has_tmpfs ==> r.has_tmpfs && forall|i: int|
            0 <= i < children@.len() ==> #[trigger] r.skip@[i] == children@[i].skip,
{
    proof {
        assert forall|i: int|
            0 <= i < children@.len() && children_new_entry(#[trigger] children@[i]) implies child_needs_tmpfs(
            children@[i],
            dir_type,
        ) by {
            lemma_new_entry_needs_tmpfs(children@[i], dir_type);
        }
        assert forall|i: int|
            0 <= i < children@.len() && (#[trigger] children@[i]).file_type == NodeFileType::Symlink implies child_needs_tmpfs(
            children@[i],
            dir_type,
        ) by {
            lemma_symlink_or_whiteout_needs_tmpfs(children@[i], dir_type);
        }
        assert forall|i: int|
            0 <= i < children@.len() && (#[trigger] children@[i]).file_type == NodeFileType::Whiteout
                && children@[i].real_exists implies child_needs_tmpfs(children@[i], dir_type) by {
            lemma_symlink_or_whiteout_needs_tmpfs(children@[i], dir_type);
        }
        assert forall|i: int|
            0 <= i < children@.len() && fits_real_directory(#[trigger] children@[i], dir_type) implies !child_needs_tmpfs(
            children@[i],
            dir_type,
        ) by {
            lemma_fitting_child_needs_nothing(children@[i], dir_type);
        }
    }
    let mut tmpfs = !has_tmpfs && replace && has_module_path;
    let mut skip: Vec<bool> = Vec::new();
    let mut ignored: usize = 0;
    let scan = !has_tmpfs && !tmpfs;
    let mut i: usize = 0;
    while i < children.len()
        invariant
            i <= children.len(),
            scan == (!has_tmpfs && !(!has_tmpfs && replace && has_module_path)),
            skip@.len() == i,
            forall|k: int|
                0 <= k < i ==> #[trigger] skip@[k] == (children@[k].skip || (scan && !has_module_path
                    && child_needs_tmpfs(children@[k], dir_type))),
            ignored == (if scan && !has_module_path {
                count_needing(children@.take(i as int), dir_type)
            } else {
                0
            }),
            ignored <= i,
            tmpfs == ((!has_tmpfs && replace && has_module_path) || (scan && has_module_path
                && exists|k: int| 0 <= k < i && child_needs_tmpfs(#[trigger] children@[k], dir_type))),
        decreases children.len() - i,
    {
        let c = &children[i];
        assert(children@.take(i + 1).drop_last() =~= children@.take(i as int));
        assert(children@.take(i + 1).last() == children@[i as int]);
        let need = scan && needs_tmpfs(c, dir_type);
        if need && !has_module_path {
            skip.push(true);
            ignored += 1;
        } else {
            skip.push(c.skip);
            if need {
                tmpfs = true;
            }
        }
        i += 1;
    }
    assert(children@.take(children.len() as int) =~= children@);
    let has = tmpfs || has_tmpfs;
    DirectoryPlan {
        tmpfs,
        has_tmpfs: has,
        skip,
        ignored,
        replace_without_module: replace && !has_module_path,
        child_errors_fatal: has,
    }
}

/// What to do with one entry found in a real directory being mounted over.
#[derive(Debug, Clone, Copy, PartialEq, Eq, Structural)]
pub enum EntryAction {
    /// The module has a node for it that is marked skipped: leave it.
    Skip,
    /// Mount the module's node for it.
    MountChild,
    /// Mirror the real entry into the tmpfs.
    Mirror,
    /// Nothing to do.
    Ignore,
}

/// The action for an existing real entry.
pub fn entry_action(has_child: bool, child_skip: bool, has_tmpfs: bool) -> (r: EntryAction)
    ensures
        r == (if has_child {
            if child_skip {
                EntryAction::Skip
            } else {
                EntryAction::MountChild
            }
        } else if has_tmpfs {
            EntryAction::Mirror
        } else {
            EntryAction::Ignore
        }),
{
    if has_child {
        if child_skip {
            EntryAction::Skip
        } else {
            EntryAction::MountChild
        }
    } else if has_tmpfs {
        EntryAction::Mirror
    } else {
        EntryAction::Ignore
    }
}


/// The module ids found in a failing subtree, sorted, each once.
pub fn sorted_module_ids(found: &Vec<String>) -> (r: Vec<String>)
    ensures
        selection(names(r@), names(found@), Seq::new(found@.len(), |i: int| true)),
{
    let mut present: Vec<bool> = Vec::new();
    let mut i: usize = 0;
    while i < found.len()
        invariant
            i <= found.len(),
            present@ == Seq::new(i as nat, |k: int| true),
        decreases found.len() - i,
    {
        present.push(true);
        assert(present@ =~= Seq::new((i + 1) as nat, |k: int| true));
        i += 1;
    }
    select_partition_names(found, &present)
}

/// Attributes an error to the modules of the failing subtree, when there are any.
pub fn attribute_failure(module_ids: Vec<String>, source: String) -> (r: Option<MagicMountModuleFailure>)
    ensures
        module_ids@.len() == 0 <==> r is None,
        r matches Some(f) ==> f.module_ids == module_ids && f.source == source,
{
    if module_ids.len() == 0 {
        None
    } else {
        Some(MagicMountModuleFailure::new(module_ids, source))
    }
}

} // verus!
