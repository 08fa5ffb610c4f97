//! The directory materializer: the work-list that walks a source tree.
//!
//! The materializer holds the entries that are still to be copied.  It hands
//! them out one at a time; for a directory the caller creates the
//! destination, lists the source and hands the listing back, for a file the
//! caller copies the bytes.  The tree may be of any depth: nothing recurses.

use vstd::prelude::*;
use crate::path::{PathModel, TreePath};
use crate::composer::{MaterializationTask, TaskModel};

verus! {

/// One entry of a directory listing.
#[derive(Debug)]
pub struct DirEntry {
    pub name: String,
    pub is_dir: bool,
}

/// The mathematical value of a [`DirEntry`].
pub struct EntryModel {
    pub name: Seq<char>,
    pub is_dir: bool,
}

impl View for DirEntry {
    type V = EntryModel;

    open spec fn view(&self) -> EntryModel {
        EntryModel { name: self.name@, is_dir: self.is_dir }
    }
}

/// The mathematical value of a listing.
pub open spec fn entry_models(entries: Seq<DirEntry>) -> Seq<EntryModel> {
    Seq::new(entries.len(), |i: int| entries[i]@)
}

/// An entry that is still to be copied.
#[derive(Debug)]
pub struct WorkItem {
    pub source: TreePath,
    pub dest: TreePath,
    pub is_dir: bool,
}

/// The mathematical value of a [`WorkItem`].
pub struct ItemModel {
    pub source: PathModel,
    pub dest: PathModel,
    pub is_dir: bool,
}

impl View for WorkItem {
    type V = ItemModel;

    open spec fn view(&self) -> ItemModel {
        ItemModel { source: self.source@, dest: self.dest@, is_dir: self.is_dir }
    }
}

/// What the caller is to do next.
#[derive(Debug)]
pub enum CopyStep {
    /// List `source`, create the directory `dest` with any missing
    /// ancestors, and hand the listing to [`Materializer::expand`].
    EnterDirectory { source: TreePath, dest: TreePath },
    /// Make sure the parent of `dest` exists, then copy the bytes of `source`
    /// to `dest` unchanged.
    CopyFile { source: TreePath, dest: TreePath },
    /// Nothing is left to do.
    Finished,
}

/// The mathematical value of a [`CopyStep`].
pub enum StepModel {
    EnterDirectory { source: PathModel, dest: PathModel },
    CopyFile { source: PathModel, dest: PathModel },
    Finished,
}

impl View for CopyStep {
    type V = StepModel;

    open spec fn view(&self) -> StepModel {
        match self {
            CopyStep::EnterDirectory { source, dest } => StepModel::EnterDirectory {
                source: source@,
                dest: dest@,
            },
            CopyStep::CopyFile { source, dest } => StepModel::CopyFile {
                source: source@,
                dest: dest@,
            },
            CopyStep::Finished => StepModel::Finished,
        }
    }
}

/// The step that deals with `item`.
pub open spec fn step_for(item: ItemModel) -> StepModel {
    if item.is_dir {
        StepModel::EnterDirectory { source: item.source, dest: item.dest }
    } else {
        StepModel::CopyFile { source: item.source, dest: item.dest }
    }
}

/// The work that a listing of `source` adds: each entry, to be copied to the
/// place of the same name below `dest`.
pub open spec fn children(source: PathModel, dest: PathModel, entries: Seq<EntryModel>) -> Seq<
    ItemModel,
> {
    Seq::new(
        entries.len(),
        |i: int|
            ItemModel {
                source: source.push(entries[i].name),
                dest: dest.push(entries[i].name),
                is_dir: entries[i].is_dir,
            },
    )
}

/// The work-list of one materialization.
#[derive(Debug)]
pub struct Materializer {
    pending: Vec<WorkItem>,
}

impl View for Materializer {
    type V = Seq<ItemModel>;

    closed spec fn view(&self) -> Seq<ItemModel> {
        Seq::new(self.pending@.len(), |i: int| self.pending@[i]@)
    }
}

impl Materializer {
    /// The work-list of `task`: its source directory is all that is pending.
    pub fn new(task: &MaterializationTask) -> (m: Materializer)
        ensures
            m@ == seq![ItemModel { source: task@.source, dest: task@.dest, is_dir: true }],
    {
        let mut pending: Vec<WorkItem> = Vec::new();
        pending.push(
            WorkItem {
                source: task.source_dir.duplicate(),
                dest: task.dest_dir.duplicate(),
                is_dir: true,
            },
        );
        let m = Materializer { pending };
        assert(m@ =~= seq![ItemModel { source: task@.source, dest: task@.dest, is_dir: true }]);
        m
    }

    /// The number of entries that are pending.
    pub fn pending_len(&self) -> (n: usize)
        ensures
            n == self@.len(),
    {
        self.pending.len()
    }

    /// Takes the entry that was added last off the work-list and says what
    /// is to be done with it; `Finished` when nothing is pending.
    pub fn next(&mut self) -> (step: CopyStep)
        ensures
            old(self)@.len() == 0 ==> step@ is Finished && final(self)@ == old(self)@,
            old(self)@.len() > 0 ==> step@ == step_for(old(self)@.last()) && final(self)@ == old(
                self,
            )@.drop_last(),
    {
        let ghost before = self@;
        match self.pending.pop() {
            None => {
                assert(self@ =~= before);
                CopyStep::Finished
            },
            Some(item) => {
                assert(item@ == before.last());
                assert(self@ =~= before.drop_last());
                if item.is_dir {
                    CopyStep::EnterDirectory { source: item.source, dest: item.dest }
                } else {
                    CopyStep::CopyFile { source: item.source, dest: item.dest }
                }
            },
        }
    }

    /// Adds the entries of the directory `source`, which is being copied to
    /// `dest`, to the work-list.
    pub fn expand(&mut self, source: &TreePath, dest: &TreePath, entries: &Vec<DirEntry>)
        ensures
            final(self)@ == old(self)@ + children(source@, dest@, entry_models(entries@)),
    {
        let ghost before = self@;
        let ghost added = children(source@, dest@, entry_models(entries@));
        let mut i: usize = 0;
        while i < entries.len()
            invariant
                i <= entries@.len(),
                added == children(source@, dest@, entry_models(entries@)),
                self@ =~= before + added.take(i as int),
            decreases entries@.len() - i,
        {
            let entry = &entries[i];
            let item = WorkItem {
                source: source.join(entry.name.as_str()),
                dest: dest.join(entry.name.as_str()),
                is_dir: entry.is_dir,
            };
            assert(item@ == added[i as int]);
            let ghost prev = self@;
            self.pending.push(item);
            assert(self@ =~= prev.push(added[i as int]));
            assert(added.take(i + 1) =~= added.take(i as int).push(added[i as int]));
            assert(before + added.take(i + 1) =~= (before + added.take(i as int)).push(
                added[i as int],
            ));
            i += 1;
        }
        assert(added.take(i as int) =~= added);
    }
}

/// The work-list that a materializer starts from: the source directory alone.
pub open spec fn initial_work(task: TaskModel) -> Seq<ItemModel> {
    seq![ItemModel { source: task.source, dest: task.dest, is_dir: true }]
}

} // verus!
