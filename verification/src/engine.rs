//! The scaffold, run on the in-memory file system.
//!
//! [`materialize_in`] copies one tree, [`scaffold_in`] runs a whole scaffold.
//! Both drive the same work-list and the same orchestrator that a caller
//! drives against a real file system, and say what the file system holds
//! afterwards.

use vstd::prelude::*;
use vstd::string::StringExecFns;
use crate::path::{apart, below, lemma_prefix, relative, PathModel};
use crate::error::{ErrorModel, ScaffoldError};
use crate::composer::{
    ci_name, infra_name, project_root, sources_of, tasks_for, MaterializationTask, RequestModel,
    ScaffoldRequest, ScaffoldResult, TaskModel,
};
use crate::orchestrator::{
    outcome, resolution_error, rest_of, transition, Action, ActionModel, Event, EventModel, Phase,
    Scaffolder, ScaffolderModel,
};
use crate::materializer::{entry_models, CopyStep, Materializer};
use crate::memfs::{
    blocked, is_dir, lemma_ancestors, tree_wf, FsError, MemFs, NodeModel, TreeModel,
};
use crate::copying::{
    copying, item_ok, lemma_copied, lemma_copy_ready, lemma_enter_blocked, lemma_entered,
    lemma_finished, lemma_first, lemma_partly, lemma_source_intact, place, remaining,
};

verus! {

/// The tree `t` once the tree at `src` is copied to `dst`: what `t` holds,
/// the directories that lead to `dst`, and at each place below `dst` what
/// `t` holds at the same place below `src`.
pub open spec fn copy_tree(t: TreeModel, src: PathModel, dst: PathModel) -> TreeModel {
    Map::new(
        |p: PathModel|
            t.dom().contains(p) || p.is_prefix_of(dst) || (below(p, dst) && t.dom().contains(
                src + relative(p, dst.len()),
            )),
        |p: PathModel|
            if below(p, dst) && t.dom().contains(src + relative(p, dst.len())) {
                t[src + relative(p, dst.len())]
            } else if t.dom().contains(p) {
                t[p]
            } else {
                NodeModel::Directory
            },
    )
}

/// At the place `r` the source and the destination do not hold a file and a
/// directory against each other.
pub open spec fn agree(t: TreeModel, src: PathModel, dst: PathModel, r: PathModel) -> bool {
    t.dom().contains(src + r) && t.dom().contains(dst + r) ==> (t[src + r] is Directory <==> t[dst
        + r] is Directory)
}

/// Nothing stands in the way of copying the tree at `src` to `dst`: no file
/// is at or above `dst`, and wherever both trees hold something it is of
/// the same kind.
pub open spec fn conflict_free(t: TreeModel, src: PathModel, dst: PathModel) -> bool {
    &&& !blocked(t, dst)
    &&& forall|r: PathModel| #[trigger] agree(t, src, dst, r)
}

/// `now` lies between `was` and the finished copy of `src` to `dst`:
/// nothing that `was` holds is gone, and whatever `now` holds is as it was
/// in `was` or as it is in the finished copy.
pub open spec fn partly_copied(was: TreeModel, now: TreeModel, src: PathModel, dst: PathModel) -> bool {
    &&& forall|p: PathModel| was.dom().contains(p) ==> #[trigger] now.dom().contains(p)
    &&& forall|p: PathModel| #[trigger]
        now.dom().contains(p) ==> (was.dom().contains(p) && now[p] == was[p]) || (copy_tree(
            was,
            src,
            dst,
        ).dom().contains(p) && now[p] == copy_tree(was, src, dst)[p])
}

/// What the text of a refusal of the file system is.
pub open spec fn refusal_text(e: FsError) -> Seq<char> {
    match e {
        FsError::NotFound => "no such file or directory"@,
        FsError::NotADirectory => "not a directory"@,
        FsError::IsADirectory => "is a directory"@,
    }
}

/// The failure that a refusal of the file system becomes.
pub fn io_failure(e: FsError) -> (failure: ScaffoldError)
    ensures
        failure@ == ErrorModel::IoFailure(refusal_text(e)),
{
    match e {
        FsError::NotFound => ScaffoldError::IoFailure(
            String::from_str("no such file or directory"),
        ),
        FsError::NotADirectory => ScaffoldError::IoFailure(String::from_str("not a directory")),
        FsError::IsADirectory => ScaffoldError::IoFailure(String::from_str("is a directory")),
    }
}

/// The cause that is reported when a tree is to be copied onto itself.
pub open spec fn overlap_text() -> Seq<char> {
    "source and destination overlap"@
}

/// The failure of a copy that found a file where a directory is needed, or
/// a directory where a file is needed.
pub open spec fn conflict_failure(e: ErrorModel) -> bool {
    e == ErrorModel::IoFailure(refusal_text(FsError::NotADirectory)) || e == ErrorModel::IoFailure(
        refusal_text(FsError::IsADirectory),
    )
}

/// The failure with which the copy of `task` ends on `t`, when it fails:
/// the source is missing, or the two trees overlap, or a file and a
/// directory meet.
pub open spec fn copy_failure(t: TreeModel, task: TaskModel, e: ErrorModel) -> bool {
    if !is_dir(t, task.source) {
        e == ErrorModel::SourceNotFound
    } else if !apart(task.source, task.dest) {
        e == ErrorModel::IoFailure(overlap_text())
    } else {
        conflict_failure(e)
    }
}

/// Copies the tree at the source of `task` to its destination, on `fs`.
///
/// The copy succeeds exactly when the source is a directory, neither of
/// the two lies within the other, and nothing stands in the way; `fs` then
/// holds the finished copy.  Without a source directory nothing is changed.
/// When the copy fails on the way, what has been copied stays.
pub fn materialize_in(fs: &mut MemFs, task: &MaterializationTask) -> (copied: Result<
    (),
    ScaffoldError,
>)
    requires
        old(fs).wf(),
    ensures
        final(fs).wf(),
        copied is Ok <==> is_dir(old(fs)@, task@.source) && apart(task@.source, task@.dest)
            && conflict_free(old(fs)@, task@.source, task@.dest),
        copied is Ok ==> final(fs)@ == copy_tree(old(fs)@, task@.source, task@.dest),
        copied matches Err(e) ==> copy_failure(old(fs)@, task@, e@),
        copied is Err && !(is_dir(old(fs)@, task@.source) && apart(task@.source, task@.dest))
            ==> final(fs)@ == old(fs)@,
        copied is Err && apart(task@.source, task@.dest) ==> partly_copied(
            old(fs)@,
            final(fs)@,
            task@.source,
            task@.dest,
        ),
{
    let ghost t = fs@;
    let ghost src = task@.source;
    let ghost dst = task@.dest;
    if !fs.is_dir(&task.source_dir) {
        proof {
            if apart(src, dst) {
                assert(partly_copied(t, t, src, dst));
            }
        }
        return Err(ScaffoldError::SourceNotFound);
    }
    if task.source_dir.starts_with(&task.dest_dir) || task.dest_dir.starts_with(&task.source_dir) {
        return Err(ScaffoldError::IoFailure(String::from_str("source and destination overlap")));
    }
    let mut work = Materializer::new(task);
    proof {
        lemma_first(t, task@);
    }
    while work.pending_len() > 0
        invariant
            fs.wf(),
            t == old(fs)@,
            src == task@.source,
            dst == task@.dest,
            copying(t, fs@, work@, src, dst),
        decreases remaining(t, work@, src).len(),
    {
        let ghost pending = work@;
        let ghost now = fs@;
        match work.next() {
            CopyStep::EnterDirectory { source, dest } => {
                let entries = match fs.read_dir(&source) {
                    Ok(entries) => entries,
                    Err(_) => {
                        proof {
                            let n = pending.len() - 1;
                            assert(item_ok(t, pending, src, dst, n));
                            lemma_source_intact(t, pending, src, dst, place(pending, src, n));
                            assert(false);
                        }
                        return Err(ScaffoldError::SourceNotFound);
                    },
                };
                match fs.create_dir_all(&dest) {
                    Ok(()) => {},
                    Err(e) => {
                        proof {
                            lemma_enter_blocked(t, now, pending, src, dst);
                            lemma_partly(t, now, pending, task@);
                        }
                        return Err(io_failure(e));
                    },
                }
                work.expand(&source, &dest, &entries);
                proof {
                    lemma_entered(t, now, pending, src, dst, entry_models(entries@));
                }
            },
            CopyStep::CopyFile { source, dest } => {
                proof {
                    lemma_copy_ready(t, now, pending, src, dst);
                }
                let parent = dest.parent();
                match fs.create_dir_all(&parent) {
                    Ok(()) => {},
                    Err(e) => {
                        proof {
                            assert(false);
                        }
                        return Err(io_failure(e));
                    },
                }
                match fs.copy_file(&source, &dest) {
                    Ok(()) => {},
                    Err(e) => {
                        proof {
                            lemma_partly(t, now, pending, task@);
                        }
                        return Err(io_failure(e));
                    },
                }
                proof {
                    lemma_copied(t, now, pending, src, dst);
                }
            },
            CopyStep::Finished => {
                proof {
                    assert(false);
                }
            },
        }
    }
    proof {
        lemma_finished(t, fs@, work@, task@);
    }
    Ok(())
}

/// The tree at the source of `task` can be copied to its destination.
pub open spec fn can_copy(t: TreeModel, task: TaskModel) -> bool {
    &&& is_dir(t, task.source)
    &&& apart(task.source, task.dest)
    &&& conflict_free(t, task.source, task.dest)
}

/// The tree `t` once each of `tasks` is copied, in order.
pub open spec fn copy_all(t: TreeModel, tasks: Seq<TaskModel>) -> TreeModel
    decreases tasks.len(),
{
    if tasks.len() == 0 {
        t
    } else {
        copy_tree(copy_all(t, tasks.drop_last()), tasks.last().source, tasks.last().dest)
    }
}

/// Each of `tasks` can be copied in its turn.
pub open spec fn can_copy_all(t: TreeModel, tasks: Seq<TaskModel>) -> bool
    decreases tasks.len(),
{
    tasks.len() == 0 || (can_copy_all(t, tasks.drop_last()) && can_copy(
        copy_all(t, tasks.drop_last()),
        tasks.last(),
    ))
}

/// The copy of `tasks` stopped at the task `k`: the tasks before it were
/// copied, it could not be copied itself, and `now` holds what was copied
/// of it before it failed.
pub open spec fn stopped_at(t: TreeModel, tasks: Seq<TaskModel>, now: TreeModel, k: int) -> bool {
    &&& 0 <= k < tasks.len()
    &&& can_copy_all(t, tasks.take(k))
    &&& !can_copy(copy_all(t, tasks.take(k)), tasks[k])
    &&& partly_copied(copy_all(t, tasks.take(k)), now, tasks[k].source, tasks[k].dest)
}

/// Where all of `tasks` can be copied, so can the first of them.
pub proof fn lemma_can_copy_first(t: TreeModel, tasks: Seq<TaskModel>, k: int)
    requires
        can_copy_all(t, tasks),
        0 <= k <= tasks.len(),
    ensures
        can_copy_all(t, tasks.take(k)),
        k < tasks.len() ==> can_copy(copy_all(t, tasks.take(k)), tasks[k]),
    decreases tasks.len(),
{
    if k == tasks.len() {
        assert(tasks.take(k) =~= tasks);
    } else {
        let before = tasks.drop_last();
        lemma_can_copy_first(t, before, k);
        assert(before.take(k) =~= tasks.take(k));
        if k == before.len() {
            assert(before.take(k) =~= before);
        }
    }
}

/// The directory that may be missing is found in `t`.
pub open spec fn found(t: TreeModel, p: Option<PathModel>) -> bool {
    p matches Some(q) && is_dir(t, q)
}

/// The failure that ends a scaffold before anything is written, if there is
/// one: a source that is missing, or else a destination that exists.
pub open spec fn failure_before_copy(t: TreeModel, r: RequestModel) -> Option<ErrorModel> {
    let s = sources_of(r);
    match resolution_error(s, is_dir(t, s.base), found(t, s.ci), found(t, s.infra)) {
        Some(e) => Some(e),
        None => if t.dom().contains(project_root(r)) {
            Some(ErrorModel::AlreadyExists)
        } else {
            None
        },
    }
}

/// The trees that a scaffold of `r` copies, in order.
pub open spec fn tasks_of(r: RequestModel) -> Seq<TaskModel> {
    tasks_for(project_root(r), sources_of(r))
}

/// `now` is `t` with more below `root`: what `t` holds is there unchanged,
/// and whatever else there is lies at or below `root`.
pub open spec fn grown(t: TreeModel, now: TreeModel, root: PathModel) -> bool {
    &&& forall|p: PathModel| #[trigger]
        t.dom().contains(p) ==> now.dom().contains(p) && now[p] == t[p]
    &&& forall|p: PathModel| #[trigger] now.dom().contains(p) && !t.dom().contains(p) ==> below(p, root)
}

/// The task copies a directory of `t` to a place at or below `root`.
pub open spec fn fits(t: TreeModel, root: PathModel, task: TaskModel) -> bool {
    &&& is_dir(t, task.source)
    &&& task.source.len() > 0
    &&& below(task.dest, root)
}

/// What holds while a scaffold of `r` runs on a file system that was `t`
/// at first and is `now`, with the orchestrator in `s` and its last answer
/// `a`.
pub open spec fn driving(
    t: TreeModel,
    now: TreeModel,
    s: ScaffolderModel,
    a: ActionModel,
    r: RequestModel,
) -> bool {
    let root = project_root(r);
    &&& s.request == r
    &&& match s.phase {
        Phase::Idle => false,
        Phase::Resolving => a == ActionModel::Resolve(sources_of(r)) && now == t,
        Phase::Guarding => a == ActionModel::CheckDestination(root) && now == t
            && resolution_error(
            sources_of(r),
            is_dir(t, sources_of(r).base),
            found(t, sources_of(r).ci),
            found(t, sources_of(r).infra),
        ) is None,
        Phase::CopyingBase | Phase::CopyingOverlays => {
            let copied = tasks_of(r).len() - s.pending.len();
            &&& 0 < s.pending.len() <= tasks_of(r).len()
            &&& s.pending == tasks_of(r).skip(copied)
            &&& a == ActionModel::Materialize(s.pending[0])
            &&& failure_before_copy(t, r) is None
            &&& grown(t, now, root)
            &&& can_copy_all(t, tasks_of(r).take(copied))
            &&& now == copy_all(t, tasks_of(r).take(copied))
        },
        Phase::Done => {
            &&& a == ActionModel::Finish(outcome(r))
            &&& failure_before_copy(t, r) is None
            &&& grown(t, now, root)
            &&& can_copy_all(t, tasks_of(r))
            &&& now == copy_all(t, tasks_of(r))
        },
        Phase::Failed => a matches ActionModel::Fail(e) && (match failure_before_copy(t, r) {
            Some(err) => e == err && now == t,
            None => conflict_failure(e) && grown(t, now, root) && exists|k: int| #[trigger]
                stopped_at(t, tasks_of(r), now, k),
        }),
    }
}

/// How far a scaffold is from its end.
pub open spec fn distance(s: ScaffolderModel) -> nat {
    match s.phase {
        Phase::Idle => 10,
        Phase::Resolving => 9,
        Phase::Guarding => 8,
        Phase::CopyingBase | Phase::CopyingOverlays => if s.pending.len() <= 3 {
            1 + s.pending.len()
        } else {
            7
        },
        Phase::Done | Phase::Failed => 0,
    }
}

/// Below a destination that does not exist nothing is found, and a source
/// directory lies apart from whatever is at or below it.
proof fn lemma_fresh_root(t: TreeModel, root: PathModel, task: TaskModel)
    requires
        tree_wf(t),
        !t.dom().contains(root),
        root.len() == 1,
        fits(t, root, task),
    ensures
        apart(task.source, task.dest),
        forall|p: PathModel| below(p, root) ==> !t.dom().contains(p),
{
    assert forall|p: PathModel| below(p, root) implies !t.dom().contains(p) by {
        if t.dom().contains(p) {
            lemma_ancestors(t, p);
            if p.len() > root.len() {
                assert(p.take(root.len() as int) =~= root);
            } else {
                lemma_prefix(root, root, p, p);
            }
        }
    }
    let s = task.source;
    let d = task.dest;
    if s.is_prefix_of(d) {
        lemma_prefix(root, root, s, d);
        assert(below(s, root));
    }
    if d.is_prefix_of(s) {
        lemma_prefix(root, root, d, s);
        assert(below(s, root));
    }
}

/// Whatever a copy to a place below a fresh root leaves behind, finished or
/// not, is the tree that was, with more below the root.
proof fn lemma_grown(
    t: TreeModel,
    now: TreeModel,
    after: TreeModel,
    root: PathModel,
    task: TaskModel,
)
    requires
        tree_wf(t),
        !t.dom().contains(root),
        root.len() == 1,
        below(task.dest, root),
        grown(t, now, root),
        partly_copied(now, after, task.source, task.dest),
    ensures
        grown(t, after, root),
{
    let src = task.source;
    let dst = task.dest;
    let full = copy_tree(now, src, dst);
    assert forall|p: PathModel| #[trigger] t.dom().contains(p) implies after.dom().contains(p)
        && after[p] == t[p] by {
        assert(now.dom().contains(p));
        assert(after.dom().contains(p));
        if below(p, dst) {
            lemma_prefix(root, root, dst, p);
            lemma_ancestors(t, p);
            if p.len() > root.len() {
                assert(p.take(root.len() as int) =~= root);
            } else {
                lemma_prefix(root, root, p, p);
            }
            assert(false);
        }
    }
    assert forall|p: PathModel| #[trigger] after.dom().contains(p) && !t.dom().contains(
        p,
    ) implies below(p, root) by {
        if !now.dom().contains(p) {
            assert(full.dom().contains(p));
            if below(p, dst) {
                lemma_prefix(root, root, dst, p);
            } else {
                assert(p.is_prefix_of(dst));
                if p.len() < root.len() {
                    assert(p =~= Seq::<Seq<char>>::empty());
                    assert(false);
                } else {
                    lemma_prefix(root, root, p, dst);
                }
            }
        }
    }
}

/// A finished copy lies between the tree that was and itself.
proof fn lemma_fully(t: TreeModel, task: TaskModel)
    ensures
        partly_copied(t, copy_tree(t, task.source, task.dest), task.source, task.dest),
{
}

/// Once the sources are found and the destination is not, the trees to
/// copy are directories of the file system, to be copied below the root.
proof fn lemma_tasks_fit(t: TreeModel, r: RequestModel)
    requires
        failure_before_copy(t, r) is None,
    ensures
        tasks_of(r).len() > 0,
        forall|i: int| 0 <= i < tasks_of(r).len() ==> fits(t, project_root(r), #[trigger] tasks_of(r)[i]),
        project_root(r).len() == 1,
{
    let root = project_root(r);
    let s = sources_of(r);
    let tasks = tasks_of(r);
    assert(root.is_prefix_of(root)) by {
        assert(root.subrange(0, root.len() as int) =~= root);
    }
    assert(root.is_prefix_of(root.push(ci_name()))) by {
        assert(root.push(ci_name()).subrange(0, root.len() as int) =~= root);
    }
    assert(root.is_prefix_of(root.push(infra_name()))) by {
        assert(root.push(infra_name()).subrange(0, root.len() as int) =~= root);
    }
    assert forall|i: int| 0 <= i < tasks.len() implies fits(t, root, #[trigger] tasks[i]) by {
        if i == 0 {
        } else if i == 1 && s.ci is Some {
        } else {
        }
    }
}

/// The event `e` reports what the action `a` found or did on a file system
/// that was `now` and is `after`.
pub open spec fn answers(
    t: TreeModel,
    now: TreeModel,
    after: TreeModel,
    a: ActionModel,
    e: EventModel,
    r: RequestModel,
) -> bool {
    match a {
        ActionModel::Resolve(s) => after == now && e == (EventModel::Resolved {
            base: is_dir(now, s.base),
            ci: found(now, s.ci),
            infra: found(now, s.infra),
        }),
        ActionModel::CheckDestination(p) => after == now && e == (EventModel::Destination {
            exists: now.dom().contains(p),
        }),
        ActionModel::Materialize(task) => grown(t, after, project_root(r)) && (match e {
            EventModel::Materialized => can_copy(now, task) && after == copy_tree(
                now,
                task.source,
                task.dest,
            ),
            EventModel::Failure(err) => conflict_failure(err) && !can_copy(now, task)
                && partly_copied(now, after, task.source, task.dest),
            _ => false,
        }),
        _ => false,
    }
}

/// One round of a scaffold keeps what holds while it runs, and brings it
/// nearer to its end.
proof fn lemma_drive(
    t: TreeModel,
    now: TreeModel,
    after: TreeModel,
    s: ScaffolderModel,
    a: ActionModel,
    e: EventModel,
    r: RequestModel,
)
    requires
        tree_wf(t),
        driving(t, now, s, a, r),
        answers(t, now, after, a, e, r),
    ensures
        driving(t, after, transition(s, e).0, transition(s, e).1, r),
        distance(transition(s, e).0) < distance(s),
{
    let root = project_root(r);
    let tasks = tasks_of(r);
    match s.phase {
        Phase::Resolving => {},
        Phase::Guarding => {
            if !t.dom().contains(root) {
                lemma_tasks_fit(t, r);
                assert(tasks.len() <= 3);
                assert(tasks.skip(0) =~= tasks);
                assert(tasks.take(0) =~= Seq::<TaskModel>::empty());
            }
        },
        Phase::CopyingBase | Phase::CopyingOverlays => {
            let k = tasks.len() - s.pending.len();
            let rest = rest_of(s.pending);
            assert(rest =~= tasks.skip(k + 1));
            assert(s.pending[0] == tasks[k]);
            assert(tasks.take(k + 1).drop_last() =~= tasks.take(k));
            assert(tasks.take(k + 1).last() == tasks[k]);
            if e is Materialized {
                if rest.len() == 0 {
                    assert(tasks.take(k + 1) =~= tasks);
                }
            } else {
                assert(stopped_at(t, tasks, after, k));
            }
        },
        _ => {},
    }
}

/// Runs a scaffold of `request` on `fs`.
///
/// A source that is missing, or else a destination that exists, ends the
/// scaffold with nothing changed.  Otherwise the scaffold succeeds exactly
/// when each tree can be copied in its turn; `fs` then holds each copy, and
/// the result names the project root and the overlays that are applied.
/// It fails at the first tree that cannot be copied, where an overlay
/// meets a file of the template as a directory, or a directory as a file;
/// the trees before it are copied whole, and what was copied of it stays.
/// Whatever the outcome, what `fs` held is there unchanged, and whatever
/// is new lies at or below the project root.
pub fn scaffold_in(fs: &mut MemFs, request: &ScaffoldRequest) -> (made: Result<
    ScaffoldResult,
    ScaffoldError,
>)
    requires
        old(fs).wf(),
    ensures
        final(fs).wf(),
        match failure_before_copy(old(fs)@, request@) {
            Some(err) => made matches Err(e) && e@ == err && final(fs)@ == old(fs)@,
            None => {
                &&& grown(old(fs)@, final(fs)@, project_root(request@))
                &&& made is Ok <==> can_copy_all(old(fs)@, tasks_of(request@))
                &&& made matches Ok(result) ==> result@ == outcome(request@) && final(fs)@
                    == copy_all(old(fs)@, tasks_of(request@))
                &&& made matches Err(e) ==> conflict_failure(e@) && exists|k: int| #[trigger]
                    stopped_at(old(fs)@, tasks_of(request@), final(fs)@, k)
            },
        },
{
    let ghost t = fs@;
    let ghost r = request@;
    let ghost root = project_root(r);
    let mut machine = Scaffolder::new(request.duplicate());
    let mut action = machine.step(Event::Start);
    loop
        invariant
            fs.wf(),
            t == old(fs)@,
            r == request@,
            root == project_root(r),
            tree_wf(t),
            driving(t, fs@, machine@, action@, r),
        decreases distance(machine@),
    {
        let ghost s = machine@;
        let ghost now = fs@;
        let event = match action {
            Action::Standby => Event::Start,
            Action::Resolve(sources) => Event::Resolved {
                base: fs.is_dir(&sources.base_path),
                ci: match &sources.ci_overlay_path {
                    Some(p) => fs.is_dir(p),
                    None => false,
                },
                infra: match &sources.infra_overlay_path {
                    Some(p) => fs.is_dir(p),
                    None => false,
                },
            },
            Action::CheckDestination(path) => Event::Destination { exists: fs.contains(&path) },
            Action::Materialize(task) => {
                proof {
                    lemma_tasks_fit(t, r);
                    assert(task@ == tasks_of(r)[tasks_of(r).len() - s.pending.len()]);
                    lemma_fresh_root(t, root, task@);
                    assert(is_dir(now, task@.source));
                }
                match materialize_in(fs, &task) {
                    Ok(()) => {
                        proof {
                            lemma_fully(now, task@);
                            lemma_grown(t, now, fs@, root, task@);
                        }
                        Event::Materialized
                    },
                    Err(e) => {
                        proof {
                            lemma_grown(t, now, fs@, root, task@);
                        }
                        Event::Failure(e)
                    },
                }
            },
            Action::Finish(result) => {
                return Ok(result);
            },
            Action::Fail(error) => {
                proof {
                    if failure_before_copy(t, r) is None && can_copy_all(t, tasks_of(r)) {
                        let k = choose|k: int| #[trigger] stopped_at(t, tasks_of(r), now, k);
                        lemma_can_copy_first(t, tasks_of(r), k);
                    }
                }
                return Err(error);
            },
        };
        proof {
            lemma_drive(t, now, fs@, s, action@, event@, r);
        }
        action = machine.step(event);
    }
}

} // verus!
