//! What holds of every scaffold.
//!
//! Each law is stated over the mathematical values that the contracts of
//! the engine speak of: the tree that a file system holds, the request, and
//! the steps of the orchestrator.

use vstd::prelude::*;
use crate::path::{apart, below, lemma_apart, lemma_join, lemma_prefix, relative, PathModel};
use crate::error::ErrorModel;
use crate::composer::{
    ci_name, infra_name, overlays_of, project_root, sources_of, Overlay, RequestModel, TaskModel,
};
use crate::orchestrator::{
    initial, outcome, resolution_error, transition, ActionModel, EventModel, Phase,
    ScaffolderModel,
};
use crate::materializer::{children, EntryModel, ItemModel};
use crate::memfs::{blocked, is_dir, is_file, lemma_ancestors, tree_wf, TreeModel};
use crate::engine::{
    agree, can_copy, can_copy_all, copy_all, copy_tree, failure_before_copy, found, tasks_of,
};

verus! {

/// The guard comes first.  Whatever is reported, the orchestrator asks for
/// a tree to be copied only once the destination was found absent, or once
/// an earlier tree was copied; a destination that is found present ends
/// the scaffold with `AlreadyExists`; and a scaffold that has failed stays
/// failed and asks for nothing more.
pub proof fn law_guard_comes_first(s: ScaffolderModel, e: EventModel)
    ensures
        transition(s, e).1 is Materialize ==> (s.phase == Phase::Guarding && e
            == EventModel::Destination { exists: false }) || ((s.phase == Phase::CopyingBase
            || s.phase == Phase::CopyingOverlays) && e is Materialized),
        s.phase == Phase::Guarding && e == (EventModel::Destination { exists: true })
            ==> transition(s, e).0.phase == Phase::Failed && transition(s, e).1
            == ActionModel::Fail(ErrorModel::AlreadyExists),
        s.phase == Phase::Failed ==> transition(s, e).0 == s && transition(s, e).1 is Fail,
{
}

/// The state of the orchestrator of `r` once `events` have been reported
/// to it, one after the other.
pub open spec fn state_after(r: RequestModel, events: Seq<EventModel>) -> ScaffolderModel
    decreases events.len(),
{
    if events.len() == 0 {
        initial(r)
    } else {
        transition(state_after(r, events.drop_last()), events.last()).0
    }
}

/// The answer of the orchestrator of `r` to the last of `events`.
pub open spec fn answer_to(r: RequestModel, events: Seq<EventModel>) -> ActionModel {
    transition(state_after(r, events.drop_last()), events.last()).1
}

/// Among `events`, the destination was reported absent when the
/// orchestrator had asked about it.
pub open spec fn guard_passed(r: RequestModel, events: Seq<EventModel>) -> bool {
    exists|j: int|
        0 <= j < events.len() && (#[trigger] state_after(r, events.take(j))).phase
            == Phase::Guarding && events[j] == (EventModel::Destination { exists: false })
}

/// While trees are copied, and once they are, the guard has passed.
proof fn lemma_copying_is_guarded(r: RequestModel, events: Seq<EventModel>)
    ensures
        ({
            let phase = state_after(r, events).phase;
            phase == Phase::CopyingBase || phase == Phase::CopyingOverlays || phase == Phase::Done
        }) ==> guard_passed(r, events),
    decreases events.len(),
{
    let phase = state_after(r, events).phase;
    if events.len() > 0 && (phase == Phase::CopyingBase || phase == Phase::CopyingOverlays || phase
        == Phase::Done) {
        let before = events.drop_last();
        let n = events.len() - 1;
        lemma_copying_is_guarded(r, before);
        if state_after(r, before).phase == Phase::Guarding {
            assert(events.take(n) =~= before);
            assert(events[n] == EventModel::Destination { exists: false });
        } else {
            let j = choose|j: int|
                0 <= j < before.len() && (#[trigger] state_after(r, before.take(j))).phase
                    == Phase::Guarding && before[j] == (EventModel::Destination { exists: false });
            assert(events.take(j) =~= before.take(j));
            assert(state_after(r, events.take(j)).phase == Phase::Guarding);
        }
    }
}

/// The guard comes first, in every run.  Whatever is reported to the
/// orchestrator, and in whatever order, it asks for a tree to be copied only
/// after the destination was reported absent in answer to its own question.
pub proof fn law_no_copy_before_the_guard(r: RequestModel, events: Seq<EventModel>)
    requires
        events.len() > 0,
        answer_to(r, events) is Materialize,
    ensures
        guard_passed(r, events),
{
    let before = events.drop_last();
    let n = events.len() - 1;
    law_guard_comes_first(state_after(r, before), events.last());
    if state_after(r, before).phase == Phase::Guarding {
        assert(events.take(n) =~= before);
    } else {
        lemma_copying_is_guarded(r, before);
        let j = choose|j: int|
            0 <= j < before.len() && (#[trigger] state_after(r, before.take(j))).phase
                == Phase::Guarding && before[j] == (EventModel::Destination { exists: false });
        assert(events.take(j) =~= before.take(j));
        assert(state_after(r, events.take(j)).phase == Phase::Guarding);
    }
}

/// A scaffold that has failed stays failed, in every run: whatever is
/// reported afterwards, the orchestrator keeps its state and answers with
/// the failure.
pub proof fn law_failure_is_final(r: RequestModel, events: Seq<EventModel>, more: Seq<EventModel>)
    requires
        state_after(r, events).phase == Phase::Failed,
    ensures
        state_after(r, events + more) == state_after(r, events),
        more.len() > 0 ==> answer_to(r, events + more) is Fail,
    decreases more.len(),
{
    if more.len() == 0 {
        assert(events + more =~= events);
    } else {
        law_failure_is_final(r, events, more.drop_last());
        assert((events + more).drop_last() =~= events + more.drop_last());
    }
}

/// The entry names the same place below the source and below the
/// destination of `task`.
pub open spec fn mirrors(item: ItemModel, task: TaskModel) -> bool {
    exists|rel: PathModel| item.source == task.source + rel && #[trigger] (task.dest + rel)
        == item.dest
}

/// Disjointness, of every copy.  Whatever the listings hold, the work-list
/// of a copy names only places at or below its destination, each the
/// mirror of a place below its source: the first entry does, and the
/// entries that the listing of a mirrored directory adds do.
pub proof fn law_work_list_mirrors(
    task: TaskModel,
    source: PathModel,
    dest: PathModel,
    entries: Seq<EntryModel>,
    i: int,
)
    requires
        mirrors(ItemModel { source, dest, is_dir: true }, task),
        0 <= i < entries.len(),
    ensures
        mirrors(ItemModel { source: task.source, dest: task.dest, is_dir: true }, task),
        mirrors(children(source, dest, entries)[i], task),
        below(children(source, dest, entries)[i].dest, task.dest),
        below(children(source, dest, entries)[i].source, task.source),
{
    let empty = Seq::<Seq<char>>::empty();
    lemma_join(task.source, empty);
    lemma_join(task.dest, empty);
    assert(task.dest + empty == task.dest);
    let rel = choose|rel: PathModel| source == task.source + rel && #[trigger] (task.dest + rel)
        == dest;
    let name = entries[i].name;
    let down = rel.push(name);
    assert(task.source + down =~= source.push(name));
    assert(task.dest + down =~= dest.push(name));
    lemma_join(task.source, down);
    lemma_join(task.dest, down);
}

/// A scaffold whose sources are found and whose destination exists is
/// refused with `AlreadyExists`, before anything is written.
pub proof fn law_existing_destination_is_refused(t: TreeModel, r: RequestModel)
    requires
        t.dom().contains(project_root(r)),
        resolution_error(
            sources_of(r),
            is_dir(t, sources_of(r).base),
            found(t, sources_of(r).ci),
            found(t, sources_of(r).infra),
        ) is None,
    ensures
        failure_before_copy(t, r) == Some(ErrorModel::AlreadyExists),
{
}

/// A scaffold whose template has no base directory is refused with
/// `TemplateNotFound`, before anything is written, whether or not the
/// destination exists.
pub proof fn law_unknown_template_is_refused(t: TreeModel, r: RequestModel)
    requires
        !is_dir(t, sources_of(r).base),
    ensures
        failure_before_copy(t, r) == Some(ErrorModel::TemplateNotFound),
{
}

/// Whenever the infrastructure overlay is asked for, the overlays that a
/// scaffold reports as applied contain CI, whatever was literally asked of
/// CI.
pub proof fn law_infra_implies_ci(r: RequestModel)
    requires
        r.with_infra,
    ensures
        outcome(r).applied_overlays.contains(Overlay::Ci),
        outcome(r).applied_overlays.contains(Overlay::Infra),
        outcome(r).applied_overlays == outcome(RequestModel { with_ci: true, ..r }).applied_overlays,
{
    let list = overlays_of(sources_of(r));
    assert(list[0] == Overlay::Ci);
    assert(list[1] == Overlay::Infra);
}

/// An overlay that is applied holds something at the place `rel` of the
/// project.
pub open spec fn overlay_holds(t: TreeModel, r: RequestModel, rel: PathModel) -> bool {
    let s = sources_of(r);
    ||| s.ci is Some && rel.len() > 0 && rel[0] == ci_name() && t.dom().contains(
        s.ci->Some_0 + rel.skip(1),
    )
    ||| s.infra is Some && rel.len() > 0 && rel[0] == infra_name() && t.dom().contains(
        s.infra->Some_0 + rel.skip(1),
    )
}

/// A copy changes nothing but what lies at or below its destination and
/// the directories that lead to it.
pub proof fn law_copy_is_confined(t: TreeModel, task: TaskModel, p: PathModel)
    requires
        !below(p, task.dest),
        !p.is_prefix_of(task.dest),
    ensures
        copy_tree(t, task.source, task.dest).dom().contains(p) == t.dom().contains(p),
        t.dom().contains(p) ==> copy_tree(t, task.source, task.dest)[p] == t[p],
{
}

/// When the sources are found and the destination is not, each source lies
/// apart from the project root, and nothing is found at or below the root.
proof fn lemma_sources_apart(t: TreeModel, r: RequestModel, s: PathModel, x: PathModel, y: PathModel)
    requires
        tree_wf(t),
        !t.dom().contains(project_root(r)),
        is_dir(t, s),
        s.len() > 0,
    ensures
        !below(s + x, project_root(r) + y),
        !(s + x).is_prefix_of(project_root(r) + y),
        !t.dom().contains(project_root(r) + y),
{
    let root = project_root(r);
    lemma_join(root, y);
    if t.dom().contains(root + y) {
        lemma_ancestors(t, root + y);
        if y.len() > 0 {
            assert((root + y).take(root.len() as int) =~= root);
        }
    }
    if s.is_prefix_of(root) {
        lemma_prefix(root, s, root, root);
    }
    if root.is_prefix_of(s) {
        lemma_ancestors(t, s);
        if s.len() > root.len() {
            assert(s.take(root.len() as int) =~= root);
        } else {
            lemma_prefix(root, root, s, s);
        }
    }
    assert(apart(s, root));
    lemma_apart(s, root, x, y);
}

/// Into a destination that does not exist the base template can always be
/// copied: a scaffold that has passed the guard fails, if it fails, at an
/// overlay.
pub proof fn law_base_can_be_copied(t: TreeModel, r: RequestModel)
    requires
        tree_wf(t),
        failure_before_copy(t, r) is None,
    ensures
        can_copy(t, TaskModel { source: sources_of(r).base, dest: project_root(r) }),
        tasks_of(r)[0] == (TaskModel { source: sources_of(r).base, dest: project_root(r) }),
{
    let root = project_root(r);
    let base = sources_of(r).base;
    let empty = Seq::<Seq<char>>::empty();
    lemma_sources_apart(t, r, base, empty, empty);
    lemma_join(base, empty);
    lemma_join(root, empty);
    assert(apart(base, root));
    assert(!blocked(t, root)) by {
        if blocked(t, root) {
            let k = choose|k: int| 0 <= k <= root.len() && #[trigger] is_file(t, root.take(k));
            if k == 0 {
                assert(root.take(0) =~= empty);
            } else {
                assert(root.take(1) =~= root);
            }
        }
    }
    assert forall|x: PathModel| #[trigger] agree(t, base, root, x) by {
        lemma_sources_apart(t, r, base, x, x);
    }
}

/// Fidelity.  After a successful scaffold, what the base template holds at
/// a place is found at the same place of the project, byte for byte,
/// unless an overlay that is applied holds something at that place.
pub proof fn law_fidelity(t: TreeModel, r: RequestModel, rel: PathModel)
    requires
        tree_wf(t),
        failure_before_copy(t, r) is None,
        can_copy_all(t, tasks_of(r)),
        t.dom().contains(sources_of(r).base + rel),
        !overlay_holds(t, r, rel),
    ensures
        copy_all(t, tasks_of(r)).dom().contains(project_root(r) + rel),
        copy_all(t, tasks_of(r))[project_root(r) + rel] == t[sources_of(r).base + rel],
{
    let root = project_root(r);
    let s = sources_of(r);
    let p = root + rel;
    lemma_join(root, rel);
    let t1 = copy_tree(t, s.base, root);
    assert(t1.dom().contains(p) && t1[p] == t[s.base + rel]);
    lemma_after_overlays(t, r, p);
    if below(p, root.push(ci_name())) {
        lemma_below_child(root, ci_name(), rel);
    }
    if below(p, root.push(infra_name())) {
        lemma_below_child(root, infra_name(), rel);
    }
}

/// A path `a + rel` lies at or below `a.push(name)` exactly when `rel`
/// begins with `name`; what follows is then the rest of `rel`.
proof fn lemma_below_child(a: PathModel, name: Seq<char>, rel: PathModel)
    ensures
        below(a + rel, a.push(name)) <==> rel.len() > 0 && rel[0] == name,
        below(a + rel, a.push(name)) ==> relative(a + rel, a.push(name).len()) == rel.skip(1),
{
    let p = a + rel;
    let d = a.push(name);
    if below(p, d) {
        assert(p.subrange(0, d.len() as int)[a.len() as int] == name);
        assert(p.skip(d.len() as int) =~= rel.skip(1));
    }
    if rel.len() > 0 && rel[0] == name {
        assert(p.subrange(0, d.len() as int) =~= d);
    }
}

/// What a successful scaffold holds at `p`, once the base template is
/// copied: what an overlay that is applied holds at the same place of its
/// own subdirectory, or else what the copy of the base template holds.
proof fn lemma_after_overlays(t: TreeModel, r: RequestModel, p: PathModel)
    requires
        tree_wf(t),
        failure_before_copy(t, r) is None,
    ensures
        ({
            let root = project_root(r);
            let s = sources_of(r);
            let t1 = copy_tree(t, s.base, root);
            let fin = copy_all(t, tasks_of(r));
            let ci_dst = root.push(ci_name());
            let infra_dst = root.push(infra_name());
            if s.infra is Some && below(p, infra_dst) && t.dom().contains(
                s.infra->Some_0 + relative(p, infra_dst.len()),
            ) {
                fin.dom().contains(p) && fin[p] == t[s.infra->Some_0 + relative(p, infra_dst.len())]
            } else if s.ci is Some && below(p, ci_dst) && t.dom().contains(
                s.ci->Some_0 + relative(p, ci_dst.len()),
            ) {
                fin.dom().contains(p) && fin[p] == t[s.ci->Some_0 + relative(p, ci_dst.len())]
            } else {
                fin.dom().contains(p) == t1.dom().contains(p) && (t1.dom().contains(p) ==> fin[p]
                    == t1[p])
            }
        }),
{
    let root = project_root(r);
    let s = sources_of(r);
    let empty = Seq::<Seq<char>>::empty();
    let tasks = tasks_of(r);
    let t1 = copy_tree(t, s.base, root);
    let ci_dst = root.push(ci_name());
    let infra_dst = root.push(infra_name());
    reveal_with_fuel(copy_all, 4);
    assert(tasks[0] == TaskModel { source: s.base, dest: root });
    assert(root.is_prefix_of(ci_dst)) by {
        assert(ci_dst.subrange(0, root.len() as int) =~= root);
    }
    assert(root.is_prefix_of(infra_dst)) by {
        assert(infra_dst.subrange(0, root.len() as int) =~= root);
    }
    assert(t1.dom().contains(root));
    if s.ci is None {
        assert(tasks =~= seq![tasks[0]]);
        assert(tasks.drop_last() =~= Seq::<TaskModel>::empty());
    } else {
        let c = s.ci->Some_0;
        let x = relative(p, ci_dst.len());
        lemma_sources_apart(t, r, c, x, empty);
        lemma_join(root, empty);
        assert(t1.dom().contains(c + x) == t.dom().contains(c + x));
        assert(t.dom().contains(c + x) ==> t1[c + x] == t[c + x]);
        let t2 = copy_tree(t1, c, ci_dst);
        if p.is_prefix_of(ci_dst) && !below(p, ci_dst) {
            lemma_prefix(root, p, root, ci_dst);
            if p.len() <= root.len() {
                assert(p.is_prefix_of(root));
                assert(t1.dom().contains(p));
            } else {
                lemma_prefix(root, p, ci_dst, ci_dst);
            }
        }
        if s.infra is None {
            assert(tasks =~= seq![tasks[0], TaskModel { source: c, dest: ci_dst }]);
            assert(tasks.drop_last() =~= seq![tasks[0]]);
            assert(tasks.drop_last().drop_last() =~= Seq::<TaskModel>::empty());
        } else {
            let f = s.infra->Some_0;
            let y = relative(p, infra_dst.len());
            lemma_sources_apart(t, r, f, y, empty);
            lemma_sources_apart(t, r, f, y, seq![ci_name()]);
            assert(root + seq![ci_name()] =~= ci_dst);
            assert(t1.dom().contains(f + y) == t.dom().contains(f + y));
            assert(t2.dom().contains(f + y) == t.dom().contains(f + y));
            assert(t.dom().contains(f + y) ==> t2[f + y] == t[f + y]);
            assert(tasks =~= seq![
                tasks[0],
                TaskModel { source: c, dest: ci_dst },
                TaskModel { source: f, dest: infra_dst },
            ]);
            assert(tasks.drop_last() =~= seq![tasks[0], TaskModel { source: c, dest: ci_dst }]);
            assert(tasks.drop_last().drop_last() =~= seq![tasks[0]]);
            assert(tasks.drop_last().drop_last().drop_last() =~= Seq::<TaskModel>::empty());
            lemma_names_differ();
            if below(p, infra_dst) && below(p, ci_dst) {
                assert(p.subrange(0, ci_dst.len() as int)[root.len() as int] == ci_name());
                assert(p.subrange(0, infra_dst.len() as int)[root.len() as int] == infra_name());
                assert(false);
            }
            if p.is_prefix_of(infra_dst) && !below(p, infra_dst) {
                lemma_prefix(root, p, root, infra_dst);
                if p.len() <= root.len() {
                    assert(p.is_prefix_of(root));
                    assert(t1.dom().contains(p));
                } else {
                    lemma_prefix(root, p, infra_dst, infra_dst);
                }
            }
        }
    }
}

/// The two overlays fill subdirectories of different names.
proof fn lemma_names_differ()
    ensures
        ci_name() != infra_name(),
{
    reveal_strlit(".github");
    reveal_strlit("terraform");
    assert(ci_name().len() == 7);
    assert(infra_name().len() == 9);
}

/// Disjointness, of the base template: where the base template has no
/// entry `name` of its own, its copy puts nothing at or below the entry
/// `name` of the project.
pub proof fn law_base_stays_out(t: TreeModel, r: RequestModel, name: Seq<char>, x: PathModel)
    requires
        tree_wf(t),
        failure_before_copy(t, r) is None,
        !t.dom().contains(sources_of(r).base.push(name)),
    ensures
        !copy_tree(t, sources_of(r).base, project_root(r)).dom().contains(
            project_root(r).push(name) + x,
        ),
{
    let root = project_root(r);
    let base = sources_of(r).base;
    let q = root.push(name) + x;
    let rel = seq![name] + x;
    assert(q =~= root + rel);
    lemma_join(root, rel);
    lemma_sources_apart(t, r, base, rel, rel);
    assert(base + rel =~= base.push(name) + x);
    if t.dom().contains(base + rel) {
        lemma_ancestors(t, base.push(name) + x);
        if x.len() > 0 {
            assert((base.push(name) + x).take(base.push(name).len() as int) =~= base.push(name));
        } else {
            assert(base.push(name) + x =~= base.push(name));
        }
    }
    if q.is_prefix_of(root) {
        assert(q.len() > root.len());
    }
}

/// Disjointness, of the overlays: outside the two subdirectories that the
/// overlays fill, a scaffold holds what the copy of the base template
/// holds, and nothing else.
pub proof fn law_overlays_stay_in(t: TreeModel, r: RequestModel, p: PathModel)
    requires
        tree_wf(t),
        failure_before_copy(t, r) is None,
        !below(p, project_root(r).push(ci_name())),
        !below(p, project_root(r).push(infra_name())),
    ensures
        copy_all(t, tasks_of(r)).dom().contains(p) == copy_tree(
            t,
            sources_of(r).base,
            project_root(r),
        ).dom().contains(p),
        copy_all(t, tasks_of(r)).dom().contains(p) ==> copy_all(t, tasks_of(r))[p] == copy_tree(
            t,
            sources_of(r).base,
            project_root(r),
        )[p],
{
    lemma_after_overlays(t, r, p);
}

/// Fidelity, of the overlays: after a successful scaffold, what an overlay
/// that is applied holds at a place is found at the same place of its
/// subdirectory of the project, byte for byte.
pub proof fn law_overlay_fidelity(t: TreeModel, r: RequestModel, rel: PathModel)
    requires
        tree_wf(t),
        failure_before_copy(t, r) is None,
    ensures
        sources_of(r).ci is Some && t.dom().contains(sources_of(r).ci->Some_0 + rel) ==> copy_all(
            t,
            tasks_of(r),
        ).dom().contains(project_root(r).push(ci_name()) + rel) && copy_all(
            t,
            tasks_of(r),
        )[project_root(r).push(ci_name()) + rel] == t[sources_of(r).ci->Some_0 + rel],
        sources_of(r).infra is Some && t.dom().contains(sources_of(r).infra->Some_0 + rel)
            ==> copy_all(t, tasks_of(r)).dom().contains(project_root(r).push(infra_name()) + rel)
            && copy_all(t, tasks_of(r))[project_root(r).push(infra_name()) + rel]
            == t[sources_of(r).infra->Some_0 + rel],
{
    let root = project_root(r);
    let ci_dst = root.push(ci_name());
    let infra_dst = root.push(infra_name());
    lemma_join(ci_dst, rel);
    lemma_join(infra_dst, rel);
    lemma_after_overlays(t, r, ci_dst + rel);
    lemma_after_overlays(t, r, infra_dst + rel);
    lemma_names_differ();
    if below(ci_dst + rel, infra_dst) {
        assert((ci_dst + rel).subrange(0, infra_dst.len() as int)[root.len() as int]
            == infra_name());
        assert(false);
    }
}

} // verus!
