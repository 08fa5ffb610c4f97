//! Why a copy on the in-memory file system does what it is said to do.
//!
//! While a tree is copied, the work-list and the file system stand in a
//! fixed relation: each place of the source is either still covered by a
//! pending entry or already found, unchanged, at the destination.  The
//! lemmas here show that each step of the copy keeps that relation, and
//! that it leaves less of the source to deal with.

use vstd::prelude::*;
use crate::path::{
    apart, below, lemma_apart, lemma_join, lemma_prefix, lemma_prefix_of_join, lemma_split,
    lemma_step_down, relative, PathModel,
};
use crate::composer::TaskModel;
use crate::materializer::{children, initial_work, EntryModel, ItemModel};
use crate::memfs::{
    blocked, is_dir, is_file, lemma_ancestors, lists, tree_wf, with_dirs, NodeModel, TreeModel,
};
use crate::engine::{agree, conflict_free, copy_tree, partly_copied};

verus! {

/// The pending entry `item` stands for the place `r` below the source: a
/// directory for all that lies at or below it, a file for itself.
pub open spec fn covers(item: ItemModel, src: PathModel, r: PathModel) -> bool {
    if item.is_dir {
        relative(item.source, src.len()).is_prefix_of(r)
    } else {
        relative(item.source, src.len()) == r
    }
}

/// Some pending entry stands for the place `r`.
pub open spec fn covered(pending: Seq<ItemModel>, src: PathModel, r: PathModel) -> bool {
    exists|i: int| 0 <= i < pending.len() && covers(#[trigger] pending[i], src, r)
}

/// The place `r` below the source holds something, and it is dealt with.
pub open spec fn done(t: TreeModel, pending: Seq<ItemModel>, src: PathModel, r: PathModel) -> bool {
    t.dom().contains(src + r) && !covered(pending, src, r)
}

/// The pending entry at `i` is sound: it names the same place below source
/// and destination, the source holds what it says, the directory it lies in
/// is dealt with, and no other pending entry stands for it.
pub open spec fn item_ok(
    t: TreeModel,
    pending: Seq<ItemModel>,
    src: PathModel,
    dst: PathModel,
    i: int,
) -> bool {
    let it = pending[i];
    let rel = relative(it.source, src.len());
    &&& it.source == src + rel
    &&& it.dest == dst + rel
    &&& t.dom().contains(it.source)
    &&& it.is_dir == (t[it.source] is Directory)
    &&& rel.len() > 0 ==> !covered(pending, src, rel.drop_last())
    &&& forall|j: int| 0 <= j < pending.len() && j != i ==> !covers(#[trigger] pending[j], src, rel)
}

/// Every pending entry is sound.
pub open spec fn work_ok(t: TreeModel, pending: Seq<ItemModel>, src: PathModel, dst: PathModel) -> bool {
    forall|i: int| 0 <= i < pending.len() ==> #[trigger] item_ok(t, pending, src, dst, i)
}

/// Nothing stood in the way of what is dealt with.
pub open spec fn checked(t: TreeModel, pending: Seq<ItemModel>, src: PathModel, dst: PathModel) -> bool {
    &&& done(t, pending, src, Seq::<Seq<char>>::empty()) ==> !blocked(t, dst)
    &&& forall|r: PathModel| done(t, pending, src, r) ==> #[trigger] agree(t, src, dst, r)
}

/// The tree `t` once all that is dealt with is copied.
pub open spec fn copied_so_far(
    t: TreeModel,
    pending: Seq<ItemModel>,
    src: PathModel,
    dst: PathModel,
) -> TreeModel {
    Map::new(
        |p: PathModel|
            t.dom().contains(p) || (p.is_prefix_of(dst) && done(
                t,
                pending,
                src,
                Seq::<Seq<char>>::empty(),
            )) || (below(p, dst) && done(t, pending, src, relative(p, dst.len()))),
        |p: PathModel|
            if below(p, dst) && done(t, pending, src, relative(p, dst.len())) {
                t[src + relative(p, dst.len())]
            } else if t.dom().contains(p) {
                t[p]
            } else {
                NodeModel::Directory
            },
    )
}

/// What the source holds and is not dealt with yet.
pub open spec fn remaining(t: TreeModel, pending: Seq<ItemModel>, src: PathModel) -> Set<PathModel> {
    Set::new(
        |p: PathModel|
            t.dom().contains(p) && below(p, src) && covered(pending, src, relative(p, src.len())),
    )
}

/// What holds while the tree at `src` of `t` is copied to `dst`, with `now`
/// the file system and `pending` the work-list.
pub open spec fn copying(
    t: TreeModel,
    now: TreeModel,
    pending: Seq<ItemModel>,
    src: PathModel,
    dst: PathModel,
) -> bool {
    &&& tree_wf(t)
    &&& is_dir(t, src)
    &&& apart(src, dst)
    &&& work_ok(t, pending, src, dst)
    &&& checked(t, pending, src, dst)
    &&& now == copied_so_far(t, pending, src, dst)
}

/// An entry that is pending stays covered by the work-list it is on.
proof fn lemma_covered_by(pending: Seq<ItemModel>, src: PathModel, r: PathModel, i: int)
    requires
        0 <= i < pending.len(),
        covers(pending[i], src, r),
    ensures
        covered(pending, src, r),
{
}

/// What two work-lists cover together is what either covers.
proof fn lemma_covered_concat(a: Seq<ItemModel>, b: Seq<ItemModel>, src: PathModel, r: PathModel)
    ensures
        covered(a + b, src, r) <==> covered(a, src, r) || covered(b, src, r),
{
    if covered(a + b, src, r) {
        let i = choose|i: int| 0 <= i < (a + b).len() && covers(#[trigger] (a + b)[i], src, r);
        if i < a.len() {
            assert(covers(a[i], src, r));
        } else {
            assert(covers(b[i - a.len()], src, r));
        }
    }
    if covered(a, src, r) {
        let i = choose|i: int| 0 <= i < a.len() && covers(#[trigger] a[i], src, r);
        assert((a + b)[i] == a[i]);
        lemma_covered_by(a + b, src, r, i);
    }
    if covered(b, src, r) {
        let i = choose|i: int| 0 <= i < b.len() && covers(#[trigger] b[i], src, r);
        assert((a + b)[a.len() + i] == b[i]);
        lemma_covered_by(a + b, src, r, a.len() + i);
    }
}

/// What a work-list covers is what its last entry covers and what the rest
/// covers.
proof fn lemma_covered_last(pending: Seq<ItemModel>, src: PathModel, r: PathModel)
    requires
        pending.len() > 0,
    ensures
        covered(pending, src, r) <==> covered(pending.drop_last(), src, r) || covers(
            pending.last(),
            src,
            r,
        ),
{
    let rest = pending.drop_last();
    if covered(pending, src, r) {
        let i = choose|i: int| 0 <= i < pending.len() && covers(#[trigger] pending[i], src, r);
        if i < rest.len() {
            assert(rest[i] == pending[i]);
            lemma_covered_by(rest, src, r, i);
        }
    }
    if covered(rest, src, r) {
        let i = choose|i: int| 0 <= i < rest.len() && covers(#[trigger] rest[i], src, r);
        assert(rest[i] == pending[i]);
        lemma_covered_by(pending, src, r, i);
    }
    if covers(pending.last(), src, r) {
        lemma_covered_by(pending, src, r, pending.len() - 1);
    }
}

/// While a tree is copied, whatever lies at or below the source is as it
/// was.
pub proof fn lemma_source_intact(
    t: TreeModel,
    pending: Seq<ItemModel>,
    src: PathModel,
    dst: PathModel,
    x: PathModel,
)
    requires
        apart(src, dst),
    ensures
        copied_so_far(t, pending, src, dst).dom().contains(src + x) == t.dom().contains(src + x),
        t.dom().contains(src + x) ==> copied_so_far(t, pending, src, dst)[src + x] == t[src + x],
{
    let p = src + x;
    lemma_apart(src, dst, x, Seq::<Seq<char>>::empty());
    lemma_join(dst, Seq::<Seq<char>>::empty());
    assert(!p.is_prefix_of(dst));
    assert(!below(p, dst));
}

/// Before anything is copied the file system is as it was, and the source
/// directory is all that is pending.
pub proof fn lemma_first(t: TreeModel, task: TaskModel)
    requires
        tree_wf(t),
        is_dir(t, task.source),
        apart(task.source, task.dest),
    ensures
        copying(t, t, initial_work(task), task.source, task.dest),
{
    let src = task.source;
    let dst = task.dest;
    let pending = initial_work(task);
    let empty = Seq::<Seq<char>>::empty();
    assert(relative(src, src.len()) =~= empty);
    lemma_join(src, empty);
    lemma_join(dst, empty);
    assert(item_ok(t, pending, src, dst, 0));
    assert forall|r: PathModel| covered(pending, src, r) by {
        assert(empty.is_prefix_of(r));
        assert(covers(pending[0], src, r));
    }
    assert(copied_so_far(t, pending, src, dst) =~= t);
}

/// Once nothing is pending the copy is finished, and nothing stood in its
/// way.
pub proof fn lemma_finished(t: TreeModel, now: TreeModel, pending: Seq<ItemModel>, task: TaskModel)
    requires
        copying(t, now, pending, task.source, task.dest),
        pending.len() == 0,
    ensures
        now == copy_tree(t, task.source, task.dest),
        conflict_free(t, task.source, task.dest),
{
    let src = task.source;
    let dst = task.dest;
    let empty = Seq::<Seq<char>>::empty();
    lemma_join(src, empty);
    assert(done(t, pending, src, empty));
    assert(now =~= copy_tree(t, src, dst));
    assert forall|r: PathModel| #[trigger] agree(t, src, dst, r) by {
        if t.dom().contains(src + r) {
            assert(done(t, pending, src, r));
        }
    }
}

/// While a tree is copied the file system lies between what it was and the
/// finished copy.
pub proof fn lemma_partly(t: TreeModel, now: TreeModel, pending: Seq<ItemModel>, task: TaskModel)
    requires
        copying(t, now, pending, task.source, task.dest),
    ensures
        partly_copied(t, now, task.source, task.dest),
{
    let src = task.source;
    let dst = task.dest;
    let full = copy_tree(t, src, dst);
    assert forall|p: PathModel| #[trigger] now.dom().contains(p) implies (t.dom().contains(p)
        && now[p] == t[p]) || (full.dom().contains(p) && now[p] == full[p]) by {
        if below(p, dst) && done(t, pending, src, relative(p, dst.len())) {
            assert(full.dom().contains(p));
        } else if t.dom().contains(p) {
        } else {
            assert(p.is_prefix_of(dst));
            assert(full.dom().contains(p));
            if below(p, dst) {
                lemma_prefix(p, p, dst, dst);
                assert(p == dst);
                assert(relative(p, dst.len()) =~= Seq::<Seq<char>>::empty());
            }
        }
    }
}

/// The work-list once its last entry, a directory with the listing
/// `entries`, is dealt with.
pub open spec fn after_enter(pending: Seq<ItemModel>, entries: Seq<EntryModel>) -> Seq<ItemModel> {
    pending.drop_last() + children(pending.last().source, pending.last().dest, entries)
}

/// The place below the source that the pending entry at `i` names.
pub open spec fn place(pending: Seq<ItemModel>, src: PathModel, i: int) -> PathModel {
    relative(pending[i].source, src.len())
}

/// What lies above a pending entry, from the source directory down, is a
/// directory that is dealt with.
proof fn lemma_above_pending(
    t: TreeModel,
    pending: Seq<ItemModel>,
    src: PathModel,
    dst: PathModel,
    i: int,
    k: int,
)
    requires
        tree_wf(t),
        is_dir(t, src),
        work_ok(t, pending, src, dst),
        0 <= i < pending.len(),
        0 <= k < place(pending, src, i).len(),
    ensures
        is_dir(t, src + place(pending, src, i).take(k)),
        !covered(pending, src, place(pending, src, i).take(k)),
{
    let r = place(pending, src, i);
    let above = r.take(k);
    assert(item_ok(t, pending, src, dst, i));
    lemma_join(src, r);
    lemma_ancestors(t, src + r);
    assert((src + r).take(src.len() + k) =~= src + above);
    let parent = r.drop_last();
    assert(above.is_prefix_of(parent)) by {
        assert(parent.subrange(0, k) =~= above);
    }
    if covered(pending, src, above) {
        let j = choose|j: int| 0 <= j < pending.len() && covers(#[trigger] pending[j], src, above);
        assert(item_ok(t, pending, src, dst, j));
        let rj = place(pending, src, j);
        if pending[j].is_dir {
            lemma_prefix(src, rj, above, parent);
            assert(covers(pending[j], src, parent));
        } else {
            assert(pending[j].source == src + above);
            assert(false);
        }
        assert(false);
    }
}

/// The entries that a listing adds stand for what lies below the directory
/// that was listed, and for nothing else.
proof fn lemma_children(
    t: TreeModel,
    src: PathModel,
    dst: PathModel,
    r: PathModel,
    entries: Seq<EntryModel>,
    x: PathModel,
)
    requires
        tree_wf(t),
        lists(t, src + r, entries),
    ensures
        covered(children(src + r, dst + r, entries), src, x) ==> r.is_prefix_of(x) && x.len()
            > r.len(),
        r.is_prefix_of(x) && x.len() > r.len() && t.dom().contains(src + x) ==> covered(
            children(src + r, dst + r, entries),
            src,
            x,
        ),
{
    let kids = children(src + r, dst + r, entries);
    if covered(kids, src, x) {
        let i = choose|i: int| 0 <= i < kids.len() && covers(#[trigger] kids[i], src, x);
        let name = entries[i].name;
        lemma_step_down(src, r, name);
        lemma_join(src, r.push(name));
        lemma_prefix(src, r, r.push(name), x);
    }
    if r.is_prefix_of(x) && x.len() > r.len() && t.dom().contains(src + x) {
        let name = x[r.len() as int];
        let child = r.push(name);
        assert(child.is_prefix_of(x)) by {
            assert(x.subrange(0, child.len() as int) =~= child);
        }
        lemma_step_down(src, r, name);
        lemma_join(src, child);
        lemma_join(src, x);
        lemma_ancestors(t, src + x);
        assert((src + x).take((src.len() + child.len()) as int) =~= src + child);
        if child.len() < x.len() {
            assert(is_dir(t, src + child));
        } else {
            lemma_prefix(src, child, x, x);
        }
        assert(t.dom().contains((src + r).push(name)));
        let i = choose|i: int| 0 <= i < entries.len() && #[trigger] entries[i].name == name;
        assert(kids[i].source == src + child);
        assert(relative(kids[i].source, src.len()) == child);
        if !entries[i].is_dir {
            assert(child.len() == x.len());
        }
        assert(covers(kids[i], src, x));
    }
}

/// A listing that was read while the tree is copied lists the source as it
/// was.
proof fn lemma_lists_intact(
    t: TreeModel,
    pending: Seq<ItemModel>,
    src: PathModel,
    dst: PathModel,
    x: PathModel,
    entries: Seq<EntryModel>,
)
    requires
        apart(src, dst),
        lists(copied_so_far(t, pending, src, dst), src + x, entries),
    ensures
        lists(t, src + x, entries),
{
    let now = copied_so_far(t, pending, src, dst);
    let dir = src + x;
    assert forall|i: int| 0 <= i < entries.len() implies t.dom().contains(
        dir.push(#[trigger] entries[i].name),
    ) && entries[i].is_dir == is_dir(t, dir.push(entries[i].name)) by {
        lemma_step_down(src, x, entries[i].name);
        lemma_source_intact(t, pending, src, dst, x.push(entries[i].name));
    }
    assert forall|name: Seq<char>| #[trigger] t.dom().contains(dir.push(name)) implies exists|
        i: int,
    |
        0 <= i < entries.len() && #[trigger] entries[i].name == name by {
        lemma_step_down(src, x, name);
        lemma_source_intact(t, pending, src, dst, x.push(name));
        assert(now.dom().contains(dir.push(name)));
    }
}

/// What the work-list stands for once a directory is entered: what it stood
/// for before, without the directory itself.
proof fn lemma_cover_after_enter(
    t: TreeModel,
    pending: Seq<ItemModel>,
    src: PathModel,
    dst: PathModel,
    entries: Seq<EntryModel>,
    x: PathModel,
)
    requires
        tree_wf(t),
        work_ok(t, pending, src, dst),
        pending.len() > 0,
        pending.last().is_dir,
        lists(t, pending.last().source, entries),
    ensures
        covered(after_enter(pending, entries), src, x) ==> covered(pending, src, x),
        !covered(after_enter(pending, entries), src, place(pending, src, pending.len() - 1)),
        covered(pending, src, place(pending, src, pending.len() - 1)),
        t.dom().contains(src + x) ==> (covered(after_enter(pending, entries), src, x) <==> covered(
            pending,
            src,
            x,
        ) && x != place(pending, src, pending.len() - 1)),
{
    let n = pending.len() - 1;
    let r = place(pending, src, n);
    let rest = pending.drop_last();
    assert(item_ok(t, pending, src, dst, n));
    let kids = children(src + r, dst + r, entries);
    assert(after_enter(pending, entries) == rest + kids);
    lemma_covered_concat(rest, kids, src, x);
    lemma_covered_concat(rest, kids, src, r);
    lemma_covered_last(pending, src, x);
    lemma_covered_last(pending, src, r);
    lemma_children(t, src, dst, r, entries, x);
    lemma_children(t, src, dst, r, entries, r);
    assert(r.is_prefix_of(r)) by {
        assert(r.subrange(0, r.len() as int) =~= r);
    }
    assert(covers(pending.last(), src, r));
    if covered(rest, src, r) {
        let j = choose|j: int| 0 <= j < rest.len() && covers(#[trigger] rest[j], src, r);
        assert(rest[j] == pending[j]);
        assert(!covers(pending[j], src, r));
    }
    if r.is_prefix_of(x) && x != r {
        lemma_prefix(src, r, x, x);
    }
}

/// Once a directory is entered every entry of the work-list is sound.
proof fn lemma_entered_work(
    t: TreeModel,
    pending: Seq<ItemModel>,
    src: PathModel,
    dst: PathModel,
    entries: Seq<EntryModel>,
)
    requires
        tree_wf(t),
        is_dir(t, src),
        work_ok(t, pending, src, dst),
        pending.len() > 0,
        pending.last().is_dir,
        lists(t, pending.last().source, entries),
    ensures
        work_ok(t, after_enter(pending, entries), src, dst),
{
    let n = pending.len() - 1;
    let r = place(pending, src, n);
    let rest = pending.drop_last();
    assert(item_ok(t, pending, src, dst, n));
    let kids = children(src + r, dst + r, entries);
    let new = after_enter(pending, entries);
    assert(new == rest + kids);
    assert(r.is_prefix_of(r)) by {
        assert(r.subrange(0, r.len() as int) =~= r);
    }
    assert forall|i: int| 0 <= i < new.len() implies #[trigger] item_ok(t, new, src, dst, i) by {
        let it = new[i];
        let rel = relative(it.source, src.len());
        if i < rest.len() {
            assert(it == pending[i]);
            assert(item_ok(t, pending, src, dst, i));
            if rel.len() > 0 {
                lemma_cover_after_enter(t, pending, src, dst, entries, rel.drop_last());
            }
            assert forall|j: int| 0 <= j < new.len() && j != i implies !covers(
                #[trigger] new[j],
                src,
                rel,
            ) by {
                if j < rest.len() {
                    assert(new[j] == pending[j]);
                } else {
                    let k = j - rest.len();
                    assert(new[j] == kids[k]);
                    if covers(kids[k], src, rel) {
                        lemma_children(t, src, dst, r, entries, rel);
                        assert(covers(pending[n], src, rel));
                    }
                }
            }
        } else {
            let k = i - rest.len();
            assert(it == kids[k]);
            let name = entries[k].name;
            lemma_step_down(src, r, name);
            lemma_step_down(dst, r, name);
            lemma_join(src, r.push(name));
            assert(rel == r.push(name));
            lemma_cover_after_enter(t, pending, src, dst, entries, r);
            assert forall|j: int| 0 <= j < new.len() && j != i implies !covers(
                #[trigger] new[j],
                src,
                rel,
            ) by {
                if j < rest.len() {
                    assert(new[j] == pending[j]);
                    assert(item_ok(t, pending, src, dst, j));
                    let rj = place(pending, src, j);
                    if covers(pending[j], src, rel) {
                        if rj.len() <= r.len() {
                            lemma_prefix(src, rj, r, rel);
                            assert(rj.is_prefix_of(r));
                            assert(pending[j].is_dir);
                            assert(covers(pending[j], src, r));
                        } else {
                            lemma_prefix(src, rj, rel, rel);
                            assert(rj == rel);
                            assert(rj.drop_last() == r);
                            lemma_covered_by(pending, src, r, n);
                        }
                        assert(false);
                    }
                } else {
                    let m = j - rest.len();
                    assert(new[j] == kids[m]);
                    let other = entries[m].name;
                    lemma_step_down(src, r, other);
                    lemma_join(src, r.push(other));
                    if covers(kids[m], src, rel) {
                        lemma_prefix(src, r.push(other), rel, rel);
                        assert(r.push(other) == rel);
                        assert(r.push(other).last() == other);
                        assert(r.push(name).last() == name);
                        if m < k {
                            assert(entries[m].name != entries[k].name);
                        } else {
                            assert(entries[k].name != entries[m].name);
                        }
                        assert(false);
                    }
                }
            }
        }
    }
}

/// What is dealt with once a directory is entered: what was dealt with
/// before, and the directory itself.
proof fn lemma_done_after_enter(
    t: TreeModel,
    pending: Seq<ItemModel>,
    src: PathModel,
    dst: PathModel,
    entries: Seq<EntryModel>,
    x: PathModel,
)
    requires
        tree_wf(t),
        work_ok(t, pending, src, dst),
        pending.len() > 0,
        pending.last().is_dir,
        lists(t, pending.last().source, entries),
    ensures
        done(t, after_enter(pending, entries), src, x) <==> done(t, pending, src, x) || x == place(
            pending,
            src,
            pending.len() - 1,
        ),
{
    lemma_cover_after_enter(t, pending, src, dst, entries, x);
    assert(item_ok(t, pending, src, dst, pending.len() - 1));
}

/// Once a directory is entered and made at the destination, the file
/// system holds all that is dealt with.
proof fn lemma_entered_tree(
    t: TreeModel,
    now: TreeModel,
    pending: Seq<ItemModel>,
    src: PathModel,
    dst: PathModel,
    entries: Seq<EntryModel>,
)
    requires
        copying(t, now, pending, src, dst),
        pending.len() > 0,
        pending.last().is_dir,
        lists(t, pending.last().source, entries),
        !blocked(now, pending.last().dest),
    ensures
        with_dirs(now, pending.last().dest) == copied_so_far(
            t,
            after_enter(pending, entries),
            src,
            dst,
        ),
{
    let n = pending.len() - 1;
    let r = place(pending, src, n);
    let new = after_enter(pending, entries);
    let target = dst + r;
    let empty = Seq::<Seq<char>>::empty();
    assert(item_ok(t, pending, src, dst, n));
    let lhs = with_dirs(now, target);
    let rhs = copied_so_far(t, new, src, dst);
    lemma_join(dst, r);
    lemma_join(src, empty);
    assert(target.take(target.len() as int) =~= target);
    assert(!is_file(now, target));
    lemma_done_after_enter(t, pending, src, dst, entries, empty);
    if r.len() > 0 {
        lemma_above_pending(t, pending, src, dst, n, 0);
        assert(r.take(0) =~= empty);
        assert(done(t, pending, src, empty));
    } else {
        assert(r =~= empty);
    }
    assert forall|p: PathModel|
        (#[trigger] lhs.dom().contains(p)) == rhs.dom().contains(p) && (lhs.dom().contains(p)
            ==> lhs[p] == rhs[p]) by {
        let rp = relative(p, dst.len());
        lemma_done_after_enter(t, pending, src, dst, entries, rp);
        if below(p, dst) {
            lemma_split(dst, p);
            lemma_prefix(dst, rp, r, r);
        }
        if p.is_prefix_of(target) {
            lemma_prefix_of_join(dst, r, p);
            if !p.is_prefix_of(dst) {
                let k = p.len() - dst.len();
                if k < r.len() {
                    lemma_above_pending(t, pending, src, dst, n, k);
                    assert(done(t, pending, src, rp));
                } else {
                    assert(r.take(k) =~= r);
                }
            }
        }
        if p.is_prefix_of(dst) && below(p, dst) {
            lemma_prefix(dst, p, dst, dst);
            assert(rp =~= empty);
        }
        if p == target {
            assert(target.subrange(0, target.len() as int) =~= target);
        }
    }
    assert(lhs =~= rhs);
}

/// Once a directory is entered and made at the destination, nothing stood
/// in the way of what is dealt with.
proof fn lemma_entered_checked(
    t: TreeModel,
    now: TreeModel,
    pending: Seq<ItemModel>,
    src: PathModel,
    dst: PathModel,
    entries: Seq<EntryModel>,
)
    requires
        copying(t, now, pending, src, dst),
        pending.len() > 0,
        pending.last().is_dir,
        lists(t, pending.last().source, entries),
        !blocked(now, pending.last().dest),
    ensures
        checked(t, after_enter(pending, entries), src, dst),
{
    let n = pending.len() - 1;
    let r = place(pending, src, n);
    let new = after_enter(pending, entries);
    let target = dst + r;
    let empty = Seq::<Seq<char>>::empty();
    assert(item_ok(t, pending, src, dst, n));
    lemma_join(dst, r);
    assert(target.take(target.len() as int) =~= target);
    assert(!is_file(now, target));
    lemma_cover_after_enter(t, pending, src, dst, entries, r);
    assert(!done(t, pending, src, r));
    assert(relative(target, dst.len()) == r);
    assert(t.dom().contains(target) ==> now[target] == t[target]);
    assert forall|x: PathModel| done(t, new, src, x) implies #[trigger] agree(t, src, dst, x) by {
        lemma_done_after_enter(t, pending, src, dst, entries, x);
    }
    lemma_done_after_enter(t, pending, src, dst, entries, empty);
    if done(t, new, src, empty) && !done(t, pending, src, empty) {
        assert(r == empty);
        if blocked(t, dst) {
            let k = choose|k: int| 0 <= k <= dst.len() && #[trigger] is_file(t, dst.take(k));
            let q = dst.take(k);
            assert(target == dst);
            if below(q, dst) {
                assert(q.is_prefix_of(dst));
                lemma_prefix(dst, q, dst, dst);
                assert(relative(q, dst.len()) =~= empty);
            }
            assert(now.dom().contains(q) && now[q] == t[q]);
            assert(is_file(now, target.take(k)));
            assert(false);
        }
    }
}

/// Once a directory is entered, less of the source is left to deal with.
proof fn lemma_entered_measure(
    t: TreeModel,
    pending: Seq<ItemModel>,
    src: PathModel,
    dst: PathModel,
    entries: Seq<EntryModel>,
)
    requires
        tree_wf(t),
        work_ok(t, pending, src, dst),
        pending.len() > 0,
        pending.last().is_dir,
        lists(t, pending.last().source, entries),
    ensures
        remaining(t, after_enter(pending, entries), src).len() < remaining(t, pending, src).len(),
{
    let n = pending.len() - 1;
    let r = place(pending, src, n);
    let new = after_enter(pending, entries);
    let before = remaining(t, pending, src);
    let after = remaining(t, new, src);
    assert(item_ok(t, pending, src, dst, n));
    lemma_join(src, r);
    lemma_cover_after_enter(t, pending, src, dst, entries, r);
    assert forall|p: PathModel| after.contains(p) implies before.contains(p) by {
        lemma_cover_after_enter(t, pending, src, dst, entries, relative(p, src.len()));
    }
    assert(before.subset_of(t.dom()));
    vstd::set_lib::lemma_set_subset_finite(t.dom(), before);
    assert(before.contains(src + r));
    assert(!after.contains(src + r));
    after.lemma_subset_not_in_lt(before, src + r);
}

/// A file in the way of a directory that is to be made means that source
/// and destination do not agree.
pub proof fn lemma_enter_blocked(
    t: TreeModel,
    now: TreeModel,
    pending: Seq<ItemModel>,
    src: PathModel,
    dst: PathModel,
)
    requires
        copying(t, now, pending, src, dst),
        pending.len() > 0,
        pending.last().is_dir,
        blocked(now, pending.last().dest),
    ensures
        !conflict_free(t, src, dst),
{
    let n = pending.len() - 1;
    let r = place(pending, src, n);
    let target = dst + r;
    let empty = Seq::<Seq<char>>::empty();
    assert(item_ok(t, pending, src, dst, n));
    lemma_join(dst, r);
    lemma_join(src, r);
    lemma_join(src, empty);
    let k = choose|k: int| 0 <= k <= target.len() && #[trigger] is_file(now, target.take(k));
    let q = target.take(k);
    assert(q.is_prefix_of(target));
    lemma_prefix_of_join(dst, r, q);
    let rq = relative(q, dst.len());
    if q.is_prefix_of(dst) {
        if below(q, dst) {
            lemma_prefix(dst, q, dst, dst);
            assert(rq =~= empty);
        }
        assert(q =~= dst.take(k));
        assert(is_file(t, dst.take(k)));
        assert(blocked(t, dst));
    } else {
        let m = k - dst.len();
        assert(rq == r.take(m));
        if m < r.len() {
            lemma_above_pending(t, pending, src, dst, n, m);
        } else {
            assert(r.take(m) =~= r);
        }
        assert(is_dir(t, src + rq));
        assert(!q.is_prefix_of(dst));
        assert(is_file(t, q));
        assert(!agree(t, src, dst, rq));
    }
}

/// A file that is pending lies in a directory that is made already; if a
/// directory is in its place, source and destination do not agree.
pub proof fn lemma_copy_ready(
    t: TreeModel,
    now: TreeModel,
    pending: Seq<ItemModel>,
    src: PathModel,
    dst: PathModel,
)
    requires
        copying(t, now, pending, src, dst),
        tree_wf(now),
        pending.len() > 0,
        !pending.last().is_dir,
    ensures
        pending.last().dest.len() > 0,
        !blocked(now, pending.last().dest.drop_last()),
        with_dirs(now, pending.last().dest.drop_last()) == now,
        is_file(now, pending.last().source),
        now[pending.last().source] == t[pending.last().source],
        is_dir(now, pending.last().dest.drop_last()),
        is_dir(now, pending.last().dest) ==> !conflict_free(t, src, dst),
{
    let n = pending.len() - 1;
    let r = place(pending, src, n);
    let target = dst + r;
    assert(item_ok(t, pending, src, dst, n));
    lemma_join(src, r);
    lemma_join(dst, r);
    lemma_source_intact(t, pending, src, dst, r);
    assert(r.len() > 0);
    let parent = r.drop_last();
    let above = dst + parent;
    assert(target.drop_last() =~= above);
    assert(parent =~= r.take(r.len() - 1));
    lemma_above_pending(t, pending, src, dst, n, r.len() - 1);
    lemma_join(dst, parent);
    assert(done(t, pending, src, parent));
    assert(is_dir(now, above));
    lemma_ancestors(now, above);
    assert(above.take(above.len() as int) =~= above);
    assert(!blocked(now, above)) by {
        if blocked(now, above) {
            let k = choose|k: int| 0 <= k <= above.len() && #[trigger] is_file(now, above.take(k));
            if k < above.len() {
                assert(is_dir(now, above.take(k)));
            }
        }
    }
    assert forall|q: PathModel| q.is_prefix_of(above) implies now.dom().contains(q) by {
        assert(q =~= above.take(q.len() as int));
        if q.len() < above.len() {
            assert(is_dir(now, above.take(q.len() as int)));
        }
    }
    assert(with_dirs(now, above) =~= now);
    if is_dir(now, target) {
        assert(covers(pending[n], src, r));
        assert(!done(t, pending, src, r));
        if target.is_prefix_of(dst) {
            lemma_prefix(dst, target, dst, dst);
        }
        assert(t.dom().contains(target) && t[target] is Directory);
        assert(!agree(t, src, dst, r));
    }
}

/// What the work-list stands for once a file is copied: what it stood for
/// before, without the file.
proof fn lemma_cover_after_copy(
    t: TreeModel,
    pending: Seq<ItemModel>,
    src: PathModel,
    dst: PathModel,
    x: PathModel,
)
    requires
        work_ok(t, pending, src, dst),
        pending.len() > 0,
        !pending.last().is_dir,
    ensures
        covered(pending.drop_last(), src, x) <==> covered(pending, src, x) && x != place(
            pending,
            src,
            pending.len() - 1,
        ),
{
    let n = pending.len() - 1;
    let r = place(pending, src, n);
    let rest = pending.drop_last();
    assert(item_ok(t, pending, src, dst, n));
    lemma_covered_last(pending, src, x);
    if covered(rest, src, r) {
        let j = choose|j: int| 0 <= j < rest.len() && covers(#[trigger] rest[j], src, r);
        assert(rest[j] == pending[j]);
        assert(!covers(pending[j], src, r));
    }
}

/// Once a file is copied, the rest of the work-list is sound, the file
/// system holds all that is dealt with, nothing stood in its way, and less
/// of the source is left to deal with.
pub proof fn lemma_copied(
    t: TreeModel,
    now: TreeModel,
    pending: Seq<ItemModel>,
    src: PathModel,
    dst: PathModel,
)
    requires
        copying(t, now, pending, src, dst),
        pending.len() > 0,
        !pending.last().is_dir,
        !is_dir(now, pending.last().dest),
    ensures
        copying(
            t,
            now.insert(pending.last().dest, t[pending.last().source]),
            pending.drop_last(),
            src,
            dst,
        ),
        remaining(t, pending.drop_last(), src).len() < remaining(t, pending, src).len(),
{
    let n = pending.len() - 1;
    let r = place(pending, src, n);
    let rest = pending.drop_last();
    let target = dst + r;
    let empty = Seq::<Seq<char>>::empty();
    assert(item_ok(t, pending, src, dst, n));
    lemma_join(src, r);
    lemma_join(dst, r);
    lemma_join(src, empty);
    assert(r.len() > 0);
    assert(covers(pending[n], src, r));
    lemma_cover_after_copy(t, pending, src, dst, r);
    lemma_cover_after_copy(t, pending, src, dst, empty);
    assert forall|i: int| 0 <= i < rest.len() implies #[trigger] item_ok(t, rest, src, dst, i) by {
        assert(rest[i] == pending[i]);
        assert(item_ok(t, pending, src, dst, i));
        let rel = relative(rest[i].source, src.len());
        if rel.len() > 0 {
            lemma_cover_after_copy(t, pending, src, dst, rel.drop_last());
        }
        assert forall|j: int| 0 <= j < rest.len() && j != i implies !covers(
            #[trigger] rest[j],
            src,
            rel,
        ) by {
            assert(rest[j] == pending[j]);
        }
    }
    let lhs = now.insert(target, t[src + r]);
    let rhs = copied_so_far(t, rest, src, dst);
    assert forall|p: PathModel|
        (#[trigger] lhs.dom().contains(p)) == rhs.dom().contains(p) && (lhs.dom().contains(p)
            ==> lhs[p] == rhs[p]) by {
        let rp = relative(p, dst.len());
        lemma_cover_after_copy(t, pending, src, dst, rp);
        if below(p, dst) {
            lemma_split(dst, p);
        }
    }
    assert(lhs =~= rhs);
    assert forall|x: PathModel| done(t, rest, src, x) implies #[trigger] agree(t, src, dst, x) by {
        lemma_cover_after_copy(t, pending, src, dst, x);
        if x == r {
            if target.is_prefix_of(dst) {
                lemma_prefix(dst, target, dst, dst);
            }
            assert(t.dom().contains(target) ==> now.dom().contains(target) && now[target]
                == t[target]);
        }
    }
    let before = remaining(t, pending, src);
    let after = remaining(t, rest, src);
    assert forall|p: PathModel| after.contains(p) implies before.contains(p) by {
        lemma_cover_after_copy(t, pending, src, dst, relative(p, src.len()));
    }
    assert(before.subset_of(t.dom()));
    vstd::set_lib::lemma_set_subset_finite(t.dom(), before);
    assert(before.contains(src + r));
    assert(!after.contains(src + r));
    after.lemma_subset_not_in_lt(before, src + r);
}

/// Once a directory is listed and made at the destination, and its entries
/// are added to the work-list, what holds while a tree is copied holds
/// again, and less of the source is left to deal with.
pub proof fn lemma_entered(
    t: TreeModel,
    now: TreeModel,
    pending: Seq<ItemModel>,
    src: PathModel,
    dst: PathModel,
    entries: Seq<EntryModel>,
)
    requires
        copying(t, now, pending, src, dst),
        pending.len() > 0,
        pending.last().is_dir,
        lists(now, pending.last().source, entries),
        !blocked(now, pending.last().dest),
    ensures
        copying(t, with_dirs(now, pending.last().dest), after_enter(pending, entries), src, dst),
        remaining(t, after_enter(pending, entries), src).len() < remaining(t, pending, src).len(),
{
    let n = pending.len() - 1;
    assert(item_ok(t, pending, src, dst, n));
    lemma_lists_intact(t, pending, src, dst, place(pending, src, n), entries);
    lemma_entered_work(t, pending, src, dst, entries);
    lemma_entered_tree(t, now, pending, src, dst, entries);
    lemma_entered_checked(t, now, pending, src, dst, entries);
    lemma_entered_measure(t, pending, src, dst, entries);
}

} // verus!
