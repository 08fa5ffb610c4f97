//! An in-memory file system: a tree of directories and files, by path.
//!
//! It offers the few operations that a scaffold needs of a file system, each
//! with the outcome that the operation of the same name has on a real one.

use vstd::prelude::*;
use crate::path::{below, PathModel, TreePath};
use crate::materializer::{entry_models, DirEntry, EntryModel};

verus! {

/// What is found at a path.
pub enum NodeModel {
    Directory,
    File(Seq<u8>),
}

/// A file system as a mathematical value: what is found at each path.
pub type TreeModel = Map<PathModel, NodeModel>;

/// A directory is found at `p`.
pub open spec fn is_dir(t: TreeModel, p: PathModel) -> bool {
    t.dom().contains(p) && t[p] is Directory
}

/// A file is found at `p`.
pub open spec fn is_file(t: TreeModel, p: PathModel) -> bool {
    t.dom().contains(p) && t[p] is File
}

/// What is found at `p`, unless it is the root, lies in a directory.
pub open spec fn housed(t: TreeModel, p: PathModel) -> bool {
    p.len() > 0 ==> is_dir(t, p.drop_last())
}

/// A tree is well formed when it is finite, its root is a directory, and
/// whatever it holds lies in a directory that it holds.
pub open spec fn tree_wf(t: TreeModel) -> bool {
    &&& t.dom().finite()
    &&& is_dir(t, Seq::<Seq<char>>::empty())
    &&& forall|p: PathModel| t.dom().contains(p) ==> #[trigger] housed(t, p)
}

/// The tree `t` once the directory `p` and its missing ancestors are made.
pub open spec fn with_dirs(t: TreeModel, p: PathModel) -> TreeModel {
    Map::new(
        |q: PathModel| t.dom().contains(q) || q.is_prefix_of(p),
        |q: PathModel|
            if t.dom().contains(q) {
                t[q]
            } else {
                NodeModel::Directory
            },
    )
}

/// Some path at or above `p` is a file.
pub open spec fn blocked(t: TreeModel, p: PathModel) -> bool {
    exists|k: int| 0 <= k <= p.len() && #[trigger] is_file(t, p.take(k))
}

/// `entries` lists the directory `p` of `t`: each entry is found in it as
/// what the entry says, nothing found in it is left out, and no name occurs
/// twice.
pub open spec fn lists(t: TreeModel, p: PathModel, entries: Seq<EntryModel>) -> bool {
    &&& forall|i: int|
        0 <= i < entries.len() ==> t.dom().contains(p.push(#[trigger] entries[i].name))
            && entries[i].is_dir == is_dir(t, p.push(entries[i].name))
    &&& forall|name: Seq<char>| #[trigger]
        t.dom().contains(p.push(name)) ==> exists|i: int|
            0 <= i < entries.len() && #[trigger] entries[i].name == name
    &&& forall|i: int, j: int|
        0 <= i < j < entries.len() ==> #[trigger] entries[i].name != #[trigger] entries[j].name
}

/// Why an operation on the file system was refused.
#[derive(PartialEq, Eq, Structural, Clone, Copy, Debug)]
pub enum FsError {
    /// Nothing is found at the path.
    NotFound,
    /// A file is found where a directory is needed.
    NotADirectory,
    /// A directory is found where a file is needed.
    IsADirectory,
}

/// Why `from` cannot be copied to `to`, if it cannot.
pub open spec fn copy_refusal(t: TreeModel, from: PathModel, to: PathModel) -> Option<FsError> {
    if !t.dom().contains(from) {
        Some(FsError::NotFound)
    } else if t[from] is Directory {
        Some(FsError::IsADirectory)
    } else {
        write_refusal(t, to)
    }
}

/// Why no file can be written at `to`, if none can.
pub open spec fn write_refusal(t: TreeModel, to: PathModel) -> Option<FsError> {
    if is_dir(t, to) {
        Some(FsError::IsADirectory)
    } else if to.len() == 0 || !t.dom().contains(to.drop_last()) {
        Some(FsError::NotFound)
    } else if t[to.drop_last()] is File {
        Some(FsError::NotADirectory)
    } else {
        None
    }
}

/// One entry of the file system; a directory has no content.
struct MemNode {
    path: TreePath,
    content: Option<Vec<u8>>,
}

/// What a node stands for.
spec fn node_model(n: MemNode) -> NodeModel {
    match n.content {
        Some(bytes) => NodeModel::File(bytes@),
        None => NodeModel::Directory,
    }
}

/// A file system held in memory.
pub struct MemFs {
    nodes: Vec<MemNode>,
}

impl View for MemFs {
    type V = TreeModel;

    closed spec fn view(&self) -> TreeModel {
        Map::new(
            |p: PathModel| self.index_of(p) >= 0,
            |p: PathModel| node_model(self.nodes@[self.index_of(p)]),
        )
    }
}

/// A copy of `bytes`.
fn copy_bytes(bytes: &Vec<u8>) -> (copy: Vec<u8>)
    ensures
        copy@ == bytes@,
{
    let mut copy: Vec<u8> = Vec::new();
    let mut i: usize = 0;
    while i < bytes.len()
        invariant
            i <= bytes@.len(),
            copy@ == bytes@.take(i as int),
        decreases bytes@.len() - i,
    {
        copy.push(bytes[i]);
        assert(bytes@.take(i + 1) =~= bytes@.take(i as int).push(bytes@[i as int]));
        i += 1;
    }
    assert(bytes@.take(i as int) =~= bytes@);
    copy
}

/// A path that has one component more than `p` and lies below it is `p`
/// with that component.
proof fn lemma_child(p: PathModel, q: PathModel)
    ensures
        q.len() == p.len() + 1 && below(q, p) <==> q == p.push(q.last()) && q.len() > 0,
        forall|name: Seq<char>| q == p.push(name) ==> q.last() == name && q.drop_last() == p,
{
    if q.len() == p.len() + 1 && below(q, p) {
        assert(q =~= p.push(q.last()));
    }
    if q == p.push(q.last()) && q.len() > 0 {
        assert(q.subrange(0, p.len() as int) =~= p);
    }
    assert forall|name: Seq<char>| q == p.push(name) implies q.last() == name && q.drop_last()
        == p by {
        assert(p.push(name).drop_last() =~= p);
    }
}

impl MemFs {
    /// Where the node of `p` is kept, or -1.
    closed spec fn index_of(&self, p: PathModel) -> int {
        if exists|i: int| 0 <= i < self.nodes@.len() && self.nodes@[i].path@ == p {
            choose|i: int| 0 <= i < self.nodes@.len() && self.nodes@[i].path@ == p
        } else {
            -1
        }
    }

    /// No path has two nodes.
    pub closed spec fn distinct(&self) -> bool {
        forall|i: int, j: int|
            0 <= i < j < self.nodes@.len() ==> self.nodes@[i].path@ != self.nodes@[j].path@
    }

    /// The file system is well formed: it holds one node for each path, and
    /// what it holds is a well-formed tree.
    pub open spec fn wf(&self) -> bool {
        self.distinct() && tree_wf(self@)
    }

    /// What is found at a path is the node that bears it.
    proof fn lemma_index(&self, p: PathModel)
        requires
            self.distinct(),
        ensures
            self@.dom().contains(p) <==> exists|i: int|
                0 <= i < self.nodes@.len() && self.nodes@[i].path@ == p,
            forall|i: int|
                0 <= i < self.nodes@.len() && self.nodes@[i].path@ == p ==> self@.dom().contains(p)
                    && self@[p] == node_model(self.nodes@[i]) && self.index_of(p) == i,
            !self@.dom().contains(p) ==> self.index_of(p) == -1,
    {
        if exists|i: int| 0 <= i < self.nodes@.len() && self.nodes@[i].path@ == p {
            let at = self.index_of(p);
            assert(0 <= at < self.nodes@.len() && self.nodes@[at].path@ == p);
        }
    }

    /// A file system that holds the root directory and nothing else.
    pub fn new() -> (fs: MemFs)
        ensures
            fs.wf(),
            fs@ == Map::<PathModel, NodeModel>::empty().insert(
                Seq::<Seq<char>>::empty(),
                NodeModel::Directory,
            ),
    {
        let mut nodes: Vec<MemNode> = Vec::new();
        nodes.push(MemNode { path: TreePath::root(), content: None });
        let fs = MemFs { nodes };
        proof {
            let want = Map::<PathModel, NodeModel>::empty().insert(
                Seq::<Seq<char>>::empty(),
                NodeModel::Directory,
            );
            assert(fs.nodes@[0].path@ == Seq::<Seq<char>>::empty());
            assert forall|p: PathModel|
                (#[trigger] fs@.dom().contains(p)) == want.dom().contains(p) && (fs@.dom().contains(
                    p,
                ) ==> fs@[p] == want[p]) by {
                fs.lemma_index(p);
            }
            assert(fs@ =~= want);
        }
        fs
    }

    /// The index of the node of `p`, if there is one.
    fn find(&self, p: &TreePath) -> (found: Option<usize>)
        requires
            self.distinct(),
        ensures
            match found {
                Some(i) => i < self.nodes@.len() && self.nodes@[i as int].path@ == p@
                    && self@.dom().contains(p@) && self@[p@] == node_model(self.nodes@[i as int]),
                None => !self@.dom().contains(p@),
            },
    {
        let mut i: usize = 0;
        while i < self.nodes.len()
            invariant
                self.distinct(),
                i <= self.nodes@.len(),
                forall|j: int| 0 <= j < i ==> self.nodes@[j].path@ != p@,
            decreases self.nodes@.len() - i,
        {
            if self.nodes[i].path.same_as(p) {
                proof {
                    self.lemma_index(p@);
                }
                return Some(i);
            }
            i += 1;
        }
        proof {
            self.lemma_index(p@);
        }
        None
    }

    /// Adds a node at a path that holds none.
    fn add(&mut self, path: TreePath, content: Option<Vec<u8>>)
        requires
            old(self).wf(),
            !old(self)@.dom().contains(path@),
            path@.len() > 0,
            is_dir(old(self)@, path@.drop_last()),
        ensures
            final(self).wf(),
            final(self)@ == old(self)@.insert(
                path@,
                match content {
                    Some(bytes) => NodeModel::File(bytes@),
                    None => NodeModel::Directory,
                },
            ),
    {
        let ghost before = self@;
        let ghost p = path@;
        let ghost at = self.nodes@.len() as int;
        let node = MemNode { path, content };
        let ghost m = node_model(node);
        self.nodes.push(node);
        proof {
            old(self).lemma_index(p);
            assert forall|j: int| 0 <= j < at implies (#[trigger] self.nodes@[j]) == old(
                self,
            ).nodes@[j] && self.nodes@[j].path@ != p by {}
            assert(self.distinct());
            let want = before.insert(p, m);
            assert forall|k: PathModel|
                (#[trigger] self@.dom().contains(k)) == want.dom().contains(k) && (self@.dom().contains(
                    k,
                ) ==> self@[k] == want[k]) by {
                self.lemma_index(k);
                old(self).lemma_index(k);
                if k == p {
                    assert(self.nodes@[at].path@ == k);
                } else {
                    if before.dom().contains(k) {
                        let j = choose|j: int|
                            0 <= j < old(self).nodes@.len() && old(self).nodes@[j].path@ == k;
                        assert(self.nodes@[j].path@ == k);
                    }
                    if self@.dom().contains(k) {
                        let j = choose|j: int|
                            0 <= j < self.nodes@.len() && self.nodes@[j].path@ == k;
                        assert(old(self).nodes@[j].path@ == k);
                    }
                }
            }
            assert(self@ =~= want);
            assert(tree_wf(self@)) by {
                assert forall|q: PathModel| self@.dom().contains(q) implies #[trigger] housed(
                    self@,
                    q,
                ) by {
                    if q != p {
                        assert(housed(before, q));
                    }
                }
            }
        }
    }

    /// Replaces the content of the file that the node at `i` holds.
    fn overwrite(&mut self, i: usize, bytes: Vec<u8>)
        requires
            old(self).wf(),
            i < old(self).nodes@.len(),
            old(self).nodes@[i as int].content is Some,
        ensures
            final(self).wf(),
            final(self)@ == old(self)@.insert(
                old(self).nodes@[i as int].path@,
                NodeModel::File(bytes@),
            ),
    {
        let ghost before = self@;
        let ghost p = self.nodes@[i as int].path@;
        let ghost m = NodeModel::File(bytes@);
        let path = self.nodes[i].path.duplicate();
        self.nodes.set(i, MemNode { path, content: Some(bytes) });
        proof {
            old(self).lemma_index(p);
            assert forall|j: int| 0 <= j < self.nodes@.len() implies (
            #[trigger] self.nodes@[j]).path@ == old(self).nodes@[j].path@ by {}
            assert(self.distinct());
            let want = before.insert(p, m);
            assert forall|k: PathModel|
                (#[trigger] self@.dom().contains(k)) == want.dom().contains(k) && (self@.dom().contains(
                    k,
                ) ==> self@[k] == want[k]) by {
                self.lemma_index(k);
                old(self).lemma_index(k);
                if k == p {
                    assert(self.nodes@[i as int].path@ == k);
                } else {
                    if before.dom().contains(k) {
                        let j = choose|j: int|
                            0 <= j < old(self).nodes@.len() && old(self).nodes@[j].path@ == k;
                        assert(self.nodes@[j].path@ == k);
                        assert(self.nodes@[j] == old(self).nodes@[j]);
                    }
                    if self@.dom().contains(k) {
                        let j = choose|j: int|
                            0 <= j < self.nodes@.len() && self.nodes@[j].path@ == k;
                        assert(old(self).nodes@[j].path@ == k);
                        assert(self.nodes@[j] == old(self).nodes@[j]);
                    }
                }
            }
            assert(self@ =~= want);
            assert(self@.dom() =~= before.dom());
            assert(tree_wf(self@)) by {
                assert forall|q: PathModel| self@.dom().contains(q) implies #[trigger] housed(
                    self@,
                    q,
                ) by {
                    assert(housed(before, q));
                    if q.len() > 0 && q.drop_last() == p {
                        assert(housed(before, p));
                        assert(is_dir(before, p));
                    }
                }
            }
        }
    }

    /// Whether anything, file or directory, is found at `p`.
    pub fn contains(&self, p: &TreePath) -> (found: bool)
        requires
            self.wf(),
        ensures
            found == self@.dom().contains(p@),
    {
        self.find(p).is_some()
    }

    /// Whether a directory is found at `p`.
    pub fn is_dir(&self, p: &TreePath) -> (found: bool)
        requires
            self.wf(),
        ensures
            found == is_dir(self@, p@),
    {
        match self.find(p) {
            Some(i) => self.nodes[i].content.is_none(),
            None => false,
        }
    }

    /// The bytes of the file at `p`; `None` if no file is found there.
    pub fn read_file(&self, p: &TreePath) -> (bytes: Option<Vec<u8>>)
        requires
            self.wf(),
        ensures
            bytes is Some <==> is_file(self@, p@),
            bytes matches Some(b) ==> self@[p@] == NodeModel::File(b@),
    {
        match self.find(p) {
            Some(i) => match &self.nodes[i].content {
                Some(b) => Some(copy_bytes(b)),
                None => None,
            },
            None => None,
        }
    }

    /// Makes the directory `p` and each ancestor that is missing.  Refused,
    /// with nothing changed, when a file is in the way.
    pub fn create_dir_all(&mut self, p: &TreePath) -> (made: Result<(), FsError>)
        requires
            old(self).wf(),
        ensures
            final(self).wf(),
            made is Err <==> blocked(old(self)@, p@),
            made is Ok ==> final(self)@ == with_dirs(old(self)@, p@),
            made matches Err(e) ==> e == FsError::NotADirectory && final(self)@ == old(self)@,
    {
        let ghost before = self@;
        let mut k: usize = 0;
        proof {
            lemma_made_root(before, p@);
        }
        while k < p.len()
            invariant
                self.wf(),
                tree_wf(before),
                before == old(self)@,
                k <= p@.len(),
                self@ == made_up_to(before, p@, k + 1),
                forall|j: int| 0 <= j <= k ==> is_dir(before, #[trigger] p@.take(j)) || !before.dom().contains(
                    p@.take(j),
                ),
            decreases p@.len() - k,
        {
            k += 1;
            let prefix = p.prefix(k);
            match self.find(&prefix) {
                Some(i) => {
                    if self.nodes[i].content.is_some() {
                        proof {
                            lemma_made_blocked(before, p@, k as int);
                        }
                        return Err(FsError::NotADirectory);
                    }
                },
                None => {
                    proof {
                        lemma_made_missing(before, p@, k as int);
                    }
                    self.add(prefix, None);
                },
            }
            proof {
                lemma_made_next(before, p@, k as int);
            }
        }
        proof {
            lemma_made_all(before, p@);
            assert(!blocked(before, p@)) by {
                if blocked(before, p@) {
                    let j = choose|j: int| 0 <= j <= p@.len() && #[trigger] is_file(before, p@.take(j));
                    assert(is_dir(before, p@.take(j)) || !before.dom().contains(p@.take(j)));
                }
            }
        }
        Ok(())
    }

    /// Writes a file at `to`, in place of the file that may be there.
    /// Refused, with nothing changed, when `to` is a directory or does not
    /// lie in one.
    pub fn write_file(&mut self, to: &TreePath, bytes: Vec<u8>) -> (written: Result<(), FsError>)
        requires
            old(self).wf(),
        ensures
            final(self).wf(),
            written == match write_refusal(old(self)@, to@) {
                Some(e) => Err::<(), FsError>(e),
                None => Ok(()),
            },
            written is Ok ==> final(self)@ == old(self)@.insert(to@, NodeModel::File(bytes@)),
            written is Err ==> final(self)@ == old(self)@,
    {
        match self.find(to) {
            Some(i) => {
                if self.nodes[i].content.is_none() {
                    return Err(FsError::IsADirectory);
                }
                proof {
                    if to@.len() == 0 {
                        assert(to@ =~= Seq::<Seq<char>>::empty());
                    }
                    assert(housed(self@, to@));
                }
                self.overwrite(i, bytes);
                Ok(())
            },
            None => {
                if to.len() == 0 {
                    return Err(FsError::NotFound);
                }
                let parent = to.parent();
                match self.find(&parent) {
                    None => Err(FsError::NotFound),
                    Some(j) => {
                        if self.nodes[j].content.is_some() {
                            return Err(FsError::NotADirectory);
                        }
                        self.add(to.duplicate(), Some(bytes));
                        Ok(())
                    },
                }
            },
        }
    }

    /// Copies the bytes of the file `from` to `to`, in place of the file
    /// that may be there.  Refused, with nothing changed, when `from` is no
    /// file, or `to` is a directory or does not lie in one.
    pub fn copy_file(&mut self, from: &TreePath, to: &TreePath) -> (copied: Result<(), FsError>)
        requires
            old(self).wf(),
        ensures
            final(self).wf(),
            copied == match copy_refusal(old(self)@, from@, to@) {
                Some(e) => Err::<(), FsError>(e),
                None => Ok(()),
            },
            copied is Ok ==> final(self)@ == old(self)@.insert(to@, old(self)@[from@]),
            copied is Err ==> final(self)@ == old(self)@,
    {
        match self.find(from) {
            None => Err(FsError::NotFound),
            Some(i) => {
                let bytes = match &self.nodes[i].content {
                    None => {
                        return Err(FsError::IsADirectory);
                    },
                    Some(b) => copy_bytes(b),
                };
                self.write_file(to, bytes)
            },
        }
    }

    /// Lists the directory `p`.
    pub fn read_dir(&self, p: &TreePath) -> (listing: Result<Vec<DirEntry>, FsError>)
        requires
            self.wf(),
        ensures
            listing is Ok <==> is_dir(self@, p@),
            listing matches Ok(entries) ==> lists(self@, p@, entry_models(entries@)),
            listing matches Err(e) ==> e == (if self@.dom().contains(p@) {
                FsError::NotADirectory
            } else {
                FsError::NotFound
            }),
    {
        match self.find(p) {
            None => {
                return Err(FsError::NotFound);
            },
            Some(i) => {
                if self.nodes[i].content.is_some() {
                    return Err(FsError::NotADirectory);
                }
            },
        }
        let mut entries: Vec<DirEntry> = Vec::new();
        let ghost mut origin: Seq<int> = Seq::empty();
        let mut j: usize = 0;
        while j < self.nodes.len()
            invariant
                self.wf(),
                j <= self.nodes@.len(),
                origin.len() == entries@.len(),
                forall|a: int|
                    0 <= a < entries@.len() ==> 0 <= #[trigger] origin[a] < j && self.nodes@[origin[a]].path@
                        == p@.push(entries@[a].name@) && entries@[a].is_dir == (
                    self.nodes@[origin[a]].content is None),
                forall|a: int, b: int| 0 <= a < b < origin.len() ==> origin[a] < origin[b],
                forall|c: int|
                    0 <= c < j && (#[trigger] self.nodes@[c]).path@.len() == p@.len() + 1 && below(
                        self.nodes@[c].path@,
                        p@,
                    ) ==> exists|a: int| 0 <= a < origin.len() && origin[a] == c,
            decreases self.nodes@.len() - j,
        {
            let q = &self.nodes[j].path;
            if q.len() > 0 && q.len() - 1 == p.len() && q.starts_with(p) {
                let name = q.component(p.len()).clone();
                proof {
                    lemma_child(p@, q@);
                    assert(q@.last() == name@);
                }
                let ghost prev = origin;
                entries.push(DirEntry { name, is_dir: self.nodes[j].content.is_none() });
                proof {
                    origin = origin.push(j as int);
                    assert forall|c: int|
                        0 <= c < j + 1 && (#[trigger] self.nodes@[c]).path@.len() == p@.len() + 1
                            && below(self.nodes@[c].path@, p@) implies exists|a: int|
                        0 <= a < origin.len() && origin[a] == c by {
                        if c < j {
                            let a = choose|a: int| 0 <= a < prev.len() && prev[a] == c;
                            assert(origin[a] == c);
                        } else {
                            assert(origin[prev.len() as int] == c);
                        }
                    }
                }
            }
            j += 1;
        }
        proof {
            let es = entry_models(entries@);
            assert forall|a: int| 0 <= a < es.len() implies self@.dom().contains(
                p@.push(#[trigger] es[a].name),
            ) && es[a].is_dir == is_dir(self@, p@.push(es[a].name)) by {
                self.lemma_index(p@.push(es[a].name));
                assert(self.nodes@[origin[a]].path@ == p@.push(es[a].name));
            }
            assert forall|name: Seq<char>| #[trigger]
                self@.dom().contains(p@.push(name)) implies exists|a: int|
                0 <= a < es.len() && #[trigger] es[a].name == name by {
                let q = p@.push(name);
                self.lemma_index(q);
                let c = choose|c: int| 0 <= c < self.nodes@.len() && self.nodes@[c].path@ == q;
                lemma_child(p@, q);
                assert(self.nodes@[c].path@.len() == p@.len() + 1);
                let a = choose|a: int| 0 <= a < origin.len() && origin[a] == c;
                lemma_child(p@, p@.push(es[a].name));
                assert(es[a].name == name);
            }
            assert forall|a: int, b: int| 0 <= a < b < es.len() implies #[trigger] es[a].name
                != #[trigger] es[b].name by {
                assert(origin[a] < origin[b]);
            }
        }
        Ok(entries)
    }
}

/// The tree `t` once the first `k` of the paths at or above `p`, outermost
/// first, are made as directories where they are missing.
pub open spec fn made_up_to(t: TreeModel, p: PathModel, k: int) -> TreeModel {
    Map::new(
        |q: PathModel| t.dom().contains(q) || (q.is_prefix_of(p) && q.len() < k),
        |q: PathModel|
            if t.dom().contains(q) {
                t[q]
            } else {
                NodeModel::Directory
            },
    )
}

/// The root is there from the start.
proof fn lemma_made_root(t: TreeModel, p: PathModel)
    requires
        tree_wf(t),
    ensures
        made_up_to(t, p, 1) == t,
        is_dir(t, p.take(0)),
{
    assert(p.take(0) =~= Seq::<Seq<char>>::empty());
    assert forall|q: PathModel| q.len() < 1 implies q == Seq::<Seq<char>>::empty() by {
        assert(q =~= Seq::<Seq<char>>::empty());
    }
    assert(made_up_to(t, p, 1) =~= t);
}

/// Once each path at or above `p` is made, the directory `p` is made with
/// its ancestors.
proof fn lemma_made_all(t: TreeModel, p: PathModel)
    ensures
        made_up_to(t, p, p.len() as int + 1) == with_dirs(t, p),
{
    assert(made_up_to(t, p, p.len() as int + 1) =~= with_dirs(t, p));
}

/// A file that is found in the way was there from the start, and nothing
/// has been made above it.
proof fn lemma_made_blocked(t: TreeModel, p: PathModel, k: int)
    requires
        tree_wf(t),
        0 <= k <= p.len(),
        is_file(made_up_to(t, p, k), p.take(k)),
    ensures
        is_file(t, p.take(k)),
        blocked(t, p),
        made_up_to(t, p, k) == t,
{
    let prefix = p.take(k);
    assert(t.dom().contains(prefix));
    lemma_ancestors(t, prefix);
    assert forall|q: PathModel| q.is_prefix_of(p) && q.len() < k implies t.dom().contains(q) by {
        assert(q =~= prefix.take(q.len() as int));
    }
    assert(made_up_to(t, p, k) =~= t);
}

/// A path that is missing is not the root, and lies in a directory that is
/// made already.
proof fn lemma_made_missing(t: TreeModel, p: PathModel, k: int)
    requires
        tree_wf(t),
        0 <= k <= p.len(),
        !made_up_to(t, p, k).dom().contains(p.take(k)),
        forall|j: int| 0 <= j < k ==> is_dir(t, #[trigger] p.take(j)) || !t.dom().contains(p.take(j)),
    ensures
        k > 0,
        is_dir(made_up_to(t, p, k), p.take(k).drop_last()),
        made_up_to(t, p, k).insert(p.take(k), NodeModel::Directory) == made_up_to(t, p, k + 1),
        !t.dom().contains(p.take(k)),
{
    if k == 0 {
        assert(p.take(0) =~= Seq::<Seq<char>>::empty());
    }
    let parent = p.take(k).drop_last();
    assert(parent =~= p.take(k - 1));
    assert(parent.is_prefix_of(p));
    assert(is_dir(t, p.take(k - 1)) || !t.dom().contains(p.take(k - 1)));
    assert forall|q: PathModel| q.is_prefix_of(p) && q.len() < k + 1 && q.len() >= k implies q
        == p.take(k) by {
        assert(q =~= p.take(k));
    }
    assert(p.take(k).is_prefix_of(p));
    assert(made_up_to(t, p, k).insert(p.take(k), NodeModel::Directory) =~= made_up_to(t, p, k + 1));
}

/// Once the path of length `k` is found as a directory, the first `k + 1`
/// paths are made.
proof fn lemma_made_next(t: TreeModel, p: PathModel, k: int)
    requires
        0 <= k <= p.len(),
    ensures
        is_dir(made_up_to(t, p, k), p.take(k)) ==> made_up_to(t, p, k) == made_up_to(t, p, k + 1)
            && (is_dir(t, p.take(k)) || !t.dom().contains(p.take(k))),
        made_up_to(t, p, k + 1).dom().contains(p.take(k)),
{
    assert(p.take(k).is_prefix_of(p));
    if is_dir(made_up_to(t, p, k), p.take(k)) {
        assert forall|q: PathModel| q.is_prefix_of(p) && q.len() < k + 1 && q.len() >= k implies q
            == p.take(k) by {
            assert(q =~= p.take(k));
        }
        assert(made_up_to(t, p, k) =~= made_up_to(t, p, k + 1));
    }
}

/// In a well-formed tree, whatever lies above something that is found is a
/// directory.
pub proof fn lemma_ancestors(t: TreeModel, p: PathModel)
    requires
        tree_wf(t),
        t.dom().contains(p),
    ensures
        forall|k: int| 0 <= k < p.len() ==> is_dir(t, #[trigger] p.take(k)),
    decreases p.len(),
{
    if p.len() > 0 {
        let parent = p.drop_last();
        assert(housed(t, p));
        lemma_ancestors(t, parent);
        assert forall|k: int| 0 <= k < p.len() implies is_dir(t, #[trigger] p.take(k)) by {
            if k == p.len() - 1 {
                assert(p.take(k) =~= parent);
            } else {
                assert(p.take(k) =~= parent.take(k));
            }
        }
    }
}

} // verus!
