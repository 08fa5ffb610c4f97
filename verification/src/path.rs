//! Paths as sequences of components.
//!
//! A path is the list of names that leads from the working directory to an
//! entry.  No component is interpreted: two paths are the same exactly when
//! their components are, and one lies below another exactly when the other
//! is a prefix of it.

use vstd::prelude::*;
use vstd::string::StringExecFns;

verus! {

/// The mathematical value of a path: its components, outermost first.
pub type PathModel = Seq<Seq<char>>;

/// `p` lies at or below `base`.
pub open spec fn below(p: PathModel, base: PathModel) -> bool {
    base.is_prefix_of(p)
}

/// The part of `p` that follows its first `n` components.
pub open spec fn relative(p: PathModel, n: nat) -> PathModel {
    p.skip(n as int)
}

/// Neither of the two paths lies at or below the other.
pub open spec fn apart(a: PathModel, b: PathModel) -> bool {
    !a.is_prefix_of(b) && !b.is_prefix_of(a)
}

/// What follows `a` in `a + r` is `r`.
pub proof fn lemma_join(a: PathModel, r: PathModel)
    ensures
        relative(a + r, a.len()) == r,
        below(a + r, a),
        (a + r).len() == a.len() + r.len(),
        r.len() == 0 ==> a + r == a,
{
    assert((a + r).skip(a.len() as int) =~= r);
    assert((a + r).subrange(0, a.len() as int) =~= a);
    if r.len() == 0 {
        assert(a + r =~= a);
    }
}

/// A path below `a` is `a` followed by what follows `a` in it.
pub proof fn lemma_split(a: PathModel, p: PathModel)
    requires
        below(p, a),
    ensures
        p == a + relative(p, a.len()),
{
    assert(p =~= a + p.skip(a.len() as int));
}

/// Going down by `name` from `a + r` leads to `a + r.push(name)`.
pub proof fn lemma_step_down(a: PathModel, r: PathModel, name: Seq<char>)
    ensures
        (a + r).push(name) == a + r.push(name),
        r.push(name).drop_last() == r,
        r.is_prefix_of(r.push(name)),
{
    assert((a + r).push(name) =~= a + r.push(name));
    assert(r.push(name).drop_last() =~= r);
    assert(r.push(name).subrange(0, r.len() as int) =~= r);
}

/// Being a prefix is preserved when the same path is set in front, and
/// passes on from prefix to prefix.
pub proof fn lemma_prefix(a: PathModel, x: PathModel, y: PathModel, z: PathModel)
    ensures
        x.is_prefix_of(y) <==> (a + x).is_prefix_of(a + y),
        x.is_prefix_of(y) && y.is_prefix_of(z) ==> x.is_prefix_of(z),
        x.is_prefix_of(z) && y.is_prefix_of(z) && x.len() <= y.len() ==> x.is_prefix_of(y),
        x.is_prefix_of(y) && x.len() == y.len() ==> x == y,
        a + x == a + y ==> x == y,
{
    if x.is_prefix_of(y) {
        assert((a + y).subrange(0, (a + x).len() as int) =~= a + x);
    }
    if (a + x).is_prefix_of(a + y) {
        assert(y.subrange(0, x.len() as int) =~= (a + y).subrange(0, (a + x).len() as int).skip(
            a.len() as int,
        ));
        assert((a + x).skip(a.len() as int) =~= x);
        assert(y.subrange(0, x.len() as int) =~= x);
    }
    if x.is_prefix_of(y) && y.is_prefix_of(z) {
        assert(z.subrange(0, x.len() as int) =~= y.subrange(0, x.len() as int));
    }
    if x.is_prefix_of(z) && y.is_prefix_of(z) && x.len() <= y.len() {
        assert(y.subrange(0, x.len() as int) =~= z.subrange(0, x.len() as int));
    }
    if x.is_prefix_of(y) && x.len() == y.len() {
        assert(y.subrange(0, x.len() as int) =~= y);
    }
    if a + x == a + y {
        assert((a + x).skip(a.len() as int) =~= x);
        assert((a + y).skip(a.len() as int) =~= y);
    }
}

/// A path at or above `a + r` is at or above `a`, or is `a` followed by the
/// first components of `r`.
pub proof fn lemma_prefix_of_join(a: PathModel, r: PathModel, p: PathModel)
    requires
        p.is_prefix_of(a + r),
    ensures
        p.is_prefix_of(a) || (below(p, a) && a.len() < p.len() <= a.len() + r.len() && relative(
            p,
            a.len(),
        ) == r.take(p.len() - a.len()) && p == a + r.take(p.len() - a.len())),
{
    let whole = a + r;
    if p.len() <= a.len() {
        assert(a.subrange(0, p.len() as int) =~= whole.subrange(0, p.len() as int));
    } else {
        let k = p.len() - a.len();
        assert(p.subrange(0, a.len() as int) =~= a);
        assert(p.skip(a.len() as int) =~= r.take(k));
        assert(p =~= a + r.take(k));
    }
}

/// Nothing at or below one of two paths that lie apart is at, above or
/// below anything at or below the other.
pub proof fn lemma_apart(a: PathModel, b: PathModel, x: PathModel, y: PathModel)
    requires
        apart(a, b),
    ensures
        !(a + x).is_prefix_of(b + y),
        !(b + y).is_prefix_of(a + x),
        a + x != b + y,
{
    lemma_join(a, x);
    lemma_join(b, y);
    let p = a + x;
    let q = b + y;
    if p.is_prefix_of(q) {
        lemma_prefix(p, a, b, q);
        if a.len() <= b.len() {
            assert(a.is_prefix_of(b));
        } else {
            lemma_prefix(p, b, a, q);
            assert(a.is_prefix_of(p) && p.is_prefix_of(q));
            assert(a.is_prefix_of(q));
            assert(b.is_prefix_of(a));
        }
    }
    if q.is_prefix_of(p) {
        lemma_prefix(p, b, a, p);
        assert(b.is_prefix_of(q) && q.is_prefix_of(p));
        assert(b.is_prefix_of(p));
        if a.len() <= b.len() {
            lemma_prefix(p, a, b, p);
            assert(a.is_prefix_of(b));
        } else {
            assert(b.is_prefix_of(a));
        }
    }
    if p == q {
        assert(p.subrange(0, p.len() as int) =~= p);
        assert(p.is_prefix_of(q));
    }
}

/// A path relative to the working directory.
#[derive(Debug)]
pub struct TreePath {
    pub components: Vec<String>,
}

impl View for TreePath {
    type V = PathModel;

    open spec fn view(&self) -> PathModel {
        Seq::new(self.components@.len(), |i: int| self.components@[i]@)
    }
}

impl TreePath {
    /// The working directory itself: the path without components.
    pub fn root() -> (p: TreePath)
        ensures
            p@ == Seq::<Seq<char>>::empty(),
    {
        let p = TreePath { components: Vec::new() };
        assert(p@ =~= Seq::<Seq<char>>::empty());
        p
    }

    /// The path of the entry `name` of the working directory.
    pub fn single(name: &str) -> (p: TreePath)
        ensures
            p@ == seq![name@],
    {
        let mut components: Vec<String> = Vec::new();
        components.push(String::from_str(name));
        let p = TreePath { components };
        assert(p@ =~= seq![name@]);
        p
    }

    /// The number of components.
    pub fn len(&self) -> (n: usize)
        ensures
            n == self@.len(),
    {
        self.components.len()
    }

    /// The component at position `i`.
    pub fn component(&self, i: usize) -> (name: &String)
        requires
            i < self@.len(),
        ensures
            name@ == self@[i as int],
    {
        &self.components[i]
    }

    /// The first `n` components of this path.
    pub fn prefix(&self, n: usize) -> (p: TreePath)
        requires
            n <= self@.len(),
        ensures
            p@ == self@.take(n as int),
    {
        let mut components: Vec<String> = Vec::new();
        let mut i: usize = 0;
        while i < n
            invariant
                i <= n <= self.components@.len(),
                components@.len() == i,
                forall|j: int| 0 <= j < i ==> components@[j]@ == self.components@[j]@,
            decreases n - i,
        {
            components.push(self.components[i].clone());
            i += 1;
        }
        let p = TreePath { components };
        assert(p@ =~= self@.take(n as int));
        p
    }

    /// A copy of this path.
    pub fn duplicate(&self) -> (p: TreePath)
        ensures
            p@ == self@,
    {
        let p = self.prefix(self.components.len());
        assert(self@.take(self@.len() as int) =~= self@);
        p
    }

    /// The path of the entry `name` of the directory at this path.
    pub fn join(&self, name: &str) -> (p: TreePath)
        ensures
            p@ == self@.push(name@),
    {
        let mut p = self.duplicate();
        p.components.push(String::from_str(name));
        assert(p@ =~= self@.push(name@));
        p
    }

    /// The directory that holds the entry at this path; the working directory
    /// is its own parent.
    pub fn parent(&self) -> (p: TreePath)
        ensures
            p@ == if self@.len() > 0 { self@.drop_last() } else { self@ },
    {
        if self.components.len() == 0 {
            self.duplicate()
        } else {
            self.prefix(self.components.len() - 1)
        }
    }

    /// Whether the two paths have the same components.
    pub fn same_as(&self, other: &TreePath) -> (same: bool)
        ensures
            same == (self@ == other@),
    {
        if self.components.len() != other.components.len() {
            assert(self@.len() != other@.len());
            return false;
        }
        let mut i: usize = 0;
        while i < self.components.len()
            invariant
                i <= self.components@.len(),
                self.components@.len() == other.components@.len(),
                forall|j: int| 0 <= j < i ==> self@[j] == other@[j],
            decreases self.components@.len() - i,
        {
            if self.components[i] != other.components[i] {
                assert(self@[i as int] != other@[i as int]);
                return false;
            }
            i += 1;
        }
        assert(self@ =~= other@);
        true
    }

    /// Whether this path lies at or below `base`.
    pub fn starts_with(&self, base: &TreePath) -> (under: bool)
        ensures
            under == below(self@, base@),
    {
        if base.components.len() > self.components.len() {
            return false;
        }
        let head = self.prefix(base.components.len());
        let under = head.same_as(base);
        assert(self@.subrange(0, base@.len() as int) =~= self@.take(base@.len() as int));
        under
    }
}

} // verus!
