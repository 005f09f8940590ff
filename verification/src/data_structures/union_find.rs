//! A union-find structure over the nodes `0..size`.
//!
//! The view of the structure is the sequence that gives, for every node, the
//! representative of the component the node belongs to. Two nodes are
//! connected exactly when they have the same representative.

use vstd::prelude::*;
use vstd::set_lib::{lemma_int_range, lemma_len_subset, lemma_set_disjoint_lens, set_int_range};

verus! {

/// Why an operation on a [`UnionFind`] was refused.
#[derive(Clone, Copy, Debug, PartialEq, Eq, Structural)]
pub enum UnionFindError {
    /// A structure over no nodes was asked for.
    UnionFindSizeError,
    /// The node is not among `0..size`.
    UnionFindInvalidId,
}

/// A partition of the nodes `0..size` into components.
pub struct UnionFind {
    /// The number of nodes; never 0.
    size: usize,
    /// `sizes[r]` is the number of nodes in the component of which `r` is the
    /// representative.
    sizes: Vec<usize>,
    /// `id[i]` is the parent of node `i`; a node that is its own parent is a
    /// representative.
    id: Vec<usize>,
    /// The number of components that the structure was created with.
    num_components: usize,
    /// For every node a bound on the number of links between it and its
    /// representative, smaller at the parent than at the child.
    depth: Ghost<Seq<nat>>,
}

/// Every parent is a node, and every link leads to a smaller depth.
spec fn links(id: Seq<usize>, depth: Seq<nat>) -> bool {
    &&& id.len() == depth.len()
    &&& forall|i: int| 0 <= i < id.len() ==> #[trigger] id[i] < id.len()
    &&& forall|i: int|
        0 <= i < id.len() && #[trigger] id[i] != i ==> depth[id[i] as int] < depth[i]
}

/// Whether `p` is a node with a parent other than itself, one link nearer
/// to the representative.
spec fn has_parent(id: Seq<usize>, depth: Seq<nat>, p: int) -> bool {
    &&& 0 <= p < id.len()
    &&& id[p] != p
    &&& id[p] < id.len()
    &&& id.len() == depth.len()
    &&& depth[id[p] as int] < depth[p]
}

/// The node reached from `p` by following parents until one is its own
/// parent.
spec fn root_from(id: Seq<usize>, depth: Seq<nat>, p: int) -> int
    decreases depth[p],
{
    if has_parent(id, depth, p) {
        root_from(id, depth, id[p] as int)
    } else {
        p
    }
}

/// Whether `x` is `p` or lies between `p` and its representative.
spec fn on_path(id: Seq<usize>, depth: Seq<nat>, p: int, x: int) -> bool
    decreases depth[p],
{
    x == p || (has_parent(id, depth, p) && on_path(id, depth, id[p] as int, x))
}

/// The nodes whose representative is `r`.
spec fn class(id: Seq<usize>, depth: Seq<nat>, r: int) -> Set<int> {
    Set::new(|x: int| 0 <= x < id.len() && root_from(id, depth, x) == r)
}

/// The parents after `p` was looked up: every node on the path of `p` points
/// at the representative.
spec fn compressed(id: Seq<usize>, depth: Seq<nat>, p: int) -> Seq<usize> {
    Seq::new(
        id.len(),
        |x: int|
            if on_path(id, depth, p, x) {
                root_from(id, depth, p) as usize
            } else {
                id[x]
            },
    )
}

/// The depths after the component of `from` was hung below `to`.
spec fn depth_after_link(id: Seq<usize>, depth: Seq<nat>, from: int, to: int) -> Seq<nat> {
    Seq::new(
        depth.len(),
        |x: int|
            if root_from(id, depth, x) == from {
                depth[x] + depth[to] + 1
            } else {
                depth[x]
            },
    )
}

proof fn lemma_root(id: Seq<usize>, depth: Seq<nat>, p: int)
    requires
        links(id, depth),
        0 <= p < id.len(),
    ensures
        0 <= root_from(id, depth, p) < id.len(),
        id[root_from(id, depth, p)] == root_from(id, depth, p),
        depth[root_from(id, depth, p)] <= depth[p],
        root_from(id, depth, p) == p <==> id[p] == p,
        root_from(id, depth, root_from(id, depth, p)) == root_from(id, depth, p),
        on_path(id, depth, p, root_from(id, depth, p)),
    decreases depth[p],
{
    if id[p] != p {
        lemma_root(id, depth, id[p] as int);
    }
}

proof fn lemma_on_path(id: Seq<usize>, depth: Seq<nat>, p: int, x: int)
    requires
        links(id, depth),
        0 <= p < id.len(),
        on_path(id, depth, p, x),
    ensures
        0 <= x < id.len(),
        depth[x] <= depth[p],
        root_from(id, depth, x) == root_from(id, depth, p),
        id[x] != x ==> on_path(id, depth, p, id[x] as int),
    decreases depth[p],
{
    if x != p {
        lemma_on_path(id, depth, id[p] as int, x);
    } else if id[x] != x {
        assert(id[p] < id.len());
        assert(on_path(id, depth, id[p] as int, id[p] as int));
    }
}

proof fn lemma_on_path_transitive(id: Seq<usize>, depth: Seq<nat>, p: int, q: int, x: int)
    requires
        links(id, depth),
        0 <= p < id.len(),
        on_path(id, depth, p, q),
        on_path(id, depth, q, x),
    ensures
        on_path(id, depth, p, x),
    decreases depth[p],
{
    if q != p {
        lemma_on_path_transitive(id, depth, id[p] as int, q, x);
    }
}

proof fn lemma_class_finite(id: Seq<usize>, depth: Seq<nat>, r: int)
    ensures
        class(id, depth, r).finite(),
        class(id, depth, r).len() <= id.len(),
{
    lemma_int_range(0, id.len() as int);
    assert(class(id, depth, r).subset_of(set_int_range(0, id.len() as int)));
    lemma_len_subset(class(id, depth, r), set_int_range(0, id.len() as int));
}

/// Pointing `p` straight at its representative changes no representative.
proof fn lemma_compress(id: Seq<usize>, depth: Seq<nat>, p: int, x: int)
    requires
        links(id, depth),
        0 <= p < id.len(),
        0 <= x < id.len(),
    ensures
        links(id.update(p, root_from(id, depth, p) as usize), depth),
        root_from(id.update(p, root_from(id, depth, p) as usize), depth, x)
            == root_from(id, depth, x),
    decreases depth[x],
{
    let root = root_from(id, depth, p);
    let after = id.update(p, root as usize);
    lemma_root(id, depth, p);
    assert(links(after, depth)) by {
        assert forall|i: int| 0 <= i < after.len() implies #[trigger] after[i] < after.len() by {
            assert(id[i] < id.len());
        }
        assert forall|i: int|
            0 <= i < after.len() && #[trigger] after[i] != i implies depth[after[i] as int]
            < depth[i] by {
            assert(id[i] < id.len());
            if i == p {
                lemma_root(id, depth, id[p] as int);
            }
        }
    }
    if x == p {
        if root != p {
            assert(id[p] < id.len());
            lemma_root(id, depth, id[p] as int);
            assert(after[root] == root);
            assert(root_from(after, depth, root) == root);
            assert(after[p] == root);
            assert(depth[root] < depth[p]);
            assert(root_from(after, depth, p) == root_from(after, depth, root));
        } else {
            assert(after =~= id);
        }
    } else if id[x] != x {
        assert(id[x] < id.len());
        lemma_compress(id, depth, p, id[x] as int);
        assert(after[x] == id[x]);
        assert(root_from(after, depth, x) == root_from(after, depth, id[x] as int));
    } else {
        assert(after[x] == x);
    }
}

/// The path of `q` after `p` was looked up: it is part of the path that `q`
/// had, and it leaves out only nodes of the path of `p`.
proof fn lemma_path_after_lookup(id: Seq<usize>, depth: Seq<nat>, p: int, q: int, x: int)
    requires
        links(id, depth),
        links(compressed(id, depth, p), depth),
        0 <= p < id.len(),
        0 <= q < id.len(),
    ensures
        on_path(compressed(id, depth, p), depth, q, x) ==> on_path(id, depth, q, x),
        on_path(id, depth, q, x) ==> on_path(compressed(id, depth, p), depth, q, x) || on_path(
            id,
            depth,
            p,
            x,
        ),
    decreases depth[q],
{
    let after = compressed(id, depth, p);
    let root = root_from(id, depth, p);
    lemma_root(id, depth, p);
    lemma_root(id, depth, q);
    assert(id[q] < id.len());
    assert(after[q] < after.len());
    if x != q {
        if on_path(id, depth, p, q) {
            lemma_on_path(id, depth, p, q);
            assert(after[q] == root);
            assert(after[root] == root);
            if on_path(after, depth, q, x) {
                assert(on_path(after, depth, root, x));
                assert(x == root);
            }
            if on_path(id, depth, q, x) {
                lemma_on_path_transitive(id, depth, p, q, x);
            }
        } else {
            assert(after[q] == id[q]);
            if id[q] != q {
                lemma_path_after_lookup(id, depth, p, id[q] as int, x);
            }
        }
    }
}

proof fn lemma_link_links(id: Seq<usize>, depth: Seq<nat>, from: int, to: int)
    requires
        links(id, depth),
        0 <= from < id.len(),
        0 <= to < id.len(),
        id[from] == from,
        id[to] == to,
        from != to,
    ensures
        links(id.update(from, to as usize), depth_after_link(id, depth, from, to)),
{
    let after = id.update(from, to as usize);
    let deeper = depth_after_link(id, depth, from, to);
    assert forall|i: int| 0 <= i < after.len() implies #[trigger] after[i] < after.len() by {
        assert(id[i] < id.len());
    }
    assert forall|i: int|
        0 <= i < after.len() && #[trigger] after[i] != i implies deeper[after[i] as int]
        < deeper[i] by {
        assert(id[i] < id.len());
        lemma_root(id, depth, i);
        if i == from {
            lemma_root(id, depth, to);
        } else {
            lemma_root(id, depth, id[i] as int);
        }
    }
}

/// Hanging the representative `from` below the representative `to` moves
/// the component of `from` to `to` and leaves every other node where it was.
proof fn lemma_link(id: Seq<usize>, depth: Seq<nat>, from: int, to: int, x: int)
    requires
        links(id, depth),
        0 <= from < id.len(),
        0 <= to < id.len(),
        id[from] == from,
        id[to] == to,
        from != to,
        0 <= x < id.len(),
    ensures
        root_from(id, depth, x) == from ==> root_from(
            id.update(from, to as usize),
            depth_after_link(id, depth, from, to),
            x,
        ) == to,
        root_from(id, depth, x) != from ==> root_from(
            id.update(from, to as usize),
            depth_after_link(id, depth, from, to),
            x,
        ) == root_from(id, depth, x),
    decreases depth[x],
{
    let after = id.update(from, to as usize);
    let deeper = depth_after_link(id, depth, from, to);
    lemma_link_links(id, depth, from, to);
    lemma_root(id, depth, x);
    if x == from {
        lemma_root(id, depth, to);
        assert(after[to] == to);
        assert(after[from] == to);
        assert(deeper[to] < deeper[from]);
        assert(root_from(after, deeper, to) == to);
        assert(root_from(after, deeper, from) == root_from(after, deeper, to));
    } else if id[x] != x {
        assert(id[x] < id.len());
        assert(after[x] == id[x]);
        assert(after[x] < after.len());
        assert(deeper[after[x] as int] < deeper[x]);
        lemma_link(id, depth, from, to, id[x] as int);
        assert(root_from(after, deeper, x) == root_from(after, deeper, id[x] as int));
    } else {
        assert(after[x] == x);
    }
}

impl View for UnionFind {
    type V = Seq<usize>;

    /// For every node the representative of its component.
    closed spec fn view(&self) -> Seq<usize> {
        Seq::new(self.size as nat, |p: int| root_from(self.id@, self.depth@, p) as usize)
    }
}

impl UnionFind {
    /// The invariant of the structure.
    pub closed spec fn wf(&self) -> bool {
        &&& self.size > 0
        &&& self.id@.len() == self.size
        &&& self.sizes@.len() == self.size
        &&& self.num_components == self.size
        &&& links(self.id@, self.depth@)
        &&& forall|r: int|
            0 <= r < self.size && #[trigger] self.id@[r] == r ==> self.sizes@[r] == class(
                self.id@,
                self.depth@,
                r,
            ).len()
    }

    /// The parent of every node, as the structure stores it.
    pub closed spec fn parents(&self) -> Seq<usize> {
        self.id@
    }

    /// The weight stored with every node. At a representative it is the
    /// number of nodes in its component.
    pub closed spec fn weights(&self) -> Seq<usize> {
        self.sizes@
    }

    /// The number of components that the structure was created with.
    pub closed spec fn initial_components(&self) -> nat {
        self.num_components as nat
    }

    /// Whether `x` is `p` or one of the nodes between `p` and its
    /// representative, the representative included.
    pub closed spec fn between(&self, p: usize, x: usize) -> bool {
        on_path(self.id@, self.depth@, p as int, x as int)
    }

    /// The nodes of the component that `r` represents.
    pub open spec fn component(&self, r: usize) -> Set<int> {
        Set::new(|x: int| 0 <= x < self@.len() && self@[x] == r)
    }

    /// Whether `p` is a node of the structure.
    pub open spec fn has_node(&self, p: usize) -> bool {
        p < self@.len()
    }

    /// The view after the components of `p` and `q` were united: the nodes
    /// that `p` was connected to have the representative of `q`.
    pub open spec fn united(&self, p: usize, q: usize) -> Seq<usize> {
        Seq::new(
            self@.len(),
            |x: int|
                if self@[x] == self@[p as int] {
                    self@[q as int]
                } else {
                    self@[x]
                },
        )
    }

    /// The stored weights after the components of `p` and `q` were united:
    /// unless the two were connected, the weight of the representative of
    /// `q` has grown by the weight of the representative of `p`.
    pub open spec fn weights_united(&self, p: usize, q: usize) -> Seq<usize> {
        let from = self@[p as int] as int;
        let to = self@[q as int] as int;
        if from == to {
            self.weights()
        } else {
            self.weights().update(to, (self.weights()[to] + self.weights()[from]) as usize)
        }
    }

    /// The stored parents after the components of `p` and `q` were united:
    /// both nodes were looked up, and unless the two were connected, the
    /// representative of `p` has the representative of `q` as its parent.
    pub open spec fn parents_united(&self, p: usize, q: usize) -> Seq<usize> {
        if self@[p as int] == self@[q as int] {
            self.parents_after_lookups(p, q)
        } else {
            self.parents_after_lookups(p, q).update(self@[p as int] as int, self@[q as int])
        }
    }

    /// The stored parents after the nodes `p` and `q` were looked up: every
    /// node on the path of either points at its representative, and every
    /// other node has the parent it had.
    pub open spec fn parents_after_lookups(&self, p: usize, q: usize) -> Seq<usize> {
        Seq::new(
            self@.len(),
            |x: int|
                if self.between(p, x as usize) || self.between(q, x as usize) {
                    self@[x]
                } else {
                    self.parents()[x]
                },
        )
    }

    /// What the view, the stored parents and the stored weights have to do
    /// with each other. There is at least one node. Every representative is
    /// a node and represents itself. A node is its own parent exactly when
    /// it represents itself, and it has the representative of its parent.
    /// The weight of a representative is the number of nodes it represents.
    pub proof fn lemma_representatives(&self)
        requires
            self.wf(),
        ensures
            self@.len() > 0,
            self.parents().len() == self@.len(),
            self.weights().len() == self@.len(),
            self.initial_components() == self@.len(),
            forall|p: int| 0 <= p < self@.len() ==> #[trigger] self@[p] < self@.len(),
            forall|p: int| 0 <= p < self@.len() ==> self@[#[trigger] self@[p] as int] == self@[p],
            forall|p: int| 0 <= p < self@.len() ==> #[trigger] self.parents()[p] < self@.len(),
            forall|p: int|
                0 <= p < self@.len() ==> self@[#[trigger] self.parents()[p] as int] == self@[p],
            forall|p: int|
                0 <= p < self@.len() ==> (#[trigger] self.parents()[p] == p <==> self@[p] == p),
            forall|r: usize|
                r < self@.len() && self@[r as int] == r ==> #[trigger] self.weights()[r as int]
                    == self.component(r).len(),
            forall|r: usize| #[trigger] self.component(r).finite(),
    {
        let id = self.id@;
        let depth = self.depth@;
        assert forall|p: int| 0 <= p < self@.len() implies #[trigger] self@[p] < self@.len()
            && self@[self@[p] as int] == self@[p] by {
            lemma_root(id, depth, p);
        }
        assert forall|p: int| 0 <= p < self@.len() implies #[trigger] self.parents()[p]
            < self@.len() && self@[self.parents()[p] as int] == self@[p] && (self.parents()[p] == p
            <==> self@[p] == p) by {
            lemma_root(id, depth, p);
            assert(id[p] < id.len());
            lemma_root(id, depth, id[p] as int);
        }
        assert forall|r: usize| true implies #[trigger] self.component(r).finite() by {
            lemma_class_finite(id, depth, r as int);
            self.lemma_component_is_class(r);
        }
        assert forall|r: usize|
            r < self@.len() && self@[r as int] == r implies #[trigger] self.weights()[r as int]
            == self.component(r).len() by {
            lemma_root(id, depth, r as int);
            self.lemma_component_is_class(r);
        }
    }

    /// How `between` follows the stored parents: the path of `p` is `p`
    /// itself and, unless `p` is its own parent, the path of its parent.
    pub proof fn lemma_between(&self, p: usize, x: usize)
        requires
            self.wf(),
            p < self@.len(),
        ensures
            self.between(p, x) <==> x == p || (self.parents()[p as int] != p && self.between(
                self.parents()[p as int],
                x,
            )),
            self.between(p, x) ==> x < self@.len() && self@[x as int] == self@[p as int],
    {
        assert(self.id@[p as int] < self.id@.len());
        if self.between(p, x) {
            lemma_on_path(self.id@, self.depth@, p as int, x as int);
            lemma_root(self.id@, self.depth@, p as int);
            lemma_root(self.id@, self.depth@, x as int);
        }
    }

    proof fn lemma_component_is_class(&self, r: usize)
        requires
            links(self.id@, self.depth@),
            self.id@.len() == self.size,
        ensures
            self.component(r) =~= class(self.id@, self.depth@, r as int),
    {
        assert forall|x: int| 0 <= x < self.size implies (self@[x] == r <==> root_from(
            self.id@,
            self.depth@,
            x,
        ) == r) by {
            lemma_root(self.id@, self.depth@, x);
        }
    }

    /// Create a new union find data structure over the nodes `0..size`, each
    /// in a component of its own.
    ///
    /// # Error
    ///
    /// `UnionFindSizeError` if `size` is 0.
    pub fn new(size: usize) -> (made: Result<UnionFind, UnionFindError>)
        ensures
            size == 0 ==> made is Err && made->Err_0 == UnionFindError::UnionFindSizeError,
            size > 0 ==> made is Ok,
            size > 0 ==> made->Ok_0.wf(),
            size > 0 ==> made->Ok_0@ == Seq::new(size as nat, |i: int| i as usize),
            size > 0 ==> made->Ok_0.parents() == Seq::new(size as nat, |i: int| i as usize),
            size > 0 ==> made->Ok_0.weights() == Seq::new(size as nat, |i: int| 1usize),
            size > 0 ==> made->Ok_0.initial_components() == size,
    {
        if size == 0 {
            return Err(UnionFindError::UnionFindSizeError);
        }
        let mut sizes: Vec<usize> = Vec::new();
        let mut id: Vec<usize> = Vec::new();
        let mut i: usize = 0;
        while i < size
            invariant
                i <= size,
                sizes@ == Seq::new(i as nat, |k: int| 1usize),
                id@ == Seq::new(i as nat, |k: int| k as usize),
            decreases size - i,
        {
            sizes.push(1);
            id.push(i);
            i = i + 1;
        }
        let ghost depth = Seq::new(size as nat, |k: int| 0nat);
        let made = UnionFind { size, sizes, id, num_components: size, depth: Ghost(depth) };
        proof {
            assert(links(made.id@, depth));
            assert forall|r: int| 0 <= r < size implies class(made.id@, depth, r).len() == 1 by {
                assert(class(made.id@, depth, r) =~= set![r]);
            }
            assert(made@ =~= Seq::new(size as nat, |i: int| i as usize));
        }
        Ok(made)
    }

    /// Follows the parents of `p` to its representative, then points every
    /// node on the way straight at it.
    fn lookup(&mut self, p: usize) -> (root: usize)
        requires
            old(self).wf(),
            p < old(self).size,
        ensures
            final(self).wf(),
            final(self).size == old(self).size,
            final(self).sizes == old(self).sizes,
            final(self).num_components == old(self).num_components,
            final(self).depth@ == old(self).depth@,
            final(self).id@ == compressed(old(self).id@, old(self).depth@, p as int),
            final(self)@ == old(self)@,
            root == old(self)@[p as int],
            root == root_from(old(self).id@, old(self).depth@, p as int),
    {
        let ghost id0 = self.id@;
        let ghost depth = self.depth@;

        // find the root of p
        let mut root: usize = p;
        while root != self.id[root]
            invariant
                *self == *old(self),
                self.wf(),
                root < self.size,
                root_from(id0, depth, root as int) == root_from(id0, depth, p as int),
                id0 == self.id@,
                depth == self.depth@,
            decreases depth[root as int],
        {
            proof {
                assert(id0[root as int] < id0.len());
            }
            root = self.id[root];
        }
        proof {
            lemma_root(id0, depth, p as int);
        }

        // let point to the root node all the nodes along the path from p to root
        let mut cur: usize = p;
        while cur != root
            invariant
                cur < self.size,
                root < self.size,
                self.size == old(self).size,
                self.sizes == old(self).sizes,
                self.num_components == old(self).num_components,
                self.depth@ == depth,
                self.id@.len() == self.size,
                old(self).wf(),
                id0 == old(self).id@,
                depth == old(self).depth@,
                links(id0, depth),
                links(self.id@, depth),
                id0[root as int] == root,
                root_from(id0, depth, p as int) == root,
                root_from(id0, depth, cur as int) == root,
                on_path(id0, depth, p as int, cur as int),
                forall|x: int|
                    0 <= x < self.size ==> root_from(self.id@, depth, x) == root_from(
                        id0,
                        depth,
                        x,
                    ),
                forall|x: int|
                    0 <= x < self.size && on_path(id0, depth, p as int, x) && !on_path(
                        id0,
                        depth,
                        cur as int,
                        x,
                    ) ==> #[trigger] self.id@[x] == root,
                forall|x: int|
                    0 <= x < self.size && !(on_path(id0, depth, p as int, x) && !on_path(
                        id0,
                        depth,
                        cur as int,
                        x,
                    )) ==> #[trigger] self.id@[x] == id0[x],
            decreases depth[cur as int],
        {
            let next: usize = self.id[cur];
            let ghost before = self.id@;
            proof {
                assert(before[cur as int] == id0[cur as int]);
                lemma_root(id0, depth, cur as int);
                assert(id0[cur as int] < id0.len());
                assert(root_from(before, depth, cur as int) == root);
                assert forall|x: int| 0 <= x < self.size implies root_from(
                    before.update(cur as int, root),
                    depth,
                    x,
                ) == root_from(id0, depth, x) by {
                    lemma_compress(before, depth, cur as int, x);
                }
                lemma_compress(before, depth, cur as int, cur as int);
                lemma_on_path(id0, depth, p as int, cur as int);
            }
            self.id.set(cur, root);
            proof {
                assert(self.id@ == before.update(cur as int, root));
                assert forall|x: int|
                    0 <= x < self.size && on_path(id0, depth, next as int, x) implies on_path(
                    id0,
                    depth,
                    cur as int,
                    x,
                ) && x != cur by {
                    lemma_on_path(id0, depth, next as int, x);
                }
            }
            cur = next;
        }
        proof {
            assert forall|r: int|
                0 <= r < self.size && #[trigger] self.id@[r] == r implies self.sizes@[r] == class(
                self.id@,
                self.depth@,
                r,
            ).len() by {
                lemma_root(self.id@, depth, r);
                lemma_root(id0, depth, r);
                assert(class(self.id@, depth, r) =~= class(id0, depth, r));
            }
            assert(self@ =~= old(self)@);
            assert forall|x: int| 0 <= x < self.size implies self.id@[x] == compressed(
                id0,
                depth,
                p as int,
            )[x] by {
                if on_path(id0, depth, p as int, x) && on_path(id0, depth, root as int, x) {
                    assert(x == root);
                }
            }
            assert(self.id@ =~= compressed(id0, depth, p as int));
        }
        root
    }

    /// After one look-up the stored parents are those that the view of the
    /// structure before the look-up describes.
    proof fn lemma_one_lookup(&self, p: usize)
        requires
            self.wf(),
            p < self.size,
        ensures
            compressed(self.id@, self.depth@, p as int) == self.parents_after_lookups(p, p),
    {
        let id = self.id@;
        let depth = self.depth@;
        assert forall|x: int| 0 <= x < self.size implies compressed(id, depth, p as int)[x]
            == self.parents_after_lookups(p, p)[x] by {
            if on_path(id, depth, p as int, x) {
                lemma_on_path(id, depth, p as int, x);
                lemma_root(id, depth, x);
            }
        }
        assert(compressed(id, depth, p as int) =~= self.parents_after_lookups(p, p));
    }

    /// After two look-ups in a row the stored parents are those that the
    /// view of the structure before the first look-up describes.
    proof fn lemma_two_lookups(&self, p: usize, q: usize)
        requires
            self.wf(),
            p < self.size,
            q < self.size,
            links(compressed(self.id@, self.depth@, p as int), self.depth@),
        ensures
            compressed(compressed(self.id@, self.depth@, p as int), self.depth@, q as int)
                == self.parents_after_lookups(p, q),
    {
        let id = self.id@;
        let depth = self.depth@;
        let once = compressed(id, depth, p as int);
        let twice = compressed(once, depth, q as int);
        assert forall|x: int| 0 <= x < self.size implies root_from(once, depth, x) == root_from(
            id,
            depth,
            x,
        ) by {
            lemma_roots_after_lookup(id, depth, p as int, x);
        }
        assert forall|x: int| 0 <= x < self.size implies twice[x] == self.parents_after_lookups(
            p,
            q,
        )[x] by {
            lemma_path_after_lookup(id, depth, p as int, q as int, x);
            lemma_root(id, depth, x);
            if on_path(id, depth, p as int, x) {
                lemma_on_path(id, depth, p as int, x);
            }
            if on_path(id, depth, q as int, x) {
                lemma_on_path(id, depth, q as int, x);
            }
        }
        assert(twice =~= self.parents_after_lookups(p, q));
    }

    /// Find the representative of the component of node `p`, and point every
    /// node between `p` and the representative straight at it. No node moves
    /// to another component.
    ///
    /// # Error
    ///
    /// `UnionFindInvalidId` if `p` is not among `0..size`; nothing changes
    /// then.
    pub fn find(&mut self, p: usize) -> (found: Result<usize, UnionFindError>)
        requires
            old(self).wf(),
        ensures
            final(self).wf(),
            final(self)@ == old(self)@,
            final(self).weights() == old(self).weights(),
            final(self).initial_components() == old(self).initial_components(),
            !old(self).has_node(p) ==> found == Err::<usize, UnionFindError>(
                UnionFindError::UnionFindInvalidId,
            ),
            !old(self).has_node(p) ==> final(self).parents() == old(self).parents(),
            old(self).has_node(p) ==> found == Ok::<usize, UnionFindError>(old(self)@[p as int]),
            old(self).has_node(p) ==> final(self).parents()
                == old(self).parents_after_lookups(p, p),
    {
        if p >= self.size {
            return Err(UnionFindError::UnionFindInvalidId);
        }
        proof {
            self.lemma_one_lookup(p);
        }
        let root = self.lookup(p);
        Ok(root)
    }

    /// Return whether or not the nodes `p` and `q` are in the same component.
    /// Both nodes are looked up as [`UnionFind::find`] does it, `p` first.
    ///
    /// # Error
    ///
    /// `UnionFindInvalidId` if `p` or `q` is not among `0..size`. If it is
    /// `p`, nothing changes; if it is `q`, only `p` was looked up.
    pub fn connected(&mut self, p: usize, q: usize) -> (answer: Result<bool, UnionFindError>)
        requires
            old(self).wf(),
        ensures
            final(self).wf(),
            final(self)@ == old(self)@,
            final(self).weights() == old(self).weights(),
            final(self).initial_components() == old(self).initial_components(),
            old(self).has_node(p) && old(self).has_node(q) ==> answer == Ok::<
                bool,
                UnionFindError,
            >(old(self)@[p as int] == old(self)@[q as int]),
            !old(self).has_node(p) || !old(self).has_node(q) ==> answer == Err::<
                bool,
                UnionFindError,
            >(UnionFindError::UnionFindInvalidId),
            !old(self).has_node(p) ==> final(self).parents() == old(self).parents(),
            old(self).has_node(p) && !old(self).has_node(q) ==> final(self).parents()
                == old(self).parents_after_lookups(p, p),
            old(self).has_node(p) && old(self).has_node(q) ==> final(self).parents()
                == old(self).parents_after_lookups(p, q),
    {
        if p >= self.size {
            return Err(UnionFindError::UnionFindInvalidId);
        }
        proof {
            self.lemma_one_lookup(p);
        }
        let root_p = self.lookup(p);
        if q >= self.size {
            return Err(UnionFindError::UnionFindInvalidId);
        }
        proof {
            old(self).lemma_two_lookups(p, q);
        }
        let root_q = self.lookup(q);
        Ok(root_p == root_q)
    }

    /// Return the number of the nodes in this union find.
    pub fn size(&self) -> (n: usize)
        ensures
            n == self@.len(),
    {
        self.size
    }

    /// Return the number of components that this union find was created
    /// with, which is the number of its nodes.
    pub fn components_size(&self) -> (n: usize)
        ensures
            n == self.initial_components(),
            self.wf() ==> n == self@.len(),
    {
        self.num_components
    }

    /// The parent of every node, as stored.
    pub fn ids(&self) -> (ids: &Vec<usize>)
        ensures
            ids@ == self.parents(),
    {
        &self.id
    }

    /// The weight stored with every node.
    pub fn sizes(&self) -> (sizes: &Vec<usize>)
        ensures
            sizes@ == self.weights(),
    {
        &self.sizes
    }

    /// Unify the components containing nodes `p` and `q`: every node of the
    /// component of `p` gets the representative of `q`. Both nodes are looked
    /// up as [`UnionFind::find`] does it, `p` first. Then, unless the two are
    /// connected already, the representative of `p` gets the representative
    /// of `q` as its parent, and the weight of the latter grows by the weight
    /// of the former.
    ///
    /// # Error
    ///
    /// `UnionFindInvalidId` if `p` or `q` is not among `0..size`; no node
    /// changes its component then. If it is `p`, nothing changes; if it is
    /// `q`, only `p` was looked up.
    pub fn unify(&mut self, p: usize, q: usize) -> (done: Result<(), UnionFindError>)
        requires
            old(self).wf(),
        ensures
            final(self).wf(),
            final(self)@.len() == old(self)@.len(),
            final(self).initial_components() == old(self).initial_components(),
            !old(self).has_node(p) || !old(self).has_node(q) ==> done == Err::<
                (),
                UnionFindError,
            >(UnionFindError::UnionFindInvalidId),
            !old(self).has_node(p) || !old(self).has_node(q) ==> final(self)@ == old(self)@,
            !old(self).has_node(p) || !old(self).has_node(q) ==> final(self).weights()
                == old(self).weights(),
            !old(self).has_node(p) ==> final(self).parents() == old(self).parents(),
            old(self).has_node(p) && !old(self).has_node(q) ==> final(self).parents()
                == old(self).parents_after_lookups(p, p),
            old(self).has_node(p) && old(self).has_node(q) ==> done == Ok::<(), UnionFindError>(
                (),
            ),
            old(self).has_node(p) && old(self).has_node(q) ==> final(self)@
                == old(self).united(p, q),
            old(self).has_node(p) && old(self).has_node(q) ==> final(self).weights()
                == old(self).weights_united(p, q),
            old(self).has_node(p) && old(self).has_node(q) ==> final(self).parents()
                == old(self).parents_united(p, q),
    {
        if p >= self.size {
            return Err(UnionFindError::UnionFindInvalidId);
        }
        proof {
            self.lemma_one_lookup(p);
        }
        let root_p = self.lookup(p);
        if q >= self.size {
            return Err(UnionFindError::UnionFindInvalidId);
        }
        proof {
            old(self).lemma_two_lookups(p, q);
        }
        let root_q = self.lookup(q);

        let ghost id1 = self.id@;
        let ghost depth1 = self.depth@;
        let ghost roots = self@;
        proof {
            assert(roots == old(self)@);
            lemma_root(id1, depth1, p as int);
            lemma_root(id1, depth1, q as int);
            assert(self@[p as int] == root_p);
            assert(self@[q as int] == root_q);
        }
        // if `p` and `q` are not in the same component
        if root_p != root_q {
            proof {
                let class_p = class(id1, depth1, root_p as int);
                let class_q = class(id1, depth1, root_q as int);
                lemma_class_finite(id1, depth1, root_p as int);
                lemma_class_finite(id1, depth1, root_q as int);
                lemma_set_disjoint_lens(class_p, class_q);
                assert(class_p.disjoint(class_q));
                lemma_int_range(0, id1.len() as int);
                assert((class_p + class_q).subset_of(set_int_range(0, id1.len() as int)));
                lemma_len_subset(class_p + class_q, set_int_range(0, id1.len() as int));
                assert(self.id@[root_p as int] == root_p);
                assert(self.id@[root_q as int] == root_q);
            }
            let merged: usize = self.sizes[root_q] + self.sizes[root_p];
            self.sizes.set(root_q, merged);
            self.id.set(root_p, root_q);
            proof {
                let deeper = depth_after_link(id1, depth1, root_p as int, root_q as int);
                self.depth@ = deeper;
                lemma_link_links(id1, depth1, root_p as int, root_q as int);
                assert(self.id@ == id1.update(root_p as int, root_q));
                assert forall|x: int| 0 <= x < self.size implies self@[x] == if roots[x]
                    == roots[p as int] {
                    roots[q as int]
                } else {
                    roots[x]
                } by {
                    lemma_link(id1, depth1, root_p as int, root_q as int, x);
                    lemma_root(id1, depth1, x);
                    assert(roots[x] == root_from(id1, depth1, x) as usize);
                    assert(self@[x] == root_from(self.id@, deeper, x) as usize);
                }
                assert forall|r: int|
                    0 <= r < self.size && #[trigger] self.id@[r] == r implies self.sizes@[r]
                    == class(self.id@, self.depth@, r).len() by {
                    assert(r != root_p);
                    assert(id1[r] == r);
                    assert forall|x: int| 0 <= x < self.size implies (root_from(
                        self.id@,
                        deeper,
                        x,
                    ) == r <==> if r == root_q {
                        root_from(id1, depth1, x) == root_p || root_from(id1, depth1, x) == root_q
                    } else {
                        root_from(id1, depth1, x) == r
                    }) by {
                        lemma_link(id1, depth1, root_p as int, root_q as int, x);
                    }
                    if r == root_q {
                        assert(class(self.id@, deeper, r) =~= class(id1, depth1, root_p as int)
                            + class(id1, depth1, root_q as int));
                    } else {
                        assert(class(self.id@, deeper, r) =~= class(id1, depth1, r));
                    }
                }
            }
        }
        proof {
            assert(self@ =~= old(self).united(p, q));
        }
        Ok(())
    }
}

/// Looking `p` up changes no representative.
proof fn lemma_roots_after_lookup(id: Seq<usize>, depth: Seq<nat>, p: int, x: int)
    requires
        links(id, depth),
        links(compressed(id, depth, p), depth),
        0 <= p < id.len(),
        0 <= x < id.len(),
    ensures
        root_from(compressed(id, depth, p), depth, x) == root_from(id, depth, x),
    decreases depth[x],
{
    let after = compressed(id, depth, p);
    let root = root_from(id, depth, p);
    lemma_root(id, depth, p);
    lemma_root(id, depth, x);
    assert(id[x] < id.len());
    assert(after[x] < after.len());
    if on_path(id, depth, p, x) {
        lemma_on_path(id, depth, p, x);
        assert(after[x] == root);
        assert(after[root] == root);
        assert(root_from(after, depth, root) == root);
        if x != root {
            assert(root_from(after, depth, x) == root_from(after, depth, root));
        }
    } else if id[x] != x {
        assert(after[x] == id[x]);
        lemma_roots_after_lookup(id, depth, p, id[x] as int);
        assert(root_from(after, depth, x) == root_from(after, depth, id[x] as int));
    } else {
        assert(after[x] == x);
    }
}

} // verus!
