use vstd::prelude::*;
use crate::random::Random;

verus! {

/// A generator: from a random source and a size it makes the root of a lazy shrink tree.
///
/// A tree node is the pair of its value and a `Node`, the data from which its children are
/// computed again each time they are asked for. Both are modelled by their deep views.
pub trait Gen {
    type Value: DeepView;
    type Node: DeepView;

    /// The generator is well formed (for example, a non-empty range).
    spec fn inv(&self) -> bool;

    /// The root node made from a random source and a size.
    spec fn spec_run(&self, r: Random, size: usize) -> (
        <Self::Value as DeepView>::V,
        <Self::Node as DeepView>::V,
    );

    /// The children of a node, in order: its one-step shrinks.
    spec fn spec_children(&self, n: <Self::Node as DeepView>::V) -> Seq<
        (<Self::Value as DeepView>::V, <Self::Node as DeepView>::V),
    >;

    fn run(&self, r: Random, size: usize) -> (t: (Self::Value, Self::Node))
        requires
            self.inv(),
        ensures
            t.deep_view() == self.spec_run(r, size),
    ;

    fn children(&self, n: &Self::Node) -> (c: Vec<(Self::Value, Self::Node)>)
        requires
            self.inv(),
        ensures
            c.deep_view() == self.spec_children(n.deep_view()),
    ;
}

/// The node that `path` leads to from `t`; where an index is out of range the walk stops at
/// the deepest node it reached.
pub open spec fn resolve<G: Gen>(
    g: G,
    t: (<G::Value as DeepView>::V, <G::Node as DeepView>::V),
    path: Seq<usize>,
) -> (<G::Value as DeepView>::V, <G::Node as DeepView>::V)
    decreases path.len(),
{
    if path.len() == 0 {
        t
    } else {
        let cs = g.spec_children(t.1);
        if path[0] < cs.len() {
            resolve(g, cs[path[0] as int], path.drop_first())
        } else {
            t
        }
    }
}

/// The node that `path` leads to from `t` when every index along it is in range.
pub open spec fn follow<G: Gen>(
    g: G,
    t: (<G::Value as DeepView>::V, <G::Node as DeepView>::V),
    path: Seq<usize>,
) -> Option<(<G::Value as DeepView>::V, <G::Node as DeepView>::V)>
    decreases path.len(),
{
    if path.len() == 0 {
        Some(t)
    } else {
        let cs = g.spec_children(t.1);
        if path[0] < cs.len() {
            follow(g, cs[path[0] as int], path.drop_first())
        } else {
            None
        }
    }
}

/// Resolving a path is total: whatever the path, the node reached is the one that some prefix
/// of it leads to with every index in range.
pub proof fn lemma_resolve_reaches_prefix<G: Gen>(
    g: G,
    t: (<G::Value as DeepView>::V, <G::Node as DeepView>::V),
    path: Seq<usize>,
)
    ensures
        exists|k: int|
            0 <= k <= path.len() && follow(g, t, #[trigger] path.subrange(0, k)) == Some(
                resolve(g, t, path),
            ),
    decreases path.len(),
{
    assert(path.subrange(0, 0) =~= Seq::<usize>::empty());
    if path.len() > 0 {
        let cs = g.spec_children(t.1);
        if path[0] < cs.len() {
            let rest = path.drop_first();
            lemma_resolve_reaches_prefix(g, cs[path[0] as int], rest);
            let k = choose|k: int|
                0 <= k <= rest.len() && follow(g, cs[path[0] as int], #[trigger] rest.subrange(0, k))
                    == Some(resolve(g, cs[path[0] as int], rest));
            let p = path.subrange(0, k + 1);
            assert(p[0] == path[0]);
            assert(p.drop_first() =~= rest.subrange(0, k));
        }
    }
}

/// Along a path whose indices are all in range, one more step to an existing child leads to
/// that child.
pub proof fn lemma_follow_push<G: Gen>(
    g: G,
    t: (<G::Value as DeepView>::V, <G::Node as DeepView>::V),
    path: Seq<usize>,
    j: usize,
)
    requires
        follow(g, t, path) is Some,
        j < g.spec_children((follow(g, t, path)->0).1).len(),
    ensures
        follow(g, t, path.push(j)) == Some(g.spec_children((follow(g, t, path)->0).1)[j as int]),
        resolve(g, t, path.push(j)) == g.spec_children((follow(g, t, path)->0).1)[j as int],
    decreases path.len(),
{
    let cs = g.spec_children(t.1);
    let p = path.push(j);
    assert(p[0] == if path.len() == 0 { j } else { path[0] });
    if path.len() == 0 {
        assert(p.drop_first() =~= Seq::<usize>::empty());
        assert(follow(g, cs[j as int], p.drop_first()) == Some(cs[j as int]));
        assert(resolve(g, cs[j as int], p.drop_first()) == cs[j as int]);
    } else {
        assert(p.drop_first() =~= path.drop_first().push(j));
        lemma_follow_push(g, cs[path[0] as int], path.drop_first(), j);
    }
}

/// A path into a shrink tree: the index of a child at each level.
#[derive(Clone, Debug, PartialEq, Eq, PartialOrd, Ord)]
pub struct TreePath {
    pub indices: Vec<usize>,
}

impl DeepView for TreePath {
    type V = Seq<usize>;

    open spec fn deep_view(&self) -> Seq<usize> {
        self.indices@
    }
}

impl TreePath {
    /// The empty path: the root, not shrunk.
    pub fn empty() -> (r: TreePath)
        ensures
            r.deep_view() == Seq::<usize>::empty(),
    {
        TreePath { indices: Vec::new() }
    }

    /// A copy of this path.
    pub fn copy(&self) -> (r: TreePath)
        ensures
            r.deep_view() == self.deep_view(),
    {
        TreePath { indices: self.indices.clone() }
    }
}

/// Walks `path` from the node `t`, computing children at each level; stops at the deepest node
/// that exists.
pub fn resolve_node<G: Gen>(g: &G, t: (G::Value, G::Node), path: &TreePath) -> (r: (G::Value, G::Node))
    requires
        g.inv(),
    ensures
        r.deep_view() == resolve(*g, t.deep_view(), path.deep_view()),
{
    let ghost p = path.deep_view();
    let mut here = t;
    let mut k: usize = 0;
    assert(p.skip(0) =~= p);
    while k < path.indices.len()
        invariant
            g.inv(),
            p == path.deep_view(),
            k <= p.len(),
            resolve(*g, here.deep_view(), p.skip(k as int)) == resolve(*g, t.deep_view(), p),
        decreases p.len() - k,
    {
        let ix = path.indices[k];
        let ghost rest = p.skip(k as int);
        assert(rest[0] == ix);
        assert(rest.drop_first() =~= p.skip(k + 1));
        let mut cs = g.children(&here.1);
        if ix < cs.len() {
            assert(cs.deep_view()[ix as int] == cs@[ix as int].deep_view());
            here = cs.remove(ix);
            k = k + 1;
        } else {
            return here;
        }
    }
    assert(p.skip(k as int) =~= Seq::<usize>::empty());
    here
}

/// A lazy shrink tree: a value and the node from which its generator computes the children
/// anew on each request.
pub struct Tree<'g, G: Gen> {
    pub value: G::Value,
    node: G::Node,
    gen: &'g G,
}

impl<'g, G: Gen> Tree<'g, G> {
    /// The node as a value and the data its children come from.
    pub closed spec fn spec_view(&self) -> (<G::Value as DeepView>::V, <G::Node as DeepView>::V) {
        (self.value.deep_view(), self.node.deep_view())
    }

    /// The generator that made the tree.
    pub closed spec fn generator(&self) -> G {
        *self.gen
    }

    /// The root of the tree that `gen` makes from `r` and `size`.
    pub fn root(gen: &'g G, r: Random, size: usize) -> (t: Tree<'g, G>)
        requires
            gen.inv(),
        ensures
            t.spec_view() == gen.spec_run(r, size),
            t.generator() == *gen,
    {
        let (value, node) = gen.run(r, size);
        Tree { value, node, gen }
    }

    /// The children of this node, computed again on each call.
    pub fn children(&self) -> (c: Vec<Tree<'g, G>>)
        requires
            self.generator().inv(),
        ensures
            c@.len() == self.generator().spec_children(self.spec_view().1).len(),
            forall|i: int|
                0 <= i < c@.len() ==> (#[trigger] c@[i]).spec_view() == self.generator().spec_children(
                    self.spec_view().1,
                )[i] && c@[i].generator() == self.generator(),
    {
        let mut cs = self.gen.children(&self.node);
        let ghost all = cs.deep_view();
        let mut out: Vec<Tree<'g, G>> = Vec::new();
        let ghost n = cs@.len();
        while cs.len() > 0
            invariant
                out@.len() + cs@.len() == n,
                n == all.len(),
                forall|i: int| 0 <= i < cs@.len() ==> (#[trigger] cs@[i]).deep_view() == all[out@.len() + i],
                forall|i: int|
                    0 <= i < out@.len() ==> (#[trigger] out@[i]).spec_view() == all[i]
                        && out@[i].generator() == self.generator(),
            decreases cs@.len(),
        {
            let (value, node) = cs.remove(0);
            out.push(Tree { value, node, gen: self.gen });
        }
        out
    }

    /// The subtree that `path` leads to; where an index is out of range, the deepest node
    /// reached.
    pub fn get_path_or_closest(self, path: &TreePath) -> (r: Tree<'g, G>)
        requires
            self.generator().inv(),
        ensures
            r.spec_view() == resolve(self.generator(), self.spec_view(), path.deep_view()),
            r.generator() == self.generator(),
    {
        let gen = self.gen;
        let (value, node) = resolve_node(gen, (self.value, self.node), path);
        Tree { value, node, gen }
    }
}

/// How many nodes lie within `depth` levels below `n`, `n` included.
pub open spec fn nodes_to_depth<G: Gen>(g: G, n: <G::Node as DeepView>::V, depth: nat) -> nat
    decreases depth, 1nat,
{
    1 + if depth == 0 {
        0
    } else {
        nodes_in(g, g.spec_children(n), (depth - 1) as nat)
    }
}

/// How many nodes lie within `depth` levels below each of `cs`, added up.
pub open spec fn nodes_in<G: Gen>(
    g: G,
    cs: Seq<(<G::Value as DeepView>::V, <G::Node as DeepView>::V)>,
    depth: nat,
) -> nat
    decreases depth, 2 + cs.len(),
{
    if cs.len() == 0 {
        0
    } else {
        nodes_in(g, cs.drop_last(), depth) + nodes_to_depth(g, cs.last().1, depth)
    }
}

/// `n` capped at `usize::MAX`.
pub open spec fn saturate(n: nat) -> usize {
    if n <= usize::MAX {
        n as usize
    } else {
        usize::MAX
    }
}

/// Forces every node of the tree down to `max_depth` levels below the root, which stands at
/// `current_depth`, and returns how many there are (at most `usize::MAX`).
pub fn force_to_depth_go<'g, G: Gen>(tree: &Tree<'g, G>, max_depth: usize, current_depth: usize) -> (r: usize)
    requires
        tree.generator().inv(),
    ensures
        r == saturate(
            nodes_to_depth(
                tree.generator(),
                tree.spec_view().1,
                if current_depth < max_depth { (max_depth - current_depth) as nat } else { 0 },
            ),
        ),
    decreases max_depth - current_depth,
{
    let ghost g = tree.generator();
    let mut count: usize = 1;
    let children = tree.children();
    let ghost cs = g.spec_children(tree.spec_view().1);
    if current_depth < max_depth {
        let ghost d = (max_depth - current_depth - 1) as nat;
        let mut i: usize = 0;
        while i < children.len()
            invariant
                g == tree.generator(),
                g.inv(),
                current_depth < max_depth,
                d == max_depth - current_depth - 1,
                i <= children@.len(),
                children@.len() == cs.len(),
                forall|k: int|
                    0 <= k < children@.len() ==> (#[trigger] children@[k]).spec_view() == cs[k]
                        && children@[k].generator() == g,
                count == saturate(1 + nodes_in(g, cs.take(i as int), d)),
            decreases children@.len() - i,
        {
            let sub = force_to_depth_go(&children[i], max_depth, current_depth + 1);
            assert(cs.take(i + 1).drop_last() =~= cs.take(i as int));
            count = count.saturating_add(sub);
            i = i + 1;
        }
        assert(cs.take(i as int) =~= cs);
    }
    count
}

} // verus!
