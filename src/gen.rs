use vstd::prelude::*;
use crate::random::{Random, pcg_range};
use crate::tree::{Gen, TreePath, follow, lemma_follow_push, resolve, resolve_node};

verus! {

/// The one-step shrinks of `v` toward `lo`: with `d = v - lo`, the midpoint `lo + d / 2` and
/// `v - 1` when `d > 4`, only `v - 1` when `0 < d <= 4`, and none when `d == 0`.
pub open spec fn shrink_values(lo: u64, v: u64) -> Seq<u64> {
    if v <= lo {
        seq![]
    } else if v - lo > 4 {
        seq![(lo + (v - lo) / 2) as u64, (v - 1) as u64]
    } else {
        seq![(v - 1) as u64]
    }
}

/// Integers drawn uniformly from `[lo, hi)`, shrinking toward `lo`.
#[derive(Clone, Copy, Debug)]
pub struct IntRange {
    lo: u64,
    hi: u64,
}

impl IntRange {
    pub closed spec fn lo(&self) -> u64 {
        self.lo
    }

    pub closed spec fn hi(&self) -> u64 {
        self.hi
    }
}

/// The generator of integers in `[lo, hi)`.
pub fn u64(lo: u64, hi: u64) -> (g: IntRange)
    requires
        lo < hi,
    ensures
        g.lo() == lo,
        g.hi() == hi,
        g.inv(),
{
    IntRange { lo, hi }
}

/// The shrink tree below `v`: a node of the integer generator is its value.
fn shrink_nodes(lo: u64, v: u64) -> (c: Vec<(u64, u64)>)
    ensures
        c.deep_view() == shrink_values(lo, v).map_values(|x: u64| (x, x)),
{
    let mut c: Vec<(u64, u64)> = Vec::new();
    if v > lo {
        let d = v - lo;
        if d > 4 {
            let mid = lo + d / 2;
            c.push((mid, mid));
        }
        c.push((v - 1, v - 1));
    }
    assert(c.deep_view() =~= shrink_values(lo, v).map_values(|x: u64| (x, x)));
    c
}

impl Gen for IntRange {
    type Value = u64;
    type Node = u64;

    open spec fn inv(&self) -> bool {
        self.lo() < self.hi()
    }

    /// The draw from `[lo, hi)`; the guard only makes visible here the range that the draw
    /// is known to lie in.
    open spec fn spec_run(&self, r: Random, size: usize) -> (u64, u64) {
        let v = pcg_range(r.spec_state(), r.spec_inc(), self.lo(), self.hi()).0;
        if self.lo() <= v < self.hi() {
            (v, v)
        } else {
            (self.lo(), self.lo())
        }
    }

    open spec fn spec_children(&self, n: u64) -> Seq<(u64, u64)> {
        shrink_values(self.lo(), n).map_values(|x: u64| (x, x))
    }

    fn run(&self, r: Random, size: usize) -> (t: (u64, u64)) {
        let mut src = r;
        let v = src.u64_range(self.lo, self.hi);
        assert(self.spec_run(r, size) == (v, v));
        assert((v, v).deep_view() == (v, v));
        (v, v)
    }

    fn children(&self, n: &u64) -> (c: Vec<(u64, u64)>) {
        shrink_nodes(self.lo, *n)
    }
}

} // verus!

verus! {

/// What a chooser holds, as mathematical values.
pub struct ChooserV {
    pub rand: Random,
    pub size: usize,
    pub paths: Seq<Seq<usize>>,
    pub counts: Seq<usize>,
}

/// The capability to take values out of generators inside a composite generator.
///
/// It owns a random source that it splits for each extraction, the size, the shrink path
/// chosen for each call site, and, for each call site used so far, how many children the
/// node selected there had.
pub struct Chooser {
    rand: Random,
    size: usize,
    gen_paths: Vec<TreePath>,
    gen_child_count: Vec<usize>,
}

impl View for Chooser {
    type V = ChooserV;

    closed spec fn view(&self) -> ChooserV {
        ChooserV {
            rand: self.rand,
            size: self.size,
            paths: self.gen_paths.deep_view(),
            counts: self.gen_child_count@,
        }
    }
}

/// The path for call site `i`: the one given, or the empty path past the end.
pub open spec fn path_at(paths: Seq<Seq<usize>>, i: int) -> Seq<usize> {
    if 0 <= i < paths.len() {
        paths[i]
    } else {
        Seq::empty()
    }
}

/// One extraction from `g`: run it on a split of the chooser's source, resolve the tree
/// against the path of the next call site, record how many children the node reached has,
/// and hand back its value.
pub open spec fn spec_of<G: Gen>(c: ChooserV, g: G) -> (<G::Value as DeepView>::V, ChooserV) {
    let (parent, child) = crate::random::split_of(c.rand);
    let t = resolve(g, g.spec_run(child, c.size), path_at(c.paths, c.counts.len() as int));
    (
        t.0,
        ChooserV {
            rand: parent,
            size: c.size,
            paths: c.paths,
            counts: c.counts.push(g.spec_children(t.1).len() as usize),
        },
    )
}

impl Chooser {
    /// Takes a value out of `g` at the next call site.
    pub fn of<G: Gen>(&mut self, g: &G) -> (r: G::Value)
        requires
            g.inv(),
        ensures
            (r.deep_view(), final(self)@) == spec_of(old(self)@, *g),
    {
        let child = self.rand.split();
        let t = g.run(child, self.size);
        let ix = self.gen_child_count.len();
        let shrunk = if ix < self.gen_paths.len() {
            resolve_node(g, t, &self.gen_paths[ix])
        } else {
            assert(t.deep_view() == resolve(*g, t.deep_view(), Seq::<usize>::empty()));
            t
        };
        let children = g.children(&shrunk.1);
        self.gen_child_count.push(children.len());
        shrunk.0
    }
}

/// A composite generator's body: it takes values out of generators through a chooser and
/// builds its own value from them.
pub trait Compose {
    type Output: DeepView;

    /// The body is well formed.
    spec fn inv(&self) -> bool;

    /// The value built and the chooser afterwards.
    spec fn spec_compose(&self, c: ChooserV) -> (<Self::Output as DeepView>::V, ChooserV);

    fn compose(&self, c: &mut Chooser) -> (r: Self::Output)
        requires
            self.inv(),
        ensures
            (r.deep_view(), final(c)@) == self.spec_compose(old(c)@),
            final(c)@.paths == old(c)@.paths,
    ;
}

} // verus!

verus! {

/// `paths` with empty paths added up to length `n`.
pub open spec fn pad(paths: Seq<Seq<usize>>, n: nat) -> Seq<Seq<usize>> {
    if paths.len() >= n {
        paths
    } else {
        paths + Seq::new((n - paths.len()) as nat, |_i: int| Seq::<usize>::empty())
    }
}

/// `paths` with the path of call site `i` taken one step further, to child `j`.
pub open spec fn extend_at(paths: Seq<Seq<usize>>, i: int, j: usize) -> Seq<Seq<usize>> {
    paths.update(i, paths[i].push(j))
}

/// The path assignments of the children from the first `k` call sites: for each call site `i`
/// in order and each `j < counts[i]`, the assignment that shrinks site `i` by one step to its
/// `j`-th child and leaves every other site as it is.
pub open spec fn child_paths(paths: Seq<Seq<usize>>, counts: Seq<usize>, k: nat) -> Seq<
    Seq<Seq<usize>>,
>
    decreases k,
{
    if k == 0 {
        seq![]
    } else {
        child_paths(paths, counts, (k - 1) as nat) + Seq::new(
            counts[k - 1] as nat,
            |j: int| extend_at(paths, k - 1, j as usize),
        )
    }
}

/// What a node of a composite generator keeps to compute its children again.
pub struct CombineNodeV {
    pub rand: Random,
    pub size: usize,
    pub paths: Seq<Seq<usize>>,
    pub counts: Seq<usize>,
}

/// A node of a composite generator: the random source and size it was run with, the shrink
/// path of every call site (padded to the call sites used) and the child count of each.
pub struct CombineNode {
    rand: Random,
    size: usize,
    paths: Vec<TreePath>,
    counts: Vec<usize>,
}

impl DeepView for CombineNode {
    type V = CombineNodeV;

    closed spec fn deep_view(&self) -> CombineNodeV {
        CombineNodeV {
            rand: self.rand,
            size: self.size,
            paths: self.paths.deep_view(),
            counts: self.counts@,
        }
    }
}

/// A copy of each path.
fn copy_paths(paths: &Vec<TreePath>) -> (r: Vec<TreePath>)
    ensures
        r.deep_view() == paths.deep_view(),
{
    let mut r: Vec<TreePath> = Vec::new();
    let mut i: usize = 0;
    while i < paths.len()
        invariant
            i <= paths@.len(),
            r@.len() == i,
            r.deep_view() =~= paths.deep_view().take(i as int),
        decreases paths@.len() - i,
    {
        let ghost old_r = r@;
        r.push(paths[i].copy());
        assert(forall|k: int| 0 <= k < i ==> r@[k] == old_r[k]);
        i = i + 1;
        assert(r.deep_view() =~= paths.deep_view().take(i as int));
    }
    assert(paths.deep_view().take(i as int) =~= paths.deep_view());
    r
}

/// Adds empty paths until there are `n`.
fn pad_paths(paths: &mut Vec<TreePath>, n: usize)
    ensures
        final(paths).deep_view() == pad(old(paths).deep_view(), n as nat),
{
    let ghost p0 = paths.deep_view();
    while paths.len() < n
        invariant
            p0.len() <= paths.deep_view().len(),
            paths.deep_view().len() <= if p0.len() >= n { p0.len() } else { n as nat },
            paths.deep_view() =~= p0 + Seq::new(
                (paths.deep_view().len() - p0.len()) as nat,
                |_i: int| Seq::<usize>::empty(),
            ),
        decreases n - paths@.len(),
    {
        let ghost old_p = paths@;
        let ghost old_dv = paths.deep_view();
        paths.push(TreePath::empty());
        assert(forall|k: int| 0 <= k < old_p.len() ==> paths@[k] == old_p[k]);
        assert(paths.deep_view() =~= old_dv.push(Seq::<usize>::empty()));
    }
    assert(p0.len() >= n ==> paths.deep_view() =~= p0);
}

/// The generator whose values a `Compose` body builds.
pub struct Combine<C: Compose> {
    body: C,
}

/// Wraps a composite body as a generator.
pub fn combine<C: Compose>(body: C) -> (g: Combine<C>)
    ensures
        g.body() == body,
{
    Combine { body }
}

impl<C: Compose> Combine<C> {
    pub closed spec fn body(&self) -> C {
        self.body
    }

    /// Runs the body with the given path assignment on a split of `r`, and keeps what the
    /// children need.
    pub open spec fn spec_build(&self, r: Random, size: usize, paths: Seq<Seq<usize>>) -> (
        <C::Output as DeepView>::V,
        CombineNodeV,
    ) {
        let c0 = ChooserV { rand: crate::random::split_of(r).1, size, paths, counts: seq![] };
        let (v, c1) = self.body().spec_compose(c0);
        (v, CombineNodeV { rand: r, size, paths: pad(paths, c1.counts.len()), counts: c1.counts })
    }

    fn build(&self, r: Random, size: usize, paths: Vec<TreePath>) -> (t: (C::Output, CombineNode))
        requires
            self.inv(),
        ensures
            t.deep_view() == self.spec_build(r, size, paths.deep_view()),
    {
        let mut parent = r;
        let child = parent.split();
        let mut c = Chooser { rand: child, size, gen_paths: paths, gen_child_count: Vec::new() };
        let value = self.body.compose(&mut c);
        let Chooser { gen_paths, gen_child_count, .. } = c;
        let mut paths = gen_paths;
        pad_paths(&mut paths, gen_child_count.len());
        (value, CombineNode { rand: r, size, paths, counts: gen_child_count })
    }
}

impl<C: Compose> Gen for Combine<C> {
    type Value = C::Output;
    type Node = CombineNode;

    open spec fn inv(&self) -> bool {
        self.body().inv()
    }

    open spec fn spec_run(&self, r: Random, size: usize) -> (<C::Output as DeepView>::V, CombineNodeV) {
        self.spec_build(r, size, seq![])
    }

    open spec fn spec_children(&self, n: CombineNodeV) -> Seq<(<C::Output as DeepView>::V, CombineNodeV)> {
        child_paths(pad(n.paths, n.counts.len()), n.counts, n.counts.len()).map_values(
            |p: Seq<Seq<usize>>| self.spec_build(n.rand, n.size, p),
        )
    }

    fn run(&self, r: Random, size: usize) -> (t: (C::Output, CombineNode)) {
        let paths: Vec<TreePath> = Vec::new();
        assert(paths.deep_view() =~= seq![]);
        self.build(r, size, paths)
    }

    fn children(&self, n: &CombineNode) -> (c: Vec<(C::Output, CombineNode)>) {
        let mut paths = copy_paths(&n.paths);
        pad_paths(&mut paths, n.counts.len());
        let ghost pv = paths.deep_view();
        let ghost counts = n.counts@;
        let mut out: Vec<(C::Output, CombineNode)> = Vec::new();
        let mut i: usize = 0;
        while i < n.counts.len()
            invariant
                self.inv(),
                i <= counts.len(),
                counts == n.counts@,
                paths.deep_view() == pv,
                pv == pad(n.paths.deep_view(), counts.len()),
                pv.len() >= counts.len(),
                out.deep_view() =~= child_paths(pv, counts, i as nat).map_values(
                    |p: Seq<Seq<usize>>| self.spec_build(n.rand, n.size, p),
                ),
            decreases counts.len() - i,
        {
            let ghost before = out.deep_view();
            let count = n.counts[i];
            let mut j: usize = 0;
            while j < count
                invariant
                    self.inv(),
                    i < counts.len(),
                    count == counts[i as int],
                    j <= count,
                    paths.deep_view() == pv,
                    pv.len() >= counts.len(),
                    out.deep_view() =~= before + Seq::new(
                        j as nat,
                        |jj: int| self.spec_build(n.rand, n.size, extend_at(pv, i as int, jj as usize)),
                    ),
                decreases count - j,
            {
                let mut p = copy_paths(&paths);
                let mut q = paths[i].copy();
                q.indices.push(j);
                p.set(i, q);
                assert(p.deep_view() =~= extend_at(pv, i as int, j));
                let t = self.build(n.rand, n.size, p);
                let ghost old_out = out@;
                let ghost old_dv = out.deep_view();
                out.push(t);
                assert(forall|k: int| 0 <= k < old_out.len() ==> out@[k] == old_out[k]);
                assert(out.deep_view() =~= old_dv.push(t.deep_view()));
                j = j + 1;
            }
            i = i + 1;
        }
        out
    }
}

} // verus!

verus! {

/// Every node below a node in `[lo, hi)` of the integer generator lies in `[lo, hi)` too.
pub proof fn lemma_int_resolve_in_range(g: IntRange, t: (u64, u64), path: Seq<usize>)
    requires
        g.lo() <= t.0 < g.hi(),
        t.0 == t.1,
    ensures
        g.lo() <= resolve(g, t, path).0 < g.hi(),
        resolve(g, t, path).0 == resolve(g, t, path).1,
    decreases path.len(),
{
    if path.len() > 0 {
        let cs = g.spec_children(t.1);
        if path[0] < cs.len() {
            lemma_int_resolve_in_range(g, cs[path[0] as int], path.drop_first());
        }
    }
}

/// The body of the `usize` generator: one integer in `[lo, hi)`.
pub struct UsizeRange {
    inner: IntRange,
}

impl UsizeRange {
    pub closed spec fn inner(&self) -> IntRange {
        self.inner
    }
}

impl Compose for UsizeRange {
    type Output = usize;

    open spec fn inv(&self) -> bool {
        self.inner().inv() && self.inner().hi() <= usize::MAX
    }

    open spec fn spec_compose(&self, c: ChooserV) -> (usize, ChooserV) {
        let (v, c1) = spec_of(c, self.inner());
        (v as usize, c1)
    }

    fn compose(&self, c: &mut Chooser) -> (r: usize) {
        let v = c.of(&self.inner);
        v as usize
    }
}

/// The generator of `usize` values in `[lo, hi)`, shrinking toward `lo`.
pub fn usize(lo: usize, hi: usize) -> (g: Combine<UsizeRange>)
    requires
        lo < hi,
    ensures
        g.body().inner().lo() == lo,
        g.body().inner().hi() == hi,
        g.inv(),
{
    combine(UsizeRange { inner: u64(lo as u64, hi as u64) })
}

/// Every value that the `usize` generator builds lies in its range.
pub proof fn lemma_usize_build_in_range(
    g: Combine<UsizeRange>,
    r: Random,
    size: usize,
    paths: Seq<Seq<usize>>,
)
    requires
        g.inv(),
    ensures
        g.body().inner().lo() <= g.spec_build(r, size, paths).0 < g.body().inner().hi(),
{
    let inner = g.body().inner();
    let c0 = ChooserV { rand: crate::random::split_of(r).1, size, paths, counts: seq![] };
    let child = crate::random::split_of(c0.rand).1;
    lemma_int_resolve_in_range(inner, inner.spec_run(child, size), path_at(paths, 0));
}

/// Every node below a node of the `usize` generator whose value is in range has its value in
/// range.
pub proof fn lemma_usize_resolve_in_range(
    g: Combine<UsizeRange>,
    t: (usize, CombineNodeV),
    path: Seq<usize>,
)
    requires
        g.inv(),
        g.body().inner().lo() <= t.0 < g.body().inner().hi(),
    ensures
        g.body().inner().lo() <= resolve(g, t, path).0 < g.body().inner().hi(),
    decreases path.len(),
{
    if path.len() > 0 {
        let cs = g.spec_children(t.1);
        if path[0] < cs.len() {
            let n = t.1;
            let ps = child_paths(pad(n.paths, n.counts.len()), n.counts, n.counts.len());
            lemma_usize_build_in_range(g, n.rand, n.size, ps[path[0] as int]);
            lemma_usize_resolve_in_range(g, cs[path[0] as int], path.drop_first());
        }
    }
}

} // verus!

verus! {

/// The body of the generator that picks one of a list of values: it takes an index from the
/// `usize` generator over the list's positions.
pub struct OneOf<A> {
    values: Vec<A>,
    index: Combine<UsizeRange>,
}

impl<A> OneOf<A> {
    pub closed spec fn values(&self) -> Seq<A> {
        self.values@
    }

    pub closed spec fn index(&self) -> Combine<UsizeRange> {
        self.index
    }
}

impl<A: Copy + DeepView> Compose for OneOf<A> {
    type Output = A;

    open spec fn inv(&self) -> bool {
        &&& self.index().inv()
        &&& self.index().body().inner().lo() == 0
        &&& self.index().body().inner().hi() == self.values().len()
    }

    open spec fn spec_compose(&self, c: ChooserV) -> (<A as DeepView>::V, ChooserV) {
        let (ix, c1) = spec_of(c, self.index());
        (self.values()[ix as int].deep_view(), c1)
    }

    fn compose(&self, c: &mut Chooser) -> (r: A) {
        let ghost c0 = c@;
        proof {
            let (parent, child) = crate::random::split_of(c0.rand);
            let t = self.index.spec_run(child, c0.size);
            lemma_usize_build_in_range(self.index, child, c0.size, seq![]);
            lemma_usize_resolve_in_range(self.index, t, path_at(c0.paths, c0.counts.len() as int));
        }
        let ix = c.of(&self.index);
        self.values[ix]
    }
}

/// The generator that picks one of `values`, shrinking toward the first: list them from the
/// simplest to the most complex.
pub fn one_of<A: Copy + DeepView>(values: Vec<A>) -> (g: Combine<OneOf<A>>)
    requires
        0 < values@.len(),
    ensures
        g.body().values() == values@,
        g.inv(),
{
    let index = usize(0, values.len());
    combine(OneOf { values, index })
}

/// `n` extractions from `g` one after the other: the values in order and the chooser after them.
pub open spec fn spec_of_n<G: Gen>(c: ChooserV, g: G, n: nat) -> (Seq<<G::Value as DeepView>::V>, ChooserV)
    decreases n,
{
    if n == 0 {
        (seq![], c)
    } else {
        let (vs, c1) = spec_of_n(c, g, (n - 1) as nat);
        let (v, c2) = spec_of(c1, g);
        (vs.push(v), c2)
    }
}

/// The body of the vector generator: a length from `len`, then that many elements from `elem`,
/// each at a call site of its own.
pub struct VecOf<G, L> {
    elem: G,
    len: L,
}

impl<G, L> VecOf<G, L> {
    pub closed spec fn elem(&self) -> G {
        self.elem
    }

    pub closed spec fn len(&self) -> L {
        self.len
    }
}

impl<G: Gen, L: Gen<Value = usize>> Compose for VecOf<G, L> {
    type Output = Vec<G::Value>;

    open spec fn inv(&self) -> bool {
        self.elem().inv() && self.len().inv()
    }

    open spec fn spec_compose(&self, c: ChooserV) -> (Seq<<G::Value as DeepView>::V>, ChooserV) {
        let (n, c1) = spec_of(c, self.len());
        spec_of_n(c1, self.elem(), n as nat)
    }

    fn compose(&self, c: &mut Chooser) -> (r: Vec<G::Value>) {
        let n = c.of(&self.len);
        let ghost c1 = c@;
        let mut out: Vec<G::Value> = Vec::new();
        let mut i: usize = 0;
        while i < n
            invariant
                self.inv(),
                i <= n,
                out@.len() == i,
                (out.deep_view(), c@) == spec_of_n(c1, self.elem(), i as nat),
                c@.paths == c1.paths,
            decreases n - i,
        {
            let ghost old_out = out@;
            let ghost old_dv = out.deep_view();
            let v = c.of(&self.elem);
            out.push(v);
            assert(forall|k: int| 0 <= k < old_out.len() ==> out@[k] == old_out[k]);
            assert(out.deep_view() =~= old_dv.push(v.deep_view()));
            i = i + 1;
        }
        out
    }
}

/// The generator of vectors whose length comes from `len` and whose elements come from
/// `elem`; a shrink removes elements from the end or shrinks one element in place.
pub fn vec_of<G: Gen, L: Gen<Value = usize>>(elem: G, len: L) -> (g: Combine<VecOf<G, L>>)
    requires
        elem.inv(),
        len.inv(),
    ensures
        g.body().elem() == elem,
        g.body().len() == len,
        g.inv(),
{
    combine(VecOf { elem, len })
}

} // verus!

verus! {

/// The root that the integer generator draws lies in `[lo, hi)`, whatever the random source.
pub proof fn lemma_root_in_range(g: IntRange, r: Random, size: usize)
    requires
        g.inv(),
    ensures
        g.lo() <= g.spec_run(r, size).0 < g.hi(),
{
}

/// Every child of an integer node `v >= lo` is strictly closer to `lo` and not below it; the
/// last child is `v - 1`, and a node has no children exactly when it is `lo`.
pub proof fn lemma_shrink_monotone(g: IntRange, v: u64)
    requires
        g.lo() <= v,
    ensures
        forall|i: int|
            0 <= i < g.spec_children(v).len() ==> g.lo() <= (#[trigger] g.spec_children(v)[i]).0 < v,
        (g.spec_children(v).len() == 0) == (v == g.lo()),
        v > g.lo() ==> g.spec_children(v).last().0 == v - 1,
{
}

/// The node reached from `v` by taking the decrement child (the last one) `k` times, or
/// stopping where there is none.
pub open spec fn decrement_walk(g: IntRange, v: u64, k: nat) -> u64
    decreases k,
{
    if k == 0 {
        v
    } else {
        let cs = g.spec_children(v);
        if cs.len() == 0 {
            v
        } else {
            decrement_walk(g, cs.last().0, (k - 1) as nat)
        }
    }
}

/// Following the decrement child from `v` takes exactly `v - lo` steps to reach `lo`, which has
/// no children.
pub proof fn lemma_decrement_reaches_floor(g: IntRange, v: u64, k: nat)
    requires
        g.lo() <= v,
        k <= v - g.lo(),
    ensures
        decrement_walk(g, v, k) == v - k,
        k == v - g.lo() ==> g.spec_children(decrement_walk(g, v, k)).len() == 0,
    decreases k,
{
    if k > 0 {
        lemma_shrink_monotone(g, v);
        lemma_decrement_reaches_floor(g, (v - 1) as u64, (k - 1) as nat);
    }
}

/// A generator is a function of the random source and the size: runs from sources in the
/// same state with the same size give the same root value and the same children.
pub proof fn lemma_deterministic<G: Gen>(g: G, r1: Random, r2: Random, size: usize)
    requires
        r1 == r2,
    ensures
        g.spec_run(r1, size).0 == g.spec_run(r2, size).0,
        g.spec_children(g.spec_run(r1, size).1).len() == g.spec_children(
            g.spec_run(r2, size).1,
        ).len(),
{
}

/// `n` extractions depend on the paths of the call sites they use alone: two choosers that
/// differ only in the paths of other call sites give the same values, the same counts and the
/// same random source.
pub proof fn lemma_of_n_positional<G: Gen>(c1: ChooserV, c2: ChooserV, g: G, n: nat)
    requires
        c1.rand == c2.rand,
        c1.size == c2.size,
        c1.counts == c2.counts,
        forall|i: int|
            c1.counts.len() <= i < c1.counts.len() + n ==> path_at(c1.paths, i) == path_at(
                c2.paths,
                i,
            ),
    ensures
        spec_of_n(c1, g, n).0 == spec_of_n(c2, g, n).0,
        spec_of_n(c1, g, n).1.counts == spec_of_n(c2, g, n).1.counts,
        spec_of_n(c1, g, n).1.rand == spec_of_n(c2, g, n).1.rand,
        spec_of_n(c1, g, n).1.size == c1.size,
        spec_of_n(c2, g, n).1.size == c2.size,
        spec_of_n(c1, g, n).1.paths == c1.paths,
        spec_of_n(c2, g, n).1.paths == c2.paths,
        spec_of_n(c1, g, n).1.counts.len() == c1.counts.len() + n,
    decreases n,
{
    if n > 0 {
        lemma_of_n_positional(c1, c2, g, (n - 1) as nat);
    }
}

/// Padding a path assignment with empty paths changes no call site's path.
pub proof fn lemma_pad_path_at(paths: Seq<Seq<usize>>, n: nat, i: int)
    ensures
        path_at(pad(paths, n), i) == path_at(paths, i),
{
}

/// In the vector generator, whose number of call sites depends on the length it extracts,
/// the value and the child count of every call site stay the same when the paths are padded
/// with empty ones, and when only the paths of call sites beyond those used change.
pub proof fn lemma_vec_positional<G: Gen, L: Gen<Value = usize>>(
    body: VecOf<G, L>,
    c1: ChooserV,
    c2: ChooserV,
)
    requires
        c1.rand == c2.rand,
        c1.size == c2.size,
        c1.counts == c2.counts,
        forall|i: int| path_at(c1.paths, i) == path_at(c2.paths, i),
    ensures
        body.spec_compose(c1).0 == body.spec_compose(c2).0,
        body.spec_compose(c1).1.counts == body.spec_compose(c2).1.counts,
{
    let (n, d1) = spec_of(c1, body.len());
    let (m, d2) = spec_of(c2, body.len());
    lemma_of_n_positional(d1, d2, body.elem(), n as nat);
}

/// Running the vector generator's body with its paths padded gives what it gave before.
pub proof fn lemma_vec_pad_stable<G: Gen, L: Gen<Value = usize>>(
    body: VecOf<G, L>,
    c: ChooserV,
    n: nat,
)
    ensures
        body.spec_compose(ChooserV { paths: pad(c.paths, n), ..c }).0 == body.spec_compose(c).0,
        body.spec_compose(ChooserV { paths: pad(c.paths, n), ..c }).1.counts == body.spec_compose(
            c,
        ).1.counts,
{
    let c2 = ChooserV { paths: pad(c.paths, n), ..c };
    assert forall|i: int| path_at(c2.paths, i) == path_at(c.paths, i) by {
        lemma_pad_path_at(c.paths, n, i);
    }
    lemma_vec_positional(body, c2, c);
}

} // verus!

verus! {

/// The body of the generator of triples: one value from each of three generators, in order,
/// each at a call site of its own.
pub struct Triple<G1, G2, G3> {
    first: G1,
    second: G2,
    third: G3,
}

impl<G1, G2, G3> Triple<G1, G2, G3> {
    pub closed spec fn first(&self) -> G1 {
        self.first
    }

    pub closed spec fn second(&self) -> G2 {
        self.second
    }

    pub closed spec fn third(&self) -> G3 {
        self.third
    }
}

impl<G1: Gen, G2: Gen, G3: Gen> Compose for Triple<G1, G2, G3> {
    type Output = (G1::Value, G2::Value, G3::Value);

    open spec fn inv(&self) -> bool {
        self.first().inv() && self.second().inv() && self.third().inv()
    }

    open spec fn spec_compose(&self, c: ChooserV) -> (
        (<G1::Value as DeepView>::V, <G2::Value as DeepView>::V, <G3::Value as DeepView>::V),
        ChooserV,
    ) {
        let (a, c1) = spec_of(c, self.first());
        let (b, c2) = spec_of(c1, self.second());
        let (x, c3) = spec_of(c2, self.third());
        ((a, b, x), c3)
    }

    fn compose(&self, c: &mut Chooser) -> (r: (G1::Value, G2::Value, G3::Value)) {
        let a = c.of(&self.first);
        let b = c.of(&self.second);
        let x = c.of(&self.third);
        (a, b, x)
    }
}

/// The generator of triples whose parts come from `first`, `second` and `third`; a shrink
/// shrinks one part by one step.
pub fn triple<G1: Gen, G2: Gen, G3: Gen>(first: G1, second: G2, third: G3) -> (g: Combine<
    Triple<G1, G2, G3>,
>)
    requires
        first.inv(),
        second.inv(),
        third.inv(),
    ensures
        g.body().first() == first,
        g.body().second() == second,
        g.body().third() == third,
        g.inv(),
{
    combine(Triple { first, second, third })
}

} // verus!

verus! {

/// The root of the integer tree that a `usize` node with source `r` and size `size` draws.
pub open spec fn usize_inner_root(g: Combine<UsizeRange>, r: Random, size: usize) -> (u64, u64) {
    let child = crate::random::split_of(crate::random::split_of(r).1).1;
    g.body().inner().spec_run(child, size)
}

/// A node of the `usize` generator whose one path leads, with every index in range, to an
/// integer node that carries its value and its child count.
pub open spec fn usize_node_valid(g: Combine<UsizeRange>, t: (usize, CombineNodeV)) -> bool {
    let n = t.1;
    let inner = g.body().inner();
    let u = follow(inner, usize_inner_root(g, n.rand, n.size), n.paths[0]);
    &&& n.paths.len() == 1
    &&& n.counts.len() == 1
    &&& u is Some
    &&& t.0 == (u->0).0
    &&& (u->0).0 == (u->0).1
    &&& inner.lo() <= (u->0).0 < inner.hi()
    &&& n.counts[0] == inner.spec_children((u->0).1).len() as usize
}

/// The root of the `usize` generator is a valid node.
pub proof fn lemma_usize_root_valid(g: Combine<UsizeRange>, r: Random, size: usize)
    requires
        g.inv(),
    ensures
        usize_node_valid(g, g.spec_run(r, size)),
{
    let t = g.spec_run(r, size);
    let root = usize_inner_root(g, r, size);
    assert(pad(seq![], 1) =~= seq![Seq::<usize>::empty()]);
    assert(follow(g.body().inner(), root, Seq::<usize>::empty()) == Some(root));
}

/// Every child of a valid `usize` node is valid and has a strictly smaller value.
pub proof fn lemma_usize_children_smaller(g: Combine<UsizeRange>, t: (usize, CombineNodeV))
    requires
        g.inv(),
        usize_node_valid(g, t),
    ensures
        forall|i: int|
            0 <= i < g.spec_children(t.1).len() ==> usize_node_valid(g, #[trigger] g.spec_children(t.1)[i])
                && g.spec_children(t.1)[i].0 < t.0,
{
    let n = t.1;
    let inner = g.body().inner();
    let root = usize_inner_root(g, n.rand, n.size);
    let u = follow(inner, root, n.paths[0])->0;
    let q = n.paths[0];
    assert(pad(n.paths, n.counts.len()) == n.paths);
    let ps = child_paths(n.paths, n.counts, 1);
    assert(child_paths(n.paths, n.counts, 0) =~= Seq::<Seq<Seq<usize>>>::empty());
    assert(ps =~= Seq::new(n.counts[0] as nat, |j: int| extend_at(n.paths, 0, j as usize)));
    assert forall|i: int| 0 <= i < g.spec_children(t.1).len() implies usize_node_valid(
        g,
        #[trigger] g.spec_children(t.1)[i],
    ) && g.spec_children(t.1)[i].0 < t.0 by {
        let p = extend_at(n.paths, 0, i as usize);
        assert(p =~= seq![q.push(i as usize)]);
        lemma_follow_push(inner, root, q, i as usize);
        lemma_shrink_monotone(inner, u.1);
        let c = g.spec_children(t.1)[i];
        assert(c == g.spec_build(n.rand, n.size, p));
        assert(pad(p, 1) == p);
        assert(path_at(p, 0) == q.push(i as usize));
    }
}

} // verus!

verus! {

/// The root of the index tree that a node of the choice generator with source `r` and size
/// `size` draws.
pub open spec fn one_of_index_root<A: Copy + DeepView>(g: Combine<OneOf<A>>, r: Random, size: usize) -> (
    usize,
    CombineNodeV,
) {
    let child = crate::random::split_of(crate::random::split_of(r).1).1;
    g.body().index().spec_run(child, size)
}

/// The index tree node that a node of the choice generator selects through its one path.
pub open spec fn one_of_selected<A: Copy + DeepView>(g: Combine<OneOf<A>>, n: CombineNodeV) -> (usize, CombineNodeV) {
    follow(g.body().index(), one_of_index_root(g, n.rand, n.size), n.paths[0])->0
}

/// A node of the choice generator whose path leads, with every index in range, to a valid
/// index node, whose index picks the node's value, and whose child count is that node's.
pub open spec fn one_of_node_valid<A: Copy + DeepView>(
    g: Combine<OneOf<A>>,
    t: (<A as DeepView>::V, CombineNodeV),
) -> bool {
    let n = t.1;
    let idx = g.body().index();
    let u = one_of_selected(g, n);
    &&& n.paths.len() == 1
    &&& n.counts.len() == 1
    &&& follow(idx, one_of_index_root(g, n.rand, n.size), n.paths[0]) is Some
    &&& usize_node_valid(idx, u)
    &&& u.0 < g.body().values().len()
    &&& t.0 == g.body().values()[u.0 as int].deep_view()
    &&& n.counts[0] == idx.spec_children(u.1).len() as usize
}

/// The root of the choice generator is a valid node.
pub proof fn lemma_one_of_root_valid<A: Copy + DeepView>(g: Combine<OneOf<A>>, r: Random, size: usize)
    requires
        g.inv(),
    ensures
        one_of_node_valid(g, g.spec_run(r, size)),
{
    let idx = g.body().index();
    let root = one_of_index_root(g, r, size);
    lemma_usize_root_valid(idx, crate::random::split_of(crate::random::split_of(r).1).1, size);
    assert(pad(seq![], 1) =~= seq![Seq::<usize>::empty()]);
    assert(follow(idx, root, Seq::<usize>::empty()) == Some(root));
    let t = g.spec_run(r, size);
    assert(t.1.paths =~= seq![Seq::<usize>::empty()]);
    assert(one_of_selected(g, t.1) == root);
    assert(usize_node_valid(idx, root));
    assert(root.0 < g.body().values().len());
    assert(t.0 == g.body().values()[root.0 as int].deep_view());
}

/// Shrinking a pick from a list drives the index toward the first element: every child of a
/// valid node of the choice generator is valid and selects a strictly smaller index.
pub proof fn lemma_one_of_shrinks_toward_first<A: Copy + DeepView>(
    g: Combine<OneOf<A>>,
    t: (<A as DeepView>::V, CombineNodeV),
)
    requires
        g.inv(),
        one_of_node_valid(g, t),
    ensures
        forall|i: int|
            0 <= i < g.spec_children(t.1).len() ==> one_of_node_valid(g, #[trigger] g.spec_children(t.1)[i])
                && one_of_selected(g, g.spec_children(t.1)[i].1).0 < one_of_selected(g, t.1).0,
{
    let n = t.1;
    let idx = g.body().index();
    let root = one_of_index_root(g, n.rand, n.size);
    let u = one_of_selected(g, n);
    let q = n.paths[0];
    lemma_usize_children_smaller(idx, u);
    assert(pad(n.paths, n.counts.len()) == n.paths);
    let ps = child_paths(n.paths, n.counts, 1);
    assert(child_paths(n.paths, n.counts, 0) =~= Seq::<Seq<Seq<usize>>>::empty());
    assert(ps =~= Seq::new(n.counts[0] as nat, |j: int| extend_at(n.paths, 0, j as usize)));
    assert forall|i: int| 0 <= i < g.spec_children(t.1).len() implies one_of_node_valid(
        g,
        #[trigger] g.spec_children(t.1)[i],
    ) && one_of_selected(g, g.spec_children(t.1)[i].1).0 < one_of_selected(g, t.1).0 by {
        let p = extend_at(n.paths, 0, i as usize);
        assert(p =~= seq![q.push(i as usize)]);
        lemma_follow_push(idx, root, q, i as usize);
        let c = g.spec_children(t.1)[i];
        assert(c == g.spec_build(n.rand, n.size, p));
        assert(pad(p, 1) == p);
        assert(path_at(p, 0) == q.push(i as usize));
        assert(usize_node_valid(idx, idx.spec_children(u.1)[i]));
    }
}

} // verus!

verus! {

/// `n` extractions give `n` values, and the counts grow by `n`.
pub proof fn lemma_of_n_len<G: Gen>(c: ChooserV, g: G, n: nat)
    ensures
        spec_of_n(c, g, n).0.len() == n,
        spec_of_n(c, g, n).1.counts.len() == c.counts.len() + n,
    decreases n,
{
    if n > 0 {
        lemma_of_n_len(c, g, (n - 1) as nat);
    }
}

/// The first `k` of `n` extractions are the `k` extractions alone.
pub proof fn lemma_of_n_prefix<G: Gen>(c: ChooserV, g: G, n: nat, k: nat)
    requires
        k <= n,
    ensures
        spec_of_n(c, g, n).0.take(k as int) == spec_of_n(c, g, k).0,
    decreases n,
{
    lemma_of_n_len(c, g, n);
    lemma_of_n_len(c, g, k);
    if k == n {
        assert(spec_of_n(c, g, n).0.take(k as int) =~= spec_of_n(c, g, n).0);
    } else {
        lemma_of_n_prefix(c, g, (n - 1) as nat, k);
        lemma_of_n_len(c, g, (n - 1) as nat);
        assert(spec_of_n(c, g, n).0.take(k as int) =~= spec_of_n(c, g, (n - 1) as nat).0.take(
            k as int,
        ));
    }
}

/// `n` extractions from two choosers with the same source, size and number of call sites used
/// so far, whose paths agree on the call sites that the extractions use, give the same values.
pub proof fn lemma_of_n_same_values<G: Gen>(c1: ChooserV, c2: ChooserV, g: G, n: nat)
    requires
        c1.rand == c2.rand,
        c1.size == c2.size,
        c1.counts.len() == c2.counts.len(),
        forall|i: int|
            c1.counts.len() <= i < c1.counts.len() + n ==> path_at(c1.paths, i) == path_at(
                c2.paths,
                i,
            ),
    ensures
        spec_of_n(c1, g, n).0 == spec_of_n(c2, g, n).0,
        spec_of_n(c1, g, n).1.rand == spec_of_n(c2, g, n).1.rand,
        spec_of_n(c1, g, n).1.size == c1.size,
        spec_of_n(c2, g, n).1.size == c2.size,
        spec_of_n(c1, g, n).1.paths == c1.paths,
        spec_of_n(c2, g, n).1.paths == c2.paths,
        spec_of_n(c1, g, n).1.counts.len() == c1.counts.len() + n,
        spec_of_n(c2, g, n).1.counts.len() == c2.counts.len() + n,
    decreases n,
{
    if n > 0 {
        lemma_of_n_same_values(c1, c2, g, (n - 1) as nat);
    }
}

/// Shrinking the length of a vector keeps the elements before the cut: two runs of the vector
/// generator on one source and size whose paths agree on every element call site give
/// vectors that agree on their common length.
pub proof fn lemma_vec_length_shrink_keeps_prefix<G: Gen, L: Gen<Value = usize>>(
    g: Combine<VecOf<G, L>>,
    r: Random,
    size: usize,
    paths1: Seq<Seq<usize>>,
    paths2: Seq<Seq<usize>>,
)
    requires
        forall|i: int| 1 <= i ==> path_at(paths1, i) == path_at(paths2, i),
    ensures
        ({
            let v1 = g.spec_build(r, size, paths1).0;
            let v2 = g.spec_build(r, size, paths2).0;
            let m = if v1.len() <= v2.len() { v1.len() } else { v2.len() };
            v1.take(m as int) == v2.take(m as int)
        }),
{
    let body = g.body();
    let rand = crate::random::split_of(r).1;
    let c01 = ChooserV { rand, size, paths: paths1, counts: seq![] };
    let c02 = ChooserV { rand, size, paths: paths2, counts: seq![] };
    let (n1, d1) = spec_of(c01, body.len());
    let (n2, d2) = spec_of(c02, body.len());
    let m: nat = if n1 <= n2 { n1 as nat } else { n2 as nat };
    lemma_of_n_len(d1, body.elem(), n1 as nat);
    lemma_of_n_len(d2, body.elem(), n2 as nat);
    lemma_of_n_prefix(d1, body.elem(), n1 as nat, m);
    lemma_of_n_prefix(d2, body.elem(), n2 as nat, m);
    lemma_of_n_same_values(d1, d2, body.elem(), m);
}

} // verus!

verus! {

/// How the random source and the number of call sites evolve over `n` extractions does not
/// depend on the paths.
pub proof fn lemma_of_n_shape<G: Gen>(c1: ChooserV, c2: ChooserV, g: G, n: nat)
    requires
        c1.rand == c2.rand,
        c1.size == c2.size,
        c1.counts.len() == c2.counts.len(),
    ensures
        spec_of_n(c1, g, n).1.rand == spec_of_n(c2, g, n).1.rand,
        spec_of_n(c1, g, n).1.size == c1.size,
        spec_of_n(c2, g, n).1.size == c2.size,
        spec_of_n(c1, g, n).1.paths == c1.paths,
        spec_of_n(c2, g, n).1.paths == c2.paths,
        spec_of_n(c1, g, n).1.counts.len() == c1.counts.len() + n,
        spec_of_n(c2, g, n).1.counts.len() == c2.counts.len() + n,
    decreases n,
{
    if n > 0 {
        lemma_of_n_shape(c1, c2, g, (n - 1) as nat);
    }
}

/// The `i`-th of `n` extractions is one extraction after the first `i`.
pub proof fn lemma_of_n_at<G: Gen>(c: ChooserV, g: G, n: nat, i: nat)
    requires
        i < n,
    ensures
        spec_of_n(c, g, n).0[i as int] == spec_of(spec_of_n(c, g, i).1, g).0,
{
    lemma_of_n_prefix(c, g, n, i + 1);
    lemma_of_n_len(c, g, i + 1);
    lemma_of_n_len(c, g, n);
    assert(spec_of_n(c, g, n).0[i as int] == spec_of_n(c, g, n).0.take(i + 1 as int)[i as int]);
}

/// Shrinking one element of a vector in place keeps the length and every other element: two
/// runs of the vector generator on one source and size whose paths differ only at the call
/// site of element `k` give vectors of one length that agree everywhere but at `k`.
pub proof fn lemma_vec_element_shrink_keeps_rest<G: Gen, L: Gen<Value = usize>>(
    g: Combine<VecOf<G, L>>,
    r: Random,
    size: usize,
    paths1: Seq<Seq<usize>>,
    paths2: Seq<Seq<usize>>,
    k: nat,
)
    requires
        forall|i: int| i != k + 1 ==> path_at(paths1, i) == path_at(paths2, i),
    ensures
        ({
            let v1 = g.spec_build(r, size, paths1).0;
            let v2 = g.spec_build(r, size, paths2).0;
            &&& v1.len() == v2.len()
            &&& forall|i: int| 0 <= i < v1.len() && i != k ==> v1[i] == v2[i]
        }),
{
    let body = g.body();
    let rand = crate::random::split_of(r).1;
    let c01 = ChooserV { rand, size, paths: paths1, counts: seq![] };
    let c02 = ChooserV { rand, size, paths: paths2, counts: seq![] };
    assert(path_at(paths1, 0) == path_at(paths2, 0));
    let (n, d1) = spec_of(c01, body.len());
    let (n2, d2) = spec_of(c02, body.len());
    assert(n == n2);
    lemma_of_n_len(d1, body.elem(), n as nat);
    lemma_of_n_len(d2, body.elem(), n as nat);
    let v1 = spec_of_n(d1, body.elem(), n as nat).0;
    let v2 = spec_of_n(d2, body.elem(), n as nat).0;
    assert forall|i: int| 0 <= i < v1.len() && i != k implies v1[i] == v2[i] by {
        lemma_of_n_at(d1, body.elem(), n as nat, i as nat);
        lemma_of_n_at(d2, body.elem(), n as nat, i as nat);
        lemma_of_n_shape(d1, d2, body.elem(), i as nat);
        assert(path_at(paths1, 1 + i) == path_at(paths2, 1 + i));
    }
}

} // verus!
