use vstd::prelude::*;
use std::rc::Rc;
use crate::nonempty::NonEmpty;

verus! {

/// A non-deterministic computation: `run` gives every value it can evaluate to.
pub struct NonDet<G> {
    pub run: Rc<G>,
}

/// The capability to take a value out of a non-deterministic computation inside `combine`.
///
/// `indices` says which choice to take at each choice point, in order (zero past its end);
/// `num_choices` records, for each choice point reached so far, how many choices it had.
pub struct Witness {
    indices: Vec<usize>,
    num_choices: Vec<usize>,
}

impl Witness {
    pub closed spec fn indices(&self) -> Seq<usize> {
        self.indices@
    }

    pub closed spec fn num_choices(&self) -> Seq<usize> {
        self.num_choices@
    }
}

/// `indices` cut or padded with zeros to length `n`.
pub open spec fn resized(indices: Seq<usize>, n: nat) -> Seq<usize> {
    Seq::new(n, |i: int| if i < indices.len() { indices[i] } else { 0 })
}

/// Position `k` can be incremented without reaching its bound.
pub open spec fn bumpable(r: Seq<usize>, bounds: Seq<usize>, k: int) -> bool {
    r[k] + 1 < bounds[k]
}

/// The next index vector after `r` in lexicographic order, where position `k` ranges over
/// `[0, bounds[k])`: position `k` goes up by one and every later position goes back to zero.
pub open spec fn bumped_at(r: Seq<usize>, k: int) -> Seq<usize> {
    r.take(k).push((r[k] + 1) as usize) + Seq::new((r.len() - k - 1) as nat, |_i: int| 0usize)
}

/// The last position before `j` that can be incremented, or `-1` if there is none.
pub open spec fn last_bumpable(r: Seq<usize>, bounds: Seq<usize>, j: int) -> int
    decreases j,
{
    if j <= 0 {
        -1
    } else if bumpable(r, bounds, j - 1) {
        j - 1
    } else {
        last_bumpable(r, bounds, j - 1)
    }
}

/// `v` is the successor of `r` obtained by incrementing position `k`: the last position that
/// can be incremented.
pub open spec fn next_at(r: Seq<usize>, bounds: Seq<usize>, k: int, v: Seq<usize>) -> bool {
    &&& 0 <= k < r.len()
    &&& bumpable(r, bounds, k)
    &&& forall|j: int| k < j < r.len() ==> !bumpable(r, bounds, j)
    &&& v == bumped_at(r, k)
}

/// The choice named for choice point `i`: the one `indices` gives, the first past its end.
pub open spec fn choice_at(indices: Seq<usize>, i: int) -> int {
    if 0 <= i < indices.len() {
        indices[i] as int
    } else {
        0
    }
}

impl<G> NonDet<G> {
    /// The computation whose outcomes `f` lists.
    pub fn new(f: G) -> (m: NonDet<G>)
        ensures
            *m.run == f,
    {
        NonDet { run: Rc::new(f) }
    }
}

/// The choice vector that follows `indices` (padded or cut to the number of choice points), as
/// an odometer whose position `k` counts up to `num_choices[k]`; `None` once every position is
/// at its last choice.
pub fn incr_choice_indices(indices: &Vec<usize>, num_choices: &Vec<usize>) -> (r: Option<Vec<usize>>)
    ensures
        r is None ==> forall|k: int|
            0 <= k < num_choices@.len() ==> !bumpable(
                resized(indices@, num_choices@.len()),
                num_choices@,
                k,
            ),
        r matches Some(v) ==> {
            let r0 = resized(indices@, num_choices@.len());
            let k = last_bumpable(r0, num_choices@, r0.len() as int);
            0 <= k && next_at(r0, num_choices@, k, v@)
        },
{
    let n = num_choices.len();
    let ghost r0 = resized(indices@, n as nat);
    let mut res: Vec<usize> = Vec::new();
    let mut i: usize = 0;
    while i < n
        invariant
            n == num_choices@.len(),
            i <= n,
            r0 == resized(indices@, num_choices@.len()),
            res@.len() == i,
            res@ =~= r0.take(i as int),
        decreases n - i,
    {
        let ghost old_res = res@;
        if i < indices.len() {
            res.push(indices[i]);
        } else {
            res.push(0);
        }
        assert(res@ =~= old_res.push(r0[i as int]));
        i = i + 1;
    }
    let mut j: usize = n;
    while j > 0 && !(res[j - 1] < num_choices[j - 1] && res[j - 1] + 1 < num_choices[j - 1])
        invariant
            n == num_choices@.len(),
            j <= n,
            r0 == resized(indices@, num_choices@.len()),
            res@ == r0,
            forall|k: int| j <= k < n ==> !bumpable(r0, num_choices@, k),
            last_bumpable(r0, num_choices@, n as int) == last_bumpable(r0, num_choices@, j as int),
        decreases j,
    {
        j = j - 1;
    }
    if j == 0 {
        return None;
    }
    assert(last_bumpable(r0, num_choices@, j as int) == j - 1);
    let ix = j - 1;
    let v = res[ix] + 1;
    res.set(ix, v);
    let mut z: usize = j;
    while z < n
        invariant
            n == num_choices@.len(),
            j <= z <= n,
            ix == j - 1,
            r0 == resized(indices@, num_choices@.len()),
            res@ =~= r0.take(ix as int).push(v) + Seq::new((z - j) as nat, |_i: int| 0usize)
                + r0.skip(z as int),
        decreases n - z,
    {
        res.set(z, 0);
        z = z + 1;
    }
    proof {
        assert(bumpable(r0, num_choices@, ix as int));
        assert(res@ =~= bumped_at(r0, ix as int));
        assert(next_at(r0, num_choices@, ix as int, res@));
    }
    Some(res)
}

/// Every outcome of `f`: it is run once for each choice vector, starting from all first
/// choices and going on in lexicographic order over the choice counts that the run before
/// recorded.
pub fn combine<A, F>(f: F) -> (m: NonDet<impl Fn() -> NonEmpty<A>>)
    where F: Fn(&mut Witness) -> A,
    requires
        forall|w: &mut Witness| call_requires(f, (w,)),
{
    NonDet::new(
        move || -> (results: NonEmpty<A>)
            {
                let fr = &f;
                let mut w = Witness { indices: Vec::new(), num_choices: Vec::new() };
                let initial_value = fr(&mut w);
                let mut results = NonEmpty { zero: initial_value, vec: Vec::new() };
                let mut more = incr_choice_indices(&w.indices, &w.num_choices);
                while more.is_some()
                    invariant
                        forall|w: &mut Witness| call_requires(*fr, (w,)),
                        results.vec@.len() < usize::MAX,
                    decreases usize::MAX - results.vec@.len(),
                {
                    if results.vec.len() == usize::MAX - 1 {
                        break;
                    }
                    let next_choice = more.unwrap();
                    w.indices = next_choice;
                    w.num_choices = Vec::new();
                    let value = fr(&mut w);
                    results.vec.push(value);
                    more = incr_choice_indices(&w.indices, &w.num_choices);
                }
                results
            },
    )
}

impl Witness {
    /// Takes the value of `m` at the next choice point: the choice that `indices` gives there
    /// (the first past its end), and records how many choices there were. The named choice
    /// must exist.
    pub fn of<A: Clone, G: Fn() -> NonEmpty<A>>(&mut self, m: NonDet<G>) -> (r: A)
        requires
            call_requires(*m.run, ()),
            forall|choices: NonEmpty<A>|
                call_ensures(*m.run, (), choices) ==> choice_at(
                    old(self).indices(),
                    old(self).num_choices().len() as int,
                ) < choices.view().len(),
        ensures
            final(self).indices() == old(self).indices(),
            exists|choices: NonEmpty<A>|
                call_ensures(*m.run, (), choices) && final(self).num_choices() == old(
                    self,
                ).num_choices().push(choices.count()) && cloned(
                    choices.view()[choice_at(
                        old(self).indices(),
                        old(self).num_choices().len() as int,
                    )],
                    r,
                ),
    {
        let choices = (*m.run)();
        let m_ix = self.num_choices.len();
        let ix = if m_ix < self.indices.len() { self.indices[m_ix] } else { 0 };
        let len = choices.len_usize();
        self.num_choices.push(len);
        choices.index(ix).clone()
    }
}

} // verus!
