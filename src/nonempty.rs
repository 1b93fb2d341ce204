use vstd::prelude::*;

verus! {

/// A vector with at least one element: `zero` followed by `vec`.
#[derive(Debug, Clone)]
pub struct NonEmpty<A> {
    pub zero: A,
    pub vec: Vec<A>,
}

impl<A> NonEmpty<A> {
    /// All the elements in order.
    pub open spec fn view(&self) -> Seq<A> {
        seq![self.zero].add(self.vec@)
    }

    /// The number of elements, saturated at `usize::MAX`.
    pub open spec fn count(&self) -> usize {
        if self.view().len() <= usize::MAX {
            self.view().len() as usize
        } else {
            usize::MAX
        }
    }

    pub fn index(&self, ix: usize) -> (r: &A)
        requires
            ix < self.view().len(),
        ensures
            *r == self.view()[ix as int],
    {
        if ix == 0 {
            &self.zero
        } else {
            &self.vec[ix - 1]
        }
    }

    pub fn len(&self) -> (r: usize)
        requires
            self.vec@.len() < usize::MAX,
        ensures
            r == self.view().len(),
    {
        self.vec.len() + 1
    }

    /// The number of elements, saturated at `usize::MAX`.
    pub fn len_usize(&self) -> (r: usize)
        ensures
            r == self.count(),
    {
        if self.vec.len() < usize::MAX {
            self.vec.len() + 1
        } else {
            usize::MAX
        }
    }

    pub fn to_vec(self) -> (r: Vec<A>)
        ensures
            r@ == self.view(),
    {
        let mut out: Vec<A> = Vec::new();
        let NonEmpty { zero, vec } = self;
        out.push(zero);
        let ghost rest = vec@;
        let mut vec = vec;
        while vec.len() > 0
            invariant
                vec@.len() + out@.len() == rest.len() + 1,
                out@ + vec@ == seq![self.zero] + rest,
            decreases vec@.len(),
        {
            let ghost before = out@ + vec@;
            let v = vec.remove(0);
            out.push(v);
            assert(out@ + vec@ =~= before);
        }
        assert(out@ =~= out@ + vec@);
        assert(out@ =~= self.view());
        out
    }
}

} // verus!
