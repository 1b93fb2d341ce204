use vstd::prelude::*;
use std::rc::Rc;

verus! {

/// A computation that threads a state: from a state to the next state and a value.
pub struct State<G> {
    pub run: Rc<G>,
}

/// The capability to run state computations inside `combine`: the current state.
pub struct Witness<S> {
    state: S,
}

impl<S> Witness<S> {
    pub closed spec fn state(&self) -> S {
        self.state
    }
}

impl<G> State<G> {
    /// The computation that `f` performs.
    pub fn new(f: G) -> (m: State<G>)
        ensures
            *m.run == f,
    {
        State { run: Rc::new(f) }
    }
}

/// The computation that runs `f` with a witness holding the state it is given, and returns the
/// state that the witness holds afterwards together with `f`'s value.
pub fn combine<S, A, F>(f: F) -> (m: State<impl Fn(S) -> (S, A)>)
    where F: Fn(&mut Witness<S>) -> A,
    requires
        forall|w: &mut Witness<S>| call_requires(f, (w,)),
{
    let run = move |s: S| {
        let mut w = Witness { state: s };
        let result = f(&mut w);
        (w.state, result)
    };
    State::new(run)
}

impl<S: Clone> Witness<S> {
    /// Runs `m` on a copy of the current state, keeps the state it returns and hands back its
    /// value.
    pub fn of<A, G: Fn(S) -> (S, A)>(&mut self, m: State<G>) -> (r: A)
        requires
            forall|s: S| call_requires(*m.run, (s,)),
        ensures
            exists|s: S|
                cloned(old(self).state(), s) && call_ensures(*m.run, (s,), (final(self).state(), r)),
    {
        let state = self.state.clone();
        let ghost s0 = state;
        assert(cloned(self.state, s0));
        let (new_state, result) = (*m.run)(state);
        self.state = new_state;
        assert(cloned(old(self).state(), s0) && call_ensures(*m.run, (s0,), (self.state(), result)));
        result
    }
}

} // verus!
