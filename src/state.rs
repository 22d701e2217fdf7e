//! Application state shared by every service of one worker.
use std::rc::Rc;
use vstd::prelude::*;

verus! {

/// Application state, shared (not copied) by its clones.
pub struct State<S>(Rc<S>);

impl<S> View for State<S> {
    type V = S;

    closed spec fn view(&self) -> S {
        *self.0
    }
}

impl<S> State<S> {
    /// Wraps a state value.
    pub fn new(state: S) -> (r: State<S>)
        ensures
            r@ == state,
    {
        State(Rc::new(state))
    }

    /// The state value.
    pub fn get_ref(&self) -> (r: &S)
        ensures
            *r == self@,
    {
        &*self.0
    }

    /// Another handle on the same state.
    pub fn share(&self) -> (r: State<S>)
        ensures
            r@ == self@,
    {
        State(Rc::clone(&self.0))
    }
}

} // verus!
