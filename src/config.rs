//! An ordered list of configuration parameters.
use vstd::prelude::*;
use vstd::std_specs::iter::IteratorSpec;

verus! {

broadcast use vstd::std_specs::slice::axiom_spec_slice_iter;

/// Configuration parameters, in the order in which they were pushed.
#[derive(Clone, Debug, PartialEq, Eq)]
pub struct ConfigParams<P>(Vec<P>);

impl<P> View for ConfigParams<P> {
    type V = Seq<P>;

    closed spec fn view(&self) -> Seq<P> {
        self.0@
    }
}

impl<P> ConfigParams<P> {
    /// No parameters.
    pub fn new() -> (r: Self)
        ensures
            r@ == Seq::<P>::empty(),
    {
        ConfigParams(Vec::new())
    }

    /// Appends `config` after the parameters already held.
    pub fn push(&mut self, config: P)
        ensures
            final(self)@ == old(self)@.push(config),
    {
        self.0.push(config)
    }

    /// The parameters, first to last.
    pub fn iter(&self) -> (r: std::slice::Iter<'_, P>)
        ensures
            r.remaining() == self@.map_values(|p: P| &p),
    {
        self.0.as_slice().iter()
    }
}

} // verus!
