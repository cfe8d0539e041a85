//! The settings of the tracer. Installing a subscriber is left to the
//! program; the library only carries the two texts it is made from.

use vstd::prelude::*;

verus! {

/// The name under which events are reported and the filter used where the
/// environment gives none.
pub struct Tracer<'s> {
    name: &'s str,
    env_filter: &'s str,
}

impl<'s> Tracer<'s> {
    /// The name under which events are reported.
    pub closed spec fn name_of(&self) -> Seq<char> {
        self.name@
    }

    /// The filter used where the environment gives none.
    pub closed spec fn filter_of(&self) -> Seq<char> {
        self.env_filter@
    }

    /// A tracer with the given name and fallback filter.
    pub fn new(name: &'s str, env_filter: &'s str) -> (r: Self)
        ensures
            r.name_of() == name@,
            r.filter_of() == env_filter@,
    {
        Self { name, env_filter }
    }

    /// The name under which events are reported.
    pub fn name(&self) -> (r: &'s str)
        ensures
            r@ == self.name_of(),
    {
        self.name
    }

    /// The filter used where the environment gives none.
    pub fn env_filter(&self) -> (r: &'s str)
        ensures
            r@ == self.filter_of(),
    {
        self.env_filter
    }
}

} // verus!
