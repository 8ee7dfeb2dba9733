//! The serving side of the dependency-injection demo: a waiter with no
//! state of his own, serving whatever the chef he depends on cooks.

use vstd::prelude::*;

use crate::chef::Chef;

verus! {

/// Someone who can serve a dish.
pub trait Waiter {
    /// The dish this waiter brings out.
    spec fn served(&self) -> Seq<char>;

    /// Serve: bring out the dish.
    fn serve(&self) -> (r: &str)
        ensures
            r@ == self.served(),
    ;
}

/// The waiter Tom, over whatever dependencies provide his chef.
pub struct Tom<Deps> {
    /// The injected dependencies.
    pub deps: Deps,
}

impl<Deps: Chef> Tom<Deps> {
    /// Serve by asking the chef the dependencies provide.
    pub fn serve(&self) -> (r: &str)
        ensures
            r@ == self.deps.dish(),
    {
        self.deps.cook()
    }
}

} // verus!
