//! The container of the dependency-injection demo: a restaurant that
//! wires the chef into the waiter's service, so that serving brings out
//! exactly what the chef cooks.

use vstd::prelude::*;

use crate::chef::{Chef, JackState};
use crate::waiter::Waiter;

verus! {

/// The restaurant: a container holding its chef's state.
pub struct Restaurant {
    jack: JackState,
}

impl Restaurant {
    /// A restaurant whose chef Jack cooks his one dish, mapo tofu.
    pub fn new() -> (r: Self)
        ensures
            r.dish() == "\u{9ebb}\u{5a46}\u{8c46}\u{8150}"@,
            r.served() == r.dish(),
    {
        let jack = JackState::new("\u{9ebb}\u{5a46}\u{8c46}\u{8150}".to_owned());
        Restaurant { jack }
    }
}

impl Chef for Restaurant {
    closed spec fn dish(&self) -> Seq<char> {
        self.jack.dish()
    }

    fn cook(&self) -> (r: &str) {
        self.jack.cook()
    }
}

impl Waiter for Restaurant {
    open spec fn served(&self) -> Seq<char> {
        self.dish()
    }

    fn serve(&self) -> (r: &str) {
        self.cook()
    }
}

impl Default for Restaurant {
    fn default() -> (r: Self)
        ensures
            r.dish() == "\u{9ebb}\u{5a46}\u{8c46}\u{8150}"@,
            r.served() == r.dish(),
    {
        Restaurant::new()
    }
}

} // verus!
