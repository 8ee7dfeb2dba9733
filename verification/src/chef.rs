//! The cook side of a small dependency-injection demo: a capability trait
//! and one stateful implementor.

use vstd::prelude::*;

verus! {

/// Someone who can cook a dish.
pub trait Chef {
    /// The dish this chef produces.
    spec fn dish(&self) -> Seq<char>;

    /// Cook: hand out the dish.
    fn cook(&self) -> (r: &str)
        ensures
            r@ == self.dish(),
    ;
}

/// The state of the chef Jack: the one dish he has mastered.
pub struct JackState {
    skill: String,
}

impl JackState {
    /// A chef state with the given skill.
    pub fn new(skill: String) -> (s: Self)
        ensures
            s.dish() == skill@,
    {
        JackState { skill }
    }
}

impl Chef for JackState {
    closed spec fn dish(&self) -> Seq<char> {
        self.skill@
    }

    fn cook(&self) -> (r: &str) {
        self.skill.as_str()
    }
}

} // verus!
