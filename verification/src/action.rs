//! Actions: what the agent decides to do to one of its own modules.

use vstd::prelude::*;

verus! {

/// An action: an operation applied to a target module with two parameters.
#[derive(Debug, Clone)]
pub struct Action {
    pub operation: String,
    pub target: String,
    pub param1: String,
    pub param2: String,
}

/// The content of an action.
pub struct ActionModel {
    pub operation: Seq<char>,
    pub target: Seq<char>,
    pub param1: Seq<char>,
    pub param2: Seq<char>,
}

impl View for Action {
    type V = ActionModel;

    open spec fn view(&self) -> ActionModel {
        ActionModel {
            operation: self.operation@,
            target: self.target@,
            param1: self.param1@,
            param2: self.param2@,
        }
    }
}

/// The contents of a sequence of actions.
pub open spec fn action_views(v: Seq<Action>) -> Seq<ActionModel> {
    v.map_values(|a: Action| a@)
}

impl Action {
    /// A field-by-field copy of the action.
    pub fn copy(&self) -> (r: Action)
        ensures
            r@ == self@,
    {
        Action {
            operation: self.operation.clone(),
            target: self.target.clone(),
            param1: self.param1.clone(),
            param2: self.param2.clone(),
        }
    }
}

} // verus!
