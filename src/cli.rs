//! The operator's prompt.
use vstd::prelude::*;

verus! {

/// The prompt shown to the operator: a left part (the node group's name).
pub struct CustomPrompt {
    left_prompt: String,
}

impl CustomPrompt {
    /// A prompt whose left part is `left_prompt`.
    pub fn new(left_prompt: String) -> (r: Self)
        ensures
            r.left()@ == left_prompt@,
    {
        CustomPrompt { left_prompt }
    }

    /// The left part.
    pub closed spec fn left(&self) -> String {
        self.left_prompt
    }

    /// The left part.
    pub fn left_prompt(&self) -> (r: &String)
        ensures
            r@ == self.left()@,
    {
        &self.left_prompt
    }
}

/// The operator's line that ends the session loop.
pub const QUIT_COMMAND: &'static str = "quit";

} // verus!
