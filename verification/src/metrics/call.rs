//! One finished model call.

use vstd::prelude::*;

verus! {

/// A model call that has finished.
#[derive(Debug)]
pub struct Call {
    /// The key of its row.
    pub id: String,
    pub started_ms: i64,
    pub first_token_ms: Option<i64>,
    pub completed_ms: i64,
    /// How long it generated: from its first token to its end.
    pub gen_ms: i64,
    pub output: u64,
    pub reasoning: u64,
    pub input: u64,
    pub cache_creation: u64,
    pub cache_read: u64,
    pub session: String,
}

impl Clone for Call {
    fn clone(&self) -> (c: Self)
        ensures
            c == *self,
    {
        Call {
            id: self.id.clone(),
            started_ms: self.started_ms,
            first_token_ms: self.first_token_ms,
            completed_ms: self.completed_ms,
            gen_ms: self.gen_ms,
            output: self.output,
            reasoning: self.reasoning,
            input: self.input,
            cache_creation: self.cache_creation,
            cache_read: self.cache_read,
            session: self.session.clone(),
        }
    }
}

impl Call {
    /// Tokens that were streamed: the output and the reasoning before it.
    pub open spec fn effective(self) -> int {
        self.output + self.reasoning
    }

    pub fn effective_out(&self) -> (n: u64)
        requires
            self.effective() <= u64::MAX,
        ensures
            n == self.effective(),
    {
        self.output + self.reasoning
    }
}

} // verus!
