use vstd::prelude::*;

verus! {

/// Identifier of a task spawned on a scheduler.
///
/// Identifiers are handed out in increasing order by a counter and are never
/// reused while the counter lives; an identifier is wide enough to travel as
/// a pointer-sized token through a wake handle.
#[derive(Debug, Clone, Copy, Hash, PartialEq, Eq, Structural)]
pub struct TaskId(pub usize);

impl TaskId {
    /// Returns the identifier held by the counter and advances the counter.
    pub fn next(&mut self) -> (id: TaskId)
        requires
            old(self).0 < usize::MAX,
        ensures
            id == *old(self),
            final(self).0 == old(self).0 + 1,
    {
        let id = TaskId(self.0);
        self.0 = self.0 + 1;
        id
    }

    /// The pointer-sized token that carries this identifier.
    pub fn to_ptr(self) -> (token: usize)
        ensures
            token == self.0,
    {
        self.0
    }

    /// The identifier carried by a pointer-sized token.
    pub fn from_ptr(token: usize) -> (id: TaskId)
        ensures
            id.0 == token,
    {
        TaskId(token)
    }
}

impl Default for TaskId {
    fn default() -> (id: TaskId)
        ensures
            id.0 == 0,
    {
        TaskId(0)
    }
}

} // verus!
