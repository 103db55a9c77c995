use vstd::prelude::*;

verus! {

/// Identifier of an entity within one hub, or of a hub within the manager.
/// `0` is reserved as "no id".
pub type Id = u32;

/// A monotonic id source; the first id it hands out is `1`.
pub struct IdCounter(pub Id);

impl IdCounter {
    /// A counter that has handed out no id yet.
    pub fn new() -> (r: IdCounter)
        ensures
            r.0 == 0,
    {
        IdCounter(0)
    }

    /// Advances the counter and returns the fresh id.
    pub fn next(&mut self) -> (r: Id)
        requires
            old(self).0 < Id::MAX,
        ensures
            r == old(self).0 + 1,
            final(self).0 == r,
    {
        self.0 = self.0 + 1;
        self.0
    }
}

} // verus!
