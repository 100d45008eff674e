use vstd::prelude::*;

verus! {

/// The capability a command type hands the replication engine: commands are
/// duplicated into replication messages, and the copy carries the same value.
pub trait Command: Sized {
    /// A copy of this command, equal to the original.
    fn duplicate(&self) -> (r: Self)
        ensures
            r == *self,
    ;
}

impl Command for u64 {
    fn duplicate(&self) -> (r: Self)
        ensures
            r == *self,
    {
        *self
    }
}

} // verus!
