use vstd::prelude::*;

verus! {

/// A value that can travel through the signal graph.
///
/// Fan-out delivers one message to many responders, so the graph must be able
/// to hand an equal copy to each of them. `dup` is that copy, and its contract
/// (the copy equals the original) is what keeps delivery contracts exact.
pub trait Message: Sized {
    /// Produce a copy equal to `self`.
    fn dup(&self) -> (r: Self)
        ensures
            r == *self,
    ;
}

impl Message for u64 {
    fn dup(&self) -> Self {
        *self
    }
}

impl Message for u32 {
    fn dup(&self) -> Self {
        *self
    }
}

impl Message for i64 {
    fn dup(&self) -> Self {
        *self
    }
}

impl Message for bool {
    fn dup(&self) -> Self {
        *self
    }
}

impl Message for String {
    fn dup(&self) -> Self {
        self.clone()
    }
}

} // verus!
