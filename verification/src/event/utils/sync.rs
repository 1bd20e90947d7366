//! Asking pipelines to stop.

use vstd::prelude::*;

verus! {

/// A handle by which something is asked to stop. Calling it more than once
/// asks no more than calling it once.
pub trait GracefulSignalInvoker: Send {
    fn call(&self);
}

/// One handle that stands for many: calling it calls each of them, in order.
pub struct CombinedGracefulSignalInvoker {
    v: Vec<Box<dyn GracefulSignalInvoker>>,
}

impl CombinedGracefulSignalInvoker {
    /// The handles that this one stands for, in the order in which they are
    /// called.
    pub closed spec fn handles(&self) -> Seq<Box<dyn GracefulSignalInvoker>> {
        self.v@
    }

    /// How many handles this one stands for.
    pub fn len(&self) -> (n: usize)
        ensures
            n == self.handles().len(),
    {
        self.v.len()
    }
}

/// The handle that stands for all the given ones, in their order.
pub fn combine(v: Vec<Box<dyn GracefulSignalInvoker>>) -> (r: CombinedGracefulSignalInvoker)
    ensures
        r.handles() == v@,
{
    CombinedGracefulSignalInvoker { v }
}

impl GracefulSignalInvoker for CombinedGracefulSignalInvoker {
    fn call(&self) {
        let mut i: usize = 0;
        while i < self.v.len()
            invariant
                i <= self.v@.len(),
            decreases self.v@.len() - i,
        {
            self.v[i].call();
            i += 1;
        }
    }
}

} // verus!
