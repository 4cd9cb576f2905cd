use vstd::prelude::*;

verus! {

/// A received packet, handed to the network stack.
pub struct RxToken<'a>(pub &'a [u8]);

impl<'a> RxToken<'a> {
    /// Lets `f` read the packet and returns what it returns.
    pub fn consume<R, F: FnOnce(&[u8]) -> R>(self, f: F) -> (r: R)
        requires
            f.requires((self.0,)),
        ensures
            f.ensures((self.0,), r),
    {
        f(self.0)
    }
}

} // verus!
