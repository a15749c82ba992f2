use vstd::prelude::*;

verus! {

/// Opaque token identifying a simulated node.
///
/// Identifiers are handed out by the bus when a socket is opened; they are
/// never reassigned while the bus lives, so two live sockets never share one.
#[derive(Clone, Copy, PartialEq, Eq, Structural, Hash, Debug)]
pub struct SimId(pub u64);

impl SimId {
    /// The raw value of the identifier.
    pub fn value(&self) -> (r: u64)
        ensures
            r == self.0,
    {
        self.0
    }
}

} // verus!
