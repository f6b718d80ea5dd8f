//! Participant identities.
//!
//! An identity is an opaque, globally unique identifier owned by an external
//! identity store; the engine only stores references and compares them for
//! equality.

use vstd::prelude::*;

use crate::text::bytes_eq;

verus! {

/// An opaque identifier for a participant: the root authority, a
/// manufacturer, a repairer, or an end user.
pub struct Identity {
    pub bytes: Vec<u8>,
}

impl View for Identity {
    type V = Seq<u8>;

    open spec fn view(&self) -> Seq<u8> {
        self.bytes@
    }
}

impl Identity {
    /// Wraps raw identifier bytes. Identities are opaque: no normalization
    /// is applied.
    pub fn new(bytes: Vec<u8>) -> (r: Identity)
        ensures
            r@ == bytes@,
    {
        Identity { bytes }
    }

    /// Equality of two identities.
    pub fn equals(&self, other: &Identity) -> (r: bool)
        ensures
            r == (self@ == other@),
    {
        bytes_eq(&self.bytes, &other.bytes)
    }

    /// A copy of this identity.
    pub fn duplicate(&self) -> (r: Identity)
        ensures
            r@ == self@,
    {
        Identity { bytes: crate::text::copy_bytes(&self.bytes) }
    }
}

} // verus!
