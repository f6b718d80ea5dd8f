//! Typed errors for the engine. Every invalid request fails fast with one of
//! these; no engine operation panics.

use vstd::prelude::*;

verus! {

/// Errors of property declaration and domain narrowing.
#[derive(Clone, Copy, PartialEq, Eq, Structural, Debug)]
pub enum PropertyError {
    /// The property name is already declared in this federation.
    DuplicateProperty,
    /// A property must be declared with a non-empty allowed-values domain.
    EmptyDomain,
    /// A domain may only shrink; the proposed set is not a subset of the
    /// current one.
    DomainExpansion,
    /// The named property is not declared in this federation.
    UnknownProperty,
    /// The federation identifier does not name a federation.
    UnknownFederation,
}

/// Errors of accreditation grants.
#[derive(Clone, Copy, PartialEq, Eq, Structural, Debug)]
pub enum GrantError {
    /// The grant exceeds the grantor's own effective authority, or uses a
    /// value outside the federation-level domain of the property.
    InsufficientAuthority,
    /// A constraint references a property name not declared in the
    /// federation.
    UnknownProperty,
    /// The federation identifier does not name a federation.
    UnknownFederation,
}

/// Errors of revocation.
#[derive(Clone, Copy, PartialEq, Eq, Structural, Debug)]
pub enum RevokeError {
    /// Only the edge's original grantor or the federation's root authority
    /// may revoke it.
    NotAuthorized,
    /// The accreditation identifier does not name an edge.
    UnknownAccreditation,
    /// The federation identifier does not name a federation.
    UnknownFederation,
}

} // verus!
