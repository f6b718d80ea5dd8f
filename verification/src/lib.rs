//! A trust-hierarchy engine: federations of identities delegate constrained
//! authority over named properties, and queries ask whether an identity may
//! currently assert a given (property, value) pair.
//!
//! A federation is rooted at a single authority. Authority flows along
//! accreditation edges, each carrying a constraint set; delegation may only
//! narrow what the grantor itself holds, edges may be revoked or expire, and
//! every value is bounded by the federation-level domain of its property.

pub mod accreditation;
pub mod api;
pub mod errors;
pub mod expression;
pub mod federation;
pub mod identity;
pub mod laws;
pub mod property;
pub mod registry;
pub mod text;
pub mod validation;
