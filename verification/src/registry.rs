//! The federation registry: owns every federation and exposes the engine's
//! external interface, addressing federations by identifier.
//!
//! A federation's identifier is its position in the registry; an
//! accreditation's identifier is the pair of its federation and its position
//! in that federation's edge list. Both are stable: nothing is ever removed.

use vstd::prelude::*;

use crate::accreditation::AccreditationKind;
use crate::errors::{GrantError, PropertyError, RevokeError};
use crate::federation::{declare_outcome, narrow_outcome, revoke_outcome, Federation};
use crate::identity::Identity;
use crate::property::{PropertyConstraint, PropertyName, PropertyValue};
use crate::validation::{grant_outcome, EffectiveConstraints};

verus! {

/// Names one accreditation edge: the federation it lives in and its
/// position in that federation's edge list.
#[derive(Clone, Copy, PartialEq, Eq, Structural, Debug)]
pub struct AccreditationId {
    pub federation: usize,
    pub edge: usize,
}

/// The registry of federations.
pub struct Registry {
    pub federations: Vec<Federation>,
}

impl Registry {
    /// Structural invariant: every federation is well formed.
    pub open spec fn wf(self) -> bool {
        forall|i: int|
            0 <= i < self.federations@.len() ==> (#[trigger] self.federations@[i]).wf()
    }

    /// The identifier names a federation.
    pub open spec fn has_federation(self, federation: usize) -> bool {
        federation < self.federations@.len()
    }

    /// An empty registry.
    pub fn new() -> (r: Registry)
        ensures
            r.federations@ == Seq::<Federation>::empty(),
            r.wf(),
    {
        Registry { federations: Vec::new() }
    }

    /// Creates a fresh federation rooted at `root_authority` and returns
    /// its identifier. Always succeeds.
    pub fn create_federation(&mut self, root_authority: Identity) -> (id: usize)
        requires
            old(self).wf(),
        ensures
            final(self).wf(),
            id == old(self).federations@.len(),
            final(self).federations@.len() == old(self).federations@.len() + 1,
            forall|k: int|
                0 <= k < old(self).federations@.len() ==> final(self).federations@[k] == old(
                    self,
                ).federations@[k],
            final(self).federations@[id as int].root_authority@ == root_authority@,
            final(self).federations@[id as int].properties@.len() == 0,
            final(self).federations@[id as int].edges@.len() == 0,
    {
        let id = self.federations.len();
        self.federations.push(Federation::new(root_authority));
        id
    }

    /// The federation named by `federation`, if any.
    pub fn federation(&self, federation: usize) -> (r: Option<&Federation>)
        ensures
            match r {
                Some(f) => self.has_federation(federation) && *f == self.federations@[federation as int],
                None => !self.has_federation(federation),
            },
    {
        if federation < self.federations.len() {
            Some(&self.federations[federation])
        } else {
            None
        }
    }

    /// Declares a property in one federation; see
    /// `Federation::declare_property`.
    pub fn declare_property(
        &mut self,
        federation: usize,
        name: PropertyName,
        values: Vec<PropertyValue>,
    ) -> (r: Result<(), PropertyError>)
        requires
            old(self).wf(),
        ensures
            final(self).wf(),
            !old(self).has_federation(federation) ==> r == Err::<(), PropertyError>(
                PropertyError::UnknownFederation,
            ) && *final(self) == *old(self),
            old(self).has_federation(federation) ==> {
                &&& final(self).federations@.len() == old(self).federations@.len()
                &&& forall|k: int|
                    0 <= k < old(self).federations@.len() && k != federation ==> final(self).federations@[k] == old(self).federations@[k]
                &&& declare_outcome(
                    old(self).federations@[federation as int],
                    final(self).federations@[federation as int],
                    r,
                    name,
                    values,
                )
            },
    {
        if federation >= self.federations.len() {
            return Err(PropertyError::UnknownFederation);
        }
        let f = &mut self.federations[federation];
        f.declare_property(name, values)
    }

    /// Narrows the domain of a declared property in one federation; see
    /// `Federation::narrow_domain`.
    pub fn narrow_domain(
        &mut self,
        federation: usize,
        name: &PropertyName,
        new_values: Vec<PropertyValue>,
    ) -> (r: Result<(), PropertyError>)
        requires
            old(self).wf(),
        ensures
            final(self).wf(),
            !old(self).has_federation(federation) ==> r == Err::<(), PropertyError>(
                PropertyError::UnknownFederation,
            ) && *final(self) == *old(self),
            old(self).has_federation(federation) ==> {
                &&& final(self).federations@.len() == old(self).federations@.len()
                &&& forall|k: int|
                    0 <= k < old(self).federations@.len() && k != federation ==> final(self).federations@[k] == old(self).federations@[k]
                &&& narrow_outcome(
                    old(self).federations@[federation as int],
                    final(self).federations@[federation as int],
                    r,
                    name@,
                    new_values,
                )
            },
    {
        if federation >= self.federations.len() {
            return Err(PropertyError::UnknownFederation);
        }
        let f = &mut self.federations[federation];
        f.narrow_domain(name, new_values)
    }

    /// Grants permission to attest; see
    /// `Federation::create_accreditation_to_attest`.
    pub fn grant_attest(
        &mut self,
        federation: usize,
        grantor: Identity,
        grantee: Identity,
        constraints: Vec<PropertyConstraint>,
        now: u64,
    ) -> (r: Result<AccreditationId, GrantError>)
        requires
            old(self).wf(),
        ensures
            final(self).wf(),
            final(self).grant_result_ok(
                *old(self),
                r,
                federation,
                grantor,
                grantee,
                AccreditationKind::ToAttest,
                constraints,
                now,
            ),
    {
        if federation >= self.federations.len() {
            return Err(GrantError::UnknownFederation);
        }
        let f = &mut self.federations[federation];
        match f.create_accreditation_to_attest(grantor, grantee, constraints, now) {
            Ok(edge) => Ok(AccreditationId { federation, edge }),
            Err(e) => Err(e),
        }
    }

    /// Grants permission to delegate further; see
    /// `Federation::create_accreditation_to_accredit`.
    pub fn grant_accredit(
        &mut self,
        federation: usize,
        grantor: Identity,
        grantee: Identity,
        constraints: Vec<PropertyConstraint>,
        now: u64,
    ) -> (r: Result<AccreditationId, GrantError>)
        requires
            old(self).wf(),
        ensures
            final(self).wf(),
            final(self).grant_result_ok(
                *old(self),
                r,
                federation,
                grantor,
                grantee,
                AccreditationKind::ToAccredit,
                constraints,
                now,
            ),
    {
        if federation >= self.federations.len() {
            return Err(GrantError::UnknownFederation);
        }
        let f = &mut self.federations[federation];
        match f.create_accreditation_to_accredit(grantor, grantee, constraints, now) {
            Ok(edge) => Ok(AccreditationId { federation, edge }),
            Err(e) => Err(e),
        }
    }

    /// What both grant entry points promise, with `self` the post-state.
    pub open spec fn grant_result_ok(
        self,
        pre: Registry,
        r: Result<AccreditationId, GrantError>,
        federation: usize,
        grantor: Identity,
        grantee: Identity,
        kind: AccreditationKind,
        constraints: Vec<PropertyConstraint>,
        now: u64,
    ) -> bool {
        &&& (!pre.has_federation(federation) ==> r == Err::<AccreditationId, GrantError>(
            GrantError::UnknownFederation,
        ) && self == pre)
        &&& (pre.has_federation(federation) ==> {
            &&& self.federations@.len() == pre.federations@.len()
            &&& forall|k: int|
                0 <= k < pre.federations@.len() && k != federation ==> self.federations@[k]
                    == pre.federations@[k]
            &&& match r {
                Ok(aid) => aid.federation == federation && grant_outcome(
                    pre.federations@[federation as int],
                    self.federations@[federation as int],
                    Ok(aid.edge),
                    grantor,
                    grantee,
                    kind,
                    constraints,
                    now,
                ),
                Err(e) => grant_outcome(
                    pre.federations@[federation as int],
                    self.federations@[federation as int],
                    Err(e),
                    grantor,
                    grantee,
                    kind,
                    constraints,
                    now,
                ),
            }
        })
    }

    /// Revokes one accreditation edge; see
    /// `Federation::revoke_accreditation`.
    pub fn revoke(&mut self, id: AccreditationId, requester: &Identity) -> (r: Result<
        (),
        RevokeError,
    >)
        requires
            old(self).wf(),
        ensures
            final(self).wf(),
            !old(self).has_federation(id.federation) ==> r == Err::<(), RevokeError>(
                RevokeError::UnknownFederation,
            ) && *final(self) == *old(self),
            old(self).has_federation(id.federation) ==> {
                &&& final(self).federations@.len() == old(self).federations@.len()
                &&& forall|k: int|
                    0 <= k < old(self).federations@.len() && k != id.federation ==> final(self).federations@[k] == old(self).federations@[k]
                &&& revoke_outcome(
                    old(self).federations@[id.federation as int],
                    final(self).federations@[id.federation as int],
                    r,
                    id.edge,
                    requester@,
                )
            },
    {
        if id.federation >= self.federations.len() {
            return Err(RevokeError::UnknownFederation);
        }
        let f = &mut self.federations[id.federation];
        f.revoke_accreditation(id.edge, requester)
    }

    /// Decides whether `id` may assert (`name`, `value`) in the named
    /// federation at `now`. An unknown federation validates nothing.
    pub fn validate(
        &self,
        federation: usize,
        id: &Identity,
        name: &PropertyName,
        value: &PropertyValue,
        now: u64,
    ) -> (r: bool)
        ensures
            r == (self.has_federation(federation)
                && self.federations@[federation as int].validate_spec(id@, name@, value@, now)),
    {
        if federation >= self.federations.len() {
            return false;
        }
        self.federations[federation].validate_property(id, name, value, now)
    }

    /// Decides whether `id` may issue accreditations in the named
    /// federation at `now`. An unknown federation has no accreditors.
    pub fn is_accreditor(&self, federation: usize, id: &Identity, now: u64) -> (r: bool)
        ensures
            r == (self.has_federation(federation)
                && self.federations@[federation as int].accreditor_spec(id@, now)),
    {
        if federation >= self.federations.len() {
            return false;
        }
        self.federations[federation].is_accreditor(id, now)
    }

    /// The effective constraint set `id` holds in the named federation;
    /// see `Federation::effective_constraints`. An unknown federation
    /// grants no authority.
    pub fn effective_constraints(
        &self,
        federation: usize,
        id: &Identity,
        name: &PropertyName,
        kind: AccreditationKind,
        now: u64,
    ) -> (r: EffectiveConstraints)
        ensures
            !self.has_federation(federation) ==> r is NoAuthority,
            self.has_federation(federation) ==> {
                let f = self.federations@[federation as int];
                match r {
                    EffectiveConstraints::AnyInDomain => f.is_root(id@) || f.granted_any(
                        id@,
                        kind,
                        name@,
                        now,
                    ),
                    EffectiveConstraints::NoAuthority => !f.is_root(id@) && !f.names_active(
                        id@,
                        kind,
                        name@,
                        now,
                    ),
                    EffectiveConstraints::Values(vs) => {
                        &&& !f.is_root(id@)
                        &&& !f.granted_any(id@, kind, name@, now)
                        &&& f.names_active(id@, kind, name@, now)
                        &&& crate::property::value_set_of(vs@) == f.granted_value_set(
                            id@,
                            kind,
                            name@,
                            now,
                        )
                    },
                }
            },
    {
        if federation >= self.federations.len() {
            return EffectiveConstraints::NoAuthority;
        }
        self.federations[federation].effective_constraints(id, name, kind, now)
    }
}

} // verus!
