//! The validation engine: authority checks on new grants, and the structural
//! insertion and replacement of accreditation edges.
//!
//! Every authority and domain check is evaluated in full before the graph is
//! touched: a multi-constraint grant is inserted whole or rejected whole.

use vstd::pervasive::VecAdditionalExecFns;
use vstd::prelude::*;

use crate::accreditation::{
    edge_live_for, names_of, same_name_set, Accreditation, AccreditationKind,
};
use crate::errors::GrantError;
use crate::federation::{constraint_set_with, edge_set_constraint_with, Federation};
use crate::identity::Identity;
use crate::property::{
    lemma_value_set_push, value_set_of, PropertyConstraint, PropertyName, PropertyValue,
};

verus! {

/// The edge is live and has the same grantor, grantee, kind, and property
/// name set as the proposed constraints: re-accrediting the same subject is
/// an update in place, not a second edge.
pub open spec fn edge_matches(
    e: Accreditation,
    grantor: Seq<u8>,
    grantee: Seq<u8>,
    kind: AccreditationKind,
    cs: Seq<PropertyConstraint>,
) -> bool {
    &&& !e.revoked
    &&& e.grantor@ == grantor
    &&& e.grantee@ == grantee
    &&& e.kind == kind
    &&& names_of(e.constraints@) == names_of(cs)
}

/// How a successful grant changes the edge list: the first live matching
/// edge is replaced in place (same position, new constraints, new issue
/// time), otherwise a fresh edge is appended. `idx` is the position of the
/// edge that carries the grant afterwards.
pub open spec fn insert_edge_post(
    pre: Federation,
    post: Federation,
    idx: usize,
    grantor: Identity,
    grantee: Identity,
    kind: AccreditationKind,
    cs: Vec<PropertyConstraint>,
    now: u64,
) -> bool {
    let new_edge = (Accreditation {
        grantor,
        grantee,
        kind,
        constraints: cs,
        issued_at: now,
        revoked: false,
    });
    if exists|j: int|
        0 <= j < pre.edges@.len() && edge_matches(
            #[trigger] pre.edges@[j],
            grantor@,
            grantee@,
            kind,
            cs@,
        ) {
        &&& idx < pre.edges@.len()
        &&& edge_matches(pre.edges@[idx as int], grantor@, grantee@, kind, cs@)
        &&& forall|k: int|
            0 <= k < idx ==> !edge_matches(#[trigger] pre.edges@[k], grantor@, grantee@, kind, cs@)
        &&& post.edges@ == pre.edges@.update(idx as int, new_edge)
    } else {
        &&& idx == pre.edges@.len()
        &&& post.edges@ == pre.edges@.push(new_edge)
    }
}

/// Everything a grant promises: properties and root are untouched; the
/// request succeeds exactly when every constraint passes the domain and
/// narrowing checks; on success the edge list changes by
/// `insert_edge_post`, on failure it does not change at all and the error
/// identifies the first failing constraint.
pub open spec fn grant_outcome(
    pre: Federation,
    post: Federation,
    r: Result<usize, GrantError>,
    grantor: Identity,
    grantee: Identity,
    kind: AccreditationKind,
    cs: Vec<PropertyConstraint>,
    now: u64,
) -> bool {
    &&& post.root_authority == pre.root_authority
    &&& post.properties == pre.properties
    &&& (r is Ok <==> pre.grant_ok(grantor@, cs@, now))
    &&& match r {
        Ok(idx) => insert_edge_post(pre, post, idx, grantor, grantee, kind, cs, now),
        Err(e) => post == pre && pre.grant_error_spec(grantor@, cs@, now) == Some(e),
    }
}

impl Federation {
    /// The grantor's own effective authority covers the constraint: every
    /// value in the constraint's set is one the grantor may delegate, and a
    /// blanket (`allow_any`) grant is only issued by the root authority or
    /// by a holder of a blanket `ToAccredit` constraint for the name. The
    /// narrowing rule compares allowed-value sets, so an expression-carrying
    /// constraint is checked through the values it carries; its predicate
    /// applies at validation time, always bounded by the property's domain.
    pub open spec fn covers_constraint(
        self,
        grantor: Seq<u8>,
        c: PropertyConstraint,
        now: u64,
    ) -> bool {
        &&& forall|v: Seq<u8>|
            value_set_of(c.values@).contains(v) ==> self.may_delegate_value(
                grantor,
                c.name@,
                v,
                now,
            )
        &&& (c.allow_any ==> self.is_root(grantor) || self.granted_any(
            grantor,
            AccreditationKind::ToAccredit,
            c.name@,
            now,
        ))
    }

    /// The constraint names a declared property and keeps every value
    /// inside that property's current domain.
    pub open spec fn constraint_in_domain(self, c: PropertyConstraint) -> bool {
        &&& self.declares(c.name@)
        &&& value_set_of(c.values@).subset_of(self.domain(c.name@))
    }

    /// Every constraint of the request passes both checks.
    pub open spec fn grant_ok(self, grantor: Seq<u8>, cs: Seq<PropertyConstraint>, now: u64) -> bool {
        forall|k: int|
            0 <= k < cs.len() ==> self.constraint_in_domain(#[trigger] cs[k])
                && self.covers_constraint(grantor, cs[k], now)
    }

    /// The error a grant reports: the first constraint that references an
    /// undeclared property gives `UnknownProperty`; the first one that
    /// escapes the domain or the grantor's own authority gives
    /// `InsufficientAuthority`; a request with no failing constraint gives
    /// none.
    pub open spec fn grant_error_spec(
        self,
        grantor: Seq<u8>,
        cs: Seq<PropertyConstraint>,
        now: u64,
    ) -> Option<GrantError>
        decreases cs.len(),
    {
        if cs.len() == 0 {
            None
        } else if !self.declares(cs[0].name@) {
            Some(GrantError::UnknownProperty)
        } else if !(value_set_of(cs[0].values@).subset_of(self.domain(cs[0].name@))
            && self.covers_constraint(grantor, cs[0], now)) {
            Some(GrantError::InsufficientAuthority)
        } else {
            self.grant_error_spec(grantor, cs.drop_first(), now)
        }
    }

    /// A grant reports no error exactly when every constraint passes.
    pub proof fn lemma_grant_error_none(
        self,
        grantor: Seq<u8>,
        cs: Seq<PropertyConstraint>,
        now: u64,
    )
        ensures
            (self.grant_error_spec(grantor, cs, now) is None) <==> self.grant_ok(
                grantor,
                cs,
                now,
            ),
        decreases cs.len(),
    {
        if cs.len() != 0 {
            self.lemma_grant_error_none(grantor, cs.drop_first(), now);
            let rest = cs.drop_first();
            if self.grant_error_spec(grantor, cs, now) is None {
                assert forall|k: int|
                    0 <= k < cs.len() implies self.constraint_in_domain(#[trigger] cs[k])
                    && self.covers_constraint(grantor, cs[k], now) by {
                    if k > 0 {
                        assert(rest[k - 1] == cs[k]);
                    }
                }
            }
            if self.grant_ok(grantor, cs, now) {
                assert forall|k: int|
                    0 <= k < rest.len() implies self.constraint_in_domain(#[trigger] rest[k])
                    && self.covers_constraint(grantor, rest[k], now) by {
                    assert(rest[k] == cs[k + 1]);
                }
                assert(self.constraint_in_domain(cs[0]));
            }
        }
    }

    /// Decides `may_delegate_value`.
    pub fn may_delegate(
        &self,
        grantor: &Identity,
        name: &PropertyName,
        v: &PropertyValue,
        now: u64,
    ) -> (r: bool)
        ensures
            r == self.may_delegate_value(grantor@, name@, v@, now),
    {
        if self.root_authority.equals(grantor) {
            return true;
        }
        self.holds_admitting_edge(grantor, AccreditationKind::ToAccredit, name, v, now)
    }

    /// Decides `covers_constraint`.
    fn covers(&self, grantor: &Identity, c: &PropertyConstraint, now: u64) -> (r: bool)
        ensures
            r == self.covers_constraint(grantor@, *c, now),
    {
        if c.allow_any {
            let blanket = self.root_authority.equals(grantor) || self.holds_any_edge(
                grantor,
                AccreditationKind::ToAccredit,
                &c.name,
                now,
            );
            if !blanket {
                return false;
            }
        }
        let mut i: usize = 0;
        while i < c.values.len()
            invariant
                i <= c.values@.len(),
                forall|k: int|
                    0 <= k < i ==> self.may_delegate_value(
                        grantor@,
                        c.name@,
                        #[trigger] c.values@[k]@,
                        now,
                    ),
            decreases c.values@.len() - i,
        {
            if !self.may_delegate(grantor, &c.name, &c.values[i], now) {
                proof {
                    assert(value_set_of(c.values@).contains(c.values@[i as int]@));
                }
                return false;
            }
            i = i + 1;
        }
        proof {
            assert forall|v: Seq<u8>|
                value_set_of(c.values@).contains(v) implies self.may_delegate_value(
                grantor@,
                c.name@,
                v,
                now,
            ) by {
                let k = choose|k: int| 0 <= k < c.values@.len() && #[trigger] c.values@[k]@ == v;
                assert(self.may_delegate_value(grantor@, c.name@, c.values@[k]@, now));
            }
        }
        true
    }

    /// Decides whether every value of `vs` lies in the current domain of
    /// `name`.
    fn values_in_domain(&self, name: &PropertyName, vs: &Vec<PropertyValue>) -> (r: bool)
        ensures
            r == value_set_of(vs@).subset_of(self.domain(name@)),
    {
        let mut i: usize = 0;
        while i < vs.len()
            invariant
                i <= vs@.len(),
                forall|k: int| 0 <= k < i ==> self.domain(name@).contains(#[trigger] vs@[k]@),
            decreases vs@.len() - i,
        {
            if !self.domain_contains(name, &vs[i]) {
                proof {
                    assert(value_set_of(vs@).contains(vs@[i as int]@));
                }
                return false;
            }
            i = i + 1;
        }
        proof {
            assert forall|v: Seq<u8>|
                value_set_of(vs@).contains(v) implies self.domain(name@).contains(v) by {
                let k = choose|k: int| 0 <= k < vs@.len() && #[trigger] vs@[k]@ == v;
                assert(self.domain(name@).contains(vs@[k]@));
            }
        }
        true
    }

    /// Runs every check of a grant request, in constraint order, touching
    /// nothing; returns exactly the error the request must report, if any.
    fn check_constraints(
        &self,
        grantor: &Identity,
        cs: &Vec<PropertyConstraint>,
        now: u64,
    ) -> (r: Option<GrantError>)
        ensures
            r == self.grant_error_spec(grantor@, cs@, now),
    {
        let mut i: usize = 0;
        proof {
            assert(cs@.skip(0) =~= cs@);
        }
        while i < cs.len()
            invariant
                i <= cs@.len(),
                self.grant_error_spec(grantor@, cs@, now) == self.grant_error_spec(
                    grantor@,
                    cs@.skip(i as int),
                    now,
                ),
            decreases cs@.len() - i,
        {
            let c = &cs[i];
            proof {
                assert(cs@.skip(i as int).len() > 0);
                assert(cs@.skip(i as int)[0] == cs@[i as int]);
            }
            if self.get_property(&c.name).is_none() {
                return Some(GrantError::UnknownProperty);
            }
            if !self.values_in_domain(&c.name, &c.values) || !self.covers(grantor, c, now) {
                return Some(GrantError::InsufficientAuthority);
            }
            proof {
                assert(cs@.skip(i as int).drop_first() =~= cs@.skip(i + 1));
            }
            i = i + 1;
        }
        proof {
            assert(cs@.skip(cs@.len() as int).len() == 0);
        }
        None
    }

    /// The position of the first live edge that `edge_matches` the request,
    /// if any.
    fn find_matching_edge(
        &self,
        grantor: &Identity,
        grantee: &Identity,
        kind: AccreditationKind,
        cs: &Vec<PropertyConstraint>,
    ) -> (r: Option<usize>)
        ensures
            match r {
                Some(j) => {
                    &&& j < self.edges@.len()
                    &&& edge_matches(self.edges@[j as int], grantor@, grantee@, kind, cs@)
                    &&& forall|k: int|
                        0 <= k < j ==> !edge_matches(
                            #[trigger] self.edges@[k],
                            grantor@,
                            grantee@,
                            kind,
                            cs@,
                        )
                },
                None => forall|k: int|
                    0 <= k < self.edges@.len() ==> !edge_matches(
                        #[trigger] self.edges@[k],
                        grantor@,
                        grantee@,
                        kind,
                        cs@,
                    ),
            },
    {
        let mut j: usize = 0;
        while j < self.edges.len()
            invariant
                j <= self.edges@.len(),
                forall|k: int|
                    0 <= k < j ==> !edge_matches(
                        #[trigger] self.edges@[k],
                        grantor@,
                        grantee@,
                        kind,
                        cs@,
                    ),
            decreases self.edges@.len() - j,
        {
            let e = &self.edges[j];
            if !e.revoked && e.grantor.equals(grantor) && e.grantee.equals(grantee) && e.kind
                == kind && same_name_set(&e.constraints, cs) {
                return Some(j);
            }
            j = j + 1;
        }
        None
    }

    /// The structural insertion of §4.2: replaces the first live matching
    /// edge in place, else appends. Performs no authority check itself; the
    /// grant operations run every check before calling this.
    fn insert_edge(
        &mut self,
        grantor: Identity,
        grantee: Identity,
        kind: AccreditationKind,
        constraints: Vec<PropertyConstraint>,
        now: u64,
    ) -> (idx: usize)
        ensures
            final(self).root_authority == old(self).root_authority,
            final(self).properties == old(self).properties,
            insert_edge_post(
                *old(self),
                *final(self),
                idx,
                grantor,
                grantee,
                kind,
                constraints,
                now,
            ),
    {
        let found = self.find_matching_edge(&grantor, &grantee, kind, &constraints);
        let new_edge = Accreditation {
            grantor,
            grantee,
            kind,
            constraints,
            issued_at: now,
            revoked: false,
        };
        match found {
            Some(j) => {
                self.edges.set(j, new_edge);
                j
            },
            None => {
                let idx = self.edges.len();
                self.edges.push(new_edge);
                idx
            },
        }
    }

    /// Grants the grantee permission to attest the constrained properties
    /// about itself. Checks every constraint against the federation's
    /// domains and the grantor's own `ToAccredit` authority before touching
    /// the graph.
    pub fn create_accreditation_to_attest(
        &mut self,
        grantor: Identity,
        grantee: Identity,
        constraints: Vec<PropertyConstraint>,
        now: u64,
    ) -> (r: Result<usize, GrantError>)
        ensures
            grant_outcome(
                *old(self),
                *final(self),
                r,
                grantor,
                grantee,
                AccreditationKind::ToAttest,
                constraints,
                now,
            ),
    {
        self.create_accreditation(grantor, grantee, AccreditationKind::ToAttest, constraints, now)
    }

    /// Grants the grantee permission to delegate further, narrowed,
    /// authority over the constrained properties. The authority check is
    /// the same as for attestation grants: delegated authority may only
    /// shrink on each hop.
    pub fn create_accreditation_to_accredit(
        &mut self,
        grantor: Identity,
        grantee: Identity,
        constraints: Vec<PropertyConstraint>,
        now: u64,
    ) -> (r: Result<usize, GrantError>)
        ensures
            grant_outcome(
                *old(self),
                *final(self),
                r,
                grantor,
                grantee,
                AccreditationKind::ToAccredit,
                constraints,
                now,
            ),
    {
        self.create_accreditation(grantor, grantee, AccreditationKind::ToAccredit, constraints, now)
    }

    /// Computes the effective constraint set that `id` holds for `name`
    /// under `kind` at `now`: `AnyInDomain` for the root authority or a
    /// holder of a blanket constraint, otherwise the union of the
    /// allowed-value sets of every live, in-force, set-based constraint,
    /// or `NoAuthority` when no live constraint for the name is in force.
    /// Expression-carrying constraints cannot be enumerated as a flat set;
    /// they are queried per value through `validate_property` and
    /// `may_delegate`.
    pub fn effective_constraints(
        &self,
        id: &Identity,
        name: &PropertyName,
        kind: AccreditationKind,
        now: u64,
    ) -> (r: EffectiveConstraints)
        ensures
            match r {
                EffectiveConstraints::AnyInDomain => self.is_root(id@) || self.granted_any(
                    id@,
                    kind,
                    name@,
                    now,
                ),
                EffectiveConstraints::NoAuthority => {
                    &&& !self.is_root(id@)
                    &&& !self.names_active(id@, kind, name@, now)
                },
                EffectiveConstraints::Values(vs) => {
                    &&& !self.is_root(id@)
                    &&& !self.granted_any(id@, kind, name@, now)
                    &&& self.names_active(id@, kind, name@, now)
                    &&& value_set_of(vs@) == self.granted_value_set(id@, kind, name@, now)
                },
            },
    {
        if self.root_authority.equals(id) {
            return EffectiveConstraints::AnyInDomain;
        }
        if self.holds_any_edge(id, kind, name, now) {
            return EffectiveConstraints::AnyInDomain;
        }
        if !self.holds_named_edge(id, kind, name, now) {
            return EffectiveConstraints::NoAuthority;
        }
        let mut out: Vec<PropertyValue> = Vec::new();
        let mut j: usize = 0;
        while j < self.edges.len()
            invariant
                j <= self.edges@.len(),
                forall|v: Seq<u8>|
                    #[trigger] value_set_of(out@).contains(v) <==> exists|j0: int|
                        0 <= j0 < j && {
                            let e = #[trigger] self.edges@[j0];
                            edge_live_for(e, id@, kind) && edge_set_constraint_with(
                                e,
                                name@,
                                v,
                                now,
                            )
                        },
            decreases self.edges@.len() - j,
        {
            let ghost prior = out@;
            let e = &self.edges[j];
            if e.is_live_for(id, kind) {
                append_edge_values(e, name, now, &mut out);
            }
            proof {
                assert forall|v: Seq<u8>| #[trigger]
                    value_set_of(out@).contains(v) implies exists|j0: int|
                    0 <= j0 < j + 1 && {
                        let e0 = #[trigger] self.edges@[j0];
                        edge_live_for(e0, id@, kind) && edge_set_constraint_with(e0, name@, v, now)
                    } by {
                    if value_set_of(prior).contains(v) {
                        let j0 = choose|j0: int|
                            0 <= j0 < j && {
                                let e0 = #[trigger] self.edges@[j0];
                                edge_live_for(e0, id@, kind) && edge_set_constraint_with(
                                    e0,
                                    name@,
                                    v,
                                    now,
                                )
                            };
                        assert(0 <= j0 < j + 1 && {
                            let e0 = self.edges@[j0];
                            edge_live_for(e0, id@, kind) && edge_set_constraint_with(
                                e0,
                                name@,
                                v,
                                now,
                            )
                        });
                    } else {
                        assert(0 <= j < j + 1 && {
                            let e0 = self.edges@[j as int];
                            edge_live_for(e0, id@, kind) && edge_set_constraint_with(
                                e0,
                                name@,
                                v,
                                now,
                            )
                        });
                    }
                }
                assert forall|v: Seq<u8>|
                    (exists|j0: int|
                        0 <= j0 < j + 1 && {
                            let e0 = #[trigger] self.edges@[j0];
                            edge_live_for(e0, id@, kind) && edge_set_constraint_with(
                                e0,
                                name@,
                                v,
                                now,
                            )
                        }) implies #[trigger] value_set_of(out@).contains(v) by {
                    let j0 = choose|j0: int|
                        0 <= j0 < j + 1 && {
                            let e0 = #[trigger] self.edges@[j0];
                            edge_live_for(e0, id@, kind) && edge_set_constraint_with(
                                e0,
                                name@,
                                v,
                                now,
                            )
                        };
                    if j0 < j {
                        assert(value_set_of(prior).contains(v));
                    }
                }
            }
            j = j + 1;
        }
        proof {
            assert(value_set_of(out@) =~= self.granted_value_set(id@, kind, name@, now));
        }
        EffectiveConstraints::Values(out)
    }

    /// Shared body of the two grant operations.
    fn create_accreditation(
        &mut self,
        grantor: Identity,
        grantee: Identity,
        kind: AccreditationKind,
        constraints: Vec<PropertyConstraint>,
        now: u64,
    ) -> (r: Result<usize, GrantError>)
        ensures
            grant_outcome(*old(self), *final(self), r, grantor, grantee, kind, constraints, now),
    {
        proof {
            self.lemma_grant_error_none(grantor@, constraints@, now);
        }
        match self.check_constraints(&grantor, &constraints, now) {
            Some(e) => Err(e),
            None => {
                let idx = self.insert_edge(grantor, grantee, kind, constraints, now);
                Ok(idx)
            },
        }
    }
}

/// The effective authority an identity holds for one property under one
/// kind of delegation.
pub enum EffectiveConstraints {
    /// No live constraint for the name is in force.
    NoAuthority,
    /// The identity may use any value currently in the property's domain:
    /// it is the root authority or holds a blanket constraint.
    AnyInDomain,
    /// The union of the allowed-value sets of every live, in-force,
    /// set-based constraint held for the name.
    Values(Vec<PropertyValue>),
}

/// Appends to `out` every value of every qualifying set-based constraint of
/// `e` for `name` at `now`; the denoted set grows by exactly the values the
/// edge contributes to the union.
fn append_edge_values(
    e: &Accreditation,
    name: &PropertyName,
    now: u64,
    out: &mut Vec<PropertyValue>,
)
    ensures
        forall|v: Seq<u8>|
            #[trigger] value_set_of(final(out)@).contains(v) <==> (value_set_of(
                old(out)@,
            ).contains(v) || edge_set_constraint_with(*e, name@, v, now)),
{
    let mut i: usize = 0;
    while i < e.constraints.len()
        invariant
            i <= e.constraints@.len(),
            forall|v: Seq<u8>|
                #[trigger] value_set_of(out@).contains(v) <==> (value_set_of(
                    old(out)@,
                ).contains(v) || exists|i0: int|
                    0 <= i0 < i && constraint_set_with(
                        #[trigger] e.constraints@[i0],
                        name@,
                        v,
                        now,
                    )),
        decreases e.constraints@.len() - i,
    {
        let ghost mid = out@;
        let c = &e.constraints[i];
        if c.name.equals(name) && c.is_active(now) && c.expression.is_none() && !c.allow_any {
            let mut k: usize = 0;
            while k < c.values.len()
                invariant
                    k <= c.values@.len(),
                    c.name@ == name@,
                    crate::property::constraint_active(*c, now),
                    c.expression is None,
                    !c.allow_any,
                    c == &e.constraints@[i as int],
                    0 <= i < e.constraints@.len(),
                    forall|v: Seq<u8>|
                        #[trigger] value_set_of(out@).contains(v) <==> (value_set_of(mid).contains(
                            v,
                        ) || exists|k0: int| 0 <= k0 < k && #[trigger] c.values@[k0]@ == v),
                decreases c.values@.len() - k,
            {
                let ghost before = out@;
                out.push(c.values[k].duplicate());
                proof {
                    lemma_value_set_push(before, out@[out@.len() - 1]);
                    assert(out@ =~= before.push(out@[out@.len() - 1]));
                    assert forall|v: Seq<u8>| #[trigger]
                        value_set_of(out@).contains(v) implies (value_set_of(mid).contains(v)
                        || exists|k0: int| 0 <= k0 < k + 1 && #[trigger] c.values@[k0]@ == v) by {
                        if !value_set_of(before).contains(v) {
                            assert(c.values@[k as int]@ == v);
                        }
                    }
                    assert forall|v: Seq<u8>|
                        (value_set_of(mid).contains(v) || exists|k0: int|
                            0 <= k0 < k + 1 && #[trigger] c.values@[k0]@ == v) implies #[trigger]
                        value_set_of(out@).contains(v) by {
                        if value_set_of(mid).contains(v) {
                            assert(value_set_of(before).contains(v));
                        } else {
                            let k0 = choose|k0: int|
                                0 <= k0 < k + 1 && #[trigger] c.values@[k0]@ == v;
                            if k0 < k {
                                assert(value_set_of(before).contains(v));
                            } else {
                                assert(v == out@[out@.len() - 1]@);
                            }
                        }
                    }
                }
                k = k + 1;
            }
            proof {
                assert forall|v: Seq<u8>| #[trigger]
                    value_set_of(out@).contains(v) implies (value_set_of(old(out)@).contains(v)
                    || exists|i0: int|
                        0 <= i0 < i + 1 && constraint_set_with(
                            #[trigger] e.constraints@[i0],
                            name@,
                            v,
                            now,
                        )) by {
                    if !value_set_of(mid).contains(v) {
                        assert(value_set_of(c.values@).contains(v));
                        assert(constraint_set_with(e.constraints@[i as int], name@, v, now));
                    }
                }
                assert forall|v: Seq<u8>|
                    (value_set_of(old(out)@).contains(v) || exists|i0: int|
                        0 <= i0 < i + 1 && constraint_set_with(
                            #[trigger] e.constraints@[i0],
                            name@,
                            v,
                            now,
                        )) implies #[trigger] value_set_of(out@).contains(v) by {
                    if value_set_of(old(out)@).contains(v) {
                        assert(value_set_of(mid).contains(v));
                    } else {
                        let i0 = choose|i0: int|
                            0 <= i0 < i + 1 && constraint_set_with(
                                #[trigger] e.constraints@[i0],
                                name@,
                                v,
                                now,
                            );
                        if i0 < i {
                            assert(value_set_of(mid).contains(v));
                        } else {
                            let k0 = choose|k0: int|
                                0 <= k0 < c.values@.len() && #[trigger] c.values@[k0]@ == v;
                            assert(value_set_of(out@).contains(c.values@[k0]@));
                        }
                    }
                }
            }
        } else {
            proof {
                assert forall|v: Seq<u8>| #![trigger value_set_of(out@).contains(v)]
                    (value_set_of(out@).contains(v) <==> (value_set_of(old(out)@).contains(v)
                        || exists|i0: int|
                        0 <= i0 < i + 1 && constraint_set_with(
                            #[trigger] e.constraints@[i0],
                            name@,
                            v,
                            now,
                        ))) by {
                    if exists|i0: int|
                        0 <= i0 < i + 1 && constraint_set_with(
                            #[trigger] e.constraints@[i0],
                            name@,
                            v,
                            now,
                        ) {
                        let i0 = choose|i0: int|
                            0 <= i0 < i + 1 && constraint_set_with(
                                #[trigger] e.constraints@[i0],
                                name@,
                                v,
                                now,
                            );
                        if i0 == i {
                            assert(!constraint_set_with(e.constraints@[i0], name@, v, now));
                        }
                    }
                }
            }
        }
        i = i + 1;
    }
}

} // verus!
