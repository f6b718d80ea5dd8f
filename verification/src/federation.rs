//! Federations: one trust domain with a fixed root authority, a set of
//! declared properties, and the accreditation graph that delegates authority
//! over them.
//!
//! The graph is held as one flat list of edges; an edge's identifier is its
//! position in that list, which is stable because edges are never removed,
//! only replaced in place or marked revoked.

use vstd::prelude::*;

use crate::accreditation::{
    edge_admitting_constraint, edge_any_constraint, edge_in_force, edge_live_for,
    edge_names_constraint, Accreditation, AccreditationKind,
};
use crate::errors::{PropertyError, RevokeError};
use crate::identity::Identity;
use crate::property::{value_in, value_set_of, FederationProperty, PropertyName, PropertyValue};

verus! {

/// One trust domain. The root authority is fixed at creation; it is the
/// trust anchor and needs no inbound edge.
pub struct Federation {
    pub root_authority: Identity,
    pub properties: Vec<FederationProperty>,
    pub edges: Vec<Accreditation>,
}

/// Everything `declare_property` promises of its pre- and post-state and
/// result: the request succeeds exactly when the name is fresh and the
/// domain non-empty; on success the declaration is appended, on failure
/// nothing changes and the error names the first reason.
pub open spec fn declare_outcome(
    pre: Federation,
    post: Federation,
    r: Result<(), PropertyError>,
    name: PropertyName,
    values: Vec<PropertyValue>,
) -> bool {
    &&& post.root_authority == pre.root_authority
    &&& post.edges == pre.edges
    &&& (r is Ok <==> (!pre.declares(name@) && values@.len() > 0))
    &&& match r {
        Ok(_) => post.properties@ == pre.properties@.push((FederationProperty { name, values })),
        Err(e) => {
            &&& post == pre
            &&& (pre.declares(name@) ==> e == PropertyError::DuplicateProperty)
            &&& (!pre.declares(name@) ==> e == PropertyError::EmptyDomain)
        },
    }
}

/// Everything `narrow_domain` promises: the request succeeds exactly when
/// the name is declared and the proposed set is a subset of the current
/// domain; on success that one declaration's domain becomes the proposed
/// set, on failure nothing changes.
pub open spec fn narrow_outcome(
    pre: Federation,
    post: Federation,
    r: Result<(), PropertyError>,
    name: Seq<u8>,
    new_values: Vec<PropertyValue>,
) -> bool {
    &&& post.root_authority == pre.root_authority
    &&& post.edges == pre.edges
    &&& (r is Ok <==> (pre.declares(name) && value_set_of(new_values@).subset_of(
        pre.domain(name),
    )))
    &&& match r {
        Ok(_) => {
            &&& post.domain(name) == value_set_of(new_values@)
            &&& exists|i: int|
                0 <= i < pre.properties@.len() && #[trigger] pre.properties@[i].name@ == name
                    && post.properties@ == pre.properties@.update(
                    i,
                    (FederationProperty { name: pre.properties@[i].name, values: new_values }),
                )
        },
        Err(e) => {
            &&& post == pre
            &&& (!pre.declares(name) ==> e == PropertyError::UnknownProperty)
            &&& (pre.declares(name) ==> e == PropertyError::DomainExpansion)
        },
    }
}

/// Everything `revoke_accreditation` promises: the request succeeds exactly
/// when the position names an edge and the requester is that edge's grantor
/// or the root authority; on success only that edge's revocation flag is
/// set, on failure nothing changes.
pub open spec fn revoke_outcome(
    pre: Federation,
    post: Federation,
    r: Result<(), RevokeError>,
    edge: usize,
    requester: Seq<u8>,
) -> bool {
    &&& post.root_authority == pre.root_authority
    &&& post.properties == pre.properties
    &&& (r is Ok <==> (edge < pre.edges@.len() && (requester == pre.edges@[edge as int].grantor@
        || requester == pre.root_authority@)))
    &&& match r {
        Ok(_) => post.edges@ == pre.edges@.update(
            edge as int,
            (Accreditation { revoked: true, ..pre.edges@[edge as int] }),
        ),
        Err(e) => {
            &&& post == pre
            &&& (edge >= pre.edges@.len() ==> e == RevokeError::UnknownAccreditation)
            &&& (edge < pre.edges@.len() ==> e == RevokeError::NotAuthorized)
        },
    }
}

impl Federation {
    /// Structural invariant: declared property names are pairwise distinct.
    pub open spec fn wf(self) -> bool {
        forall|i: int, j: int|
            0 <= i < j < self.properties@.len() ==> #[trigger] self.properties@[i].name@
                != #[trigger] self.properties@[j].name@
    }

    /// The identity is this federation's root authority.
    pub open spec fn is_root(self, id: Seq<u8>) -> bool {
        id == self.root_authority@
    }

    /// The property name is declared in this federation.
    pub open spec fn declares(self, name: Seq<u8>) -> bool {
        exists|i: int|
            0 <= i < self.properties@.len() && #[trigger] self.properties@[i].name@ == name
    }

    /// The allowed-values domain of a property name: the set of value texts
    /// that may ever be used for it inside this federation.
    pub open spec fn domain(self, name: Seq<u8>) -> Set<Seq<u8>> {
        Set::new(
            |v: Seq<u8>|
                exists|i: int|
                    0 <= i < self.properties@.len() && {
                        let p = #[trigger] self.properties@[i];
                        p.name@ == name && value_set_of(p.values@).contains(v)
                    },
        )
    }

    /// Some live edge of `kind` into `grantee` carries a constraint for
    /// `name`, in force at `now`, that admits the value text `v`.
    pub open spec fn granted(
        self,
        grantee: Seq<u8>,
        kind: AccreditationKind,
        name: Seq<u8>,
        v: Seq<u8>,
        now: u64,
    ) -> bool {
        exists|j: int|
            0 <= j < self.edges@.len() && {
                let e = #[trigger] self.edges@[j];
                edge_live_for(e, grantee, kind) && edge_admitting_constraint(e, name, v, now)
            }
    }

    /// Some live edge of `kind` into `grantee` carries a blanket
    /// (`allow_any`) constraint for `name`, in force at `now`.
    pub open spec fn granted_any(
        self,
        grantee: Seq<u8>,
        kind: AccreditationKind,
        name: Seq<u8>,
        now: u64,
    ) -> bool {
        exists|j: int|
            0 <= j < self.edges@.len() && {
                let e = #[trigger] self.edges@[j];
                edge_live_for(e, grantee, kind) && edge_any_constraint(e, name, now)
            }
    }

    /// Some live edge of `kind` into `grantee` carries a constraint for
    /// `name` in force at `now`, of any shape.
    pub open spec fn names_active(
        self,
        grantee: Seq<u8>,
        kind: AccreditationKind,
        name: Seq<u8>,
        now: u64,
    ) -> bool {
        exists|j: int|
            0 <= j < self.edges@.len() && {
                let e = #[trigger] self.edges@[j];
                edge_live_for(e, grantee, kind) && edge_names_constraint(e, name, now)
            }
    }

    /// The union of the allowed-value sets of every live, in-force,
    /// set-based (no expression, no `allow_any`) constraint of `kind` for
    /// `name` held by `grantee`.
    pub open spec fn granted_value_set(
        self,
        grantee: Seq<u8>,
        kind: AccreditationKind,
        name: Seq<u8>,
        now: u64,
    ) -> Set<Seq<u8>> {
        Set::new(
            |v: Seq<u8>|
                exists|j: int|
                    0 <= j < self.edges@.len() && {
                        let e = #[trigger] self.edges@[j];
                        edge_live_for(e, grantee, kind) && edge_set_constraint_with(e, name, v, now)
                    },
        )
    }

    /// The grantor may delegate the value text `v` for `name` at `now`: it
    /// is the root authority, or some live in-force `ToAccredit` constraint
    /// it holds for `name` admits `v`.
    pub open spec fn may_delegate_value(
        self,
        grantor: Seq<u8>,
        name: Seq<u8>,
        v: Seq<u8>,
        now: u64,
    ) -> bool {
        self.is_root(grantor) || self.granted(grantor, AccreditationKind::ToAccredit, name, v, now)
    }

    /// Whether the identity may assert (`name`, `v`): `v` lies in the
    /// property's current domain, and the identity is the root authority
    /// or holds a live, in-force `ToAttest` constraint admitting `v`. A
    /// query against an undeclared property is false, never an error.
    pub open spec fn validate_spec(self, id: Seq<u8>, name: Seq<u8>, v: Seq<u8>, now: u64) -> bool {
        &&& self.domain(name).contains(v)
        &&& (self.is_root(id) || self.granted(id, AccreditationKind::ToAttest, name, v, now))
    }

    /// The identity may issue accreditations: it is the root authority or
    /// holds at least one live `ToAccredit` edge with a constraint in force
    /// at `now`.
    pub open spec fn accreditor_spec(self, id: Seq<u8>, now: u64) -> bool {
        self.is_root(id) || exists|j: int|
            0 <= j < self.edges@.len() && {
                let e = #[trigger] self.edges@[j];
                edge_live_for(e, id, AccreditationKind::ToAccredit) && edge_in_force(e, now)
            }
    }

    /// A fresh federation with the given root authority and no properties
    /// or edges.
    pub fn new(root_authority: Identity) -> (f: Federation)
        ensures
            f.root_authority@ == root_authority@,
            f.properties@ == Seq::<FederationProperty>::empty(),
            f.edges@ == Seq::<Accreditation>::empty(),
            f.wf(),
    {
        Federation { root_authority, properties: Vec::new(), edges: Vec::new() }
    }

    /// The position of the property named `name`, if declared.
    fn find_property(&self, name: &PropertyName) -> (r: Option<usize>)
        ensures
            match r {
                Some(i) => i < self.properties@.len() && self.properties@[i as int].name@ == name@,
                None => !self.declares(name@),
            },
    {
        let mut i: usize = 0;
        while i < self.properties.len()
            invariant
                i <= self.properties@.len(),
                forall|k: int| 0 <= k < i ==> #[trigger] self.properties@[k].name@ != name@,
            decreases self.properties@.len() - i,
        {
            if self.properties[i].name.equals(name) {
                return Some(i);
            }
            i = i + 1;
        }
        None
    }

    /// Decides membership of `v` in the current domain of `name`.
    pub fn domain_contains(&self, name: &PropertyName, v: &PropertyValue) -> (r: bool)
        ensures
            r == self.domain(name@).contains(v@),
    {
        let mut i: usize = 0;
        while i < self.properties.len()
            invariant
                i <= self.properties@.len(),
                forall|k: int|
                    0 <= k < i ==> {
                        let p = #[trigger] self.properties@[k];
                        !(p.name@ == name@ && value_set_of(p.values@).contains(v@))
                    },
            decreases self.properties@.len() - i,
        {
            let p = &self.properties[i];
            if p.name.equals(name) && value_in(&p.values, v) {
                return true;
            }
            i = i + 1;
        }
        false
    }

    /// The declared property for `name`, if any.
    pub fn get_property(&self, name: &PropertyName) -> (r: Option<&FederationProperty>)
        ensures
            match r {
                Some(p) => exists|i: int|
                    0 <= i < self.properties@.len() && *p == #[trigger] self.properties@[i]
                        && p.name@ == name@,
                None => !self.declares(name@),
            },
    {
        match self.find_property(name) {
            Some(i) => Some(&self.properties[i]),
            None => None,
        }
    }

    /// Declares a new property with its allowed-values domain. Fails with
    /// `DuplicateProperty` if the name is already declared, else with
    /// `EmptyDomain` if the domain is empty; otherwise appends the
    /// declaration and leaves everything else unchanged.
    pub fn declare_property(&mut self, name: PropertyName, values: Vec<PropertyValue>) -> (r: Result<
        (),
        PropertyError,
    >)
        requires
            old(self).wf(),
        ensures
            final(self).wf(),
            declare_outcome(*old(self), *final(self), r, name, values),
    {
        match self.find_property(&name) {
            Some(_) => Err(PropertyError::DuplicateProperty),
            None => {
                if values.len() == 0 {
                    Err(PropertyError::EmptyDomain)
                } else {
                    proof {
                        let post = old(self).properties@.push(
                            FederationProperty { name, values },
                        );
                        assert forall|i: int, j: int|
                            0 <= i < j < post.len() implies #[trigger] post[i].name@
                            != #[trigger] post[j].name@ by {
                            if j == post.len() - 1 {
                                assert(post[i] == old(self).properties@[i]);
                            }
                        }
                    }
                    self.properties.push(FederationProperty { name, values });
                    Ok(())
                }
            },
        }
    }

    /// Replaces the domain of a declared property with a subset of itself.
    /// Fails with `UnknownProperty` if the name is not declared, and with
    /// `DomainExpansion` if the proposed set is not a subset of the current
    /// domain. Accreditations that reference a removed value are not
    /// touched; they simply stop validating.
    pub fn narrow_domain(&mut self, name: &PropertyName, new_values: Vec<PropertyValue>) -> (r:
        Result<(), PropertyError>)
        requires
            old(self).wf(),
        ensures
            final(self).wf(),
            narrow_outcome(*old(self), *final(self), r, name@, new_values),
    {
        match self.find_property(name) {
            None => Err(PropertyError::UnknownProperty),
            Some(i) => {
                proof {
                    self.lemma_domain_at(name@, i as int);
                }
                let subset_ok = {
                    let mut k: usize = 0;
                    let mut ok = true;
                    while k < new_values.len()
                        invariant
                            k <= new_values@.len(),
                            ok ==> forall|a: int|
                                0 <= a < k ==> old(self).domain(name@).contains(
                                    #[trigger] new_values@[a]@,
                                ),
                            !ok ==> !value_set_of(new_values@).subset_of(old(self).domain(name@)),
                            self == old(self),
                        decreases new_values@.len() - k,
                    {
                        if !self.domain_contains(name, &new_values[k]) {
                            proof {
                                assert(value_set_of(new_values@).contains(new_values@[k as int]@));
                            }
                            ok = false;
                        }
                        k = k + 1;
                    }
                    proof {
                        if ok {
                            assert forall|v: Seq<u8>|
                                value_set_of(new_values@).contains(v) implies old(self).domain(
                                name@,
                            ).contains(v) by {
                                let a = choose|a: int|
                                    0 <= a < new_values@.len() && #[trigger] new_values@[a]@ == v;
                                assert(old(self).domain(name@).contains(new_values@[a]@));
                            }
                        }
                    }
                    ok
                };
                if !subset_ok {
                    return Err(PropertyError::DomainExpansion);
                }
                let prior = self.properties.remove(i);
                let updated = FederationProperty { name: prior.name, values: new_values };
                self.properties.insert(i, updated);
                proof {
                    assert(final(self).properties@ =~= old(self).properties@.update(
                        i as int,
                        (FederationProperty {
                            name: old(self).properties@[i as int].name,
                            values: new_values,
                        }),
                    ));
                    assert(final(self).wf());
                    final(self).lemma_domain_at(name@, i as int);
                    assert(final(self).domain(name@) =~= value_set_of(new_values@));
                }
                Ok(())
            },
        }
    }

    /// Under `wf`, the domain of a declared name is exactly the value set of
    /// its one declaration.
    pub proof fn lemma_domain_at(self, name: Seq<u8>, i: int)
        requires
            self.wf(),
            0 <= i < self.properties@.len(),
            self.properties@[i].name@ == name,
        ensures
            self.domain(name) == value_set_of(self.properties@[i].values@),
    {
        assert forall|v: Seq<u8>| self.domain(name).contains(v) implies value_set_of(
            self.properties@[i].values@,
        ).contains(v) by {
            let k = choose|k: int|
                0 <= k < self.properties@.len() && {
                    let p = #[trigger] self.properties@[k];
                    p.name@ == name && value_set_of(p.values@).contains(v)
                };
            if k != i {
                assert(self.properties@[k].name@ != self.properties@[i].name@);
            }
        }
        assert forall|v: Seq<u8>|
            value_set_of(self.properties@[i].values@).contains(v) implies self.domain(
            name,
        ).contains(v) by {}
        assert(self.domain(name) =~= value_set_of(self.properties@[i].values@));
    }

    /// Decides `granted`: some live edge of `kind` into `grantee` admits
    /// `v` for `name` at `now`.
    pub fn holds_admitting_edge(
        &self,
        grantee: &Identity,
        kind: AccreditationKind,
        name: &PropertyName,
        v: &PropertyValue,
        now: u64,
    ) -> (r: bool)
        ensures
            r == self.granted(grantee@, kind, name@, v@, now),
    {
        let mut j: usize = 0;
        while j < self.edges.len()
            invariant
                j <= self.edges@.len(),
                forall|k: int|
                    0 <= k < j ==> {
                        let e = #[trigger] self.edges@[k];
                        !(edge_live_for(e, grantee@, kind) && edge_admitting_constraint(
                            e,
                            name@,
                            v@,
                            now,
                        ))
                    },
            decreases self.edges@.len() - j,
        {
            let e = &self.edges[j];
            if e.is_live_for(grantee, kind) && e.has_admitting_constraint(name, v, now) {
                return true;
            }
            j = j + 1;
        }
        false
    }

    /// Decides `granted_any`: some live edge of `kind` into `grantee`
    /// carries a blanket constraint for `name` in force at `now`.
    pub fn holds_any_edge(
        &self,
        grantee: &Identity,
        kind: AccreditationKind,
        name: &PropertyName,
        now: u64,
    ) -> (r: bool)
        ensures
            r == self.granted_any(grantee@, kind, name@, now),
    {
        let mut j: usize = 0;
        while j < self.edges.len()
            invariant
                j <= self.edges@.len(),
                forall|k: int|
                    0 <= k < j ==> {
                        let e = #[trigger] self.edges@[k];
                        !(edge_live_for(e, grantee@, kind) && edge_any_constraint(e, name@, now))
                    },
            decreases self.edges@.len() - j,
        {
            let e = &self.edges[j];
            if e.is_live_for(grantee, kind) && e.has_any_constraint(name, now) {
                return true;
            }
            j = j + 1;
        }
        false
    }

    /// Decides `names_active`: some live edge of `kind` into `grantee`
    /// carries a constraint for `name` in force at `now`, of any shape.
    pub fn holds_named_edge(
        &self,
        grantee: &Identity,
        kind: AccreditationKind,
        name: &PropertyName,
        now: u64,
    ) -> (r: bool)
        ensures
            r == self.names_active(grantee@, kind, name@, now),
    {
        let mut j: usize = 0;
        while j < self.edges.len()
            invariant
                j <= self.edges@.len(),
                forall|k: int|
                    0 <= k < j ==> {
                        let e = #[trigger] self.edges@[k];
                        !(edge_live_for(e, grantee@, kind) && edge_names_constraint(e, name@, now))
                    },
            decreases self.edges@.len() - j,
        {
            let e = &self.edges[j];
            if e.is_live_for(grantee, kind) && e.has_constraint_for(name, now) {
                return true;
            }
            j = j + 1;
        }
        false
    }

    /// Decides `validate_spec`: may `id` currently assert (`name`, `value`)?
    pub fn validate_property(
        &self,
        id: &Identity,
        name: &PropertyName,
        value: &PropertyValue,
        now: u64,
    ) -> (r: bool)
        ensures
            r == self.validate_spec(id@, name@, value@, now),
    {
        if !self.domain_contains(name, value) {
            return false;
        }
        if self.root_authority.equals(id) {
            return true;
        }
        self.holds_admitting_edge(id, AccreditationKind::ToAttest, name, value, now)
    }

    /// Decides `accreditor_spec`: may `id` currently issue accreditations?
    pub fn is_accreditor(&self, id: &Identity, now: u64) -> (r: bool)
        ensures
            r == self.accreditor_spec(id@, now),
    {
        if self.root_authority.equals(id) {
            return true;
        }
        let mut j: usize = 0;
        while j < self.edges.len()
            invariant
                j <= self.edges@.len(),
                forall|k: int|
                    0 <= k < j ==> {
                        let e = #[trigger] self.edges@[k];
                        !(edge_live_for(e, id@, AccreditationKind::ToAccredit) && edge_in_force(
                            e,
                            now,
                        ))
                    },
            decreases self.edges@.len() - j,
        {
            let e = &self.edges[j];
            if e.is_live_for(id, AccreditationKind::ToAccredit) && e.is_in_force(now) {
                return true;
            }
            j = j + 1;
        }
        false
    }

    /// The positions of the edges of `kind` into `grantee`, ordered by
    /// issue time descending: the most recent grant first, and of two
    /// grants with one issue time the more recently inserted first.
    /// Revoked and expired edges are included; queries filter them out
    /// themselves.
    pub fn edges_for(&self, grantee: &Identity, kind: AccreditationKind) -> (r: Vec<usize>)
        ensures
            forall|a: int|
                0 <= a < r@.len() ==> #[trigger] r@[a] < self.edges@.len()
                    && self.edges@[r@[a] as int].kind == kind
                    && self.edges@[r@[a] as int].grantee@ == grantee@,
            forall|a: int, b: int|
                0 <= a < b < r@.len() ==> listed_before(
                    self.edges@,
                    r@[a] as int,
                    r@[b] as int,
                ),
            forall|j: int|
                0 <= j < self.edges@.len() && #[trigger] self.edges@[j].kind == kind
                    && self.edges@[j].grantee@ == grantee@ ==> exists|a: int|
                    0 <= a < r@.len() && r@[a] == j,
    {
        let mut out: Vec<usize> = Vec::new();
        let mut i: usize = self.edges.len();
        while i > 0
            invariant
                i <= self.edges@.len(),
                forall|a: int|
                    0 <= a < out@.len() ==> #[trigger] out@[a] < self.edges@.len()
                        && self.edges@[out@[a] as int].kind == kind
                        && self.edges@[out@[a] as int].grantee@ == grantee@ && out@[a] >= i,
                forall|a: int, b: int|
                    0 <= a < b < out@.len() ==> listed_before(
                        self.edges@,
                        out@[a] as int,
                        out@[b] as int,
                    ),
                forall|j: int|
                    i <= j < self.edges@.len() && #[trigger] self.edges@[j].kind == kind
                        && self.edges@[j].grantee@ == grantee@ ==> exists|a: int|
                        0 <= a < out@.len() && out@[a] == j,
            decreases i,
        {
            i = i - 1;
            let ghost prior = out@;
            let e = &self.edges[i];
            if e.kind == kind && e.grantee.equals(grantee) {
                let cur = e.issued_at;
                let mut pos: usize = 0;
                while pos < out.len() && self.edges[out[pos]].issued_at >= cur
                    invariant
                        pos <= out@.len(),
                        out@ == prior,
                        forall|a: int|
                            0 <= a < out@.len() ==> #[trigger] out@[a] < self.edges@.len(),
                        forall|a: int|
                            0 <= a < pos ==> self.edges@[#[trigger] out@[a] as int].issued_at
                                >= cur,
                    decreases out@.len() - pos,
                {
                    pos = pos + 1;
                }
                let ghost stop = pos as int;
                out.insert(pos, i);
                proof {
                    prior.insert_ensures(stop, i);
                    assert forall|a: int, b: int|
                        0 <= a < b < out@.len() implies listed_before(
                        self.edges@,
                        out@[a] as int,
                        out@[b] as int,
                    ) by {
                        if b < stop {
                            assert(out@[a] == prior[a] && out@[b] == prior[b]);
                        } else if a < stop && b == stop {
                            // A kept entry issued no earlier than `cur`,
                            // and at a later position than `i`.
                            assert(out@[a] == prior[a] && out@[b] == i);
                            assert(self.edges@[prior[a] as int].issued_at >= cur);
                            assert(prior[a] > i);
                        } else if a < stop && b > stop {
                            assert(out@[a] == prior[a] && out@[b] == prior[b - 1]);
                            assert(listed_before(
                                self.edges@,
                                prior[a] as int,
                                prior[b - 1] as int,
                            ));
                        } else if a == stop {
                            // Everything past the insertion point was
                            // issued strictly before `cur`.
                            assert(out@[a] == i && out@[b] == prior[b - 1]);
                            assert(self.edges@[prior[stop] as int].issued_at < cur);
                            if b - 1 > stop {
                                assert(listed_before(
                                    self.edges@,
                                    prior[stop] as int,
                                    prior[b - 1] as int,
                                ));
                            }
                        } else {
                            assert(out@[a] == prior[a - 1] && out@[b] == prior[b - 1]);
                            assert(listed_before(
                                self.edges@,
                                prior[a - 1] as int,
                                prior[b - 1] as int,
                            ));
                        }
                    }
                    assert forall|j: int|
                        i <= j < self.edges@.len() && #[trigger] self.edges@[j].kind == kind
                            && self.edges@[j].grantee@ == grantee@ implies exists|a: int|
                        0 <= a < out@.len() && out@[a] == j by {
                        if j == i {
                            assert(out@[stop] == i);
                        } else {
                            let a0 = choose|a0: int| 0 <= a0 < prior.len() && prior[a0] == j;
                            if a0 < stop {
                                assert(out@[a0] == j);
                            } else {
                                assert(out@[a0 + 1] == j);
                            }
                        }
                    }
                }
            } else {
                proof {
                    assert forall|j: int|
                        i <= j < self.edges@.len() && #[trigger] self.edges@[j].kind == kind
                            && self.edges@[j].grantee@ == grantee@ implies exists|a: int|
                        0 <= a < out@.len() && out@[a] == j by {
                        let a0 = choose|a0: int| 0 <= a0 < prior.len() && prior[a0] == j;
                        assert(out@[a0] == j);
                    }
                }
            }
        }
        out
    }

    /// The edge at a position, if the position names one.
    pub fn accreditation_at(&self, i: usize) -> (r: Option<&Accreditation>)
        ensures
            match r {
                Some(e) => i < self.edges@.len() && *e == self.edges@[i as int],
                None => i >= self.edges@.len(),
            },
    {
        if i < self.edges.len() {
            Some(&self.edges[i])
        } else {
            None
        }
    }

    /// Marks the edge at `edge` revoked. Only the edge's original grantor
    /// or the federation's root authority may do so; revocation is
    /// idempotent and final, and cascades to no other edge.
    pub fn revoke_accreditation(&mut self, edge: usize, requester: &Identity) -> (r: Result<
        (),
        RevokeError,
    >)
        ensures
            revoke_outcome(*old(self), *final(self), r, edge, requester@),
    {
        if edge >= self.edges.len() {
            return Err(RevokeError::UnknownAccreditation);
        }
        let authorized = {
            let e = &self.edges[edge];
            e.grantor.equals(requester) || self.root_authority.equals(requester)
        };
        if !authorized {
            return Err(RevokeError::NotAuthorized);
        }
        let entry = &mut self.edges[edge];
        entry.revoked = true;
        Ok(())
    }
}

/// Position `a` comes before position `b` in the order `edges_for`
/// returns: its edge was issued strictly later, or at the same time and
/// inserted later.
pub open spec fn listed_before(edges: Seq<Accreditation>, a: int, b: int) -> bool {
    ||| edges[a].issued_at > edges[b].issued_at
    ||| (edges[a].issued_at == edges[b].issued_at && a > b)
}

/// The constraint is set-based (no expression, no `allow_any`), speaks of
/// `name`, is in force at `now`, and its allowed-value set contains `v`.
pub open spec fn constraint_set_with(
    c: crate::property::PropertyConstraint,
    name: Seq<u8>,
    v: Seq<u8>,
    now: u64,
) -> bool {
    &&& c.name@ == name
    &&& crate::property::constraint_active(c, now)
    &&& c.expression is None
    &&& !c.allow_any
    &&& value_set_of(c.values@).contains(v)
}

/// The edge carries a set-based constraint (no expression, no `allow_any`)
/// for `name`, in force at `now`, whose allowed-value set contains `v`.
pub open spec fn edge_set_constraint_with(
    e: Accreditation,
    name: Seq<u8>,
    v: Seq<u8>,
    now: u64,
) -> bool {
    exists|i: int|
        0 <= i < e.constraints@.len() && constraint_set_with(
            #[trigger] e.constraints@[i],
            name,
            v,
            now,
        )
}

} // verus!
