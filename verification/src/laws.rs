//! The engine's governing laws, stated over the same spec functions the
//! operation contracts use and proved once and for all: delegation only
//! narrows, grants stay inside their property's domain, revocation is final,
//! the root authority is omnipotent, and an identity's authority is the
//! union of what it validly holds.

use vstd::prelude::*;

use crate::accreditation::{edge_admitting_constraint, edge_live_for, Accreditation, AccreditationKind};
use crate::errors::GrantError;
use crate::federation::{edge_set_constraint_with, revoke_outcome, Federation};
use crate::identity::Identity;
use crate::property::{value_set_of, PropertyConstraint};
use crate::validation::{grant_outcome, insert_edge_post};

verus! {

/// The set of value texts that some live, in-force `ToAttest` constraint
/// held by `id` admits for `name` at `now`: the identity's effective
/// attestation authority, before the domain bound is applied.
pub open spec fn attest_admitted(f: Federation, id: Seq<u8>, name: Seq<u8>, now: u64) -> Set<
    Seq<u8>,
> {
    Set::new(|v: Seq<u8>| f.granted(id, AccreditationKind::ToAttest, name, v, now))
}

/// The edge would support `id` asserting (`name`, `v`) at `now` were it not
/// revoked: it is a `ToAttest` edge into `id` with an in-force admitting
/// constraint.
pub open spec fn edge_would_attest(
    e: Accreditation,
    id: Seq<u8>,
    name: Seq<u8>,
    v: Seq<u8>,
    now: u64,
) -> bool {
    &&& e.kind == AccreditationKind::ToAttest
    &&& e.grantee@ == id
    &&& edge_admitting_constraint(e, name, v, now)
}

/// Narrowing invariant: in any grant a non-root grantor can make, every
/// value of every constraint is one the grantor itself may currently
/// delegate — some live, in-force `ToAccredit` constraint it holds for the
/// same property admits the value. Delegated authority never grows on a
/// hop.
pub proof fn lemma_narrowing_invariant(
    f: Federation,
    grantor: Seq<u8>,
    cs: Seq<PropertyConstraint>,
    now: u64,
    k: int,
    v: Seq<u8>,
)
    requires
        f.grant_ok(grantor, cs, now),
        !f.is_root(grantor),
        0 <= k < cs.len(),
        value_set_of(cs[k].values@).contains(v),
    ensures
        f.granted(grantor, AccreditationKind::ToAccredit, cs[k].name@, v, now),
{
    assert(f.covers_constraint(grantor, cs[k], now));
    assert(f.may_delegate_value(grantor, cs[k].name@, v, now));
}

/// Narrowing invariant, refusal half: a request by a non-root grantor in
/// which every constraint names a declared property, but some constraint
/// exceeds the domain or the grantor's own authority, is always answered
/// with `InsufficientAuthority`.
pub proof fn lemma_broader_grant_refused(
    f: Federation,
    grantor: Seq<u8>,
    cs: Seq<PropertyConstraint>,
    now: u64,
    k: int,
)
    requires
        0 <= k < cs.len(),
        forall|k2: int| 0 <= k2 < cs.len() ==> f.declares(#[trigger] cs[k2].name@),
        !(value_set_of(cs[k].values@).subset_of(f.domain(cs[k].name@)) && f.covers_constraint(
            grantor,
            cs[k],
            now,
        )),
    ensures
        f.grant_error_spec(grantor, cs, now) == Some(GrantError::InsufficientAuthority),
    decreases cs.len(),
{
    if !(value_set_of(cs[0].values@).subset_of(f.domain(cs[0].name@)) && f.covers_constraint(
        grantor,
        cs[0],
        now,
    )) {
    } else {
        let rest = cs.drop_first();
        assert(k != 0);
        assert(rest[k - 1] == cs[k]);
        assert forall|k2: int| 0 <= k2 < rest.len() implies f.declares(
            #[trigger] rest[k2].name@,
        ) by {
            assert(rest[k2] == cs[k2 + 1]);
        }
        lemma_broader_grant_refused(f, grantor, rest, now, k - 1);
    }
}

/// Domain containment: every value of every constraint of an accepted
/// grant lies in the federation property's allowed-values domain at grant
/// time.
pub proof fn lemma_domain_containment(
    f: Federation,
    grantor: Seq<u8>,
    cs: Seq<PropertyConstraint>,
    now: u64,
    k: int,
    v: Seq<u8>,
)
    requires
        f.grant_ok(grantor, cs, now),
        0 <= k < cs.len(),
        value_set_of(cs[k].values@).contains(v),
    ensures
        f.declares(cs[k].name@),
        f.domain(cs[k].name@).contains(v),
{
    assert(f.constraint_in_domain(cs[k]));
}

/// Revocation finality: when every edge that would support `id` asserting
/// (`name`, `v`) is revoked, validation fails for a non-root identity.
pub proof fn lemma_revocation_finality(
    f: Federation,
    id: Seq<u8>,
    name: Seq<u8>,
    v: Seq<u8>,
    now: u64,
)
    requires
        !f.is_root(id),
        forall|j: int|
            0 <= j < f.edges@.len() && edge_would_attest(#[trigger] f.edges@[j], id, name, v, now)
                ==> f.edges@[j].revoked,
    ensures
        !f.validate_spec(id, name, v, now),
{
    if f.validate_spec(id, name, v, now) {
        let j = choose|j: int|
            0 <= j < f.edges@.len() && {
                let e = #[trigger] f.edges@[j];
                edge_live_for(e, id, AccreditationKind::ToAttest) && edge_admitting_constraint(
                    e,
                    name,
                    v,
                    now,
                )
            };
        assert(edge_would_attest(f.edges@[j], id, name, v, now));
    }
}

/// Revocation permanence, grants: no grant, accepted or refused, revives a
/// revoked edge. The edge keeps its position and stays revoked.
pub proof fn lemma_revoked_survives_grant(
    pre: Federation,
    post: Federation,
    r: Result<usize, GrantError>,
    grantor: Identity,
    grantee: Identity,
    kind: AccreditationKind,
    cs: Vec<PropertyConstraint>,
    now: u64,
    j: int,
)
    requires
        grant_outcome(pre, post, r, grantor, grantee, kind, cs, now),
        0 <= j < pre.edges@.len(),
        pre.edges@[j].revoked,
    ensures
        post.edges@.len() >= pre.edges@.len(),
        post.edges@[j] == pre.edges@[j],
        post.edges@[j].revoked,
{
    match r {
        Ok(idx) => {
            assert(insert_edge_post(pre, post, idx, grantor, grantee, kind, cs, now));
            if idx < pre.edges@.len() {
                assert(!pre.edges@[idx as int].revoked);
                assert(idx != j);
            }
        },
        Err(_) => {},
    }
}

/// Revocation permanence, revocations: revoking one edge never clears the
/// flag of any other, and the revoked edge itself stays revoked.
pub proof fn lemma_revoked_survives_revoke(
    pre: Federation,
    post: Federation,
    r: Result<(), crate::errors::RevokeError>,
    edge: usize,
    requester: Seq<u8>,
    j: int,
)
    requires
        revoke_outcome(pre, post, r, edge, requester),
        0 <= j < pre.edges@.len(),
        pre.edges@[j].revoked,
    ensures
        post.edges@.len() == pre.edges@.len(),
        post.edges@[j].revoked,
{
}

/// Root omnipotence: the root authority is always an accreditor, and may
/// assert any declared property at any value of its current domain.
pub proof fn lemma_root_omnipotence(f: Federation, name: Seq<u8>, v: Seq<u8>, now: u64)
    ensures
        f.accreditor_spec(f.root_authority@, now),
        f.domain(name).contains(v) ==> f.validate_spec(f.root_authority@, name, v, now),
{
}

/// Validation is exactly the domain bound plus held authority: a value
/// validates iff it is in the property's current domain and the identity
/// is the root authority or its effective attestation authority contains
/// the value.
pub proof fn lemma_validate_characterization(
    f: Federation,
    id: Seq<u8>,
    name: Seq<u8>,
    v: Seq<u8>,
    now: u64,
)
    ensures
        f.validate_spec(id, name, v, now) == (f.domain(name).contains(v) && (f.is_root(id)
            || attest_admitted(f, id, name, now).contains(v))),
{
}

/// Any value carried by a live, in-force, set-based `ToAttest` constraint
/// is in the holder's effective attestation authority.
pub proof fn lemma_flat_value_admitted(
    f: Federation,
    id: Seq<u8>,
    name: Seq<u8>,
    v: Seq<u8>,
    now: u64,
)
    requires
        exists|j: int|
            0 <= j < f.edges@.len() && {
                let e = #[trigger] f.edges@[j];
                edge_live_for(e, id, AccreditationKind::ToAttest) && edge_set_constraint_with(
                    e,
                    name,
                    v,
                    now,
                )
            },
    ensures
        attest_admitted(f, id, name, now).contains(v),
{
    let j = choose|j: int|
        0 <= j < f.edges@.len() && {
            let e = #[trigger] f.edges@[j];
            edge_live_for(e, id, AccreditationKind::ToAttest) && edge_set_constraint_with(
                e,
                name,
                v,
                now,
            )
        };
    let e = f.edges@[j];
    let i = choose|i: int|
        0 <= i < e.constraints@.len() && crate::federation::constraint_set_with(
            #[trigger] e.constraints@[i],
            name,
            v,
            now,
        );
    assert(crate::property::constraint_admits(e.constraints@[i], v));
    assert(edge_admitting_constraint(e, name, v, now));
}

/// The flat effective value set agrees with validation: any value it
/// contains that also lies in the property's current domain validates.
pub proof fn lemma_effective_values_validate(
    f: Federation,
    id: Seq<u8>,
    name: Seq<u8>,
    v: Seq<u8>,
    now: u64,
)
    requires
        f.granted_value_set(id, AccreditationKind::ToAttest, name, now).contains(v),
        f.domain(name).contains(v),
    ensures
        f.validate_spec(id, name, v, now),
{
    lemma_flat_value_admitted(f, id, name, v, now);
}

/// Union semantics: when a non-root identity's effective attestation
/// authority for a property is exactly the two values `a` and `b`, both in
/// the current domain, then `a` and `b` validate and any third value does
/// not.
pub proof fn lemma_union_semantics(
    f: Federation,
    x: Seq<u8>,
    p: Seq<u8>,
    a: Seq<u8>,
    b: Seq<u8>,
    c: Seq<u8>,
    now: u64,
)
    requires
        !f.is_root(x),
        f.domain(p).contains(a),
        f.domain(p).contains(b),
        attest_admitted(f, x, p, now) == Set::empty().insert(a).insert(b),
    ensures
        f.validate_spec(x, p, a, now),
        f.validate_spec(x, p, b, now),
        c != a && c != b ==> !f.validate_spec(x, p, c, now),
{
    assert(attest_admitted(f, x, p, now).contains(a));
    assert(attest_admitted(f, x, p, now).contains(b));
    lemma_validate_characterization(f, x, p, a, now);
    lemma_validate_characterization(f, x, p, b, now);
    lemma_validate_characterization(f, x, p, c, now);
    if c != a && c != b {
        assert(!Set::empty().insert(a).insert(b).contains(c));
    }
}

} // verus!
