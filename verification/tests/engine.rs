//! End-to-end tests of the accreditation engine: federations, property
//! domains, grants, validation, and revocation.

use trust_hierarchy::accreditation::AccreditationKind;
use trust_hierarchy::errors::{GrantError, PropertyError, RevokeError};
use trust_hierarchy::identity::Identity;
use trust_hierarchy::property::{PropertyConstraint, PropertyName, PropertyValue, Timespan};
use trust_hierarchy::registry::{AccreditationId, Registry};

fn ident(s: &str) -> Identity {
    Identity::new(s.as_bytes().to_vec())
}

fn pname(s: &str) -> PropertyName {
    PropertyName::new(s.as_bytes().to_vec())
}

fn pval(s: &str) -> PropertyValue {
    PropertyValue::text(s.as_bytes().to_vec())
}

fn vals(xs: &[&str]) -> Vec<PropertyValue> {
    xs.iter().map(|s| pval(s)).collect()
}

fn constraint(name: &str, values: &[&str]) -> PropertyConstraint {
    PropertyConstraint {
        name: pname(name),
        values: vals(values),
        expression: None,
        allow_any: false,
        timespan: None,
    }
}

/// A federation with the property `role` over {manufacturer, repairer},
/// rooted at `root-auth`.
fn role_federation() -> (Registry, usize) {
    let mut reg = Registry::new();
    let fed = reg.create_federation(ident("root-auth"));
    reg.declare_property(fed, pname("role"), vals(&["manufacturer", "repairer"]))
        .expect("declare role");
    (reg, fed)
}

#[test]
fn scenario_manufacturer_delegates_repairer() {
    let (mut reg, fed) = role_federation();
    let root = ident("root-auth");
    let manufacturer = ident("manu-fact");
    let user = ident("end-user");

    // Root grants the manufacturer attestation for role=manufacturer.
    reg.grant_attest(
        fed,
        root.duplicate(),
        manufacturer.duplicate(),
        vec![constraint("role", &["manufacturer"])],
        1,
    )
    .expect("root grant attest");
    assert!(reg.validate(fed, &manufacturer, &pname("role"), &pval("manufacturer"), 1));
    assert!(!reg.validate(fed, &manufacturer, &pname("role"), &pval("repairer"), 1));

    // Root grants the manufacturer the right to accredit role=repairer.
    reg.grant_accredit(
        fed,
        root.duplicate(),
        manufacturer.duplicate(),
        vec![constraint("role", &["repairer"])],
        2,
    )
    .expect("root grant accredit");
    assert!(reg.is_accreditor(fed, &manufacturer, 2));

    // The manufacturer may now grant the user role=repairer...
    reg.grant_attest(
        fed,
        manufacturer.duplicate(),
        user.duplicate(),
        vec![constraint("role", &["repairer"])],
        3,
    )
    .expect("manufacturer grants repairer");
    assert!(reg.validate(fed, &user, &pname("role"), &pval("repairer"), 3));

    // ...but not role=manufacturer: that would exceed its own authority.
    let broader = reg.grant_attest(
        fed,
        manufacturer.duplicate(),
        ident("other-user"),
        vec![constraint("role", &["manufacturer"])],
        4,
    );
    assert_eq!(broader, Err(GrantError::InsufficientAuthority));
}

#[test]
fn declare_duplicate_property_fails() {
    let (mut reg, fed) = role_federation();
    let again = reg.declare_property(fed, pname("role"), vals(&["manufacturer"]));
    assert_eq!(again, Err(PropertyError::DuplicateProperty));
}

#[test]
fn declare_empty_domain_fails() {
    let (mut reg, fed) = role_federation();
    let empty = reg.declare_property(fed, pname("kind"), vals(&[]));
    assert_eq!(empty, Err(PropertyError::EmptyDomain));
}

#[test]
fn declare_in_unknown_federation_fails() {
    let mut reg = Registry::new();
    let r = reg.declare_property(7, pname("role"), vals(&["manufacturer"]));
    assert_eq!(r, Err(PropertyError::UnknownFederation));
}

#[test]
fn narrow_domain_only_shrinks() {
    let (mut reg, fed) = role_federation();
    let expand = reg.narrow_domain(fed, &pname("role"), vals(&["manufacturer", "auditor"]));
    assert_eq!(expand, Err(PropertyError::DomainExpansion));
    let unknown = reg.narrow_domain(fed, &pname("rank"), vals(&["manufacturer"]));
    assert_eq!(unknown, Err(PropertyError::UnknownProperty));
    let shrink = reg.narrow_domain(fed, &pname("role"), vals(&["manufacturer"]));
    assert_eq!(shrink, Ok(()));
}

#[test]
fn narrowing_invalidates_removed_values() {
    let (mut reg, fed) = role_federation();
    let root = ident("root-auth");
    let m = ident("manu-fact");
    reg.grant_attest(
        fed,
        root.duplicate(),
        m.duplicate(),
        vec![constraint("role", &["repairer"])],
        1,
    )
    .expect("grant");
    assert!(reg.validate(fed, &m, &pname("role"), &pval("repairer"), 2));
    reg.narrow_domain(fed, &pname("role"), vals(&["manufacturer"]))
        .expect("narrow");
    // The edge still exists but its value left the domain: it stops
    // validating without being deleted.
    assert!(!reg.validate(fed, &m, &pname("role"), &pval("repairer"), 3));
}

#[test]
fn grant_for_undeclared_property_fails() {
    let (mut reg, fed) = role_federation();
    let r = reg.grant_attest(
        fed,
        ident("root-auth"),
        ident("manu-fact"),
        vec![constraint("rank", &["gold"])],
        1,
    );
    assert_eq!(r, Err(GrantError::UnknownProperty));
}

#[test]
fn grant_outside_domain_fails_even_for_root() {
    let (mut reg, fed) = role_federation();
    let r = reg.grant_attest(
        fed,
        ident("root-auth"),
        ident("manu-fact"),
        vec![constraint("role", &["auditor"])],
        1,
    );
    assert_eq!(r, Err(GrantError::InsufficientAuthority));
}

#[test]
fn grant_is_all_or_nothing() {
    let (mut reg, fed) = role_federation();
    let root = ident("root-auth");
    let m = ident("manu-fact");
    // One good constraint and one for an undeclared property: the whole
    // request is rejected and nothing is inserted.
    let r = reg.grant_attest(
        fed,
        root.duplicate(),
        m.duplicate(),
        vec![
            constraint("role", &["manufacturer"]),
            constraint("rank", &["gold"]),
        ],
        1,
    );
    assert_eq!(r, Err(GrantError::UnknownProperty));
    assert!(!reg.validate(fed, &m, &pname("role"), &pval("manufacturer"), 2));
    assert_eq!(reg.federation(fed).expect("federation").edges.len(), 0);
}

#[test]
fn grant_in_unknown_federation_fails() {
    let mut reg = Registry::new();
    let r = reg.grant_attest(
        3,
        ident("root-auth"),
        ident("manu-fact"),
        vec![constraint("role", &["manufacturer"])],
        1,
    );
    assert_eq!(r, Err(GrantError::UnknownFederation));
}

#[test]
fn regrant_replaces_edge_in_place() {
    let (mut reg, fed) = role_federation();
    let root = ident("root-auth");
    let m = ident("manu-fact");
    let first = reg
        .grant_attest(
            fed,
            root.duplicate(),
            m.duplicate(),
            vec![constraint("role", &["manufacturer"])],
            1,
        )
        .expect("first grant");
    let second = reg
        .grant_attest(
            fed,
            root.duplicate(),
            m.duplicate(),
            vec![constraint("role", &["repairer"])],
            2,
        )
        .expect("second grant");
    // Same grantor, grantee, kind and property-name set: the edge is
    // updated in place, not duplicated.
    assert_eq!(first, second);
    assert_eq!(reg.federation(fed).expect("federation").edges.len(), 1);
    assert!(!reg.validate(fed, &m, &pname("role"), &pval("manufacturer"), 3));
    assert!(reg.validate(fed, &m, &pname("role"), &pval("repairer"), 3));
}

#[test]
fn regrant_after_revocation_makes_a_new_edge() {
    let (mut reg, fed) = role_federation();
    let root = ident("root-auth");
    let m = ident("manu-fact");
    let first = reg
        .grant_attest(
            fed,
            root.duplicate(),
            m.duplicate(),
            vec![constraint("role", &["manufacturer"])],
            1,
        )
        .expect("first grant");
    reg.revoke(first, &root).expect("revoke");
    let second = reg
        .grant_attest(
            fed,
            root.duplicate(),
            m.duplicate(),
            vec![constraint("role", &["manufacturer"])],
            2,
        )
        .expect("second grant");
    // A revoked edge is terminal: the repeat grant gets a fresh edge.
    assert_ne!(first, second);
    let f = reg.federation(fed).expect("federation");
    assert_eq!(f.edges.len(), 2);
    assert!(f.accreditation_at(first.edge).expect("old edge").revoked);
    assert!(!f.accreditation_at(second.edge).expect("new edge").revoked);
}

#[test]
fn revocation_ends_validation() {
    let (mut reg, fed) = role_federation();
    let root = ident("root-auth");
    let m = ident("manu-fact");
    let edge = reg
        .grant_attest(
            fed,
            root.duplicate(),
            m.duplicate(),
            vec![constraint("role", &["manufacturer"])],
            1,
        )
        .expect("grant");
    assert!(reg.validate(fed, &m, &pname("role"), &pval("manufacturer"), 2));
    reg.revoke(edge, &root).expect("revoke");
    assert!(!reg.validate(fed, &m, &pname("role"), &pval("manufacturer"), 3));
    // Idempotent: revoking again succeeds and changes nothing.
    assert_eq!(reg.revoke(edge, &root), Ok(()));
    assert!(!reg.validate(fed, &m, &pname("role"), &pval("manufacturer"), 4));
}

#[test]
fn grantor_may_revoke_its_own_edge() {
    let (mut reg, fed) = role_federation();
    let root = ident("root-auth");
    let m = ident("manu-fact");
    let u = ident("end-user");
    reg.grant_accredit(
        fed,
        root.duplicate(),
        m.duplicate(),
        vec![constraint("role", &["repairer"])],
        1,
    )
    .expect("accredit");
    let edge = reg
        .grant_attest(
            fed,
            m.duplicate(),
            u.duplicate(),
            vec![constraint("role", &["repairer"])],
            2,
        )
        .expect("grant");
    // A stranger, and even the grantee, may not revoke.
    assert_eq!(reg.revoke(edge, &u), Err(RevokeError::NotAuthorized));
    // The issuing grantor may.
    assert_eq!(reg.revoke(edge, &m), Ok(()));
    assert!(!reg.validate(fed, &u, &pname("role"), &pval("repairer"), 3));
}

#[test]
fn root_may_revoke_any_edge() {
    let (mut reg, fed) = role_federation();
    let root = ident("root-auth");
    let m = ident("manu-fact");
    let u = ident("end-user");
    reg.grant_accredit(
        fed,
        root.duplicate(),
        m.duplicate(),
        vec![constraint("role", &["repairer"])],
        1,
    )
    .expect("accredit");
    let edge = reg
        .grant_attest(
            fed,
            m.duplicate(),
            u.duplicate(),
            vec![constraint("role", &["repairer"])],
            2,
        )
        .expect("grant");
    assert_eq!(reg.revoke(edge, &root), Ok(()));
    assert!(!reg.validate(fed, &u, &pname("role"), &pval("repairer"), 3));
}

#[test]
fn revoke_unknown_edge_fails() {
    let (mut reg, fed) = role_federation();
    let bad_edge = AccreditationId { federation: fed, edge: 9 };
    assert_eq!(
        reg.revoke(bad_edge, &ident("root-auth")),
        Err(RevokeError::UnknownAccreditation)
    );
    let bad_fed = AccreditationId { federation: fed + 1, edge: 0 };
    assert_eq!(
        reg.revoke(bad_fed, &ident("root-auth")),
        Err(RevokeError::UnknownFederation)
    );
}

#[test]
fn revocation_does_not_cascade() {
    let (mut reg, fed) = role_federation();
    let root = ident("root-auth");
    let m = ident("manu-fact");
    let u = ident("end-user");
    let accredit_edge = reg
        .grant_accredit(
            fed,
            root.duplicate(),
            m.duplicate(),
            vec![constraint("role", &["repairer"])],
            1,
        )
        .expect("accredit");
    reg.grant_attest(
        fed,
        m.duplicate(),
        u.duplicate(),
        vec![constraint("role", &["repairer"])],
        2,
    )
    .expect("grant");
    // Revoking the manufacturer's accreditation leaves the user's own
    // edge standing: revocation flips one flag and cascades to nothing.
    reg.revoke(accredit_edge, &root).expect("revoke");
    assert!(reg.validate(fed, &u, &pname("role"), &pval("repairer"), 3));
    assert!(!reg.is_accreditor(fed, &m, 3));
}

#[test]
fn union_of_two_grants_validates_both_values() {
    let (mut reg, fed) = role_federation();
    let root = ident("root-auth");
    let m = ident("manu-fact");
    let x = ident("end-user");
    // Two edges from two grantors, one for each value.
    reg.grant_accredit(
        fed,
        root.duplicate(),
        m.duplicate(),
        vec![constraint("role", &["repairer"])],
        1,
    )
    .expect("accredit");
    reg.grant_attest(
        fed,
        root.duplicate(),
        x.duplicate(),
        vec![constraint("role", &["manufacturer"])],
        2,
    )
    .expect("root grant");
    reg.grant_attest(
        fed,
        m.duplicate(),
        x.duplicate(),
        vec![constraint("role", &["repairer"])],
        3,
    )
    .expect("manufacturer grant");
    assert!(reg.validate(fed, &x, &pname("role"), &pval("manufacturer"), 4));
    assert!(reg.validate(fed, &x, &pname("role"), &pval("repairer"), 4));
    assert!(!reg.validate(fed, &x, &pname("role"), &pval("auditor"), 4));
    // Revoking one grant removes exactly that value's support.
    let f = reg.federation(fed).expect("federation");
    let root_edge = AccreditationId { federation: fed, edge: 1 };
    assert!(f.accreditation_at(1).expect("edge").kind == AccreditationKind::ToAttest);
    reg.revoke(root_edge, &root).expect("revoke");
    assert!(!reg.validate(fed, &x, &pname("role"), &pval("manufacturer"), 5));
    assert!(reg.validate(fed, &x, &pname("role"), &pval("repairer"), 5));
}

#[test]
fn root_is_always_accredited() {
    let (mut reg, fed) = role_federation();
    let root = ident("root-auth");
    assert!(reg.is_accreditor(fed, &root, 0));
    assert!(reg.validate(fed, &root, &pname("role"), &pval("manufacturer"), 0));
    assert!(reg.validate(fed, &root, &pname("role"), &pval("repairer"), 0));
    // Even the root is bounded by the domain.
    assert!(!reg.validate(fed, &root, &pname("role"), &pval("auditor"), 0));
}

#[test]
fn validation_of_undeclared_property_is_false() {
    let (reg, fed) = role_federation();
    assert!(!reg.validate(fed, &ident("root-auth"), &pname("rank"), &pval("gold"), 0));
}

#[test]
fn validation_in_unknown_federation_is_false() {
    let reg = Registry::new();
    assert!(!reg.validate(0, &ident("root-auth"), &pname("role"), &pval("manufacturer"), 0));
    assert!(!reg.is_accreditor(0, &ident("root-auth"), 0));
}

#[test]
fn timespan_bounds_validity() {
    let (mut reg, fed) = role_federation();
    let root = ident("root-auth");
    let m = ident("manu-fact");
    let timed = PropertyConstraint {
        name: pname("role"),
        values: vals(&["manufacturer"]),
        expression: None,
        allow_any: false,
        timespan: Some(Timespan { not_before: 10, not_after: 20 }),
    };
    reg.grant_attest(fed, root.duplicate(), m.duplicate(), vec![timed], 10)
        .expect("grant");
    assert!(!reg.validate(fed, &m, &pname("role"), &pval("manufacturer"), 5));
    assert!(reg.validate(fed, &m, &pname("role"), &pval("manufacturer"), 10));
    assert!(reg.validate(fed, &m, &pname("role"), &pval("manufacturer"), 20));
    assert!(!reg.validate(fed, &m, &pname("role"), &pval("manufacturer"), 25));
    // An expired edge no longer makes its holder an accreditor either.
    reg.grant_accredit(
        fed,
        root.duplicate(),
        m.duplicate(),
        vec![PropertyConstraint {
            name: pname("role"),
            values: vals(&["repairer"]),
            expression: None,
            allow_any: false,
            timespan: Some(Timespan { not_before: 10, not_after: 20 }),
        }],
        10,
    )
    .expect("accredit");
    assert!(reg.is_accreditor(fed, &m, 15));
    assert!(!reg.is_accreditor(fed, &m, 25));
}

#[test]
fn allow_any_tracks_the_current_domain() {
    let (mut reg, fed) = role_federation();
    let root = ident("root-auth");
    let m = ident("manu-fact");
    let blanket = PropertyConstraint {
        name: pname("role"),
        values: vals(&[]),
        expression: None,
        allow_any: true,
        timespan: None,
    };
    reg.grant_attest(fed, root.duplicate(), m.duplicate(), vec![blanket], 1)
        .expect("grant");
    assert!(reg.validate(fed, &m, &pname("role"), &pval("manufacturer"), 2));
    assert!(reg.validate(fed, &m, &pname("role"), &pval("repairer"), 2));
    assert!(!reg.validate(fed, &m, &pname("role"), &pval("auditor"), 2));
    // Blanket authority is re-checked against the domain at query time.
    reg.narrow_domain(fed, &pname("role"), vals(&["repairer"]))
        .expect("narrow");
    assert!(!reg.validate(fed, &m, &pname("role"), &pval("manufacturer"), 3));
    assert!(reg.validate(fed, &m, &pname("role"), &pval("repairer"), 3));
}

#[test]
fn allow_any_needs_blanket_authority_to_delegate() {
    let (mut reg, fed) = role_federation();
    let root = ident("root-auth");
    let m = ident("manu-fact");
    let u = ident("end-user");
    // The manufacturer holds plain (set-based) accreditation authority.
    reg.grant_accredit(
        fed,
        root.duplicate(),
        m.duplicate(),
        vec![constraint("role", &["repairer"])],
        1,
    )
    .expect("accredit");
    let blanket = |at: u64| PropertyConstraint {
        name: pname("role"),
        values: vals(&[]),
        expression: None,
        allow_any: true,
        timespan: Some(Timespan { not_before: at, not_after: at + 100 }),
    };
    let refused = reg.grant_attest(fed, m.duplicate(), u.duplicate(), vec![blanket(2)], 2);
    assert_eq!(refused, Err(GrantError::InsufficientAuthority));
    // With a blanket ToAccredit grant it may pass blanket authority on.
    reg.grant_accredit(
        fed,
        root.duplicate(),
        m.duplicate(),
        vec![PropertyConstraint {
            name: pname("role"),
            values: vals(&[]),
            expression: None,
            allow_any: true,
            timespan: None,
        }],
        3,
    )
    .expect("blanket accredit");
    reg.grant_attest(fed, m.duplicate(), u.duplicate(), vec![blanket(4)], 4)
        .expect("blanket attest");
    assert!(reg.validate(fed, &u, &pname("role"), &pval("manufacturer"), 5));
}
