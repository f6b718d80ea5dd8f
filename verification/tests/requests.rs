//! Tests of the request-handling layer: configuration, API-key
//! authorization, and role requests.

use trust_hierarchy::api::{
    authorize, set_role, Config, RoleRequest, RoleResponse, UserRole,
};
use trust_hierarchy::errors::GrantError;
use trust_hierarchy::identity::Identity;
use trust_hierarchy::property::{PropertyName, PropertyValue};
use trust_hierarchy::registry::Registry;

fn ident(s: &str) -> Identity {
    Identity::new(s.as_bytes().to_vec())
}

fn pname(s: &str) -> PropertyName {
    PropertyName::new(s.as_bytes().to_vec())
}

fn pval(s: &str) -> PropertyValue {
    PropertyValue::text(s.as_bytes().to_vec())
}

#[test]
fn authorization_needs_the_exact_key() {
    let config = Config::new(b"SECRET-REDACTED".to_vec(), b"127.0.0.1:3000".to_vec());
    let good = b"SECRET-REDACTED".to_vec();
    let bad = b"wrong-key".to_vec();
    assert!(authorize(&config, Some(&good)));
    assert!(!authorize(&config, Some(&bad)));
    assert!(!authorize(&config, None));
}

#[test]
fn set_role_grants_and_validates() {
    let mut reg = Registry::new();
    let fed = reg.create_federation(ident("root-auth"));
    reg.declare_property(
        fed,
        pname("role"),
        vec![pval("manufacturer"), pval("repairer")],
    )
    .expect("declare");
    let req = RoleRequest {
        user_addr: ident("end-user"),
        user_role: UserRole::Repairer,
        federation: fed,
    };
    let resp: RoleResponse =
        set_role(&mut reg, ident("root-auth"), req, 1).expect("set role");
    assert!(resp.validated);
    assert!(reg.validate(fed, &ident("end-user"), &pname("role"), &pval("repairer"), 2));
    assert!(!reg.validate(fed, &ident("end-user"), &pname("role"), &pval("manufacturer"), 2));
}

#[test]
fn set_role_rejects_unauthorized_grantor() {
    let mut reg = Registry::new();
    let fed = reg.create_federation(ident("root-auth"));
    reg.declare_property(
        fed,
        pname("role"),
        vec![pval("manufacturer"), pval("repairer")],
    )
    .expect("declare");
    let req = RoleRequest {
        user_addr: ident("end-user"),
        user_role: UserRole::Manufacturer,
        federation: fed,
    };
    let r = set_role(&mut reg, ident("stranger"), req, 1);
    assert_eq!(r.err(), Some(GrantError::InsufficientAuthority));
    assert!(!reg.validate(fed, &ident("end-user"), &pname("role"), &pval("manufacturer"), 2));
}

#[test]
fn set_role_rejects_unknown_federation() {
    let mut reg = Registry::new();
    let req = RoleRequest {
        user_addr: ident("end-user"),
        user_role: UserRole::Repairer,
        federation: 5,
    };
    let r = set_role(&mut reg, ident("root-auth"), req, 1);
    assert_eq!(r.err(), Some(GrantError::UnknownFederation));
}

#[test]
fn set_role_needs_the_role_property_declared() {
    let mut reg = Registry::new();
    let fed = reg.create_federation(ident("root-auth"));
    let req = RoleRequest {
        user_addr: ident("end-user"),
        user_role: UserRole::Repairer,
        federation: fed,
    };
    let r = set_role(&mut reg, ident("root-auth"), req, 1);
    assert_eq!(r.err(), Some(GrantError::UnknownProperty));
}

#[test]
fn delegated_grantor_can_set_role() {
    let mut reg = Registry::new();
    let fed = reg.create_federation(ident("root-auth"));
    reg.declare_property(
        fed,
        pname("role"),
        vec![pval("manufacturer"), pval("repairer")],
    )
    .expect("declare");
    // Root accredits the manufacturer for role=repairer; the manufacturer
    // then serves a repairer request but not a manufacturer one.
    reg.grant_accredit(
        fed,
        ident("root-auth"),
        ident("manu-fact"),
        vec![trust_hierarchy::property::PropertyConstraint {
            name: pname("role"),
            values: vec![pval("repairer")],
            expression: None,
            allow_any: false,
            timespan: None,
        }],
        1,
    )
    .expect("accredit");
    let ok = set_role(
        &mut reg,
        ident("manu-fact"),
        RoleRequest {
            user_addr: ident("end-user"),
            user_role: UserRole::Repairer,
            federation: fed,
        },
        2,
    )
    .expect("repairer request");
    assert!(ok.validated);
    let refused = set_role(
        &mut reg,
        ident("manu-fact"),
        RoleRequest {
            user_addr: ident("other-user"),
            user_role: UserRole::Manufacturer,
            federation: fed,
        },
        3,
    );
    assert_eq!(refused.err(), Some(GrantError::InsufficientAuthority));
}
