//! The request-handling layer of the engine: server configuration, API-key
//! authorization, and the role-granting request that the HTTP surface
//! forwards. Everything here is plain data and decisions; transport, JSON
//! and sockets stay outside the library.

use vstd::prelude::*;

use crate::accreditation::AccreditationKind;
use crate::errors::GrantError;
use crate::identity::Identity;
use crate::property::{PropertyConstraint, PropertyName, PropertyValue};
use crate::registry::{AccreditationId, Registry};
use crate::text::{bytes_eq, norm_seq};

verus! {

/// Server configuration, passed explicitly to whoever needs it: no
/// process-wide state.
pub struct Config {
    pub api_key: Vec<u8>,
    pub tcp_listener: Vec<u8>,
}

impl Config {
    /// Builds a configuration value.
    pub fn new(api_key: Vec<u8>, tcp_listener: Vec<u8>) -> (c: Config)
        ensures
            c.api_key@ == api_key@,
            c.tcp_listener@ == tcp_listener@,
    {
        Config { api_key, tcp_listener }
    }
}

/// Decides whether a presented API key authorizes a request: a request is
/// authorized exactly when it presents a key equal to the configured one.
pub fn authorize(config: &Config, presented: Option<&Vec<u8>>) -> (r: bool)
    ensures
        r == match presented {
            Some(k) => k@ == config.api_key@,
            None => false,
        },
{
    match presented {
        Some(k) => bytes_eq(k, &config.api_key),
        None => false,
    }
}

/// The role a request asks to grant.
#[derive(Clone, Copy, PartialEq, Eq, Structural, Debug)]
pub enum UserRole {
    Manufacturer,
    Repairer,
}

/// The text of the `role` property name.
pub open spec fn role_name_text() -> Seq<u8> {
    seq![114u8, 111u8, 108u8, 101u8]
}

/// The value text of a role, already in normal form.
pub open spec fn role_value_text(role: UserRole) -> Seq<u8> {
    match role {
        UserRole::Manufacturer => seq![
            109u8,
            97u8,
            110u8,
            117u8,
            102u8,
            97u8,
            99u8,
            116u8,
            117u8,
            114u8,
            101u8,
            114u8,
        ],
        UserRole::Repairer => seq![114u8, 101u8, 112u8, 97u8, 105u8, 114u8, 101u8, 114u8],
    }
}

/// The `role` property name.
pub fn role_property_name() -> (n: PropertyName)
    ensures
        n@ == role_name_text(),
{
    let mut v: Vec<u8> = Vec::new();
    v.push(114);
    v.push(111);
    v.push(108);
    v.push(101);
    proof {
        assert(v@ =~= role_name_text());
        assert(norm_seq(role_name_text()) =~= role_name_text());
    }
    PropertyName::new(v)
}

/// The value of a role, as a property value.
pub fn role_property_value(role: UserRole) -> (r: PropertyValue)
    ensures
        r@ == role_value_text(role),
{
    let mut v: Vec<u8> = Vec::new();
    match role {
        UserRole::Manufacturer => {
            v.push(109);
            v.push(97);
            v.push(110);
            v.push(117);
            v.push(102);
            v.push(97);
            v.push(99);
            v.push(116);
            v.push(117);
            v.push(114);
            v.push(101);
            v.push(114);
        },
        UserRole::Repairer => {
            v.push(114);
            v.push(101);
            v.push(112);
            v.push(97);
            v.push(105);
            v.push(114);
            v.push(101);
            v.push(114);
        },
    }
    proof {
        assert(v@ =~= role_value_text(role));
        assert(norm_seq(role_value_text(role)) =~= role_value_text(role));
    }
    PropertyValue::text(v)
}

/// The constraint list a role request turns into: one set-based constraint
/// for the `role` property carrying the one requested value, with no
/// expression and no validity window.
pub open spec fn role_request_constraints(cs: Vec<PropertyConstraint>, role: UserRole) -> bool {
    &&& cs@.len() == 1
    &&& cs@[0].name@ == role_name_text()
    &&& cs@[0].values@.len() == 1
    &&& cs@[0].values@[0]@ == role_value_text(role)
    &&& cs@[0].expression is None
    &&& cs@[0].allow_any == false
    &&& cs@[0].timespan is None
}

/// A request to grant a user a role within a federation.
pub struct RoleRequest {
    pub user_addr: Identity,
    pub user_role: UserRole,
    pub federation: usize,
}

/// The engine's answer to a role request: where the supporting
/// accreditation now lives, and whether the fresh grant validates.
pub struct RoleResponse {
    pub accreditation: AccreditationId,
    pub validated: bool,
}

/// Handles a role request: grants the user a `ToAttest` edge for the
/// requested role value, issued by `grantor`, then re-checks that the user
/// now validates for it. The grant is subject to every domain and
/// narrowing check of the engine.
pub fn set_role(reg: &mut Registry, grantor: Identity, req: RoleRequest, now: u64) -> (r: Result<
    RoleResponse,
    GrantError,
>)
    requires
        old(reg).wf(),
    ensures
        final(reg).wf(),
        match r {
            Ok(resp) => exists|cs: Vec<PropertyConstraint>|
                {
                    &&& #[trigger] role_request_constraints(cs, req.user_role)
                    &&& final(reg).grant_result_ok(
                        *old(reg),
                        Ok(resp.accreditation),
                        req.federation,
                        grantor,
                        req.user_addr,
                        AccreditationKind::ToAttest,
                        cs,
                        now,
                    )
                    &&& resp.validated == (final(reg).has_federation(req.federation) && final(reg).federations@[req.federation as int].validate_spec(
                        req.user_addr@,
                        role_name_text(),
                        role_value_text(req.user_role),
                        now,
                    ))
                },
            Err(e) => exists|cs: Vec<PropertyConstraint>|
                {
                    &&& #[trigger] role_request_constraints(cs, req.user_role)
                    &&& final(reg).grant_result_ok(
                        *old(reg),
                        Err(e),
                        req.federation,
                        grantor,
                        req.user_addr,
                        AccreditationKind::ToAttest,
                        cs,
                        now,
                    )
                },
        },
{
    let name = role_property_name();
    let value = role_property_value(req.user_role);
    let mut values: Vec<PropertyValue> = Vec::new();
    values.push(value);
    let constraint = PropertyConstraint {
        name,
        values,
        expression: None,
        allow_any: false,
        timespan: None,
    };
    let mut constraints: Vec<PropertyConstraint> = Vec::new();
    constraints.push(constraint);
    let ghost cs_witness = constraints;
    let user_check = req.user_addr.duplicate();
    let role = req.user_role;
    let federation = req.federation;
    match reg.grant_attest(federation, grantor, req.user_addr, constraints, now) {
        Ok(accreditation) => {
            let check_name = role_property_name();
            let check_value = role_property_value(role);
            let validated = reg.validate(federation, &user_check, &check_name, &check_value, now);
            proof {
                assert(role_request_constraints(cs_witness, role));
            }
            Ok(RoleResponse { accreditation, validated })
        },
        Err(e) => {
            proof {
                assert(role_request_constraints(cs_witness, role));
            }
            Err(e)
        },
    }
}

} // verus!
