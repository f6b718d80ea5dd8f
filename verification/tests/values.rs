//! Tests of text normalization, value sets, range expressions, and
//! effective-constraint queries.

use trust_hierarchy::accreditation::AccreditationKind;
use trust_hierarchy::expression::{parse_dec_numeral, PropertyExpression};
use trust_hierarchy::identity::Identity;
use trust_hierarchy::property::{PropertyConstraint, PropertyName, PropertyValue};
use trust_hierarchy::registry::Registry;
use trust_hierarchy::text::Text;
use trust_hierarchy::validation::EffectiveConstraints;

fn ident(s: &str) -> Identity {
    Identity::new(s.as_bytes().to_vec())
}

fn pname(s: &str) -> PropertyName {
    PropertyName::new(s.as_bytes().to_vec())
}

fn pval(s: &str) -> PropertyValue {
    PropertyValue::text(s.as_bytes().to_vec())
}

fn vals(xs: &[&str]) -> Vec<PropertyValue> {
    xs.iter().map(|s| pval(s)).collect()
}

fn constraint(name: &str, values: &[&str]) -> PropertyConstraint {
    PropertyConstraint {
        name: pname(name),
        values: vals(values),
        expression: None,
        allow_any: false,
        timespan: None,
    }
}

#[test]
fn text_folds_to_lower_case() {
    let t = Text::new(b"MiXeD-Case 123".to_vec());
    assert_eq!(t.bytes, b"mixed-case 123".to_vec());
    let lower = Text::new(b"already lower".to_vec());
    assert_eq!(lower.bytes, b"already lower".to_vec());
}

#[test]
fn values_compare_after_normalization() {
    assert!(pval("Manufacturer").equals(&pval("MANUFACTURER")));
    assert!(!pval("manufacturer").equals(&pval("repairer")));
    assert!(pname("Role").equals(&pname("rOlE")));
}

#[test]
fn validation_is_case_insensitive() {
    let mut reg = Registry::new();
    let fed = reg.create_federation(ident("root-auth"));
    reg.declare_property(fed, pname("Role"), vals(&["Manufacturer"]))
        .expect("declare");
    reg.grant_attest(
        fed,
        ident("root-auth"),
        ident("manu-fact"),
        vec![constraint("ROLE", &["MANUFACTURER"])],
        1,
    )
    .expect("grant");
    assert!(reg.validate(
        fed,
        &ident("manu-fact"),
        &pname("rolE"),
        &pval("manufactureR"),
        2
    ));
}

#[test]
fn decimal_numerals_parse_exactly() {
    assert_eq!(parse_dec_numeral(&b"0".to_vec()), Some(0));
    assert_eq!(parse_dec_numeral(&b"42".to_vec()), Some(42));
    assert_eq!(parse_dec_numeral(&b"00015".to_vec()), Some(15));
    assert_eq!(
        parse_dec_numeral(&b"9999999999999999999".to_vec()),
        Some(9_999_999_999_999_999_999)
    );
    assert_eq!(parse_dec_numeral(&b"".to_vec()), None);
    assert_eq!(parse_dec_numeral(&b"12a".to_vec()), None);
    assert_eq!(parse_dec_numeral(&b"-5".to_vec()), None);
    // Twenty digits exceed the numeral form, whatever their value.
    assert_eq!(parse_dec_numeral(&b"00000000000000000001".to_vec()), None);
}

#[test]
fn int_range_expression_admits_by_value() {
    let range = PropertyExpression::IntRange { lo: 150, hi: 250 };
    assert!(range.matches_value(&pval("150")));
    assert!(range.matches_value(&pval("200")));
    assert!(range.matches_value(&pval("250")));
    assert!(range.matches_value(&pval("0200")));
    assert!(!range.matches_value(&pval("149")));
    assert!(!range.matches_value(&pval("251")));
    assert!(!range.matches_value(&pval("abc")));
    assert!(!range.matches_value(&pval("")));
}

#[test]
fn expression_constraint_validates_in_domain_only() {
    let mut reg = Registry::new();
    let fed = reg.create_federation(ident("root-auth"));
    reg.declare_property(fed, pname("batch"), vals(&["100", "200", "300"]))
        .expect("declare");
    let ranged = PropertyConstraint {
        name: pname("batch"),
        values: vals(&[]),
        expression: Some(PropertyExpression::IntRange { lo: 150, hi: 250 }),
        allow_any: false,
        timespan: None,
    };
    reg.grant_attest(fed, ident("root-auth"), ident("mill"), vec![ranged], 1)
        .expect("grant");
    let mill = ident("mill");
    // Admitted by the range and inside the domain.
    assert!(reg.validate(fed, &mill, &pname("batch"), &pval("200"), 2));
    // In the domain but outside the range.
    assert!(!reg.validate(fed, &mill, &pname("batch"), &pval("100"), 2));
    // Admitted by the range but outside the domain.
    assert!(!reg.validate(fed, &mill, &pname("batch"), &pval("250"), 2));
}

#[test]
fn effective_constraints_distinguish_the_three_cases() {
    let mut reg = Registry::new();
    let fed = reg.create_federation(ident("root-auth"));
    reg.declare_property(fed, pname("role"), vals(&["manufacturer", "repairer"]))
        .expect("declare");
    let root = ident("root-auth");
    let m = ident("manu-fact");
    let x = ident("end-user");

    // The root authority always holds blanket authority.
    assert!(matches!(
        reg.effective_constraints(fed, &root, &pname("role"), AccreditationKind::ToAttest, 0),
        EffectiveConstraints::AnyInDomain
    ));
    // A stranger holds nothing.
    assert!(matches!(
        reg.effective_constraints(fed, &x, &pname("role"), AccreditationKind::ToAttest, 0),
        EffectiveConstraints::NoAuthority
    ));

    // Two grants from two grantors: the effective set is their union.
    reg.grant_accredit(
        fed,
        root.duplicate(),
        m.duplicate(),
        vec![constraint("role", &["repairer"])],
        1,
    )
    .expect("accredit");
    reg.grant_attest(
        fed,
        root.duplicate(),
        x.duplicate(),
        vec![constraint("role", &["manufacturer"])],
        2,
    )
    .expect("root grant");
    reg.grant_attest(
        fed,
        m.duplicate(),
        x.duplicate(),
        vec![constraint("role", &["repairer"])],
        3,
    )
    .expect("manufacturer grant");
    match reg.effective_constraints(fed, &x, &pname("role"), AccreditationKind::ToAttest, 4) {
        EffectiveConstraints::Values(vs) => {
            assert_eq!(vs.len(), 2);
            assert!(vs.iter().any(|v| v.equals(&pval("manufacturer"))));
            assert!(vs.iter().any(|v| v.equals(&pval("repairer"))));
        }
        _ => panic!("expected a flat value set"),
    }

    // A blanket holder reports blanket authority.
    reg.grant_attest(
        fed,
        root.duplicate(),
        m.duplicate(),
        vec![PropertyConstraint {
            name: pname("role"),
            values: vals(&[]),
            expression: None,
            allow_any: true,
            timespan: None,
        }],
        5,
    )
    .expect("blanket");
    assert!(matches!(
        reg.effective_constraints(fed, &m, &pname("role"), AccreditationKind::ToAttest, 6),
        EffectiveConstraints::AnyInDomain
    ));

    // An unknown federation grants nothing.
    assert!(matches!(
        reg.effective_constraints(9, &root, &pname("role"), AccreditationKind::ToAttest, 0),
        EffectiveConstraints::NoAuthority
    ));
}

#[test]
fn edges_for_lists_newest_first() {
    let mut reg = Registry::new();
    let fed = reg.create_federation(ident("root-auth"));
    reg.declare_property(fed, pname("role"), vals(&["manufacturer", "repairer"]))
        .expect("declare");
    let root = ident("root-auth");
    let m = ident("manu-fact");
    reg.grant_attest(
        fed,
        root.duplicate(),
        m.duplicate(),
        vec![constraint("role", &["manufacturer"])],
        1,
    )
    .expect("attest");
    reg.grant_accredit(
        fed,
        root.duplicate(),
        m.duplicate(),
        vec![constraint("role", &["repairer"])],
        2,
    )
    .expect("accredit");
    reg.grant_attest(
        fed,
        root.duplicate(),
        ident("end-user"),
        vec![constraint("role", &["repairer"])],
        3,
    )
    .expect("other grantee");
    let f = reg.federation(fed).expect("federation");
    let attest_edges = f.edges_for(&m, AccreditationKind::ToAttest);
    assert_eq!(attest_edges, vec![0]);
    let accredit_edges = f.edges_for(&m, AccreditationKind::ToAccredit);
    assert_eq!(accredit_edges, vec![1]);
    let user_edges = f.edges_for(&ident("end-user"), AccreditationKind::ToAttest);
    assert_eq!(user_edges, vec![2]);
    assert!(f.edges_for(&ident("nobody"), AccreditationKind::ToAttest).is_empty());
    // The newest edge for a grantee comes first. The manufacturer may
    // grant itself repairer: its accredit authority covers that value.
    reg.grant_attest(
        fed,
        ident("manu-fact"),
        m.duplicate(),
        vec![constraint("role", &["repairer"])],
        4,
    )
    .expect("self grant");
    let f = reg.federation(fed).expect("federation");
    let all_for_m = f.edges_for(&m, AccreditationKind::ToAttest);
    assert_eq!(all_for_m, vec![3, 0]);
}

#[test]
fn edges_for_orders_by_issue_time() {
    let mut reg = Registry::new();
    let fed = reg.create_federation(ident("root-auth"));
    reg.declare_property(fed, pname("role"), vals(&["manufacturer", "repairer"]))
        .expect("declare");
    let root = ident("root-auth");
    let m = ident("manu-fact");
    let x = ident("end-user");
    reg.grant_accredit(
        fed,
        root.duplicate(),
        m.duplicate(),
        vec![constraint("role", &["repairer"])],
        1,
    )
    .expect("accredit");
    // The earlier-inserted edge carries the later issue time: the listing
    // must follow issue time, not insertion order.
    reg.grant_attest(
        fed,
        root.duplicate(),
        x.duplicate(),
        vec![constraint("role", &["manufacturer"])],
        10,
    )
    .expect("root grant");
    reg.grant_attest(
        fed,
        m.duplicate(),
        x.duplicate(),
        vec![constraint("role", &["repairer"])],
        5,
    )
    .expect("manufacturer grant");
    let f = reg.federation(fed).expect("federation");
    assert_eq!(f.edges_for(&x, AccreditationKind::ToAttest), vec![1, 2]);
}

#[test]
fn get_property_reports_the_domain() {
    let mut reg = Registry::new();
    let fed = reg.create_federation(ident("root-auth"));
    reg.declare_property(fed, pname("role"), vals(&["manufacturer", "repairer"]))
        .expect("declare");
    let f = reg.federation(fed).expect("federation");
    let p = f.get_property(&pname("role")).expect("declared");
    assert_eq!(p.values.len(), 2);
    assert!(f.get_property(&pname("rank")).is_none());
}
