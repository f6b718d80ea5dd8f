//! The property model: named attributes, their value domains, and the
//! constraint unit that accreditation edges carry.

use vstd::prelude::*;

use crate::expression::{expr_admits, PropertyExpression};
use crate::text::{bytes_eq, norm_seq, Text};

verus! {

/// A case-normalized property key, such as `role`.
pub struct PropertyName {
    pub text: Text,
}

impl View for PropertyName {
    type V = Seq<u8>;

    open spec fn view(&self) -> Seq<u8> {
        self.text@
    }
}

impl PropertyName {
    /// Builds a property name, folding the bytes to normal form.
    pub fn new(bytes: Vec<u8>) -> (n: PropertyName)
        ensures
            n@ == norm_seq(bytes@),
    {
        PropertyName { text: Text::new(bytes) }
    }

    /// Equality of two property names.
    pub fn equals(&self, other: &PropertyName) -> (r: bool)
        ensures
            r == (self@ == other@),
    {
        self.text.equals(&other.text)
    }
}

/// A tagged property value; values here are text, compared by exact
/// equality after case normalization.
pub enum PropertyValue {
    Text(Text),
}

impl View for PropertyValue {
    type V = Seq<u8>;

    open spec fn view(&self) -> Seq<u8> {
        match self {
            PropertyValue::Text(t) => t@,
        }
    }
}

impl PropertyValue {
    /// Builds a text value, folding the bytes to normal form.
    pub fn text(bytes: Vec<u8>) -> (v: PropertyValue)
        ensures
            v@ == norm_seq(bytes@),
    {
        PropertyValue::Text(Text::new(bytes))
    }

    /// The stored bytes.
    pub fn bytes(&self) -> (r: &Vec<u8>)
        ensures
            r@ == self@,
    {
        match self {
            PropertyValue::Text(t) => &t.bytes,
        }
    }

    /// A copy of this value.
    pub fn duplicate(&self) -> (r: PropertyValue)
        ensures
            r@ == self@,
    {
        match self {
            PropertyValue::Text(t) => PropertyValue::Text(
                Text { bytes: crate::text::copy_bytes(&t.bytes) },
            ),
        }
    }

    /// Equality of two property values.
    pub fn equals(&self, other: &PropertyValue) -> (r: bool)
        ensures
            r == (self@ == other@),
    {
        bytes_eq(self.bytes(), other.bytes())
    }
}

/// The set of (normalized) byte strings that a list of values denotes.
pub open spec fn value_set_of(vs: Seq<PropertyValue>) -> Set<Seq<u8>> {
    Set::new(|v: Seq<u8>| exists|i: int| 0 <= i < vs.len() && #[trigger] vs[i]@ == v)
}

/// Appending a value to a list inserts its text into the denoted set.
pub proof fn lemma_value_set_push(s: Seq<PropertyValue>, x: PropertyValue)
    ensures
        value_set_of(s.push(x)) == value_set_of(s).insert(x@),
{
    assert forall|v: Seq<u8>| value_set_of(s.push(x)).contains(v) implies value_set_of(s).insert(
        x@,
    ).contains(v) by {
        let j = choose|j: int| 0 <= j < s.push(x).len() && #[trigger] s.push(x)[j]@ == v;
        if j < s.len() {
            assert(s[j]@ == v);
        }
    }
    assert forall|v: Seq<u8>| value_set_of(s).insert(x@).contains(v) implies value_set_of(
        s.push(x),
    ).contains(v) by {
        if v == x@ {
            assert(s.push(x)[s.len() as int]@ == v);
        } else {
            let j = choose|j: int| 0 <= j < s.len() && #[trigger] s[j]@ == v;
            assert(s.push(x)[j]@ == v);
        }
    }
    assert(value_set_of(s.push(x)) =~= value_set_of(s).insert(x@));
}

/// Decides membership of `v` in the set denoted by `vs`.
pub fn value_in(vs: &Vec<PropertyValue>, v: &PropertyValue) -> (r: bool)
    ensures
        r == value_set_of(vs@).contains(v@),
{
    let mut i: usize = 0;
    while i < vs.len()
        invariant
            i <= vs@.len(),
            forall|k: int| 0 <= k < i ==> #[trigger] vs@[k]@ != v@,
        decreases vs@.len() - i,
    {
        if vs[i].equals(v) {
            return true;
        }
        i = i + 1;
    }
    false
}

/// Decides whether the set denoted by `xs` is a subset of the set denoted by `ys`.
pub fn values_subset(xs: &Vec<PropertyValue>, ys: &Vec<PropertyValue>) -> (r: bool)
    ensures
        r == value_set_of(xs@).subset_of(value_set_of(ys@)),
{
    let mut i: usize = 0;
    while i < xs.len()
        invariant
            i <= xs@.len(),
            forall|k: int| 0 <= k < i ==> value_set_of(ys@).contains(#[trigger] xs@[k]@),
        decreases xs@.len() - i,
    {
        if !value_in(ys, &xs[i]) {
            proof {
                assert(value_set_of(xs@).contains(xs@[i as int]@));
            }
            return false;
        }
        i = i + 1;
    }
    proof {
        assert forall|v: Seq<u8>| value_set_of(xs@).contains(v) implies value_set_of(
            ys@,
        ).contains(v) by {
            let k = choose|k: int| 0 <= k < xs@.len() && #[trigger] xs@[k]@ == v;
            assert(value_set_of(ys@).contains(xs@[k]@));
        }
    }
    true
}

/// A closed validity window measured on the caller's clock.
pub struct Timespan {
    pub not_before: u64,
    pub not_after: u64,
}

/// A federation-level property declaration: a name together with the domain
/// of values that may ever be used for it inside the federation.
pub struct FederationProperty {
    pub name: PropertyName,
    pub values: Vec<PropertyValue>,
}

/// The unit of delegation: one property name with the values (or the
/// predicate, or the blanket permission) that the grantee receives, and an
/// optional validity window.
pub struct PropertyConstraint {
    pub name: PropertyName,
    pub values: Vec<PropertyValue>,
    pub expression: Option<PropertyExpression>,
    pub allow_any: bool,
    pub timespan: Option<Timespan>,
}

/// Whether the constraint is inside its validity window at `now`.
/// A constraint without a window is always in force.
pub open spec fn constraint_active(c: PropertyConstraint, now: u64) -> bool {
    match c.timespan {
        Some(ts) => ts.not_before <= now && now <= ts.not_after,
        None => true,
    }
}

/// Whether the constraint admits the value text `v`. An expression, when
/// present, supersedes both the allowed-value set and `allow_any`.
pub open spec fn constraint_admits(c: PropertyConstraint, v: Seq<u8>) -> bool {
    match c.expression {
        Some(e) => expr_admits(e, v),
        None => c.allow_any || value_set_of(c.values@).contains(v),
    }
}

impl PropertyConstraint {
    /// Decides whether this constraint is in force at `now`.
    pub fn is_active(&self, now: u64) -> (r: bool)
        ensures
            r == constraint_active(*self, now),
    {
        match &self.timespan {
            Some(ts) => ts.not_before <= now && now <= ts.not_after,
            None => true,
        }
    }

    /// Decides whether this constraint admits the given value.
    pub fn admits_value(&self, v: &PropertyValue) -> (r: bool)
        ensures
            r == constraint_admits(*self, v@),
    {
        match &self.expression {
            Some(e) => e.matches_value(v),
            None => self.allow_any || value_in(&self.values, v),
        }
    }
}

} // verus!
