//! Accreditation edges: directed, constrained grants of authority from a
//! grantor to a grantee.
//!
//! An edge either permits the grantee to attest the constrained properties
//! about itself (`ToAttest`) or to delegate further, narrowed, authority to
//! others (`ToAccredit`). An edge is immutable except for its revocation
//! flag; a revoked edge never becomes live again.

use vstd::prelude::*;

use crate::identity::Identity;
use crate::property::{constraint_active, constraint_admits, PropertyConstraint, PropertyName};
use crate::property::PropertyValue;

verus! {

/// The two kinds of delegation an edge can carry.
#[derive(Clone, Copy, PartialEq, Eq, Structural, Debug)]
pub enum AccreditationKind {
    /// The grantee may assert the constrained properties about itself.
    ToAttest,
    /// The grantee may issue further, narrowed, accreditations.
    ToAccredit,
}

/// A delegation edge of the accreditation graph. Created atomically by its
/// grantor; immutable afterwards except for `revoked`.
pub struct Accreditation {
    pub grantor: Identity,
    pub grantee: Identity,
    pub kind: AccreditationKind,
    pub constraints: Vec<PropertyConstraint>,
    pub issued_at: u64,
    pub revoked: bool,
}

/// The edge is not revoked, is of the given kind, and points into `grantee`.
pub open spec fn edge_live_for(e: Accreditation, grantee: Seq<u8>, kind: AccreditationKind) -> bool {
    &&& !e.revoked
    &&& e.kind == kind
    &&& e.grantee@ == grantee
}

/// The edge carries a constraint for `name` that is in force at `now` and
/// admits the value text `v`.
pub open spec fn edge_admitting_constraint(
    e: Accreditation,
    name: Seq<u8>,
    v: Seq<u8>,
    now: u64,
) -> bool {
    exists|i: int|
        0 <= i < e.constraints@.len() && {
            let c = #[trigger] e.constraints@[i];
            &&& c.name@ == name
            &&& constraint_active(c, now)
            &&& constraint_admits(c, v)
        }
}

/// The edge carries a blanket constraint for `name`, in force at `now`:
/// no expression, and `allow_any` set.
pub open spec fn edge_any_constraint(e: Accreditation, name: Seq<u8>, now: u64) -> bool {
    exists|i: int|
        0 <= i < e.constraints@.len() && {
            let c = #[trigger] e.constraints@[i];
            &&& c.name@ == name
            &&& constraint_active(c, now)
            &&& c.expression is None
            &&& c.allow_any
        }
}

/// The edge carries some constraint for `name` in force at `now`.
pub open spec fn edge_names_constraint(e: Accreditation, name: Seq<u8>, now: u64) -> bool {
    exists|i: int|
        0 <= i < e.constraints@.len() && {
            let c = #[trigger] e.constraints@[i];
            &&& c.name@ == name
            &&& constraint_active(c, now)
        }
}

/// The edge carries some constraint in force at `now`, for any name.
pub open spec fn edge_in_force(e: Accreditation, now: u64) -> bool {
    exists|i: int|
        0 <= i < e.constraints@.len() && constraint_active(#[trigger] e.constraints@[i], now)
}

/// The set of property names that a constraint list speaks of.
pub open spec fn names_of(cs: Seq<PropertyConstraint>) -> Set<Seq<u8>> {
    Set::new(|n: Seq<u8>| exists|i: int| 0 <= i < cs.len() && #[trigger] cs[i].name@ == n)
}

impl Accreditation {
    /// Decides `edge_live_for`.
    pub fn is_live_for(&self, grantee: &Identity, kind: AccreditationKind) -> (r: bool)
        ensures
            r == edge_live_for(*self, grantee@, kind),
    {
        !self.revoked && self.kind == kind && self.grantee.equals(grantee)
    }

    /// Decides `edge_admitting_constraint`.
    pub fn has_admitting_constraint(
        &self,
        name: &PropertyName,
        v: &PropertyValue,
        now: u64,
    ) -> (r: bool)
        ensures
            r == edge_admitting_constraint(*self, name@, v@, now),
    {
        let mut i: usize = 0;
        while i < self.constraints.len()
            invariant
                i <= self.constraints@.len(),
                forall|k: int|
                    0 <= k < i ==> {
                        let c = #[trigger] self.constraints@[k];
                        !(c.name@ == name@ && constraint_active(c, now) && constraint_admits(
                            c,
                            v@,
                        ))
                    },
            decreases self.constraints@.len() - i,
        {
            let c = &self.constraints[i];
            if c.name.equals(name) && c.is_active(now) && c.admits_value(v) {
                return true;
            }
            i = i + 1;
        }
        false
    }

    /// Decides `edge_any_constraint`.
    pub fn has_any_constraint(&self, name: &PropertyName, now: u64) -> (r: bool)
        ensures
            r == edge_any_constraint(*self, name@, now),
    {
        let mut i: usize = 0;
        while i < self.constraints.len()
            invariant
                i <= self.constraints@.len(),
                forall|k: int|
                    0 <= k < i ==> {
                        let c = #[trigger] self.constraints@[k];
                        !(c.name@ == name@ && constraint_active(c, now) && c.expression is None
                            && c.allow_any)
                    },
            decreases self.constraints@.len() - i,
        {
            let c = &self.constraints[i];
            if c.name.equals(name) && c.is_active(now) && c.expression.is_none() && c.allow_any {
                return true;
            }
            i = i + 1;
        }
        false
    }

    /// Decides `edge_names_constraint`.
    pub fn has_constraint_for(&self, name: &PropertyName, now: u64) -> (r: bool)
        ensures
            r == edge_names_constraint(*self, name@, now),
    {
        let mut i: usize = 0;
        while i < self.constraints.len()
            invariant
                i <= self.constraints@.len(),
                forall|k: int|
                    0 <= k < i ==> {
                        let c = #[trigger] self.constraints@[k];
                        !(c.name@ == name@ && constraint_active(c, now))
                    },
            decreases self.constraints@.len() - i,
        {
            let c = &self.constraints[i];
            if c.name.equals(name) && c.is_active(now) {
                return true;
            }
            i = i + 1;
        }
        false
    }

    /// Decides `edge_in_force`.
    pub fn is_in_force(&self, now: u64) -> (r: bool)
        ensures
            r == edge_in_force(*self, now),
    {
        let mut i: usize = 0;
        while i < self.constraints.len()
            invariant
                i <= self.constraints@.len(),
                forall|k: int|
                    0 <= k < i ==> !constraint_active(#[trigger] self.constraints@[k], now),
            decreases self.constraints@.len() - i,
        {
            if self.constraints[i].is_active(now) {
                return true;
            }
            i = i + 1;
        }
        false
    }
}

/// Decides whether a constraint list has a constraint for `name`.
pub fn constraints_name(cs: &Vec<PropertyConstraint>, name: &PropertyName) -> (r: bool)
    ensures
        r == names_of(cs@).contains(name@),
{
    let mut i: usize = 0;
    while i < cs.len()
        invariant
            i <= cs@.len(),
            forall|k: int| 0 <= k < i ==> #[trigger] cs@[k].name@ != name@,
        decreases cs@.len() - i,
    {
        if cs[i].name.equals(name) {
            return true;
        }
        i = i + 1;
    }
    false
}

/// Decides whether two constraint lists speak of exactly the same property
/// names.
pub fn same_name_set(xs: &Vec<PropertyConstraint>, ys: &Vec<PropertyConstraint>) -> (r: bool)
    ensures
        r == (names_of(xs@) == names_of(ys@)),
{
    let forward = name_set_subset(xs, ys);
    let backward = name_set_subset(ys, xs);
    if forward && backward {
        proof {
            assert(names_of(xs@) =~= names_of(ys@));
        }
        true
    } else {
        false
    }
}

/// Decides whether every name in `xs` also occurs in `ys`.
fn name_set_subset(xs: &Vec<PropertyConstraint>, ys: &Vec<PropertyConstraint>) -> (r: bool)
    ensures
        r == names_of(xs@).subset_of(names_of(ys@)),
{
    let mut i: usize = 0;
    while i < xs.len()
        invariant
            i <= xs@.len(),
            forall|k: int| 0 <= k < i ==> names_of(ys@).contains(#[trigger] xs@[k].name@),
        decreases xs@.len() - i,
    {
        if !constraints_name(ys, &xs[i].name) {
            proof {
                assert(names_of(xs@).contains(xs@[i as int].name@));
            }
            return false;
        }
        i = i + 1;
    }
    proof {
        assert forall|n: Seq<u8>| names_of(xs@).contains(n) implies names_of(ys@).contains(n) by {
            let k = choose|k: int| 0 <= k < xs@.len() && #[trigger] xs@[k].name@ == n;
            assert(names_of(ys@).contains(xs@[k].name@));
        }
    }
    true
}

} // verus!
