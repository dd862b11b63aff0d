//! The permission algebra: composable predicates over a role-set snapshot.
//!
//! Permissions come in two equivalent shapes. [`PermExpr`] is a recursive
//! expression tree with unrestricted arity, evaluated by a tree walk.
//! The [`Permission`] and [`AnyPermissions`] traits compose permissions at
//! the type level, so that a protected operation can fix its required
//! permission in its signature; tuples act as AND, [`AnyPerm`] as OR and
//! [`NotPerm`] as negation.
//!
//! Both shapes are specified against the *set* of role names, so the
//! outcome never depends on the order in which roles are stored.

use vstd::prelude::*;
use core::marker::PhantomData;
use crate::roles::{Role, Roles};

verus! {

/// A permission expression over role predicates.
pub enum PermExpr {
    /// True unconditionally: for operations that require authentication but
    /// no specific role.
    Always,
    /// True iff the named role is a member of the snapshot.
    RolePredicate(String),
    /// True iff every child evaluates true.
    All(Vec<PermExpr>),
    /// True iff at least one child evaluates true.
    Any(Vec<PermExpr>),
    /// Negates one child.
    Not(Box<PermExpr>),
}

/// What a permission expression means on a snapshot of role names.
pub open spec fn spec_eval(e: PermExpr, roles: Set<Seq<char>>) -> bool
    decreases e,
{
    match e {
        PermExpr::Always => true,
        PermExpr::RolePredicate(name) => roles.contains(name@),
        PermExpr::All(es) => forall|i: int|
            0 <= i < es@.len() ==> spec_eval(#[trigger] es@[i], roles),
        PermExpr::Any(es) => exists|i: int|
            0 <= i < es@.len() && spec_eval(#[trigger] es@[i], roles),
        PermExpr::Not(inner) => !spec_eval(*inner, roles),
    }
}

impl PermExpr {
    /// Evaluates this expression against a role-set snapshot.
    pub fn eval(&self, roles: &Roles) -> (r: bool)
        ensures
            r == spec_eval(*self, roles@.to_set()),
        decreases *self,
    {
        match self {
            PermExpr::Always => true,
            PermExpr::RolePredicate(name) => roles.contains(name),
            PermExpr::All(es) => {
                let mut i: usize = 0;
                while i < es.len()
                    invariant
                        *self == PermExpr::All(*es),
                        i <= es@.len(),
                        forall|k: int|
                            0 <= k < i ==> spec_eval(#[trigger] es@[k], roles@.to_set()),
                    decreases es@.len() - i,
                {
                    proof {
                        assert(*es == (*self)->All_0);
                        assert(decreases_to!(*self => (*self)->All_0));
                        assert(decreases_to!((*self)->All_0 => (*self)->All_0@));
                        assert(decreases_to!((*self)->All_0@ => (*self)->All_0@[i as int]));
                        assert(decreases_to!(*self => es@[i as int]));
                    }
                    if !es[i].eval(roles) {
                        assert(!spec_eval(es@[i as int], roles@.to_set()));
                        return false;
                    }
                    i += 1;
                }
                true
            },
            PermExpr::Any(es) => {
                let mut i: usize = 0;
                while i < es.len()
                    invariant
                        *self == PermExpr::Any(*es),
                        i <= es@.len(),
                        forall|k: int|
                            0 <= k < i ==> !spec_eval(#[trigger] es@[k], roles@.to_set()),
                    decreases es@.len() - i,
                {
                    proof {
                        assert(*es == (*self)->Any_0);
                        assert(decreases_to!(*self => (*self)->Any_0));
                        assert(decreases_to!((*self)->Any_0 => (*self)->Any_0@));
                        assert(decreases_to!((*self)->Any_0@ => (*self)->Any_0@[i as int]));
                        assert(decreases_to!(*self => es@[i as int]));
                    }
                    if es[i].eval(roles) {
                        assert(spec_eval(es@[i as int], roles@.to_set()));
                        return true;
                    }
                    i += 1;
                }
                false
            },
            PermExpr::Not(inner) => !inner.eval(roles),
        }
    }
}

/// A conjunction of two role predicates holds exactly on the snapshots that
/// contain both role names.
pub proof fn lemma_all_of_two_roles(a: String, b: String, es: Vec<PermExpr>, roles: Set<Seq<char>>)
    requires
        es@ == seq![PermExpr::RolePredicate(a), PermExpr::RolePredicate(b)],
    ensures
        spec_eval(PermExpr::All(es), roles) <==> (roles.contains(a@) && roles.contains(b@)),
{
    let ae = PermExpr::All(es);
    assert(ae->All_0 == es);
    assert(spec_eval(es@[0], roles) == roles.contains(a@));
    assert(spec_eval(es@[1], roles) == roles.contains(b@));
    if roles.contains(a@) && roles.contains(b@) {
        assert forall|i: int| 0 <= i < es@.len() implies spec_eval(#[trigger] es@[i], roles) by {
            if i == 0 {
                assert(spec_eval(es@[0], roles));
            } else {
                assert(spec_eval(es@[1], roles));
            }
        }
    }
}

/// A disjunction of two role predicates holds exactly on the snapshots that
/// contain at least one of the two role names.
pub proof fn lemma_any_of_two_roles(a: String, b: String, es: Vec<PermExpr>, roles: Set<Seq<char>>)
    requires
        es@ == seq![PermExpr::RolePredicate(a), PermExpr::RolePredicate(b)],
    ensures
        spec_eval(PermExpr::Any(es), roles) <==> (roles.contains(a@) || roles.contains(b@)),
{
    let ae = PermExpr::Any(es);
    assert(ae->Any_0 == es);
    assert(spec_eval(es@[0], roles) == roles.contains(a@));
    assert(spec_eval(es@[1], roles) == roles.contains(b@));
    if roles.contains(a@) {
        assert(spec_eval(es@[0], roles));
    } else if roles.contains(b@) {
        assert(spec_eval(es@[1], roles));
    } else {
        assert forall|i: int| !(0 <= i < es@.len() && spec_eval(#[trigger] es@[i], roles)) by {
            if 0 <= i < es@.len() {
                if i == 0 {
                    assert(!spec_eval(es@[0], roles));
                } else {
                    assert(!spec_eval(es@[1], roles));
                }
            }
        }
    }
}

/// A negated role predicate holds exactly on the snapshots that do not
/// contain the role name; `Always` holds on every snapshot, the empty one
/// included.
pub proof fn lemma_not_role_and_always(a: String, inner: Box<PermExpr>, roles: Set<Seq<char>>)
    requires
        *inner == PermExpr::RolePredicate(a),
    ensures
        spec_eval(PermExpr::Not(inner), roles) <==> !roles.contains(a@),
        spec_eval(PermExpr::Always, roles),
{
    assert(spec_eval(*inner, roles) == roles.contains(a@));
}

/// Nested composition evaluates structurally: `All(Any(a, b), c)` holds
/// exactly when `(a or b) and c` holds.
pub proof fn lemma_nested_composition(
    a: String,
    b: String,
    c: String,
    inner: Vec<PermExpr>,
    outer: Vec<PermExpr>,
    roles: Set<Seq<char>>,
)
    requires
        inner@ == seq![PermExpr::RolePredicate(a), PermExpr::RolePredicate(b)],
        outer@ == seq![PermExpr::Any(inner), PermExpr::RolePredicate(c)],
    ensures
        spec_eval(PermExpr::All(outer), roles) <==> ((roles.contains(a@) || roles.contains(b@))
            && roles.contains(c@)),
{
    let ae = PermExpr::All(outer);
    assert(ae->All_0 == outer);
    lemma_any_of_two_roles(a, b, inner, roles);
    assert(spec_eval(outer@[0], roles) == spec_eval(PermExpr::Any(inner), roles));
    assert(spec_eval(outer@[1], roles) == roles.contains(c@));
    if spec_eval(outer@[0], roles) && spec_eval(outer@[1], roles) {
        assert forall|i: int| 0 <= i < outer@.len() implies spec_eval(#[trigger] outer@[i], roles) by {
            if i == 0 {
                assert(spec_eval(outer@[0], roles));
            } else {
                assert(spec_eval(outer@[1], roles));
            }
        }
    }
}

/// Trait defining permission checking for types, tuples of types, and the
/// [`AnyPerm`] and [`NotPerm`] combinators.
///
/// ### Implementations
/// - Tuples of [`Permission`] act as AND, so all members must hold
/// - Every [`Role`] implements [`Permission`] and checks for its own name
/// - [`AnyPerm`] takes a tuple of [`Permission`] where any member may hold
/// - [`NotPerm`] negates a [`Permission`]
/// - `()` always holds: for operations that need no specific role
pub trait Permission {
    /// The meaning of this permission on a snapshot of role names.
    spec fn spec_granted(roles: Set<Seq<char>>) -> bool;

    /// Check for all conditions to be met.
    fn is_granted(roles: &Roles) -> (r: bool)
        ensures
            r == Self::spec_granted(roles@.to_set()),
    ;
}

/// Helper trait for [`AnyPerm`] functionality: a tuple where any member
/// being granted suffices. (OR operation)
pub trait AnyPermissions {
    /// The meaning of this disjunction on a snapshot of role names.
    spec fn spec_any_granted(roles: Set<Seq<char>>) -> bool;

    /// Check for any [`Permission`] of this tuple to be true.
    fn is_granted(roles: &Roles) -> (r: bool)
        ensures
            r == Self::spec_any_granted(roles@.to_set()),
    ;
}

impl<R: Role> Permission for R {
    open spec fn spec_granted(roles: Set<Seq<char>>) -> bool {
        roles.contains(R::spec_role_name())
    }

    fn is_granted(roles: &Roles) -> (r: bool) {
        roles.is_granted::<R>()
    }
}

impl Permission for () {
    open spec fn spec_granted(roles: Set<Seq<char>>) -> bool {
        true
    }

    fn is_granted(roles: &Roles) -> (r: bool) {
        true
    }
}

impl<A: Permission, B: Permission> Permission for (A, B) {
    open spec fn spec_granted(roles: Set<Seq<char>>) -> bool {
        A::spec_granted(roles) && B::spec_granted(roles)
    }

    fn is_granted(roles: &Roles) -> (r: bool) {
        A::is_granted(roles) && B::is_granted(roles)
    }
}

impl<A: Permission, B: Permission, C: Permission> Permission for (A, B, C) {
    open spec fn spec_granted(roles: Set<Seq<char>>) -> bool {
        A::spec_granted(roles) && B::spec_granted(roles) && C::spec_granted(roles)
    }

    fn is_granted(roles: &Roles) -> (r: bool) {
        A::is_granted(roles) && B::is_granted(roles) && C::is_granted(roles)
    }
}

impl<A: Permission, B: Permission, C: Permission, D: Permission> Permission for (A, B, C, D) {
    open spec fn spec_granted(roles: Set<Seq<char>>) -> bool {
        A::spec_granted(roles) && B::spec_granted(roles) && C::spec_granted(roles)
            && D::spec_granted(roles)
    }

    fn is_granted(roles: &Roles) -> (r: bool) {
        A::is_granted(roles) && B::is_granted(roles) && C::is_granted(roles)
            && D::is_granted(roles)
    }
}

impl<A: Permission, B: Permission> AnyPermissions for (A, B) {
    open spec fn spec_any_granted(roles: Set<Seq<char>>) -> bool {
        A::spec_granted(roles) || B::spec_granted(roles)
    }

    fn is_granted(roles: &Roles) -> (r: bool) {
        A::is_granted(roles) || B::is_granted(roles)
    }
}

impl<A: Permission, B: Permission, C: Permission> AnyPermissions for (A, B, C) {
    open spec fn spec_any_granted(roles: Set<Seq<char>>) -> bool {
        A::spec_granted(roles) || B::spec_granted(roles) || C::spec_granted(roles)
    }

    fn is_granted(roles: &Roles) -> (r: bool) {
        A::is_granted(roles) || B::is_granted(roles) || C::is_granted(roles)
    }
}

impl<A: Permission, B: Permission, C: Permission, D: Permission> AnyPermissions for (A, B, C, D) {
    open spec fn spec_any_granted(roles: Set<Seq<char>>) -> bool {
        A::spec_granted(roles) || B::spec_granted(roles) || C::spec_granted(roles)
            || D::spec_granted(roles)
    }

    fn is_granted(roles: &Roles) -> (r: bool) {
        A::is_granted(roles) || B::is_granted(roles) || C::is_granted(roles)
            || D::is_granted(roles)
    }
}

/// Used to check for [`AnyPermissions`] to be true in an authenticated
/// request guard.
pub struct AnyPerm<T: AnyPermissions>(PhantomData<T>);

impl<T: AnyPermissions> Permission for AnyPerm<T> {
    open spec fn spec_granted(roles: Set<Seq<char>>) -> bool {
        T::spec_any_granted(roles)
    }

    fn is_granted(roles: &Roles) -> (r: bool) {
        T::is_granted(roles)
    }
}

/// Used to negate the check for a [`Permission`].
pub struct NotPerm<T: Permission>(PhantomData<T>);

impl<T: Permission> Permission for NotPerm<T> {
    open spec fn spec_granted(roles: Set<Seq<char>>) -> bool {
        !T::spec_granted(roles)
    }

    fn is_granted(roles: &Roles) -> (r: bool) {
        !T::is_granted(roles)
    }
}

} // verus!
