//! The authorization guard: whether a role reaches the threshold that an
//! action asks for.

use crate::types::Role;
use vstd::prelude::*;

verus! {

impl Role {
    /// Position of the role in the order `Collaborator < Manager < Owner`.
    pub open spec fn rank(self) -> nat {
        match self {
            Role::Owner => 2,
            Role::Manager => 1,
            Role::Collaborator => 0,
        }
    }

    /// The rank as a machine integer.
    pub fn level(&self) -> (n: u8)
        ensures
            n == self.rank(),
    {
        match self {
            Role::Owner => 2,
            Role::Manager => 1,
            Role::Collaborator => 0,
        }
    }
}

/// A role satisfies a threshold when it is the required role or one above it.
pub open spec fn authorized(required: Role, actual: Role) -> bool {
    actual == required || actual.rank() > required.rank()
}

/// Roles that may manage an entity: change its fields, remove its members.
pub open spec fn can_manage(role: Role) -> bool {
    role == Role::Owner || role == Role::Manager
}

/// Decides whether `actual` reaches the threshold `required`.
pub fn authorize(required: Role, actual: Role) -> (ok: bool)
    ensures
        ok == authorized(required, actual),
        ok == (actual.rank() >= required.rank()),
{
    actual.level() >= required.level()
}

/// Whether the role may manage: it is at least `Manager`.
pub fn is_owner_or_manager(role: Role) -> (ok: bool)
    ensures
        ok == can_manage(role),
        ok == authorized(Role::Manager, role),
{
    authorize(Role::Manager, role)
}

/// Whether the role may destroy an entity or hand it over: it is `Owner`.
pub fn is_owner(role: Role) -> (ok: bool)
    ensures
        ok == (role == Role::Owner),
        ok == authorized(Role::Owner, role),
{
    authorize(Role::Owner, role)
}

/// A collaborator reaches neither the `Manager` nor the `Owner` threshold,
/// and the thresholds are nested: whoever reaches `Owner` reaches `Manager`,
/// and every role reaches `Collaborator`.
pub proof fn thresholds_are_ordered(role: Role)
    ensures
        !authorized(Role::Manager, Role::Collaborator),
        !authorized(Role::Owner, Role::Collaborator),
        !can_manage(Role::Collaborator),
        authorized(Role::Owner, role) ==> authorized(Role::Manager, role),
        authorized(Role::Collaborator, role),
{
}

/// Authorization is a total order on roles: reflexive, antisymmetric,
/// transitive, and any two roles are comparable.
pub proof fn authorization_is_a_total_order(a: Role, b: Role, c: Role)
    ensures
        authorized(a, a),
        authorized(a, b) && authorized(b, a) ==> a == b,
        authorized(a, b) && authorized(b, c) ==> authorized(a, c),
        authorized(a, b) || authorized(b, a),
{
}

} // verus!
