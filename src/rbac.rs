//! Roles, actions, and the permission check that resources answer.
use vstd::prelude::*;

verus! {

/// What a signed-in person may administer.
#[derive(Debug, Clone, Copy, PartialEq, Eq, Default)]
pub enum Role {
    #[default]
    User,
    Admin,
}

/// Something a person may try to do to a resource.
#[derive(Debug, Clone, Copy, PartialEq, Eq, Hash)]
pub enum Action {
    Read,
    Create,
    Update,
    Delete,
}

/// A permission check of `Self` over resources of type `T`.
pub trait Can<T> {
    /// Whether `action` on `resource` is allowed.
    spec fn allows(&self, action: Action, resource: &T) -> bool;

    fn can(&self, action: Action, resource: &T) -> (r: bool)
        ensures
            r == self.allows(action, resource),
    ;

    fn cannot(&self, action: Action, resource: &T) -> (r: bool)
        ensures
            r == !self.allows(action, resource),
    {
        !self.can(action, resource)
    }
}

} // verus!
