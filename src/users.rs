//! The identity a request acts as.
use vstd::prelude::*;

verus! {

#[derive(Debug, Clone, Copy, PartialEq, Eq, Structural)]
pub enum Role {
    Developer,
    Moderator,
    Admin,
}

impl Role {
    pub open spec fn is_mod_spec(&self) -> bool {
        *self is Moderator || *self is Admin
    }

    /// Moderators and admins moderate.
    #[verifier::when_used_as_spec(is_mod_spec)]
    pub fn is_mod(&self) -> (r: bool)
        ensures
            r == self.is_mod_spec(),
    {
        match self {
            Role::Developer => false,
            Role::Moderator => true,
            Role::Admin => true,
        }
    }
}

/// The authenticated user of a request.
#[derive(Debug, Clone, Copy, PartialEq, Eq, Structural)]
pub struct CurrentUser {
    pub id: u64,
    pub role: Role,
}

} // verus!
