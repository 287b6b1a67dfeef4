use vstd::prelude::*;
use crate::errors::Errors;
use crate::models::User;
use crate::role::{Role, spec_role_of_i32};

verus! {

/// The profile a credential exposes to callers: everything but the secrets,
/// with the role decoded.
#[derive(Debug)]
pub struct UserInfo {
    pub id: u128,
    pub username: String,
    pub first_name: String,
    pub last_name: String,
    pub role: Role,
}

impl UserInfo {
    /// Decode a stored credential into its profile. A role outside the
    /// domain is an invariant violation reported as an internal error,
    /// never a default.
    pub fn of_user(user: User) -> (r: Result<UserInfo, Errors>)
        ensures
            match r {
                Ok(info) => {
                    &&& spec_role_of_i32(user.role) == Some(info.role)
                    &&& info.id == user.id
                    &&& info.username@ == user.username@
                    &&& info.first_name@ == user.first_name@
                    &&& info.last_name@ == user.last_name@
                },
                Err(e) => spec_role_of_i32(user.role) is None && e matches Errors::InternalError(
                    _,
                ),
            },
    {
        let role = Role::of_i32(user.role)?;
        Ok(UserInfo {
            id: user.id,
            username: user.username,
            first_name: user.first_name,
            last_name: user.last_name,
            role,
        })
    }
}

} // verus!
