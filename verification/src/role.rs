use vstd::prelude::*;
use crate::errors::Errors;

verus! {

/// The role stored with every credential: a three-value domain. Any other
/// stored value is an invariant violation and is reported as an error by
/// `of_i32`, never coerced to a default.
#[derive(Clone, Copy, PartialEq, Eq, Structural, Debug)]
pub enum Role {
    Admin,
    Editor,
    User,
}

/// The checked reading of a stored role number; `None` for values outside
/// the domain.
pub open spec fn spec_role_of_i32(number: i32) -> Option<Role> {
    if number == 0 {
        Some(Role::Admin)
    } else if number == 1 {
        Some(Role::Editor)
    } else if number == 2 {
        Some(Role::User)
    } else {
        None
    }
}

impl Role {
    /// Checked conversion from the integer stored in the credential row.
    /// The store may hold any integer, so an out-of-domain value is a typed
    /// error, not a panic.
    pub fn of_i32(number: i32) -> (r: Result<Role, Errors>)
        ensures
            match r {
                Ok(role) => spec_role_of_i32(number) == Some(role),
                Err(e) => spec_role_of_i32(number) is None && e matches Errors::InternalError(_),
            },
    {
        match number {
            0 => Ok(Role::Admin),
            1 => Ok(Role::Editor),
            2 => Ok(Role::User),
            _ => Err(Errors::InternalError(String::from_str("invalid user role number"))),
        }
    }

    /// The integer under which this role is stored.
    pub fn as_i32(self) -> (n: i32)
        ensures
            spec_role_of_i32(n) == Some(self),
    {
        match self {
            Role::Admin => 0,
            Role::Editor => 1,
            Role::User => 2,
        }
    }

    pub fn is_admin(self) -> (b: bool)
        ensures
            b == (self == Role::Admin),
    {
        matches!(self, Role::Admin)
    }

    pub fn is_editor(self) -> (b: bool)
        ensures
            b == (self == Role::Editor),
    {
        matches!(self, Role::Editor)
    }

    pub fn is_user(self) -> (b: bool)
        ensures
            b == (self == Role::User),
    {
        matches!(self, Role::User)
    }

    /// Editor capability: granted to admins and editors, to nobody else.
    pub fn has_editor_permissions(self) -> (b: bool)
        ensures
            b == (self == Role::Admin || self == Role::Editor),
    {
        matches!(self, Role::Admin | Role::Editor)
    }

    /// Admin capability: granted to admins only.
    pub fn has_admin_permissions(self) -> (b: bool)
        ensures
            b == (self == Role::Admin),
    {
        matches!(self, Role::Admin)
    }

    /// The name under which this role appears in a token payload.
    pub open spec fn spec_name_bytes(self) -> Seq<u8> {
        match self {
            Role::Admin => seq![65u8, 100u8, 109u8, 105u8, 110u8],
            Role::Editor => seq![69u8, 100u8, 105u8, 116u8, 111u8, 114u8],
            Role::User => seq![85u8, 115u8, 101u8, 114u8],
        }
    }

    /// Append this role's payload name to `out`.
    pub fn push_name_bytes(self, out: &mut Vec<u8>)
        ensures
            final(out)@ == old(out)@ + self.spec_name_bytes(),
    {
        match self {
            Role::Admin => {
                out.push(65u8);
                out.push(100u8);
                out.push(109u8);
                out.push(105u8);
                out.push(110u8);
            },
            Role::Editor => {
                out.push(69u8);
                out.push(100u8);
                out.push(105u8);
                out.push(116u8);
                out.push(111u8);
                out.push(114u8);
            },
            Role::User => {
                out.push(85u8);
                out.push(115u8);
                out.push(101u8);
                out.push(114u8);
            },
        }
        proof {
            assert(out@ =~= old(out)@ + self.spec_name_bytes());
        }
    }
}

} // verus!
