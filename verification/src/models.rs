use vstd::prelude::*;
use vstd::string::StrSliceExecFns;
use vstd::string::StringSliceAdditionalSpecFns;
use crate::claims::push_bytes;
use crate::trusted::{sha256_of, sha256_digest, random_token_bytes, random_u128};

verus! {

/// A stored credential: identity, the salted password digest, and the role
/// number. Created by registration; read-only here except for the role.
#[derive(Debug)]
pub struct User {
    pub id: u128,
    pub username: String,
    pub first_name: String,
    pub last_name: String,
    pub password_hash: Vec<u8>,
    pub password_salt: Vec<u8>,
    /// The role, as stored: any integer. Read it with `Role::of_i32`.
    pub role: i32,
}

/// What registration supplies for a new credential.
#[derive(Debug)]
pub struct NewUser {
    pub username: String,
    pub first_name: String,
    pub last_name: String,
    pub password: String,
}

/// The digest stored for a password under a salt: SHA-256 over the password
/// bytes followed by the salt bytes.
pub open spec fn salted_hash(password: Seq<u8>, salt: Seq<u8>) -> Seq<u8> {
    sha256_of(password + salt)
}

/// Compute the stored digest for a password under a salt.
pub fn compute_salted_hash(password: &str, salt: &[u8]) -> (h: Vec<u8>)
    ensures
        h@ == salted_hash(password.spec_bytes(), salt@),
{
    let mut buf = password.as_bytes_vec();
    push_bytes(&mut buf, salt);
    sha256_digest(buf.as_slice())
}

impl User {
    /// A fresh credential: random identifier, random 32-byte salt, the
    /// salted digest of the password, and the least-privileged role.
    pub fn new(entity: NewUser) -> (u: User)
        ensures
            u.username@ == entity.username@,
            u.first_name@ == entity.first_name@,
            u.last_name@ == entity.last_name@,
            u.role == 2,
            u.password_salt@.len() == 32,
            u.password_hash@ == salted_hash(
                vstd::utf8::encode_utf8(entity.password@),
                u.password_salt@,
            ),
    {
        let salt = random_token_bytes();
        let hash = compute_salted_hash(entity.password.as_str(), salt.as_slice());
        User {
            id: random_u128(),
            username: entity.username,
            first_name: entity.first_name,
            last_name: entity.last_name,
            password_hash: hash,
            password_salt: salt,
            role: 2,
        }
    }

    /// The credential verifier: recompute the digest over password and salt
    /// and compare byte-exact against the stored hash. Who calls this must
    /// collapse "unknown user" and "wrong password" into one failure.
    pub fn verify_password(&self, password: &str) -> (ok: bool)
        ensures
            ok == (self.password_hash@ == salted_hash(
                password.spec_bytes(),
                self.password_salt@,
            )),
    {
        let h = compute_salted_hash(password, self.password_salt.as_slice());
        crate::scan::bytes_eq(h.as_slice(), self.password_hash.as_slice())
    }
}

} // verus!
