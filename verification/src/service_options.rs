use vstd::prelude::*;
use vstd::string::StrSliceExecFns;
use vstd::string::StringSliceAdditionalSpecFns;

verus! {

/// The symmetric signing and verification key. Both directions share one
/// secret, loaded once at startup and held for the process lifetime; no key
/// rotation and no key-identifier field.
pub struct JWTKeys {
    pub secret: Vec<u8>,
}

/// Process-wide configuration handed explicitly to the issuer and the
/// guard: no ambient global state.
pub struct ServiceOptions {
    pub jwt_keys: JWTKeys,
}

impl ServiceOptions {
    /// Build the options from the configured secret key. Reading the secret
    /// out of the process configuration is the caller's concern.
    pub fn create(secret_key: &str) -> (r: ServiceOptions)
        ensures
            r.jwt_keys.secret@ == secret_key.spec_bytes(),
    {
        ServiceOptions { jwt_keys: JWTKeys { secret: secret_key.as_bytes_vec() } }
    }
}

} // verus!
