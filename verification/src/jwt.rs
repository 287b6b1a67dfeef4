use vstd::prelude::*;
use vstd::string::StringSliceAdditionalSpecFns;
use crate::claims::{Claims, ClaimsV, spec_claims_json, spec_parse_claims, parse_claims_json, push_bytes, claims_wf, lemma_claims_json_round_trip};
use crate::b64::{spec_b64_encode, spec_b64_decode, b64_encode, b64_decode, lemma_b64_encode_ascii, lemma_b64_round_trip};
use crate::errors::AuthError;
use crate::role::Role;
use crate::scan::{find_byte, find_from, lemma_find_byte_props, lemma_find_byte_concat};
use crate::service_options::JWTKeys;
use crate::trusted::{mac_of, hmac_sign, hmac_verify, ascii_to_string};

verus! {

/// The compact token format: `base64(header) . base64(payload) . signature`,
/// signed with a keyed MAC, validated statelessly on every request.

/// The fixed token header text: `{"alg":"HS256","typ":"JWT"}`.
pub open spec fn jwt_header_json() -> Seq<u8> {
    seq![
        123u8, 34u8, 97u8, 108u8, 103u8, 34u8, 58u8, 34u8, 72u8, 83u8, 50u8, 53u8, 54u8, 34u8,
        44u8, 34u8, 116u8, 121u8, 112u8, 34u8, 58u8, 34u8, 74u8, 87u8, 84u8, 34u8, 125u8,
    ]
}

fn jwt_header_json_vec() -> (v: Vec<u8>)
    ensures
        v@ == jwt_header_json(),
{
    let mut v: Vec<u8> = Vec::new();
    v.push(123);
    v.push(34);
    v.push(97);
    v.push(108);
    v.push(103);
    v.push(34);
    v.push(58);
    v.push(34);
    v.push(72);
    v.push(83);
    v.push(50);
    v.push(53);
    v.push(54);
    v.push(34);
    v.push(44);
    v.push(34);
    v.push(116);
    v.push(121);
    v.push(112);
    v.push(34);
    v.push(58);
    v.push(34);
    v.push(74);
    v.push(87);
    v.push(84);
    v.push(34);
    v.push(125);
    proof {
        assert(v@ =~= jwt_header_json());
    }
    v
}

/// The part of a token that the MAC covers: encoded header, a dot, encoded
/// payload.
pub open spec fn spec_signing_input(c: ClaimsV) -> Seq<u8> {
    spec_b64_encode(jwt_header_json()) + seq![46u8] + spec_b64_encode(spec_claims_json(c))
}

/// The bytes of the complete signed token for claims `c` under `key`.
pub open spec fn spec_token_bytes(c: ClaimsV, key: Seq<u8>) -> Seq<u8> {
    spec_signing_input(c) + seq![46u8] + mac_of(spec_signing_input(c), key)
}

/// A character sequence that carries exactly the given ASCII bytes.
pub open spec fn chars_match_bytes(cs: Seq<char>, bs: Seq<u8>) -> bool {
    &&& cs.len() == bs.len()
    &&& forall|i: int| 0 <= i < cs.len() ==> ((#[trigger] cs[i]) as u8) == bs[i]
    &&& vstd::utf8::is_ascii_chars(cs)
    &&& forall|i: int| 0 <= i < bs.len() ==> #[trigger] bs[i] < 128
}

/// A string whose characters match ASCII bytes has exactly those bytes as
/// its UTF-8 encoding.
pub proof fn lemma_ascii_chars_bytes(cs: Seq<char>, bs: Seq<u8>)
    requires
        chars_match_bytes(cs, bs),
    ensures
        vstd::utf8::is_ascii_chars(cs),
        vstd::utf8::encode_utf8(cs) == bs,
{
    vstd::utf8::is_ascii_chars_encode_utf8(cs);
    assert(vstd::utf8::encode_utf8(cs) =~= bs);
}

impl Claims {
    /// Build the claims for a token issued at `created_at` (seconds since
    /// the epoch) and valid for `validity_seconds`.
    pub fn new(user_id: u128, role: Role, subject: Vec<u8>, created_at: u64, validity_seconds: u64) -> (c: Claims)
        requires
            created_at + validity_seconds <= u64::MAX,
        ensures
            c@ == (ClaimsV {
                sub: subject@,
                iat: created_at,
                exp: (created_at + validity_seconds) as u64,
                user_id,
                role,
            }),
    {
        Claims {
            sub: subject,
            iat: created_at,
            exp: created_at + validity_seconds,
            user_id,
            role,
        }
    }

    /// The compact signed representation of these claims under the given
    /// key. Purely stateless; the token carries everything.
    pub fn to_jwt(&self, keys: &JWTKeys) -> (t: String)
        ensures
            chars_match_bytes(t@, spec_token_bytes(self@, keys.secret@)),
    {
        let header = jwt_header_json_vec();
        let payload = render_payload(self);
        let mut buf = b64_encode(header.as_slice());
        proof {
            lemma_b64_encode_ascii(jwt_header_json());
        }
        buf.push(46);
        push_bytes(&mut buf, payload.as_slice());
        proof {
            assert(buf@ =~= spec_signing_input(self@));
        }
        let sig = hmac_sign(buf.as_slice(), keys.secret.as_slice());
        let ghost signing = buf@;
        buf.push(46);
        push_bytes(&mut buf, sig.as_slice());
        proof {
            assert(buf@ =~= spec_token_bytes(self@, keys.secret@));
            lemma_b64_encode_ascii(spec_claims_json(self@));
            assert forall|i: int| 0 <= i < buf@.len() implies buf@[i] < 128 by {
                let sl = signing.len() as int;
                if i < sl {
                    assert(signing[i] < 128);
                } else if i > sl {
                    assert(buf@[i] == sig@[i - sl - 1]);
                }
            }
        }
        ascii_to_string(buf)
    }
}

/// The encoded payload part of the token for `c`.
fn render_payload(c: &Claims) -> (out: Vec<u8>)
    ensures
        out@ == spec_b64_encode(spec_claims_json(c@)),
{
    let json = crate::claims::render_claims_json(c);
    b64_encode(json.as_slice())
}

/// The stateless check of a token against the key and the clock: the exact
/// result of validating token bytes `t` at time `now`. The signature is
/// checked over the first two parts; only then is the payload read; a token
/// whose expiry lies strictly in the past is expired, not invalid.
pub open spec fn spec_validate_token(t: Seq<u8>, key: Seq<u8>, now: u64) -> Result<
    ClaimsV,
    AuthError,
> {
    let d1 = find_byte(t, 46);
    if d1 >= t.len() {
        Err(AuthError::InvalidToken)
    } else {
        let rest = t.skip(d1 + 1);
        let d2r = find_byte(rest, 46);
        if d2r >= rest.len() {
            Err(AuthError::InvalidToken)
        } else {
            let signing = t.take(d1 + 1 + d2r);
            let sig = rest.skip(d2r + 1);
            let header = t.take(d1);
            let payload = rest.take(d2r);
            if sig != mac_of(signing, key) {
                Err(AuthError::InvalidToken)
            } else if header != spec_b64_encode(jwt_header_json()) {
                Err(AuthError::InvalidToken)
            } else {
                match spec_b64_decode(payload) {
                    None => Err(AuthError::InvalidToken),
                    Some(json) => match spec_parse_claims(json) {
                        None => Err(AuthError::InvalidToken),
                        Some(c) => if c.exp < now {
                            Err(AuthError::TokenExpired)
                        } else {
                            Ok(c)
                        },
                    },
                }
            }
        }
    }
}

/// Validate token bytes against the key at time `now`.
#[verifier::loop_isolation(false)]
#[verifier::rlimit(50)]
pub fn validate_token(token: &[u8], keys: &JWTKeys, now: u64) -> (r: Result<Claims, AuthError>)
    ensures
        match r {
            Ok(c) => spec_validate_token(token@, keys.secret@, now) == Ok::<ClaimsV, AuthError>(
                c@,
            ) && claims_wf(c@),
            Err(e) => spec_validate_token(token@, keys.secret@, now) == Err::<ClaimsV, AuthError>(
                e,
            ),
        },
{
    let n = token.len();
    let d1 = find_from(token, 0, 46);
    proof {
        assert(token@.skip(0) =~= token@);
        lemma_find_byte_props(token@, 46);
    }
    if d1 == n {
        return Err(AuthError::InvalidToken);
    }
    let ghost rest = token@.skip(d1 + 1);
    let d2 = find_from(token, d1 + 1, 46);
    proof {
        lemma_find_byte_props(rest, 46);
    }
    if d2 == n {
        return Err(AuthError::InvalidToken);
    }
    let ghost d2r = d2 - (d1 + 1);
    proof {
        assert(rest.skip(d2r + 1) =~= token@.skip(d2 + 1));
        assert(token@.take(d1 + 1 + d2r) =~= token@.take(d2 as int));
        assert(rest.take(d2r) =~= token@.subrange(d1 + 1, d2 as int));
    }
    let signing = vstd::slice::slice_subrange(token, 0, d2);
    let sig = vstd::slice::slice_subrange(token, d2 + 1, n);
    if !hmac_verify(sig, signing, keys.secret.as_slice()) {
        return Err(AuthError::InvalidToken);
    }
    let hb = b64_encode(jwt_header_json_vec().as_slice());
    let header_ok = crate::scan::starts_with(token, 0, hb.as_slice()) && d1 == hb.len();
    if !header_ok {
        proof {
            assert(token@.take(d1 as int) =~= token@.skip(0).take(d1 as int));
            if token@.take(d1 as int) == spec_b64_encode(jwt_header_json()) {
                assert(d1 == hb@.len());
            }
        }
        return Err(AuthError::InvalidToken);
    }
    proof {
        assert(token@.take(d1 as int) =~= token@.skip(0).take(hb@.len() as int));
    }
    let payload = vstd::slice::slice_subrange(token, d1 + 1, d2);
    let json = match b64_decode(payload) {
        Some(v) => v,
        None => {
            return Err(AuthError::InvalidToken);
        },
    };
    let c = match parse_claims_json(json.as_slice()) {
        Some(c) => c,
        None => {
            return Err(AuthError::InvalidToken);
        },
    };
    if c.exp < now {
        return Err(AuthError::TokenExpired);
    }
    Ok(c)
}

} // verus!

verus! {

/// `Bearer ` — the required scheme prefix of an authorization header.
pub open spec fn bearer_prefix() -> Seq<u8> {
    seq![66u8, 101u8, 97u8, 114u8, 101u8, 114u8, 32u8]
}

fn bearer_prefix_vec() -> (v: Vec<u8>)
    ensures
        v@ == bearer_prefix(),
{
    let mut v: Vec<u8> = Vec::new();
    v.push(66);
    v.push(101);
    v.push(97);
    v.push(114);
    v.push(101);
    v.push(114);
    v.push(32);
    proof {
        assert(v@ =~= bearer_prefix());
    }
    v
}

/// The guard's reading of an authorization header: absent, without the
/// scheme prefix, or a token to validate. Stateless, re-run on every
/// request; nothing is cached.
pub open spec fn spec_validate_header(h: Option<Seq<u8>>, key: Seq<u8>, now: u64) -> Result<
    ClaimsV,
    AuthError,
> {
    match h {
        None => Err(AuthError::MissingCredentials),
        Some(hb) => if hb.len() < 7 || hb.take(7) != bearer_prefix() {
            Err(AuthError::MalformedHeader)
        } else {
            spec_validate_token(hb.skip(7), key, now)
        },
    }
}

/// The bytes an optional header string carries.
pub open spec fn header_view(h: Option<&str>) -> Option<Seq<u8>> {
    match h {
        None => None,
        Some(s) => Some(s.spec_bytes()),
    }
}

/// Validate the authorization header of one request: missing header,
/// missing scheme prefix, and every token failure are each a denial, all
/// with the same external status.
pub fn validate_header(header: Option<&str>, keys: &JWTKeys, now: u64) -> (r: Result<
    Claims,
    AuthError,
>)
    ensures
        match r {
            Ok(c) => spec_validate_header(header_view(header), keys.secret@, now) == Ok::<
                ClaimsV,
                AuthError,
            >(c@) && claims_wf(c@),
            Err(e) => spec_validate_header(header_view(header), keys.secret@, now) == Err::<
                ClaimsV,
                AuthError,
            >(e),
        },
{
    let h = match header {
        None => {
            return Err(AuthError::MissingCredentials);
        },
        Some(h) => h,
    };
    let hb = h.as_bytes();
    let bearer = bearer_prefix_vec();
    if !crate::scan::starts_with(hb, 0, bearer.as_slice()) {
        proof {
            assert(hb@.skip(0) =~= hb@);
            if hb@.len() >= 7 {
                assert(hb@.take(7) =~= hb@.skip(0).take(7));
            }
        }
        return Err(AuthError::MalformedHeader);
    }
    proof {
        assert(hb@.skip(0) =~= hb@);
        assert(hb@.take(7) =~= hb@.skip(0).take(7));
    }
    let token = vstd::slice::slice_subrange(hb, 7, hb.len());
    proof {
        assert(token@ =~= hb@.skip(7));
    }
    validate_token(token, keys, now)
}

/// What a route demands of the caller: a single role, any valid login, or a
/// derived capability.
#[derive(Clone, Copy, PartialEq, Eq, Structural, Debug)]
pub enum Requirement {
    Admin,
    Editor,
    User,
    LoggedIn,
    AdminPermissions,
    EditorPermissions,
}

/// Which roles satisfy a requirement.
pub open spec fn spec_permits(req: Requirement, role: Role) -> bool {
    match req {
        Requirement::Admin => role == Role::Admin,
        Requirement::Editor => role == Role::Editor,
        Requirement::User => role == Role::User,
        Requirement::LoggedIn => true,
        Requirement::AdminPermissions => role == Role::Admin,
        Requirement::EditorPermissions => role == Role::Admin || role == Role::Editor,
    }
}

impl Requirement {
    /// Decide the requirement from a validated role: one claims-validation
    /// step followed by an explicit boolean capability check.
    pub fn permits(self, role: Role) -> (b: bool)
        ensures
            b == spec_permits(self, role),
    {
        match self {
            Requirement::Admin => role.is_admin(),
            Requirement::Editor => role.is_editor(),
            Requirement::User => role.is_user(),
            Requirement::LoggedIn => true,
            Requirement::AdminPermissions => role.has_admin_permissions(),
            Requirement::EditorPermissions => role.has_editor_permissions(),
        }
    }
}

/// How a guard leaves a request: with validated claims, with a denial, or
/// forwarded because the role does not satisfy the route's requirement.
pub enum GuardOutcome {
    Success(Claims),
    Failure(AuthError),
    Forward,
}

/// Guard one request: validate the header, then check the role against the
/// requirement. A validation failure is a `Failure`; a valid login whose
/// role does not satisfy the requirement is a `Forward`.
pub fn role_guard(header: Option<&str>, keys: &JWTKeys, now: u64, req: Requirement) -> (g:
    GuardOutcome)
    ensures
        match g {
            GuardOutcome::Success(c) => spec_validate_header(header_view(header), keys.secret@, now)
                == Ok::<ClaimsV, AuthError>(c@) && spec_permits(req, c@.role) && claims_wf(c@),
            GuardOutcome::Failure(e) => spec_validate_header(header_view(header), keys.secret@, now)
                == Err::<ClaimsV, AuthError>(e),
            GuardOutcome::Forward => (spec_validate_header(header_view(header), keys.secret@, now)
                matches Ok(cv) && !spec_permits(req, cv.role)),
        },
{
    match validate_header(header, keys, now) {
        Err(e) => GuardOutcome::Failure(e),
        Ok(c) => {
            if req.permits(c.role) {
                GuardOutcome::Success(c)
            } else {
                GuardOutcome::Forward
            }
        },
    }
}

impl GuardOutcome {
    /// The externally observable status of a guarded request: none on
    /// success, and the same 401 whether the token failed to validate or
    /// the role was merely insufficient. Internal distinctions never leak
    /// as different response codes.
    pub fn external_status(&self) -> (s: Option<u16>)
        ensures
            match self {
                GuardOutcome::Success(_) => s is None,
                GuardOutcome::Failure(_) => s == Some(401u16),
                GuardOutcome::Forward => s == Some(401u16),
            },
    {
        match self {
            GuardOutcome::Success(_) => None,
            GuardOutcome::Failure(e) => Some(e.status()),
            GuardOutcome::Forward => Some(401),
        }
    }
}

/// Round trip: a token built from well-formed claims validates back to
/// exactly those claims while it is fresh, and reports expiry, not
/// invalidity, once `now` passes `exp`.
pub proof fn lemma_token_round_trip(c: ClaimsV, key: Seq<u8>, now: u64)
    requires
        claims_wf(c),
    ensures
        spec_validate_token(spec_token_bytes(c, key), key, now) == (if c.exp < now {
            Err::<ClaimsV, AuthError>(AuthError::TokenExpired)
        } else {
            Ok::<ClaimsV, AuthError>(c)
        }),
{
    let hb = spec_b64_encode(jwt_header_json());
    let pb = spec_b64_encode(spec_claims_json(c));
    let signing = spec_signing_input(c);
    let mac = mac_of(signing, key);
    let t = spec_token_bytes(c, key);
    lemma_b64_encode_ascii(jwt_header_json());
    lemma_b64_encode_ascii(spec_claims_json(c));
    assert(t =~= hb + (seq![46u8] + (pb + (seq![46u8] + mac))));
    lemma_find_byte_concat(hb, seq![46u8] + (pb + (seq![46u8] + mac)), 46);
    let d1 = find_byte(t, 46);
    assert(d1 == hb.len());
    let rest = t.skip(d1 + 1);
    assert(rest =~= pb + (seq![46u8] + mac));
    lemma_find_byte_concat(pb, seq![46u8] + mac, 46);
    let d2r = find_byte(rest, 46);
    assert(d2r == pb.len());
    assert(d2r < rest.len());
    assert(t.take(d1 + 1 + d2r) =~= signing);
    assert(rest.skip(d2r + 1) =~= mac);
    assert(t.take(d1) =~= hb);
    assert(rest.take(d2r) =~= pb);
    lemma_b64_round_trip(spec_claims_json(c));
    lemma_claims_json_round_trip(c);
}

} // verus!
