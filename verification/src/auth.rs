use vstd::prelude::*;
use crate::claims::{Claims, ClaimsV, sub_wf};
use crate::errors::{AuthError, Errors};
use crate::hexcodec::{hex_encode, lemma_hex_ascii};
use crate::jwt::{spec_token_bytes, spec_validate_token, chars_match_bytes, lemma_token_round_trip};
use crate::models::{User, salted_hash};
use crate::role::{Role, spec_role_of_i32};
use crate::service_options::ServiceOptions;
use crate::trusted::{random_token_bytes, ascii_to_string};
use crate::user_token_repository::{
    spec_revoke, spec_lookup, store_wf, UserTokenV, lemma_revoke_props, lemma_lookup_none,
    lemma_rotate_preserves_wf,
};
use crate::user_token_service::{self, Token, TokenV};

verus! {

/// The authentication flows: login verifies a credential and issues both
/// tokens, refresh exchanges a stored token for a fresh pair, logout
/// revokes. Every store mutation is one atomic call on the token service,
/// and the clock is threaded in explicitly.

/// Access tokens live for five minutes.
pub const ACCESS_TOKEN_DURATION_SECONDS: u64 = 300;

/// Refresh tokens live for one week.
pub const REFRESH_TOKEN_DURATION_SECONDS: u64 = 604800;

/// The purpose discriminator carried inside access tokens: `ACCESS_TOKEN`.
pub open spec fn access_token_subject() -> Seq<u8> {
    seq![65u8, 67u8, 67u8, 69u8, 83u8, 83u8, 95u8, 84u8, 79u8, 75u8, 69u8, 78u8]
}

fn access_token_subject_vec() -> (v: Vec<u8>)
    ensures
        v@ == access_token_subject(),
{
    let mut v: Vec<u8> = Vec::new();
    v.push(65);
    v.push(67);
    v.push(67);
    v.push(69);
    v.push(83);
    v.push(83);
    v.push(95);
    v.push(84);
    v.push(79);
    v.push(75);
    v.push(69);
    v.push(78);
    proof {
        assert(v@ =~= access_token_subject());
    }
    v
}

/// The purpose discriminator keying stored refresh tokens.
pub open spec fn refresh_token_subject() -> Seq<char> {
    "REFRESH_TOKEN"@
}

fn refresh_token_subject_string() -> (s: String)
    ensures
        s@ == refresh_token_subject(),
{
    String::from_str("REFRESH_TOKEN")
}

/// What a login request carries.
#[derive(Debug)]
pub struct LoginRequest {
    pub username: String,
    pub password: String,
}

/// What a successful login or refresh returns: both tokens, always minted
/// together.
#[derive(Debug)]
pub struct LoginResponse {
    pub access_token: String,
    pub refresh_token: String,
}

/// What a refresh request carries.
#[derive(Debug)]
pub struct RefreshRequest {
    pub refresh_token: String,
}

/// The claims of an access token issued for this user at this time.
pub open spec fn spec_access_claims(user_id: u128, role: Role, now: u64) -> ClaimsV {
    ClaimsV {
        sub: access_token_subject(),
        iat: now,
        exp: (now + ACCESS_TOKEN_DURATION_SECONDS) as u64,
        user_id,
        role,
    }
}

/// The whole outcome of issuing a token pair: the access token signs the
/// issued claims, the refresh token value is 64 hex characters, and the
/// store holds exactly the previous rows minus the user's old refresh
/// tokens, plus the one new row.
pub open spec fn spec_issue_ok(
    access: Seq<char>,
    refresh: Seq<char>,
    old_store: Seq<UserTokenV>,
    new_store: Seq<UserTokenV>,
    user_id: u128,
    role: Role,
    key: Seq<u8>,
    now: u64,
) -> bool {
    &&& chars_match_bytes(access, spec_token_bytes(spec_access_claims(user_id, role, now), key))
    &&& refresh.len() == 64
    &&& new_store.len() > 0
    &&& new_store == spec_revoke(old_store, user_id, refresh_token_subject()) + seq![
        UserTokenV {
            id: new_store.last().id,
            tok: TokenV {
                user_id,
                subject: refresh_token_subject(),
                token: refresh,
                created_at: now,
                expires_at: (now + REFRESH_TOKEN_DURATION_SECONDS) as u64,
                payload: None,
            },
        },
    ]
}

/// Issue both tokens for a verified credential: mint the signed access
/// token, and atomically rotate the stored refresh token — revoke every row
/// of (user, REFRESH_TOKEN), then insert the new one, in one call on the
/// store. A stored role outside the domain is an internal error and the
/// store is left unchanged.
pub fn issue_tokens(
    user: &User,
    user_token_service: &mut user_token_service::T,
    opts: &ServiceOptions,
    now: u64,
) -> (r: Result<LoginResponse, Errors>)
    requires
        now + REFRESH_TOKEN_DURATION_SECONDS <= u64::MAX,
    ensures
        match r {
            Ok(resp) => {
                &&& spec_role_of_i32(user.role) matches Some(role) && spec_issue_ok(
                    resp.access_token@,
                    resp.refresh_token@,
                    old(user_token_service)@,
                    final(user_token_service)@,
                    user.id,
                    role,
                    opts.jwt_keys.secret@,
                    now,
                )
                &&& store_wf(old(user_token_service)@) ==> store_wf(final(user_token_service)@)
            },
            Err(e) => {
                &&& e matches Errors::InternalError(_)
                &&& spec_role_of_i32(user.role) is None
                &&& final(user_token_service)@ == old(user_token_service)@
            },
        },
{
    let role = match Role::of_i32(user.role) {
        Ok(role) => role,
        Err(e) => {
            return Err(e);
        },
    };
    let claims = Claims::new(
        user.id,
        role,
        access_token_subject_vec(),
        now,
        ACCESS_TOKEN_DURATION_SECONDS,
    );
    let access_token = claims.to_jwt(&opts.jwt_keys);
    let token_bytes = random_token_bytes();
    let hex = hex_encode(token_bytes.as_slice());
    proof {
        lemma_hex_ascii(token_bytes@);
    }
    let refresh_token = ascii_to_string(hex);
    let refresh_copy = refresh_token.clone();
    let subject = refresh_token_subject_string();
    let rotated = user_token_service.rotate(
        user.id,
        refresh_token,
        subject,
        REFRESH_TOKEN_DURATION_SECONDS,
        None,
        now,
    );
    match rotated {
        Ok(_) => {
            proof {
                if store_wf(old(user_token_service)@) {
                    lemma_rotate_preserves_wf(
                        old(user_token_service)@,
                        user.id,
                        refresh_token_subject(),
                        final(user_token_service)@.last(),
                    );
                }
            }
            Ok(LoginResponse { access_token, refresh_token: refresh_copy })
        },
        Err(e) => Err(e),
    }
}

/// Does the presented password match this credential?
pub open spec fn spec_credentials_ok(request: &LoginRequest, user: &Option<User>) -> bool {
    user matches Some(u) && u.password_hash@ == salted_hash(
        vstd::utf8::encode_utf8(request.password@),
        u.password_salt@,
    )
}

/// The login flow. The caller hands in what the credential collaborator
/// returned for the requested username; an unknown user and a wrong
/// password are one and the same generic failure, so usernames cannot be
/// probed. On success both tokens are issued and the user's stored refresh
/// tokens are rotated atomically.
pub fn login(
    login_request: &LoginRequest,
    user: Option<User>,
    user_token_service: &mut user_token_service::T,
    opts: &ServiceOptions,
    now: u64,
) -> (r: Result<LoginResponse, Errors>)
    requires
        now + REFRESH_TOKEN_DURATION_SECONDS <= u64::MAX,
    ensures
        match r {
            Ok(resp) => {
                &&& spec_credentials_ok(login_request, &user)
                &&& user matches Some(u) && spec_role_of_i32(u.role) matches Some(role)
                    && spec_issue_ok(
                    resp.access_token@,
                    resp.refresh_token@,
                    old(user_token_service)@,
                    final(user_token_service)@,
                    u.id,
                    role,
                    opts.jwt_keys.secret@,
                    now,
                )
                &&& store_wf(old(user_token_service)@) ==> store_wf(final(user_token_service)@)
            },
            Err(e) => {
                &&& final(user_token_service)@ == old(user_token_service)@
                &&& !spec_credentials_ok(login_request, &user) ==> (e matches Errors::BadRequest(m)
                    && m@ == "Invalid Credentials"@)
                &&& spec_credentials_ok(login_request, &user) ==> (user matches Some(u)
                    && spec_role_of_i32(u.role) is None && e matches Errors::InternalError(_))
            },
        },
{
    let u = match user {
        None => {
            return Err(Errors::BadRequest(String::from_str("Invalid Credentials")));
        },
        Some(u) => u,
    };
    if !u.verify_password(login_request.password.as_str()) {
        return Err(Errors::BadRequest(String::from_str("Invalid Credentials")));
    }
    issue_tokens(&u, user_token_service, opts, now)
}

/// Validate a presented refresh token: look it up by (purpose, value) and
/// enforce its expiry here, at validation time. An unknown and an expired
/// token are one and the same generic failure. The caller then fetches the
/// owner's credential and calls `issue_tokens`, which rotates the stored
/// token.
pub fn refresh_lookup(
    user_token_service: &user_token_service::T,
    refresh_request: &RefreshRequest,
    now: u64,
) -> (r: Result<Token, Errors>)
    ensures
        match r {
            Ok(t) => {
                &&& spec_lookup(
                    user_token_service@,
                    refresh_token_subject(),
                    refresh_request.refresh_token@,
                ) matches Some(rv) && rv.tok == t@
                &&& t@.expires_at > now
            },
            Err(e) => {
                &&& e matches Errors::BadRequest(m) && m@ == "invalid refresh token"@
                &&& spec_lookup(
                    user_token_service@,
                    refresh_token_subject(),
                    refresh_request.refresh_token@,
                ) matches Some(rv) ==> rv.tok.expires_at <= now
            },
        },
{
    let subject = refresh_token_subject_string();
    match user_token_service.get(&subject, &refresh_request.refresh_token) {
        Ok(Some(t)) => {
            if t.expires_at > now {
                Ok(t)
            } else {
                Err(Errors::BadRequest(String::from_str("invalid refresh token")))
            }
        },
        Ok(None) => Err(Errors::BadRequest(String::from_str("invalid refresh token"))),
        Err(_) => Err(Errors::BadRequest(String::from_str("invalid refresh token"))),
    }
}

/// The logout flow: revoke the caller's refresh tokens. Revoking where none
/// exist is not an error, so logout is idempotent.
pub fn logout(
    claims: &Claims,
    user_token_service: &mut user_token_service::T,
) -> (r: Result<(), Errors>)
    ensures
        r is Ok,
        final(user_token_service)@ == spec_revoke(
            old(user_token_service)@,
            claims.user_id,
            refresh_token_subject(),
        ),
        store_wf(old(user_token_service)@) ==> store_wf(final(user_token_service)@),
{
    let subject = refresh_token_subject_string();
    let done = user_token_service.revoke(claims.user_id, &subject);
    proof {
        if store_wf(old(user_token_service)@) {
            crate::user_token_repository::lemma_revoke_preserves_wf(
                old(user_token_service)@,
                claims.user_id,
                refresh_token_subject(),
            );
        }
    }
    done
}

/// Rotation invalidates: once a user's refresh tokens are revoked and one
/// fresh row with a different value is inserted, the old value no longer
/// looks up — provided no other user's row carries that value, which the
/// unguessable-token invariant supplies.
pub proof fn lemma_rotation_invalidates(
    s: Seq<UserTokenV>,
    user_id: u128,
    subject: Seq<char>,
    tok: Seq<char>,
    row: UserTokenV,
)
    requires
        forall|i: int|
            0 <= i < s.len() ==> (((#[trigger] s[i]).tok.subject == subject && s[i].tok.token
                == tok) ==> s[i].tok.user_id == user_id),
        row.tok.token != tok,
    ensures
        spec_lookup(spec_revoke(s, user_id, subject) + seq![row], subject, tok) is None,
{
    lemma_revoke_props(s, user_id, subject);
    let kept = spec_revoke(s, user_id, subject);
    let r = kept + seq![row];
    assert forall|i: int| 0 <= i < r.len() implies !((#[trigger] r[i]).tok.subject == subject
        && r[i].tok.token == tok) by {
        if i < kept.len() {
            assert(r[i] == kept[i]);
            if kept[i].tok.subject == subject && kept[i].tok.token == tok {
                assert(s.contains(kept[i]));
                let w = choose|w: int| 0 <= w < s.len() && s[w] == kept[i];
                assert(s[w].tok.user_id == user_id);
            }
        } else {
            assert(r[i] == row);
        }
    }
    lemma_lookup_none(r, subject, tok);
}

/// Logout invalidates: after the user's refresh tokens are revoked, the old
/// value no longer looks up — again provided no other user's row carries
/// that value.
pub proof fn lemma_logout_invalidates(
    s: Seq<UserTokenV>,
    user_id: u128,
    subject: Seq<char>,
    tok: Seq<char>,
)
    requires
        forall|i: int|
            0 <= i < s.len() ==> (((#[trigger] s[i]).tok.subject == subject && s[i].tok.token
                == tok) ==> s[i].tok.user_id == user_id),
    ensures
        spec_lookup(spec_revoke(s, user_id, subject), subject, tok) is None,
{
    lemma_revoke_props(s, user_id, subject);
    let kept = spec_revoke(s, user_id, subject);
    assert forall|i: int| 0 <= i < kept.len() implies !((#[trigger] kept[i]).tok.subject == subject
        && kept[i].tok.token == tok) by {
        if kept[i].tok.subject == subject && kept[i].tok.token == tok {
            assert(s.contains(kept[i]));
            let w = choose|w: int| 0 <= w < s.len() && s[w] == kept[i];
            assert(s[w].tok.user_id == user_id);
        }
    }
    lemma_lookup_none(kept, subject, tok);
}

/// A freshly issued access token decodes, under the same key and before its
/// expiry, to exactly the issued claims: the credential's role, and an
/// expiry of exactly the issue time plus the access validity period. Past
/// the expiry it reports expiry, not invalidity.
pub proof fn lemma_issued_access_token_decodes(
    user_id: u128,
    role: Role,
    now: u64,
    key: Seq<u8>,
    at: u64,
)
    requires
        now + ACCESS_TOKEN_DURATION_SECONDS <= u64::MAX,
    ensures
        spec_access_claims(user_id, role, now).exp == spec_access_claims(
            user_id,
            role,
            now,
        ).iat + ACCESS_TOKEN_DURATION_SECONDS,
        spec_access_claims(user_id, role, now).role == role,
        at <= now + ACCESS_TOKEN_DURATION_SECONDS ==> spec_validate_token(
            spec_token_bytes(spec_access_claims(user_id, role, now), key),
            key,
            at,
        ) == Ok::<ClaimsV, AuthError>(spec_access_claims(user_id, role, now)),
        at > now + ACCESS_TOKEN_DURATION_SECONDS ==> spec_validate_token(
            spec_token_bytes(spec_access_claims(user_id, role, now), key),
            key,
            at,
        ) == Err::<ClaimsV, AuthError>(AuthError::TokenExpired),
{
    let c = spec_access_claims(user_id, role, now);
    assert(sub_wf(c.sub));
    lemma_token_round_trip(c, key, at);
}

} // verus!

verus! {

/// The returned access token itself — the character string a login hands
/// back — validates, under the same key and before its expiry, to exactly
/// the issued claims: the credential's role, and an expiry of exactly the
/// issue time plus the access validity period. Past the expiry the guard
/// reports expiry, not invalidity.
pub proof fn lemma_access_token_string_decodes(
    tok: Seq<char>,
    user_id: u128,
    role: Role,
    now: u64,
    key: Seq<u8>,
    at: u64,
)
    requires
        chars_match_bytes(tok, spec_token_bytes(spec_access_claims(user_id, role, now), key)),
        now + ACCESS_TOKEN_DURATION_SECONDS <= u64::MAX,
    ensures
        at <= now + ACCESS_TOKEN_DURATION_SECONDS ==> spec_validate_token(
            vstd::utf8::encode_utf8(tok),
            key,
            at,
        ) == Ok::<ClaimsV, AuthError>(spec_access_claims(user_id, role, now)),
        at > now + ACCESS_TOKEN_DURATION_SECONDS ==> spec_validate_token(
            vstd::utf8::encode_utf8(tok),
            key,
            at,
        ) == Err::<ClaimsV, AuthError>(AuthError::TokenExpired),
{
    crate::jwt::lemma_ascii_chars_bytes(
        tok,
        spec_token_bytes(spec_access_claims(user_id, role, now), key),
    );
    lemma_issued_access_token_decodes(user_id, role, now, key, at);
}

} // verus!
