use authcore::claims::Claims;
use authcore::errors::{AuthError, Errors};
use authcore::jwt::{role_guard, validate_header, validate_token, GuardOutcome, Requirement};
use authcore::role::Role;
use authcore::service_options::ServiceOptions;

fn test_options() -> ServiceOptions {
    ServiceOptions::create("a-test-signing-secret")
}

fn sample_claims(now: u64, role: Role) -> Claims {
    Claims::new(42, role, b"ACCESS_TOKEN".to_vec(), now, 300)
}

#[test]
fn token_round_trips_through_sign_and_validate() {
    let opts = test_options();
    let token = sample_claims(1000, Role::Admin).to_jwt(&opts.jwt_keys);
    let claims = validate_token(token.as_bytes(), &opts.jwt_keys, 1200).expect("fresh token");
    assert_eq!(claims.user_id, 42);
    assert_eq!(claims.role, Role::Admin);
    assert_eq!(claims.iat, 1000);
    assert_eq!(claims.exp, 1300);
    assert_eq!(claims.sub, b"ACCESS_TOKEN".to_vec());
}

#[test]
fn token_is_valid_up_to_its_expiry_and_expired_after() {
    let opts = test_options();
    let token = sample_claims(1000, Role::User).to_jwt(&opts.jwt_keys);
    assert!(validate_token(token.as_bytes(), &opts.jwt_keys, 1300).is_ok());
    assert_eq!(
        validate_token(token.as_bytes(), &opts.jwt_keys, 1301).unwrap_err(),
        AuthError::TokenExpired
    );
}

#[test]
fn tampered_token_is_invalid() {
    let opts = test_options();
    let token = sample_claims(1000, Role::Admin).to_jwt(&opts.jwt_keys);
    let mut bytes = token.clone().into_bytes();
    // flip one byte in the middle of the payload part
    let first_dot = bytes.iter().position(|&b| b == b'.').unwrap();
    let target = first_dot + 3;
    bytes[target] = if bytes[target] == b'B' { b'C' } else { b'B' };
    assert_eq!(
        validate_token(&bytes, &opts.jwt_keys, 1100).unwrap_err(),
        AuthError::InvalidToken
    );
    // flip one byte in the signature part instead
    let mut bytes = token.into_bytes();
    let last = bytes.len() - 1;
    bytes[last] = if bytes[last] == b'B' { b'C' } else { b'B' };
    assert_eq!(
        validate_token(&bytes, &opts.jwt_keys, 1100).unwrap_err(),
        AuthError::InvalidToken
    );
}

#[test]
fn token_signed_under_another_key_is_invalid() {
    let opts = test_options();
    let other = ServiceOptions::create("a-different-secret");
    let token = sample_claims(1000, Role::Admin).to_jwt(&other.jwt_keys);
    assert_eq!(
        validate_token(token.as_bytes(), &opts.jwt_keys, 1100).unwrap_err(),
        AuthError::InvalidToken
    );
}

#[test]
fn garbage_tokens_are_invalid() {
    let opts = test_options();
    for garbage in ["", "....", "abc", "abc.def", "abc.def.ghi", "\u{1f600}.x.y"] {
        assert_eq!(
            validate_token(garbage.as_bytes(), &opts.jwt_keys, 1100).unwrap_err(),
            AuthError::InvalidToken
        );
    }
}

#[test]
fn header_without_bearer_prefix_is_malformed_with_status_401() {
    let opts = test_options();
    let token = sample_claims(1000, Role::Admin).to_jwt(&opts.jwt_keys);
    for header in [
        String::from("Basic dXNlcjpwdw"),
        format!("bearer {}", token),
        token.clone(),
        String::from("Bearer"),
        String::from(""),
    ] {
        let denied = validate_header(Some(header.as_str()), &opts.jwt_keys, 1100).unwrap_err();
        assert_eq!(denied, AuthError::MalformedHeader);
        assert_eq!(denied.status(), 401);
    }
}

#[test]
fn missing_header_is_denied_with_status_401() {
    let opts = test_options();
    let denied = validate_header(None, &opts.jwt_keys, 1100).unwrap_err();
    assert_eq!(denied, AuthError::MissingCredentials);
    assert_eq!(denied.status(), 401);
    assert_eq!(denied.message(), String::from("missing credentials"));
}

#[test]
fn bearer_header_with_valid_token_passes_the_guard() {
    let opts = test_options();
    let token = sample_claims(1000, Role::Editor).to_jwt(&opts.jwt_keys);
    let header = format!("Bearer {}", token);
    let claims = validate_header(Some(header.as_str()), &opts.jwt_keys, 1100).expect("valid");
    assert_eq!(claims.user_id, 42);
    assert_eq!(claims.role, Role::Editor);
}

#[test]
fn expired_and_malformed_are_distinct_internally_but_both_401() {
    let opts = test_options();
    let token = sample_claims(1000, Role::Admin).to_jwt(&opts.jwt_keys);
    let header = format!("Bearer {}", token);
    let expired = validate_header(Some(header.as_str()), &opts.jwt_keys, 5000).unwrap_err();
    let malformed = validate_header(Some("no-scheme"), &opts.jwt_keys, 5000).unwrap_err();
    let invalid = validate_header(Some("Bearer junk"), &opts.jwt_keys, 5000).unwrap_err();
    assert_eq!(expired, AuthError::TokenExpired);
    assert_eq!(malformed, AuthError::MalformedHeader);
    assert_eq!(invalid, AuthError::InvalidToken);
    assert_ne!(expired, malformed);
    assert_ne!(expired, invalid);
    assert_eq!(expired.status(), 401);
    assert_eq!(malformed.status(), 401);
    assert_eq!(invalid.status(), 401);
    assert_eq!(expired.message(), String::from("token expired"));
    assert_eq!(invalid.message(), String::from("invalid token"));
    assert!(matches!(expired.to_errors(), Errors::BadRequest(_)));
}

#[test]
fn guard_success_forward_and_failure_statuses() {
    let opts = test_options();
    let admin_token = sample_claims(1000, Role::Admin).to_jwt(&opts.jwt_keys);
    let user_token = sample_claims(1000, Role::User).to_jwt(&opts.jwt_keys);
    let admin_header = format!("Bearer {}", admin_token);
    let user_header = format!("Bearer {}", user_token);

    let success = role_guard(Some(admin_header.as_str()), &opts.jwt_keys, 1100, Requirement::Admin);
    assert!(matches!(success, GuardOutcome::Success(_)));
    assert_eq!(success.external_status(), None);

    // insufficient role: forwarded, externally the same 401
    let forwarded = role_guard(Some(user_header.as_str()), &opts.jwt_keys, 1100, Requirement::Admin);
    assert!(matches!(forwarded, GuardOutcome::Forward));
    assert_eq!(forwarded.external_status(), Some(401));

    // absent token: a failure, externally the same 401
    let failed = role_guard(None, &opts.jwt_keys, 1100, Requirement::Admin);
    assert!(matches!(failed, GuardOutcome::Failure(AuthError::MissingCredentials)));
    assert_eq!(failed.external_status(), Some(401));
}

#[test]
fn capability_requirements_follow_the_role_table() {
    let opts = test_options();
    for (role, admin_ok, editor_ok) in [
        (Role::Admin, true, true),
        (Role::Editor, false, true),
        (Role::User, false, false),
    ] {
        let token = sample_claims(1000, role).to_jwt(&opts.jwt_keys);
        let header = format!("Bearer {}", token);
        let g = role_guard(Some(header.as_str()), &opts.jwt_keys, 1100, Requirement::AdminPermissions);
        assert_eq!(matches!(g, GuardOutcome::Success(_)), admin_ok);
        let g = role_guard(Some(header.as_str()), &opts.jwt_keys, 1100, Requirement::EditorPermissions);
        assert_eq!(matches!(g, GuardOutcome::Success(_)), editor_ok);
        let g = role_guard(Some(header.as_str()), &opts.jwt_keys, 1100, Requirement::LoggedIn);
        assert!(matches!(g, GuardOutcome::Success(_)));
    }
}

#[test]
fn issued_tokens_are_standard_jwts() {
    let secret = "a-test-signing-secret";
    let opts = ServiceOptions::create(secret);
    let now = chrono::Utc::now().timestamp() as u64;
    let token = sample_claims(now, Role::Editor).to_jwt(&opts.jwt_keys);
    let decoded = jsonwebtoken::decode::<serde_json::Value>(
        &token,
        &jsonwebtoken::DecodingKey::from_secret(secret.as_bytes()),
        &jsonwebtoken::Validation::new(jsonwebtoken::Algorithm::HS256),
    )
    .expect("the token must be a standard HS256 JWT");
    assert_eq!(decoded.claims.get("sub").unwrap().as_str().unwrap(), "ACCESS_TOKEN");
    assert_eq!(decoded.claims.get("role").unwrap().as_str().unwrap(), "Editor");
    assert_eq!(decoded.claims.get("user_id").unwrap().as_u64().unwrap(), 42);
    assert_eq!(decoded.claims.get("iat").unwrap().as_u64().unwrap(), now);
    assert_eq!(decoded.claims.get("exp").unwrap().as_u64().unwrap(), now + 300);
}
