use authcore::auth::{issue_tokens, login, logout, refresh_lookup, LoginRequest, RefreshRequest};
use authcore::errors::Errors;
use authcore::jwt::validate_header;
use authcore::models::{NewUser, User};
use authcore::role::Role;
use authcore::service_options::ServiceOptions;
use authcore::user_token_repository;
use authcore::user_token_service;
use authcore::users::UserInfo;

fn test_options() -> ServiceOptions {
    ServiceOptions::create("a-test-signing-secret")
}

fn fresh_service() -> user_token_service::T {
    user_token_service::T::make(user_token_repository::T::create())
}

fn register(username: &str, password: &str, role: Role) -> User {
    let mut user = User::new(NewUser {
        username: String::from(username),
        first_name: String::from("Alice"),
        last_name: String::from("Archer"),
        password: String::from(password),
    });
    user.role = role.as_i32();
    user
}

fn copy_user(u: &User) -> User {
    User {
        id: u.id,
        username: u.username.clone(),
        first_name: u.first_name.clone(),
        last_name: u.last_name.clone(),
        password_hash: u.password_hash.clone(),
        password_salt: u.password_salt.clone(),
        role: u.role,
    }
}

fn request(username: &str, password: &str) -> LoginRequest {
    LoginRequest { username: String::from(username), password: String::from(password) }
}

#[test]
fn password_verification_is_byte_exact() {
    let user = register("alice", "correct horse", Role::User);
    assert!(user.verify_password("correct horse"));
    assert!(!user.verify_password("correct horsf"));
    assert!(!user.verify_password(""));
    assert_eq!(user.password_salt.len(), 32);
    assert_eq!(user.password_hash.len(), 32);
}

#[test]
fn two_registrations_salt_differently() {
    let a = register("alice", "same password", Role::User);
    let b = register("bob", "same password", Role::User);
    // 256-bit random salts must differ, so the stored hashes differ too
    assert_ne!(a.password_salt, b.password_salt);
    assert_ne!(a.password_hash, b.password_hash);
}

#[test]
fn login_rejects_unknown_user_and_wrong_password_identically() {
    let opts = test_options();
    let mut uts = fresh_service();
    let alice = register("alice", "pw-alice", Role::User);

    let unknown = login(&request("mallory", "pw"), None, &mut uts, &opts, 1000).unwrap_err();
    let wrong = login(&request("alice", "bad-pw"), Some(copy_user(&alice)), &mut uts, &opts, 1000)
        .unwrap_err();
    let m1 = match unknown {
        Errors::BadRequest(m) => m,
        other => panic!("expected a bad request, got {:?}", other),
    };
    let m2 = match wrong {
        Errors::BadRequest(m) => m,
        other => panic!("expected a bad request, got {:?}", other),
    };
    // username enumeration must be impossible: the same generic failure
    assert_eq!(m1, m2);
    assert_eq!(m1, String::from("Invalid Credentials"));
    // and nothing was stored
    assert_eq!(uts.count(alice.id, &String::from("REFRESH_TOKEN")), 0);
}

#[test]
fn login_with_invalid_stored_role_is_an_internal_error() {
    let opts = test_options();
    let mut uts = fresh_service();
    let mut alice = register("alice", "pw-alice", Role::User);
    alice.role = 9;
    let denied = login(&request("alice", "pw-alice"), Some(alice), &mut uts, &opts, 1000)
        .unwrap_err();
    assert!(matches!(denied, Errors::InternalError(_)));
}

#[test]
fn login_issues_a_decodable_access_token() {
    let opts = test_options();
    let mut uts = fresh_service();
    let alice = register("alice", "pw-alice", Role::Editor);
    let resp = login(&request("alice", "pw-alice"), Some(copy_user(&alice)), &mut uts, &opts, 1000)
        .expect("valid login");
    // the access token decodes to the stored credential's role, with the
    // expiry exactly the issue time plus the access validity period
    let header = format!("Bearer {}", resp.access_token);
    let claims = validate_header(Some(header.as_str()), &opts.jwt_keys, 1100).expect("fresh");
    assert_eq!(claims.user_id, alice.id);
    assert_eq!(claims.role, Role::Editor);
    assert_eq!(claims.iat, 1000);
    assert_eq!(claims.exp, claims.iat + 300);
    // the refresh token is 64 hex characters of randomness
    assert_eq!(resp.refresh_token.len(), 64);
    assert!(resp.refresh_token.bytes().all(|b| b.is_ascii_hexdigit()));
}

#[test]
fn refresh_rotation_invalidates_the_previous_token() {
    let opts = test_options();
    let mut uts = fresh_service();
    let alice = register("alice", "pw-alice", Role::User);
    let first = login(&request("alice", "pw-alice"), Some(copy_user(&alice)), &mut uts, &opts, 1000)
        .expect("login");

    // first refresh: exchange token one for token two
    let req1 = RefreshRequest { refresh_token: first.refresh_token.clone() };
    let looked = refresh_lookup(&uts, &req1, 2000).expect("token one is live");
    assert_eq!(looked.user_id, alice.id);
    let second = issue_tokens(&alice, &mut uts, &opts, 2000).expect("reissue");
    assert_ne!(second.refresh_token, first.refresh_token);

    // second refresh: exchange token two for token three
    let req2 = RefreshRequest { refresh_token: second.refresh_token.clone() };
    refresh_lookup(&uts, &req2, 3000).expect("token two is live");
    let third = issue_tokens(&alice, &mut uts, &opts, 3000).expect("reissue");
    assert_ne!(third.refresh_token, second.refresh_token);

    // reusing the first refresh token now fails with the generic failure
    let denied = refresh_lookup(&uts, &req1, 3100).unwrap_err();
    assert!(matches!(denied, Errors::BadRequest(_)));
    // and the second is gone as well after its own rotation
    assert!(refresh_lookup(&uts, &req2, 3100).is_err());
    // while the third is live
    let req3 = RefreshRequest { refresh_token: third.refresh_token.clone() };
    assert!(refresh_lookup(&uts, &req3, 3100).is_ok());
}

#[test]
fn expired_refresh_tokens_are_rejected_at_lookup() {
    let opts = test_options();
    let mut uts = fresh_service();
    let alice = register("alice", "pw-alice", Role::User);
    let resp = login(&request("alice", "pw-alice"), Some(copy_user(&alice)), &mut uts, &opts, 1000)
        .expect("login");
    let req = RefreshRequest { refresh_token: resp.refresh_token.clone() };
    // strictly inside the week-long validity
    assert!(refresh_lookup(&uts, &req, 1000 + 604799).is_ok());
    // once expires_at is no longer in the future, the lookup rejects
    assert!(refresh_lookup(&uts, &req, 1000 + 604800).is_err());
}

#[test]
fn logout_revokes_the_refresh_token() {
    let opts = test_options();
    let mut uts = fresh_service();
    let alice = register("alice", "pw-alice", Role::User);
    let resp = login(&request("alice", "pw-alice"), Some(copy_user(&alice)), &mut uts, &opts, 1000)
        .expect("login");
    let header = format!("Bearer {}", resp.access_token);
    let claims = validate_header(Some(header.as_str()), &opts.jwt_keys, 1100).expect("fresh");
    logout(&claims, &mut uts).expect("logout never fails");
    // any subsequent refresh with the previously issued token fails
    let req = RefreshRequest { refresh_token: resp.refresh_token.clone() };
    assert!(refresh_lookup(&uts, &req, 1200).is_err());
    assert_eq!(uts.count(alice.id, &String::from("REFRESH_TOKEN")), 0);
    // revocation is idempotent
    logout(&claims, &mut uts).expect("logout stays fine");
}

#[test]
fn repeated_logins_leave_one_active_row() {
    let opts = test_options();
    let mut uts = fresh_service();
    let alice = register("alice", "pw-alice", Role::User);
    let key = String::from("REFRESH_TOKEN");
    for i in 0..5u64 {
        login(
            &request("alice", "pw-alice"),
            Some(copy_user(&alice)),
            &mut uts,
            &opts,
            1000 + i,
        )
        .expect("login");
        // the at-most-one-live-row invariant holds after every call
        assert_eq!(uts.count(alice.id, &key), 1);
    }
}

#[test]
fn logins_of_different_users_do_not_disturb_each_other() {
    let opts = test_options();
    let mut uts = fresh_service();
    let alice = register("alice", "pw-alice", Role::User);
    let bob = register("bob", "pw-bob", Role::Editor);
    let key = String::from("REFRESH_TOKEN");
    let a = login(&request("alice", "pw-alice"), Some(copy_user(&alice)), &mut uts, &opts, 1000)
        .expect("login");
    let b = login(&request("bob", "pw-bob"), Some(copy_user(&bob)), &mut uts, &opts, 1001)
        .expect("login");
    assert_eq!(uts.count(alice.id, &key), 1);
    assert_eq!(uts.count(bob.id, &key), 1);
    // bob's login must not revoke alice's token
    let req_a = RefreshRequest { refresh_token: a.refresh_token.clone() };
    let req_b = RefreshRequest { refresh_token: b.refresh_token.clone() };
    assert!(refresh_lookup(&uts, &req_a, 1100).is_ok());
    assert!(refresh_lookup(&uts, &req_b, 1100).is_ok());
}

#[test]
fn user_info_decodes_the_stored_role() {
    let alice = register("alice", "pw", Role::Admin);
    let id = alice.id;
    let info = UserInfo::of_user(alice).expect("role in domain");
    assert_eq!(info.id, id);
    assert_eq!(info.username, String::from("alice"));
    assert_eq!(info.first_name, String::from("Alice"));
    assert_eq!(info.last_name, String::from("Archer"));
    assert_eq!(info.role, Role::Admin);
}

#[test]
fn user_info_reports_an_out_of_domain_role() {
    let mut alice = register("alice", "pw", Role::Admin);
    alice.role = 17;
    assert!(matches!(UserInfo::of_user(alice), Err(Errors::InternalError(_))));
}

#[test]
fn end_to_end_session() {
    let opts = test_options();
    let mut uts = fresh_service();
    let alice = register("alice", "correct_password", Role::User);

    // login returns both tokens
    let resp = login(
        &request("alice", "correct_password"),
        Some(copy_user(&alice)),
        &mut uts,
        &opts,
        10_000,
    )
    .expect("login succeeds");

    // the access token authenticates a user-info request
    let header = format!("Bearer {}", resp.access_token);
    let claims = validate_header(Some(header.as_str()), &opts.jwt_keys, 10_010).expect("fresh");
    assert_eq!(claims.user_id, alice.id);
    let profile = UserInfo::of_user(copy_user(&alice)).expect("role in domain");
    assert_eq!(profile.id, claims.user_id);
    assert_eq!(profile.username, String::from("alice"));

    // the same call with an expired access token is denied with 401
    let late = validate_header(Some(header.as_str()), &opts.jwt_keys, 10_500).unwrap_err();
    assert_eq!(late.status(), 401);

    // refreshing twice invalidates the first refresh token
    let req1 = RefreshRequest { refresh_token: resp.refresh_token.clone() };
    refresh_lookup(&uts, &req1, 10_020).expect("live");
    let second = issue_tokens(&alice, &mut uts, &opts, 10_020).expect("reissue");
    let req2 = RefreshRequest { refresh_token: second.refresh_token.clone() };
    refresh_lookup(&uts, &req2, 10_030).expect("live");
    issue_tokens(&alice, &mut uts, &opts, 10_030).expect("reissue");
    assert!(refresh_lookup(&uts, &req1, 10_040).is_err());
}
