use authcore::b64::{b64_decode, b64_encode};
use authcore::claims::{parse_claims_json, render_claims_json, Claims};
use authcore::dec::{parse_dec_u128, push_dec_u128};
use authcore::errors::Errors;
use authcore::hexcodec::hex_encode;
use authcore::role::Role;

#[test]
fn role_of_i32_accepts_the_domain() {
    assert_eq!(Role::of_i32(0).unwrap(), Role::Admin);
    assert_eq!(Role::of_i32(1).unwrap(), Role::Editor);
    assert_eq!(Role::of_i32(2).unwrap(), Role::User);
}

#[test]
fn role_of_i32_rejects_everything_else() {
    assert!(matches!(Role::of_i32(3), Err(Errors::InternalError(_))));
    assert!(matches!(Role::of_i32(-1), Err(Errors::InternalError(_))));
    assert!(matches!(Role::of_i32(i32::MAX), Err(Errors::InternalError(_))));
}

#[test]
fn role_as_i32_round_trips() {
    for role in [Role::Admin, Role::Editor, Role::User] {
        assert_eq!(Role::of_i32(role.as_i32()).unwrap(), role);
    }
}

#[test]
fn editor_permissions_cover_admin_and_editor_only() {
    assert!(Role::Admin.has_editor_permissions());
    assert!(Role::Editor.has_editor_permissions());
    assert!(!Role::User.has_editor_permissions());
}

#[test]
fn admin_permissions_cover_admin_only() {
    assert!(Role::Admin.has_admin_permissions());
    assert!(!Role::Editor.has_admin_permissions());
    assert!(!Role::User.has_admin_permissions());
}

#[test]
fn role_predicates_match_exactly_one_role() {
    assert!(Role::Admin.is_admin() && !Role::Admin.is_editor() && !Role::Admin.is_user());
    assert!(!Role::Editor.is_admin() && Role::Editor.is_editor() && !Role::Editor.is_user());
    assert!(!Role::User.is_admin() && !Role::User.is_editor() && Role::User.is_user());
}

#[test]
fn hex_encodes_expected_text() {
    assert_eq!(hex_encode(&[0xbe, 0xef]), b"beef".to_vec());
    assert_eq!(hex_encode(&[0x00, 0x0a, 0xff]), b"000aff".to_vec());
    assert_eq!(hex_encode(&[]), Vec::<u8>::new());
}

#[test]
fn b64_encodes_expected_text() {
    assert_eq!(b64_encode(b"abc"), b"YWJj".to_vec());
    assert_eq!(b64_encode(b"a"), b"YQ".to_vec());
    assert_eq!(b64_encode(b"ab"), b"YWI".to_vec());
    // the url-safe alphabet: 0xfb 0xef gives '-' and '_' characters
    assert_eq!(b64_encode(&[0xfb, 0xef, 0xbe]), b"----".to_vec());
    assert_eq!(b64_encode(&[0xff, 0xef, 0xff]), b"_-__".to_vec());
}

#[test]
fn b64_decode_round_trips() {
    for input in [
        Vec::new(),
        vec![0u8],
        vec![1u8, 2],
        vec![1u8, 2, 3],
        vec![255u8, 0, 127, 64, 3],
        (0u8..=255).collect::<Vec<u8>>(),
    ] {
        let encoded = b64_encode(&input);
        assert_eq!(b64_decode(&encoded), Some(input));
    }
}

#[test]
fn b64_decode_rejects_non_canonical_text() {
    // a single character can never be a whole group
    assert_eq!(b64_decode(b"Y"), None);
    // trailing bits must be zero in a shortened group
    assert_eq!(b64_decode(b"YR"), None);
    // characters outside the alphabet
    assert_eq!(b64_decode(b"Y!"), None);
    assert_eq!(b64_decode(b"a+b/"), None);
}

#[test]
fn decimal_renders_canonically() {
    let mut out: Vec<u8> = Vec::new();
    push_dec_u128(0, &mut out);
    assert_eq!(out, b"0".to_vec());
    let mut out: Vec<u8> = Vec::new();
    push_dec_u128(1234567890, &mut out);
    assert_eq!(out, b"1234567890".to_vec());
    let mut out: Vec<u8> = Vec::new();
    push_dec_u128(u128::MAX, &mut out);
    assert_eq!(out, b"340282366920938463463374607431768211455".to_vec());
}

#[test]
fn decimal_parses_exactly_the_canonical_renderings() {
    assert_eq!(parse_dec_u128(b"0"), Some(0));
    assert_eq!(parse_dec_u128(b"42"), Some(42));
    assert_eq!(
        parse_dec_u128(b"340282366920938463463374607431768211455"),
        Some(u128::MAX)
    );
    // one past the maximum
    assert_eq!(parse_dec_u128(b"340282366920938463463374607431768211456"), None);
    assert_eq!(parse_dec_u128(b""), None);
    assert_eq!(parse_dec_u128(b"007"), None);
    assert_eq!(parse_dec_u128(b"1a2"), None);
    assert_eq!(parse_dec_u128(b"-1"), None);
}

#[test]
fn claims_payload_renders_expected_text() {
    let claims = Claims {
        sub: b"ACCESS_TOKEN".to_vec(),
        iat: 100,
        exp: 400,
        user_id: 7,
        role: Role::Admin,
    };
    let json = render_claims_json(&claims);
    assert_eq!(
        json,
        br#"{"sub":"ACCESS_TOKEN","iat":100,"exp":400,"user_id":7,"role":"Admin"}"#.to_vec()
    );
}

#[test]
fn claims_payload_round_trips() {
    let claims = Claims {
        sub: b"ACCESS_TOKEN".to_vec(),
        iat: 1700000000,
        exp: 1700000300,
        user_id: 0xdead_beef_dead_beef_dead_beef_dead_beef,
        role: Role::Editor,
    };
    let json = render_claims_json(&claims);
    let back = parse_claims_json(&json).expect("canonical payload must parse");
    assert_eq!(back.sub, claims.sub);
    assert_eq!(back.iat, claims.iat);
    assert_eq!(back.exp, claims.exp);
    assert_eq!(back.user_id, claims.user_id);
    assert_eq!(back.role, claims.role);
}

#[test]
fn claims_parser_rejects_mangled_payloads() {
    let claims = Claims {
        sub: b"ACCESS_TOKEN".to_vec(),
        iat: 100,
        exp: 400,
        user_id: 7,
        role: Role::User,
    };
    let good = render_claims_json(&claims);
    assert!(parse_claims_json(&good).is_some());
    // truncated
    assert!(parse_claims_json(&good[..good.len() - 1]).is_none());
    // wrong field order
    let reordered = br#"{"iat":100,"sub":"ACCESS_TOKEN","exp":400,"user_id":7,"role":"User"}"#;
    assert!(parse_claims_json(reordered).is_none());
    // unknown role name
    let bad_role = br#"{"sub":"ACCESS_TOKEN","iat":100,"exp":400,"user_id":7,"role":"Root"}"#;
    assert!(parse_claims_json(bad_role).is_none());
    // non-canonical number
    let padded = br#"{"sub":"ACCESS_TOKEN","iat":0100,"exp":400,"user_id":7,"role":"User"}"#;
    assert!(parse_claims_json(padded).is_none());
    // trailing bytes
    let mut extended = good.clone();
    extended.push(b' ');
    assert!(parse_claims_json(&extended).is_none());
}

#[test]
fn request_errors_carry_their_http_status() {
    assert_eq!(Errors::DatabaseError(String::from("x")).status(), 500);
    assert_eq!(Errors::BadRequest(String::from("x")).status(), 400);
    assert_eq!(Errors::InternalError(String::from("x")).status(), 501);
}
