use authcore::errors::Errors;
use authcore::user_token_repository::{UserToken, T as Repository};
use authcore::user_token_service::{T as Service, Token};

fn sample_token(user_id: u128, value: &str) -> Token {
    Token {
        user_id,
        subject: String::from("REFRESH_TOKEN"),
        token: String::from(value),
        created_at: 1000,
        expires_at: 1000 + 604800,
        payload: None,
    }
}

#[test]
fn insert_then_get_by_subject_and_token() {
    let mut repo = Repository::create();
    let id = repo.insert(sample_token(7, "one")).unwrap();
    let (found_id, found) = repo
        .get_by_subject_and_token(&String::from("REFRESH_TOKEN"), &String::from("one"))
        .expect("the inserted row must be found");
    assert_eq!(found_id, id);
    assert_eq!(found.user_id, 7);
    assert_eq!(found.token, String::from("one"));
    assert_eq!(found.created_at, 1000);
    assert_eq!(found.expires_at, 1000 + 604800);
    assert!(repo
        .get_by_subject_and_token(&String::from("REFRESH_TOKEN"), &String::from("two"))
        .is_none());
    assert!(repo
        .get_by_subject_and_token(&String::from("ACCESS_TOKEN"), &String::from("one"))
        .is_none());
}

#[test]
fn get_update_delete_by_identifier() {
    let mut repo = Repository::create();
    let id = repo.insert(sample_token(7, "one")).unwrap();
    let (_, stored) = repo.get(id).expect("stored row");
    assert_eq!(stored.token, String::from("one"));
    assert!(repo.get(id.wrapping_add(1)).is_none());

    repo.update(id, sample_token(7, "two")).expect("one row matches");
    let (_, stored) = repo.get(id).expect("stored row");
    assert_eq!(stored.token, String::from("two"));
    assert!(matches!(
        repo.update(id.wrapping_add(1), sample_token(7, "three")),
        Err(Errors::BadRequest(_))
    ));

    repo.delete(id).expect("one row matches");
    assert!(repo.get(id).is_none());
    assert!(matches!(repo.delete(id), Err(Errors::DatabaseError(_))));
}

#[test]
fn revoke_deletes_only_the_given_key_and_is_idempotent() {
    let mut repo = Repository::create();
    repo.insert(sample_token(7, "one")).unwrap();
    repo.insert(sample_token(8, "two")).unwrap();
    repo.revoke_by_user_and_subject(7, &String::from("REFRESH_TOKEN")).unwrap();
    assert!(repo
        .get_by_subject_and_token(&String::from("REFRESH_TOKEN"), &String::from("one"))
        .is_none());
    assert!(repo
        .get_by_subject_and_token(&String::from("REFRESH_TOKEN"), &String::from("two"))
        .is_some());
    // revoking again, or revoking a key that never existed, is fine
    repo.revoke_by_user_and_subject(7, &String::from("REFRESH_TOKEN")).unwrap();
    repo.revoke_by_user_and_subject(999, &String::from("REFRESH_TOKEN")).unwrap();
}

#[test]
fn row_conversions_keep_every_field() {
    let token = Token {
        user_id: 21,
        subject: String::from("REFRESH_TOKEN"),
        token: String::from("opaque-value"),
        created_at: 5,
        expires_at: 10,
        payload: Some(String::from("extra")),
    };
    let row = UserToken::of_token(99, token);
    assert_eq!(row.id, 99);
    assert_eq!(row.user_id, 21);
    assert_eq!(row.payload, Some(String::from("extra")));
    let (id, back) = row.into_token();
    assert_eq!(id, 99);
    assert_eq!(back.user_id, 21);
    assert_eq!(back.subject, String::from("REFRESH_TOKEN"));
    assert_eq!(back.token, String::from("opaque-value"));
    assert_eq!(back.created_at, 5);
    assert_eq!(back.expires_at, 10);
    assert_eq!(back.payload, Some(String::from("extra")));
}

#[test]
fn fresh_rows_get_distinct_random_identifiers() {
    let a = UserToken::of_new_token(sample_token(1, "one"));
    let b = UserToken::of_new_token(sample_token(1, "one"));
    assert_ne!(a.id, b.id);
}

#[test]
fn service_create_get_revoke_and_rotate() {
    let mut service = Service::make(Repository::create());
    let key = String::from("REFRESH_TOKEN");
    let created = service
        .create(7, String::from("one"), String::from("REFRESH_TOKEN"), 604800, None, 1000)
        .expect("the model store never fails");
    assert_eq!(created.expires_at, 1000 + 604800);
    let looked = service.get(&key, &String::from("one")).unwrap().expect("live row");
    assert_eq!(looked.user_id, 7);

    // create alone appends; rotate is what restores the invariant
    service
        .create(7, String::from("two"), String::from("REFRESH_TOKEN"), 604800, None, 1001)
        .expect("append");
    assert_eq!(service.count(7, &key), 2);
    service
        .rotate(7, String::from("three"), String::from("REFRESH_TOKEN"), 604800, None, 1002)
        .expect("rotate");
    assert_eq!(service.count(7, &key), 1);
    assert!(service.get(&key, &String::from("one")).unwrap().is_none());
    assert!(service.get(&key, &String::from("two")).unwrap().is_none());
    assert!(service.get(&key, &String::from("three")).unwrap().is_some());

    service.revoke(7, &key).expect("revoke");
    assert_eq!(service.count(7, &key), 0);
}
