use labrinth::base62::{to_base62, DecodeError};
use labrinth::database::Database;
use labrinth::error::{ApiError, InputError};
use labrinth::pat::get_user_from_pat;
use labrinth::pats::{
    create_pat, delete_pat, edit_pat, get_pats, CreatePersonalAccessToken,
    ModifyPersonalAccessToken, SECONDS_PER_DAY,
};

const NOW: i64 = 1_700_000_000;

fn empty_db() -> Database {
    Database::new(Vec::new(), Vec::new(), Vec::new(), Vec::new())
}

fn create(db: &mut Database, user: u64, scope: &str, days: i64) -> labrinth::pat::PersonalAccessToken {
    let info = CreatePersonalAccessToken { scope: scope.to_string(), expire_in_days: days };
    match create_pat(db, user, &info, NOW) {
        Ok(t) => t,
        Err(e) => panic!("create failed: {:?}", e),
    }
}

#[test]
fn created_token_expires_in_given_days_and_resolves() {
    let mut db = empty_db();
    let t = create(&mut db, 7, "read", 30);
    assert_eq!(t.expires_at, NOW + 30 * 86400);
    assert_eq!(t.scope, "read");
    assert_eq!(t.user_id, 7);
    assert_eq!(get_user_from_pat(&db, &t.access_token, NOW), Ok(Some(7)));
    assert_eq!(db.pats.len(), 1);
    assert_eq!(to_base62(db.pats[0].id), t.id);
    assert_eq!(to_base62(db.pats[0].access_token), t.access_token);
}

#[test]
fn expired_token_is_listed_but_does_not_resolve() {
    let mut db = empty_db();
    let t = create(&mut db, 7, "read", 1);
    let later = NOW + 2 * SECONDS_PER_DAY;
    assert_eq!(get_user_from_pat(&db, &t.access_token, later), Ok(None));
    let listed = get_pats(&db, 7);
    assert_eq!(listed.len(), 1);
    assert_eq!(listed[0].access_token, t.access_token);
}

#[test]
fn token_at_exact_expiry_still_resolves() {
    let mut db = empty_db();
    let t = create(&mut db, 7, "read", 1);
    assert_eq!(get_user_from_pat(&db, &t.access_token, NOW + SECONDS_PER_DAY), Ok(Some(7)));
}

#[test]
fn unknown_or_malformed_secret_does_not_resolve() {
    let mut db = empty_db();
    let t = create(&mut db, 7, "read", 1);
    let other = if t.access_token == "1" { "2" } else { "1" };
    assert_eq!(get_user_from_pat(&db, other, NOW), Ok(None));
    assert_eq!(get_user_from_pat(&db, "no!", NOW), Err(DecodeError::InvalidBase62('!')));
}

#[test]
fn listing_shows_only_own_tokens_in_order() {
    let mut db = empty_db();
    let a = create(&mut db, 1, "a", 1);
    let _b = create(&mut db, 2, "b", 1);
    let c = create(&mut db, 1, "c", 5);
    let mine = get_pats(&db, 1);
    assert_eq!(mine.len(), 2);
    assert_eq!(mine[0].id, a.id);
    assert_eq!(mine[1].id, c.id);
    assert_eq!(mine[1].scope, "c");
    assert_eq!(get_pats(&db, 3).len(), 0);
}

#[test]
fn secrets_and_ids_are_unique() {
    let mut db = empty_db();
    for u in 0..20u64 {
        create(&mut db, u, "s", 1);
    }
    for i in 0..db.pats.len() {
        for j in 0..db.pats.len() {
            if i != j {
                assert_ne!(db.pats[i].id, db.pats[j].id);
                assert_ne!(db.pats[i].access_token, db.pats[j].access_token);
            }
        }
    }
}

#[test]
fn expiry_out_of_range_is_refused() {
    let mut db = empty_db();
    let info = CreatePersonalAccessToken { scope: "s".to_string(), expire_in_days: i64::MAX / 1000 };
    assert!(matches!(
        create_pat(&mut db, 1, &info, NOW),
        Err(ApiError::InvalidInput(InputError::ExpiryOutOfRange))
    ));
    assert_eq!(db.pats.len(), 0);
}

#[test]
fn edit_replaces_scope_and_recomputes_expiry_from_now() {
    let mut db = empty_db();
    let t = create(&mut db, 7, "read", 1);
    let info = ModifyPersonalAccessToken {
        access_token: t.access_token.clone(),
        scope: Some("write".to_string()),
        expire_in_days: Some(10),
    };
    let later = NOW + 100;
    let e = match edit_pat(&mut db, 7, &info, later) {
        Ok(e) => e,
        Err(err) => panic!("edit failed: {:?}", err),
    };
    assert_eq!(e.scope, "write");
    assert_eq!(e.expires_at, later + 10 * 86400);
    assert_eq!(e.id, t.id);
    assert_eq!(db.pats[0].scope, "write");
}

#[test]
fn edit_keeps_fields_not_given() {
    let mut db = empty_db();
    let t = create(&mut db, 7, "read", 3);
    let info = ModifyPersonalAccessToken {
        access_token: t.access_token.clone(),
        scope: None,
        expire_in_days: None,
    };
    let e = match edit_pat(&mut db, 7, &info, NOW + 500) {
        Ok(e) => e,
        Err(err) => panic!("edit failed: {:?}", err),
    };
    assert_eq!(e.scope, "read");
    assert_eq!(e.expires_at, NOW + 3 * 86400);
}

#[test]
fn edit_of_another_users_token_is_not_found() {
    let mut db = empty_db();
    let t = create(&mut db, 7, "read", 3);
    let info = ModifyPersonalAccessToken {
        access_token: t.access_token.clone(),
        scope: Some("x".to_string()),
        expire_in_days: None,
    };
    assert!(matches!(edit_pat(&mut db, 8, &info, NOW), Err(ApiError::NotFound)));
    assert_eq!(db.pats[0].scope, "read");
}

#[test]
fn edit_or_delete_with_malformed_secret_is_not_found() {
    let mut db = empty_db();
    let info = ModifyPersonalAccessToken {
        access_token: "a b".to_string(),
        scope: None,
        expire_in_days: None,
    };
    assert!(matches!(edit_pat(&mut db, 8, &info, NOW), Err(ApiError::NotFound)));
    assert_eq!(delete_pat(&mut db, 8, "a b"), Err(ApiError::NotFound));
}

#[test]
fn delete_revokes_only_own_token() {
    let mut db = empty_db();
    let t = create(&mut db, 7, "read", 3);
    assert_eq!(delete_pat(&mut db, 8, &t.access_token), Err(ApiError::NotFound));
    assert_eq!(db.pats.len(), 1);
    assert_eq!(delete_pat(&mut db, 7, &t.access_token), Ok(()));
    assert_eq!(db.pats.len(), 0);
    assert_eq!(get_user_from_pat(&db, &t.access_token, NOW), Ok(None));
    assert_eq!(delete_pat(&mut db, 7, &t.access_token), Err(ApiError::NotFound));
}
