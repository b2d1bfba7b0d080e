use identity_core::cache::CacheState;
use identity_core::{Client, CoreError, Session, Uid, User, UserType, VerificationToken};

fn client_with_cache() -> Client {
    Client::try_new(
        "localhost:8000",
        "root",
        "root",
        "test",
        "test",
        Some(("redis://localhost:6379", false, 10, 5000)),
        None,
    )
    .unwrap()
}

fn sample_user(username: &str, email: Option<&str>) -> User {
    User {
        id: Uid { value: 0 },
        username: String::from(username),
        email: email.map(String::from),
        name: Some(String::from("Something")),
        avatar: None,
        user_type: UserType::Individual,
        phone_number: None,
        created: 0,
        updated: 0,
    }
}

#[test]
fn end_to_end_user_lifecycle() {
    // Create, read, update, read, delete, read.
    let mut db = client_with_cache();
    let input = sample_user("foobar", None);
    let created = db.create_user(&input).unwrap();
    assert_eq!(created.username, "foobar");
    assert_ne!(created.id.value, 0, "a fresh identifier was assigned");
    assert!(created.created > 1_000_000_000, "default timestamps are stamped");
    assert_eq!(created.created, created.updated);
    // The identifier is a version-7 UUID: the version digit is '7'.
    let rendered = created.id.render();
    assert_eq!(rendered.as_bytes()[14], b'7');

    let fetched = db.get_user_by_id(&created.id).unwrap().expect("user to exist in db");
    assert_eq!(fetched, created);

    let mut update = created.clone();
    update.name = Some(String::from("Foo"));
    let later = created.updated + 10;
    let updated = db
        .update_user_at(&created.id, &update, later)
        .unwrap()
        .expect("user to exist in db");
    assert_eq!(updated.name.as_deref(), Some("Foo"));
    assert_eq!(updated.created, created.created);
    assert!(updated.updated > created.updated, "the update timestamp advanced");

    let refetched = db.get_user_by_id(&created.id).unwrap().unwrap();
    assert_eq!(refetched.name.as_deref(), Some("Foo"));

    let removed = db.delete_user(&created.id).unwrap().expect("user to be deleted");
    assert_eq!(removed.id, created.id);
    assert!(db.get_user_by_id(&created.id).unwrap().is_none());
}

#[test]
fn write_invalidation_covers_old_and_new_email() {
    let mut db = client_with_cache();
    let input = sample_user("alice", Some("a@example.com"));
    let created = db.create_user(&input).unwrap();

    // Warm every read path so the cache holds entries for the old state.
    assert!(db.get_user_by_email("a@example.com").unwrap().is_some());
    assert!(db.get_user_by_email("b@example.com").unwrap().is_none());
    assert!(db.get_user_by_id(&created.id).unwrap().is_some());
    assert_eq!(db.get_users().unwrap().len(), 1);

    let mut update = created.clone();
    update.email = Some(String::from("b@example.com"));
    let updated = db.update_user(&created.id, &update).unwrap().unwrap();
    assert_eq!(updated.email.as_deref(), Some("b@example.com"));

    // No read pattern serves the pre-update value.
    assert!(db.get_user_by_email("a@example.com").unwrap().is_none());
    let by_new = db.get_user_by_email("b@example.com").unwrap().unwrap();
    assert_eq!(by_new.email.as_deref(), Some("b@example.com"));
    let by_id = db.get_user_by_id(&created.id).unwrap().unwrap();
    assert_eq!(by_id.email.as_deref(), Some("b@example.com"));
    let all = db.get_users().unwrap();
    assert_eq!(all.len(), 1);
    assert_eq!(all[0].email.as_deref(), Some("b@example.com"));
}

#[test]
fn invalidation_is_idempotent() {
    let mut cache = CacheState::new(5000);
    cache.set(String::from("users:all"), vec![1, 2, 3], None);
    cache.set(String::from("session=t"), vec![9], Some(5000));
    let keys = vec![String::from("users:all"), String::from("users:email=a")];
    cache.del_keys(&keys);
    let one_deletion: Option<Vec<u8>> = cache.get(&String::from("session=t"));
    assert!(cache.get(&String::from("users:all")).is_none());
    cache.del_keys(&keys);
    // The second invalidation changes nothing observable.
    assert_eq!(cache.get(&String::from("session=t")), one_deletion);
    assert!(cache.get(&String::from("users:all")).is_none());
    assert_eq!(cache.entries.len(), 1);
}

#[test]
fn reads_degrade_when_cache_is_unreachable() {
    let mut db = client_with_cache();
    let created = db.create_user(&sample_user("carol", Some("c@example.com"))).unwrap();
    // Warm the cache, then lose the backend.
    assert!(db.get_user_by_id(&created.id).unwrap().is_some());
    db.set_cache_available(false);
    let fetched = db.get_user_by_id(&created.id).unwrap();
    assert_eq!(fetched.as_ref().map(|u| u.id), Some(created.id));
    assert!(db.get_user_by_email("c@example.com").unwrap().is_some());
    assert_eq!(db.get_users().unwrap().len(), 1);
    // And recover.
    db.set_cache_available(true);
    assert!(db.get_user_by_id(&created.id).unwrap().is_some());
}

#[test]
fn linking_twice_is_idempotent() {
    let mut db = client_with_cache();
    let user = db.create_user(&sample_user("dave", None)).unwrap();
    db.link_account("github", "123", &user.id).unwrap();
    db.link_account("github", "123", &user.id).unwrap();
    assert_eq!(db.store.providers.len(), 1, "at most one provider named github");
    assert_eq!(db.store.links.len(), 1, "at most one edge for the pair");
    let linked = db.get_user_by_account("github", "123").unwrap().unwrap();
    assert_eq!(linked.id, user.id);
    // A second account through the same provider reuses the node.
    db.link_account("github", "456", &user.id).unwrap();
    assert_eq!(db.store.providers.len(), 1);
    assert_eq!(db.store.links.len(), 2);
    db.unlink_account("github", "123").unwrap();
    assert!(db.get_user_by_account("github", "123").unwrap().is_none());
    assert!(db.get_user_by_account("github", "456").unwrap().is_some());
}

#[test]
fn session_relation_round_trip() {
    let mut db = client_with_cache();
    let user = db.create_user(&sample_user("erin", None)).unwrap();
    db.link_account("github", "789", &user.id).unwrap();
    let provider = db.store.providers[0].clone();
    let session = Session {
        expires_at: 2_000_000_000,
        session_token: String::from("tok-abc"),
        account_provider: provider,
        user_id: user.id,
    };
    db.create_session(&session).unwrap();
    let (got_user, got_session) =
        db.get_session_and_user("tok-abc").unwrap().expect("session to resolve");
    assert_eq!(got_user.id, user.id);
    assert_eq!(got_session.account_provider.name, "github");
    assert_eq!(got_session.session_token, "tok-abc");

    let sessions = db.get_user_sessions(&user.id).unwrap();
    assert_eq!(sessions.len(), 1);

    let bumped = db.update_session("tok-abc", 2_100_000_000).unwrap().unwrap();
    assert_eq!(bumped.expires_at, 2_100_000_000);

    db.delete_session("tok-abc").unwrap();
    assert!(db.get_session_and_user("tok-abc").unwrap().is_none());
}

#[test]
fn expired_sessions_are_swept() {
    let mut db = client_with_cache();
    let user = db.create_user(&sample_user("frank", None)).unwrap();
    db.link_account("github", "1", &user.id).unwrap();
    let provider = db.store.providers[0].clone();
    let make = |token: &str, expires_at: i64| Session {
        expires_at,
        session_token: String::from(token),
        account_provider: provider.clone(),
        user_id: user.id,
    };
    db.create_session(&make("old", 100)).unwrap();
    db.create_session(&make("new", i64::MAX - 1)).unwrap();
    db.delete_expired_sessions().unwrap();
    assert!(db.get_session_and_user("old").unwrap().is_none());
    assert!(db.get_session_and_user("new").unwrap().is_some());
    db.delete_user_sessions(&user.id).unwrap();
    assert!(db.get_session_and_user("new").unwrap().is_none());
}

#[test]
fn dangling_link_reports_corruption() {
    let mut db = client_with_cache();
    let user = db.create_user(&sample_user("grace", None)).unwrap();
    db.link_account("github", "42", &user.id).unwrap();
    db.delete_user(&user.id).unwrap();
    match db.get_user_by_account("github", "42") {
        Err(CoreError::Unreachable) => {}
        other => panic!("expected corruption report, got {:?}", other.map(|o| o.map(|u| u.id))),
    }
}

#[test]
fn verification_token_lifecycle() {
    let mut db = client_with_cache();
    let input = VerificationToken {
        id: Uid { value: 0 },
        identifier: String::from("user@email.com"),
        token: String::from("vt-1"),
        expires_at: 2_000_000_000,
    };
    let created = db.create_verification_token(&input).unwrap();
    assert_eq!(created.identifier, "user@email.com");
    let found = db.get_verification_token("vt-1", "user@email.com").unwrap();
    assert_eq!(found.as_ref().map(|t| t.token.as_str()), Some("vt-1"));
    let used = db.use_verification_token("user@email.com", "vt-1").unwrap();
    assert!(used.is_some());
    // A missing token is not found, never an error.
    let missing = db.use_verification_token("user@email.com", "missing").unwrap();
    assert!(missing.is_none());
}
