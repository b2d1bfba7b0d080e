use identity_core::{CacheKey, Uid, User, UserType};

fn sample_user() -> User {
    User {
        id: Uid { value: 0x0189_aabb_ccdd_7eff_8001_0203_0405_0607 },
        username: String::from("foobar"),
        email: None,
        name: Some(String::from("Something")),
        avatar: None,
        user_type: UserType::Individual,
        phone_number: None,
        created: 1_700_000_000,
        updated: 1_700_000_000,
    }
}

#[test]
fn cache_keys_are_namespaced_and_stable() {
    let id = Uid { value: 1 };
    assert_eq!(CacheKey::AllUsers.render(), "users:all");
    assert_eq!(
        (CacheKey::UserById { id: &id }).render(),
        "users:id=00000000-0000-0000-0000-000000000001"
    );
    assert_eq!(
        (CacheKey::UserByEmail { email: "a@example.com" }).render(),
        "users:email=a@example.com"
    );
    assert_eq!(
        (CacheKey::UserByAccount { provider: "github", provider_account_id: "123" }).render(),
        "users:account=github|123"
    );
    assert_eq!((CacheKey::Session { token: "tok" }).render(), "session=tok");
}

#[test]
fn distinct_predicates_render_distinct_keys() {
    let id = Uid { value: 7 };
    let keys = [
        CacheKey::AllUsers.render(),
        (CacheKey::UserById { id: &id }).render(),
        (CacheKey::UserByEmail { email: "all" }).render(),
        (CacheKey::UserByAccount { provider: "github", provider_account_id: "1" }).render(),
        (CacheKey::UserByAccount { provider: "gitlab", provider_account_id: "1" }).render(),
        (CacheKey::Session { token: "users:all" }).render(),
    ];
    for i in 0..keys.len() {
        for j in 0..keys.len() {
            if i != j {
                assert_ne!(keys[i], keys[j]);
            }
        }
    }
    // Equal predicates render equal keys.
    assert_eq!(
        (CacheKey::UserByEmail { email: "x@y.z" }).render(),
        (CacheKey::UserByEmail { email: "x@y.z" }).render()
    );
}

#[test]
fn encode() {
    // A user snapshot survives the cache serialization round trip.
    let user = sample_user();
    let bytes = identity_core::codec::encode_opt_user(&Some(user.clone()));
    assert!(!bytes.is_empty());
    let value = identity_core::codec::decode_opt_user(&bytes);
    assert!(value.is_some());
    let val = value.unwrap().unwrap();
    assert_eq!(val, user);
}

#[test]
fn deserialise_list() {
    let user = sample_user();
    let user_2 = User {
        id: Uid { value: 0x0189_aabb_ccdd_7eff_8001_0203_0405_0608 },
        name: Some("Something".into()),
        username: "barfoo".into(),
        email: Some("user@email.com".into()),
        avatar: None,
        user_type: UserType::Individual,
        phone_number: None,
        created: 1_700_000_000,
        updated: 1_700_000_000,
    };
    let users = vec![user, user_2];
    let bytes = identity_core::codec::encode_users(&users);
    assert!(!bytes.is_empty());
    let source = identity_core::codec::decode_users(&bytes).unwrap();
    assert_eq!(source, users);
}

#[test]
fn codec_carries_unicode_strings() {
    // Exercises the byte/string boundary with multi-byte characters.
    let mut user = sample_user();
    user.username = String::from("żółć-日本語-🦀");
    user.email = Some(String::from("mailbox@exämple.org"));
    let bytes = identity_core::codec::encode_opt_user(&Some(user.clone()));
    let back = identity_core::codec::decode_opt_user(&bytes).unwrap().unwrap();
    assert_eq!(back, user);
}

#[test]
fn absent_user_snapshot_round_trips() {
    let bytes = identity_core::codec::encode_opt_user(&None);
    let back = identity_core::codec::decode_opt_user(&bytes).unwrap();
    assert!(back.is_none());
    let empty = identity_core::codec::encode_users(&Vec::new());
    assert_eq!(identity_core::codec::decode_users(&empty).unwrap().len(), 0);
}

#[test]
fn garbage_bytes_do_not_decode_to_a_user() {
    let garbage = vec![1u8, 255, 255, 255, 255, 255, 255, 255, 255];
    // Either rejected or decoded, but never a panic; a rejection is a
    // cache miss in the engine.
    let _ = identity_core::codec::decode_opt_user(&garbage);
    let _ = identity_core::codec::decode_users(&garbage);
}
