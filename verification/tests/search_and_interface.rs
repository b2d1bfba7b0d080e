use identity_core::interface::{extract_variable, Params, UserChanged, UserMutation, UserQuery,
    UserSubscription};
use identity_core::{Client, CoreError, MutationType, Uid, User, UserType};

fn client_with_search(accepting: bool) -> Client {
    let mut db = Client::try_new(
        "localhost:8000",
        "root",
        "root",
        "test",
        "test",
        Some(("redis://localhost:6379", false, 10, 5000)),
        Some(("http://localhost:7700", None)),
    )
    .unwrap();
    if let Some(ss) = &mut db.search {
        ss.accepting = accepting;
    }
    db
}

fn sample_user(username: &str, name: Option<&str>) -> User {
    User {
        id: Uid { value: 0 },
        username: String::from(username),
        email: None,
        name: name.map(String::from),
        avatar: None,
        user_type: UserType::Individual,
        phone_number: None,
        created: 0,
        updated: 0,
    }
}

#[test]
fn search_without_collaborator_fails_fast() {
    let mut db = Client::try_new("localhost:8000", "root", "root", "test", "test", None, None)
        .unwrap();
    match db.search("foo") {
        Err(CoreError::Other(m)) => assert_eq!(m, "no client configured for search"),
        other => panic!("expected fail-fast, got {:?}", other.map(|v| v.len())),
    }
}

#[test]
fn search_syncs_lazily_and_finds_hits() {
    let mut db = client_with_search(true);
    db.create_user(&sample_user("foobar", Some("Alpha"))).unwrap();
    db.create_user(&sample_user("barbaz", Some("Beta"))).unwrap();
    // The index does not exist yet; the probe re-syncs, then queries.
    let hits = db.search("foo").unwrap();
    assert_eq!(hits.len(), 1);
    assert_eq!(hits[0].username, "foobar");
    let by_name = db.search("Beta").unwrap();
    assert_eq!(by_name.len(), 1);
    assert_eq!(by_name[0].username, "barbaz");
    assert_eq!(db.search("nothing-like-this").unwrap().len(), 0);
}

#[test]
fn search_gives_up_after_bounded_retries() {
    let mut db = client_with_search(false);
    db.create_user(&sample_user("foobar", None)).unwrap();
    match db.search("foo") {
        Err(CoreError::Other(m)) => assert_eq!(m, "items could not be indexed for search"),
        other => panic!("expected bounded give-up, got {:?}", other.map(|v| v.len())),
    }
    assert_eq!(
        db.search.as_ref().unwrap().sync_attempts,
        3,
        "exactly three indexing attempts were made"
    );
}

#[test]
fn connection_params_are_validated() {
    match Params::new(None, None, None, None) {
        Err(m) => assert_eq!(m, "One of 'first' or 'last' should be provided"),
        Ok(_) => panic!("expected a validation error"),
    }
    match Params::new(Some(String::from("a")), Some(String::from("b")), Some(5), None) {
        Err(m) => assert_eq!(m, "Only one or none of 'after' or 'before' should be provided"),
        Ok(_) => panic!("expected a validation error"),
    }
    assert!(Params::new(None, None, Some(5), None).is_ok());
}

#[test]
fn query_namespace_pages_users() {
    let mut db = client_with_search(true);
    let q = UserQuery {};
    for i in 0..5 {
        db.create_user(&sample_user(&format!("user{i}"), None)).unwrap();
    }
    let first_two = q.users(&mut db, None, None, Some(2), None).unwrap();
    assert_eq!(first_two.len(), 2);
    assert_eq!(first_two[0].username, "user0");
    let last_two = q.users(&mut db, None, None, None, Some(2)).unwrap();
    assert_eq!(last_two.len(), 2);
    assert_eq!(last_two[1].username, "user4");
    assert!(q.users(&mut db, None, None, None, None).is_err());
}

#[test]
fn mutation_namespace_reports_changes() {
    let mut db = client_with_search(true);
    let m = UserMutation {};
    let (created, ev) = m.create_user(&mut db, &sample_user("hank", None)).unwrap();
    assert_eq!(ev.mutation_type(), MutationType::Created);
    assert_eq!(ev.id(), created.id.render());
    let (_, ev2) = m.delete_user(&mut db, &created.id).unwrap();
    assert_eq!(ev2.mutation_type(), MutationType::Deleted);
    assert!(ev2.user(&mut db).unwrap().is_none());
}

#[test]
fn subscription_filter_keeps_matching_events() {
    let s = UserSubscription {};
    let events = vec![
        UserChanged { mutation_type: MutationType::Created, id: Uid { value: 1 } },
        UserChanged { mutation_type: MutationType::Deleted, id: Uid { value: 2 } },
        UserChanged { mutation_type: MutationType::Created, id: Uid { value: 3 } },
    ];
    let all = s.users(None, &events);
    assert_eq!(all.len(), 3);
    let created_only = s.users(Some(MutationType::Created), &events);
    assert_eq!(created_only.len(), 2);
    assert_eq!(created_only[1].id.value, 3);
}

#[test]
fn log_levels_quiets_the_http_machinery() {
    let directives = identity_core::log_levels("api-server");
    assert_eq!(
        directives,
        "api_server=trace,api_interface=trace,reqwest=info,api_database=trace,tower=warn,h2=warn,hyper=warn,tungstenite=warn,debug"
    );
}

#[test]
fn configuration_falls_back_on_blank_values() {
    assert_eq!(extract_variable(None, "3000"), "3000");
    assert_eq!(extract_variable(Some(String::from("  \t")), "3000"), "3000");
    assert_eq!(extract_variable(Some(String::from("8080")), "3000"), "8080");
}

#[test]
fn update_payload_carries_a_stamp() {
    let u = sample_user("ivy", None);
    let input = identity_core::wire::user_to_wire_update(&u, 1_700_000_123);
    assert_eq!(input.username, "ivy");
    match input.updated {
        Some(identity_core::WireTimestamp::Unix(t)) => assert_eq!(t, 1_700_000_123),
        _ => panic!("expected a stamped update time"),
    }
    // The create payload never carries server-assigned fields.
    assert!(identity_core::wire::user_to_wire(&u).updated.is_none());
}

#[test]
fn search_resolver_wraps_hits() {
    let mut db = client_with_search(true);
    let q = UserQuery {};
    db.create_user(&sample_user("foobar", None)).unwrap();
    let hits = q
        .search(&mut db, "foo", None, None, Some(10), None)
        .unwrap();
    assert_eq!(hits.len(), 1);
    assert_eq!(hits[0].user.username, "foobar");
    assert!(hits[0].parent_name.is_none());
}
