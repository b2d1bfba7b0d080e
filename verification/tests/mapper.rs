use identity_core::{
    MappingError, SessionRow, Uid, User, UserType, WireDoc, WireProvider, WireRecordId,
    WireSessionRow, WireTimestamp, WireUser, WireValue,
};

fn sample_wire_user(raw_id: &str) -> WireUser {
    WireUser {
        id: WireRecordId { collection: String::from("user"), raw: String::from(raw_id) },
        username: String::from("foobar"),
        email: Some(String::from("user@email.com")),
        name: Some(String::from("Something")),
        avatar: None,
        user_type: UserType::Individual,
        phone_number: None,
        created: WireTimestamp::Unix(1_700_000_000),
        updated: WireTimestamp::Text(String::from("2024-02-29T12:30:45Z")),
    }
}

#[test]
fn wire_user_round_trip() {
    let user = User {
        id: Uid { value: 0x0123_4567_89ab_cdef_0123_4567_89ab_cdef },
        username: String::from("foobar"),
        email: Some(String::from("user@email.com")),
        name: Some(String::from("Something")),
        avatar: None,
        user_type: UserType::Company,
        phone_number: Some(String::from("555-0100")),
        created: 1_700_000_000,
        updated: 1_700_000_001,
    };
    let input = identity_core::wire::user_to_wire(&user);
    assert_eq!(input.username, user.username);
    assert_eq!(input.email, user.email);
    assert_eq!(input.name, user.name);
    assert_eq!(input.avatar, user.avatar);
    assert_eq!(input.user_type, user.user_type);
    assert!(input.updated.is_none());
    // Server assigns id and timestamps; the assembled row maps back.
    let row = WireUser {
        id: WireRecordId {
            collection: String::from("user"),
            raw: user.id.render(),
        },
        username: input.username,
        email: input.email,
        name: input.name,
        avatar: input.avatar,
        user_type: input.user_type,
        phone_number: input.phone_number,
        created: WireTimestamp::Unix(user.created),
        updated: WireTimestamp::Unix(user.updated),
    };
    let back = identity_core::wire::user_to_domain(&row).unwrap();
    assert_eq!(back, user);
}

#[test]
fn record_id_strips_decoration() {
    let raw = "⟨018f3a2b-1c4d-7e5f-8a9b-0c1d2e3f4a5b⟩:extra";
    let id = WireRecordId { collection: String::from("user"), raw: String::from(raw) };
    let uid = identity_core::wire::record_id_to_uid(&id).unwrap();
    assert_eq!(uid.render(), "018f3a2b-1c4d-7e5f-8a9b-0c1d2e3f4a5b");
}

#[test]
fn bad_identifier_is_mapping_error() {
    let w = sample_wire_user("not-a-uuid");
    match identity_core::wire::user_to_domain(&w) {
        Err(MappingError::InvalidIdentifier) => {}
        other => panic!("expected invalid identifier, got {:?}", other.map(|u| u.username)),
    }
}

#[test]
fn bad_timestamp_is_mapping_error() {
    let mut w = sample_wire_user("018f3a2b-1c4d-7e5f-8a9b-0c1d2e3f4a5b");
    w.created = WireTimestamp::Text(String::from("yesterday at noon...."));
    match identity_core::wire::user_to_domain(&w) {
        Err(MappingError::InvalidTimestamp) => {}
        other => panic!("expected invalid timestamp, got {:?}", other.map(|u| u.username)),
    }
}

#[test]
fn iso_text_matches_reference_clock() {
    let w = sample_wire_user("018f3a2b-1c4d-7e5f-8a9b-0c1d2e3f4a5b");
    let u = identity_core::wire::user_to_domain(&w).unwrap();
    let reference = time::OffsetDateTime::parse(
        "2024-02-29T12:30:45Z",
        &time::format_description::well_known::Rfc3339,
    )
    .unwrap()
    .unix_timestamp();
    assert_eq!(u.updated, reference);
    assert_eq!(u.created, 1_700_000_000);
}

#[test]
fn uuid_rendering_matches_reference_crate() {
    let v: u128 = 0x0123_4567_89ab_cdef_0123_4567_89ab_cdef;
    let uid = Uid { value: v };
    let rendered = uid.render();
    let reference = uuid::Uuid::from_u128(v);
    assert_eq!(rendered, reference.hyphenated().to_string());
    let parsed = Uid::parse(&rendered).unwrap();
    assert_eq!(parsed.value, v);
    let alien = uuid::Uuid::now_v7().hyphenated().to_string();
    let ours = Uid::parse(&alien).unwrap();
    assert_eq!(ours.value, uuid::Uuid::parse_str(&alien).unwrap().as_u128());
}

#[test]
fn typed_session_row_decodes() {
    let row = WireSessionRow {
        id: WireRecordId {
            collection: String::from("user_session"),
            raw: String::from("018f3a2b-1c4d-7e5f-8a9b-0c1d2e3f4a99"),
        },
        user: sample_wire_user("018f3a2b-1c4d-7e5f-8a9b-0c1d2e3f4a5b"),
        provider: WireProvider {
            id: WireRecordId {
                collection: String::from("account_provider"),
                raw: String::from("018f3a2b-1c4d-7e5f-8a9b-0c1d2e3f4a00"),
            },
            name: String::from("github"),
        },
        expires_at: WireTimestamp::Unix(2_000_000_000),
        session_token: String::from("tok-123"),
    };
    let (user, session) = identity_core::wire::decode_session_row(&SessionRow::Typed(row)).unwrap();
    assert_eq!(session.user_id, user.id);
    assert_eq!(session.account_provider.name, "github");
    assert_eq!(session.session_token, "tok-123");
}

#[test]
fn dynamic_session_row_decodes() {
    let doc = WireDoc {
        fields: vec![
            (String::from("id"), WireValue::Text(String::from("user_session:1"))),
            (
                String::from("in"),
                WireValue::UserNode(sample_wire_user("018f3a2b-1c4d-7e5f-8a9b-0c1d2e3f4a5b")),
            ),
            (
                String::from("out"),
                WireValue::ProviderNode(WireProvider {
                    id: WireRecordId {
                        collection: String::from("account_provider"),
                        raw: String::from("018f3a2b-1c4d-7e5f-8a9b-0c1d2e3f4a00"),
                    },
                    name: String::from("github"),
                }),
            ),
            (
                String::from("expires_at"),
                WireValue::Text(String::from("2024-02-29T12:30:45Z")),
            ),
            (String::from("session_token"), WireValue::Text(String::from("tok-123"))),
        ],
    };
    let (user, session) =
        identity_core::wire::decode_session_row(&SessionRow::Dynamic(doc)).unwrap();
    assert_eq!(session.user_id, user.id);
    assert_eq!(session.account_provider.name, "github");
}

#[test]
fn unknown_dynamic_shape_is_rejected() {
    let doc = WireDoc {
        fields: vec![(String::from("id"), WireValue::Null)],
    };
    assert!(identity_core::wire::decode_session_row(&SessionRow::Dynamic(doc)).is_err());
}

#[test]
fn uuid_text_forms_match_reference_parser() {
    let v: u128 = 0x0123_4567_89AB_CDEF_0123_4567_89AB_CDEF;
    let reference = uuid::Uuid::from_u128(v);
    let forms = [
        reference.simple().to_string(),
        reference.hyphenated().to_string(),
        reference.braced().to_string(),
        reference.urn().to_string(),
        reference.hyphenated().to_string().to_uppercase(),
        reference.simple().to_string().to_uppercase(),
    ];
    for form in &forms {
        let ours = Uid::parse(form).expect("form to parse");
        let theirs = uuid::Uuid::parse_str(form).expect("reference to parse");
        assert_eq!(ours.value, theirs.as_u128(), "mismatch on {form}");
    }
    assert!(Uid::parse("0123456789abcdef0123456789abcde").is_none());
    assert!(Uid::parse("{0123}").is_none());
}

#[test]
fn timestamp_fractions_and_offsets_match_reference_clock() {
    let forms = [
        "2024-02-29T12:30:45Z",
        "2024-02-29T12:30:45.5Z",
        "2024-02-29T12:30:45.123456789Z",
        "2024-02-29T12:30:45+05:30",
        "2024-02-29T12:30:45.25-08:00",
        "1970-01-01T00:00:00+01:00",
    ];
    for form in &forms {
        let ours = identity_core::wire::parse_rfc3339(form).expect("form to parse");
        let theirs = time::OffsetDateTime::parse(
            form,
            &time::format_description::well_known::Rfc3339,
        )
        .expect("reference to parse")
        .unix_timestamp();
        assert_eq!(ours, theirs, "mismatch on {form}");
    }
    assert!(identity_core::wire::parse_rfc3339("2024-02-29T12:30:45").is_none());
    assert!(identity_core::wire::parse_rfc3339("2024-02-29T12:30:45.Z").is_none());
    assert!(identity_core::wire::parse_rfc3339("2024-02-29T12:30:45+25:00").is_none());
}

#[test]
fn fractional_wire_timestamp_maps() {
    let mut w = sample_wire_user("018f3a2b-1c4d-7e5f-8a9b-0c1d2e3f4a5b");
    w.created = WireTimestamp::Text(String::from("2023-11-14T22:13:20.123+00:00"));
    let u = identity_core::wire::user_to_domain(&w).unwrap();
    assert_eq!(u.created, 1_700_000_000);
}

#[test]
fn lowercase_time_markers_parse() {
    let ours = identity_core::wire::parse_rfc3339("2024-02-29t12:30:45z").unwrap();
    let theirs = time::OffsetDateTime::parse(
        "2024-02-29t12:30:45z",
        &time::format_description::well_known::Rfc3339,
    )
    .unwrap()
    .unix_timestamp();
    assert_eq!(ours, theirs);
}
