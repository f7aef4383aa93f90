use dashboard_store::json::default_data;
use dashboard_store::store::{create_with, import_with, update_with};
use dashboard_store::{
    create_dashboard, delete_dashboard, get_dashboard, get_now_iso, import_dashboard,
    update_dashboard, CreateDashboardRequest, Dashboard, Fault, FileRead, StoreError,
    UpdateDashboardRequest,
};
use serde_json::Value;

fn parse(text: &str) -> Value {
    serde_json::from_str(text).unwrap()
}

fn text(s: &str) -> String {
    String::from(s)
}

fn sample() -> Dashboard {
    Dashboard {
        id: text("dash-1"),
        name: text("Network"),
        data: parse(r#"{"nodes": [1], "edges": []}"#),
        created_at: text("2024-01-01T00:00:00.000Z"),
        updated_at: Some(text("2024-01-02T00:00:00.000Z")),
    }
}

fn is_stamp(s: &str) -> bool {
    let chars: Vec<char> = s.chars().collect();
    chars.len() == 24
        && chars.iter().enumerate().all(|(i, c)| match i {
            4 | 7 => *c == '-',
            10 => *c == 'T',
            13 | 16 => *c == ':',
            19 => *c == '.',
            23 => *c == 'Z',
            _ => c.is_ascii_digit(),
        })
}

#[test]
fn import_valid_dashboard() {
    let d = Dashboard {
        id: String::from("d1"),
        name: String::from("Test"),
        data: parse(
            r#"{"nodes": [], "edges": [], "nodeTypes": [], "groups": [], "vms": [], "domains": []}"#,
        ),
        created_at: get_now_iso(),
        updated_at: None,
    };
    let res = import_dashboard(d);
    assert!(res.is_ok());
}

#[test]
fn import_invalid_payload() {
    let d = Dashboard {
        id: String::from("d2"),
        name: String::from(""),
        data: Value::String(String::from("x")),
        created_at: get_now_iso(),
        updated_at: None,
    };
    let res = import_dashboard(d);
    assert!(res.is_err());
    let err = res.err().unwrap();
    assert_eq!(err.status(), 400);
}

#[test]
fn import_without_name_and_object_is_refused() {
    let payload = Dashboard {
        id: text("x"),
        name: text(""),
        data: Value::String(text("not-an-object")),
        created_at: text("then"),
        updated_at: None,
    };
    assert_eq!(import_dashboard(payload.clone()), Err(StoreError::InvalidPayload));
    assert_eq!(
        import_with(text("dash-9"), text("now"), payload),
        Err(StoreError::InvalidPayload)
    );
}

#[test]
fn import_with_a_blank_name_and_no_object_is_refused() {
    for name in [" ", "\t\n", "\u{a0} \u{3000}"] {
        for data in ["null", "[]", "7", r#""s""#, "false"] {
            let payload = Dashboard {
                id: text("x"),
                name: text(name),
                data: parse(data),
                created_at: text("then"),
                updated_at: None,
            };
            assert_eq!(
                import_with(text("dash-9"), text("now"), payload),
                Err(StoreError::InvalidPayload),
                "{:?} {}",
                name,
                data
            );
        }
    }
}

#[test]
fn import_without_name_gets_the_fallback_name() {
    let payload = Dashboard {
        id: text("theirs"),
        name: text(""),
        data: parse("{}"),
        created_at: text("2001-01-01T00:00:00.000Z"),
        updated_at: Some(text("2002-01-01T00:00:00.000Z")),
    };
    let stored = import_with(text("dash-9"), text("2024-05-05T10:00:00.000Z"), payload).unwrap();
    assert_eq!(stored.name, "Imported Dashboard (imported)");
    assert_eq!(stored.data, default_data());
    assert_eq!(stored.id, "dash-9");
    assert_eq!(stored.created_at, "2024-05-05T10:00:00.000Z");
    assert_eq!(stored.updated_at, Some(text("2024-05-05T10:00:00.000Z")));
}

#[test]
fn import_keeps_the_members_of_the_payload() {
    let payload = Dashboard {
        id: text("theirs"),
        name: text("Foo"),
        data: parse(r#"{"nodes": [1, 2], "extra": "x"}"#),
        created_at: text("2001-01-01T00:00:00.000Z"),
        updated_at: None,
    };
    let stored = import_dashboard(payload).unwrap();
    assert_eq!(stored.name, "Foo (imported)");
    assert_eq!(stored.data["nodes"], parse("[1, 2]"));
    assert_eq!(stored.data["extra"], parse(r#""x""#));
    for key in ["edges", "nodeTypes", "groups", "vms", "domains"] {
        assert_eq!(stored.data[key], Value::Array(Vec::new()), "{}", key);
    }
    assert_eq!(stored.data.as_object().unwrap().len(), 7);
}

#[test]
fn import_with_a_name_replaces_data_that_is_no_object() {
    let payload = Dashboard {
        id: text("theirs"),
        name: text("Named"),
        data: parse(r#""not-an-object""#),
        created_at: text("then"),
        updated_at: None,
    };
    let stored = import_with(text("dash-9"), text("now"), payload).unwrap();
    assert_eq!(stored.name, "Named (imported)");
    assert_eq!(stored.data, default_data());
}

#[test]
fn import_keeps_the_name_as_it_was_entered() {
    let payload = Dashboard {
        id: text("theirs"),
        name: text("  Spaced out  "),
        data: parse("[]"),
        created_at: text("then"),
        updated_at: None,
    };
    let stored = import_with(text("dash-9"), text("now"), payload).unwrap();
    assert_eq!(stored.name, "  Spaced out   (imported)");
}

#[test]
fn import_names_a_fallback_name_like_any_other() {
    let payload = Dashboard {
        id: text("theirs"),
        name: text("Imported Dashboard (imported)"),
        data: parse("{}"),
        created_at: text("then"),
        updated_at: None,
    };
    let stored = import_with(text("dash-9"), text("now"), payload).unwrap();
    assert_eq!(stored.name, "Imported Dashboard (imported) (imported)");
}

#[test]
fn import_mints_identity_and_time() {
    let payload = sample();
    let stored = import_dashboard(payload.clone()).unwrap();
    assert_ne!(stored.id, payload.id);
    assert!(stored.id.starts_with("dash-"));
    assert_eq!(stored.id.len(), 41);
    assert!(is_stamp(&stored.created_at));
    assert_eq!(stored.updated_at, Some(stored.created_at.clone()));
    assert_ne!(stored.created_at, payload.created_at);
}

#[test]
fn create_stores_what_it_is_given() {
    let request = CreateDashboardRequest {
        name: text("Mine"),
        data: Some(parse(r#"{"nodes": [{"id": 1}], "anything": true}"#)),
    };
    let created = create_with(text("dash-7"), text("2024-05-05T10:00:00.000Z"), request);
    assert_eq!(
        created,
        Dashboard {
            id: text("dash-7"),
            name: text("Mine"),
            data: parse(r#"{"nodes": [{"id": 1}], "anything": true}"#),
            created_at: text("2024-05-05T10:00:00.000Z"),
            updated_at: Some(text("2024-05-05T10:00:00.000Z")),
        }
    );
}

#[test]
fn create_takes_any_payload_as_it_is() {
    for data in ["null", "[]", "3", r#""s""#, "{}"] {
        let request = CreateDashboardRequest { name: text("n"), data: Some(parse(data)) };
        assert_eq!(create_with(text("i"), text("t"), request).data, parse(data));
    }
}

#[test]
fn create_without_payload_stores_the_default() {
    let request = CreateDashboardRequest { name: text(""), data: None };
    let created = create_dashboard(request);
    assert_eq!(created.name, "");
    assert_eq!(created.data, default_data());
    assert_eq!(
        created.data,
        parse(r#"{"nodes": [], "edges": [], "nodeTypes": [], "groups": [], "vms": [], "domains": []}"#)
    );
}

#[test]
fn create_then_get_gives_the_dashboard_back() {
    let request = CreateDashboardRequest {
        name: text("Round trip"),
        data: Some(parse(r#"{"nodes": [1, 2, 3]}"#)),
    };
    let created = create_dashboard(request);
    let fetched = get_dashboard(&created.id, FileRead::Parsed(created.clone())).unwrap();
    assert_eq!(fetched.name, "Round trip");
    assert_eq!(fetched.data, parse(r#"{"nodes": [1, 2, 3]}"#));
    assert_eq!(fetched.updated_at, Some(fetched.created_at.clone()));
    assert!(is_stamp(&fetched.created_at));
    assert!(fetched.id.starts_with("dash-"));
}

#[test]
fn create_gives_each_dashboard_its_own_identifier() {
    let a = create_dashboard(CreateDashboardRequest { name: text("a"), data: None });
    let b = create_dashboard(CreateDashboardRequest { name: text("a"), data: None });
    assert_ne!(a.id, b.id);
}

#[test]
fn update_replaces_what_is_given() {
    let request = UpdateDashboardRequest {
        name: Some(text("Renamed")),
        data: Some(parse(r#"{"edges": [9]}"#)),
    };
    let updated = update_with(sample(), request, text("2024-06-01T00:00:00.000Z"));
    assert_eq!(
        updated,
        Dashboard {
            id: text("dash-1"),
            name: text("Renamed"),
            data: parse(r#"{"edges": [9]}"#),
            created_at: text("2024-01-01T00:00:00.000Z"),
            updated_at: Some(text("2024-06-01T00:00:00.000Z")),
        }
    );
}

#[test]
fn update_of_the_name_alone_keeps_the_payload() {
    let request = UpdateDashboardRequest { name: Some(text("Renamed")), data: None };
    let updated = update_with(sample(), request, text("now"));
    assert_eq!(updated.name, "Renamed");
    assert_eq!(updated.data, sample().data);
}

#[test]
fn update_of_the_payload_alone_keeps_the_name() {
    let request = UpdateDashboardRequest { name: None, data: Some(Value::Null) };
    let updated = update_with(sample(), request, text("now"));
    assert_eq!(updated.name, "Network");
    assert_eq!(updated.data, Value::Null);
}

#[test]
fn update_without_parts_changes_the_time_alone() {
    let request = UpdateDashboardRequest { name: None, data: None };
    let updated = update_with(sample(), request, text("2024-06-01T00:00:00.000Z"));
    assert_eq!(
        updated,
        Dashboard { updated_at: Some(text("2024-06-01T00:00:00.000Z")), ..sample() }
    );
}

#[test]
fn update_stamps_the_current_time() {
    let before = get_now_iso();
    let request = UpdateDashboardRequest { name: None, data: None };
    let updated = update_dashboard("dash-1", FileRead::Parsed(sample()), request).unwrap();
    let stamp = updated.updated_at.clone().unwrap();
    assert!(is_stamp(&stamp));
    assert!(stamp >= before);
    assert!(stamp >= sample().updated_at.unwrap());
    assert_eq!(updated.name, sample().name);
    assert_eq!(updated.data, sample().data);
    assert_eq!(updated.id, sample().id);
    assert_eq!(updated.created_at, sample().created_at);
}

#[test]
fn update_sets_a_time_where_there_was_none() {
    let current = Dashboard { updated_at: None, ..sample() };
    let request = UpdateDashboardRequest { name: None, data: None };
    let updated = update_dashboard("dash-1", FileRead::Parsed(current), request).unwrap();
    assert!(updated.updated_at.is_some());
}

#[test]
fn update_of_a_missing_dashboard_is_not_found() {
    let request = UpdateDashboardRequest { name: Some(text("n")), data: None };
    assert_eq!(
        update_dashboard("dash-404", FileRead::Unreadable, request),
        Err(StoreError::NotFound { id: text("dash-404") })
    );
}

#[test]
fn update_of_a_corrupt_file_is_an_internal_error() {
    let request = UpdateDashboardRequest { name: Some(text("n")), data: None };
    assert_eq!(
        update_dashboard("dash-1", FileRead::Unparsable(text("expected value")), request),
        Err(StoreError::Internal { fault: Fault::Parse, reason: text("expected value") })
    );
}

#[test]
fn get_gives_the_dashboard_in_the_file() {
    assert_eq!(get_dashboard("dash-1", FileRead::Parsed(sample())), Ok(sample()));
}

#[test]
fn get_goes_by_the_file_not_by_the_identifier_in_it() {
    assert_eq!(get_dashboard("another", FileRead::Parsed(sample())), Ok(sample()));
}

#[test]
fn get_of_a_missing_dashboard_is_not_found() {
    let err = get_dashboard("dash-404", FileRead::Unreadable).unwrap_err();
    assert_eq!(err, StoreError::NotFound { id: text("dash-404") });
    assert_eq!(err.status(), 404);
    assert_eq!(err.message(), "Dashboard dash-404 not found");
}

#[test]
fn get_of_a_corrupt_file_is_an_internal_error() {
    let err = get_dashboard("dash-1", FileRead::Unparsable(text("missing field `name`")))
        .unwrap_err();
    assert_eq!(
        err,
        StoreError::Internal { fault: Fault::Parse, reason: text("missing field `name`") }
    );
    assert_eq!(err.status(), 500);
    assert_eq!(err.message(), "Failed to parse dashboard: missing field `name`");
}

#[test]
fn delete_succeeds_where_the_file_was_removed() {
    assert_eq!(delete_dashboard("dash-1", true), Ok(()));
}

#[test]
fn delete_of_a_missing_dashboard_is_not_found() {
    assert_eq!(
        delete_dashboard("dash-1", false),
        Err(StoreError::NotFound { id: text("dash-1") })
    );
}

#[test]
fn get_after_delete_is_not_found() {
    assert_eq!(delete_dashboard("dash-1", true), Ok(()));
    assert_eq!(
        get_dashboard("dash-1", FileRead::Unreadable),
        Err(StoreError::NotFound { id: text("dash-1") })
    );
}

#[test]
fn a_copy_of_a_dashboard_holds_the_same() {
    let first = sample();
    let copy = first.clone();
    assert_eq!(copy, first);
    assert_eq!(copy.data["nodes"], parse("[1]"));
    let file = FileRead::Parsed(sample());
    assert_eq!(file.clone(), file);
    let error = StoreError::internal(Fault::Write, "full");
    assert_eq!(error.clone(), error);
}
