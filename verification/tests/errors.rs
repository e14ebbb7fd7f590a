use meilisearch_sdk::errors::{
    describe_http, describe_unknown, ClientError, INDEX_ALREADY_EXISTS_BODY, INDEX_PREFIX,
    INVALID_INDEX_UID_BODY, MAINTENANCE_PREFIX, NOT_FOUND_SUFFIX, NO_PRIMARY_KEY_BODY,
};

fn failure_without_status() -> reqwest::Error {
    let request = http::Request::builder().uri("/no-host").body("").unwrap();
    match reqwest::Request::try_from(request) {
        Ok(_) => panic!("a relative address was accepted"),
        Err(error) => error,
    }
}

fn failure_with_status(code: u16) -> reqwest::Error {
    let response = http::Response::builder().status(code).body("").unwrap();
    match reqwest::Response::from(response).error_for_status() {
        Ok(_) => panic!("status {} was taken for a success", code),
        Err(error) => error,
    }
}

#[test]
fn classifies_index_already_exists() {
    let failure =
        ClientError::from("{\"message\":\"Impossible to create index; index already exists\"}");
    assert!(matches!(failure, ClientError::IndexAlreadyExist));
    assert!(matches!(ClientError::from(INDEX_ALREADY_EXISTS_BODY), ClientError::IndexAlreadyExist));
}

#[test]
fn classifies_invalid_index_uid() {
    let failure = ClientError::from(
        "{\"message\":\"Index must have a valid uid; Index uid can be of type integer or string only composed of alphanumeric characters, hyphens (-) and underscores (_).\"}",
    );
    assert!(matches!(failure, ClientError::InvalidIndexUid));
    assert!(matches!(ClientError::from(INVALID_INDEX_UID_BODY), ClientError::InvalidIndexUid));
}

#[test]
fn classifies_missing_primary_key() {
    let failure = ClientError::from("{\"message\":\"Could not infer a primary key\"}");
    assert!(matches!(failure, ClientError::CantInferPrimaryKey));
    assert!(matches!(ClientError::from(NO_PRIMARY_KEY_BODY), ClientError::CantInferPrimaryKey));
}

#[test]
fn classifies_maintenance_by_prefix() {
    let exact = ClientError::from(
        "{\"message\":\"Server is in maintenance, please try again later\"}",
    );
    assert!(matches!(exact, ClientError::ServerInMaintenance));
    let longer = ClientError::from(
        "{\"message\":\"Server is in maintenance, please try again later\",\"errorCode\":\"maintenance\"}",
    );
    assert!(matches!(longer, ClientError::ServerInMaintenance));
    assert!(matches!(ClientError::from(MAINTENANCE_PREFIX), ClientError::ServerInMaintenance));
}

#[test]
fn classifies_index_not_found() {
    let failure = ClientError::from("{\"message\":\"Index abc not found\"}");
    assert!(matches!(failure, ClientError::IndexNotFound));
    let accented = ClientError::from("{\"message\":\"Index caf\u{e9}\u{1F600} not found\"}");
    assert!(matches!(accented, ClientError::IndexNotFound));
}

#[test]
fn index_not_found_accepts_overlapping_prefix_and_suffix() {
    // The prefix ends with the space that the suffix starts with.
    let body = "{\"message\":\"Index not found\"}";
    assert!(body.starts_with(INDEX_PREFIX) && body.ends_with(NOT_FOUND_SUFFIX));
    assert!(matches!(ClientError::from(body), ClientError::IndexNotFound));
}

#[test]
fn index_not_found_needs_prefix_and_suffix() {
    match ClientError::from("{\"message\":\"Index abc not found\"} ") {
        ClientError::Unknown(text) => assert_eq!(text, "{\"message\":\"Index abc not found\"} "),
        other => panic!("unexpected {:?}", other),
    }
    match ClientError::from("{\"message\":\"Document abc not found\"}") {
        ClientError::Unknown(text) => assert_eq!(text, "{\"message\":\"Document abc not found\"}"),
        other => panic!("unexpected {:?}", other),
    }
    match ClientError::from(" not found\"}") {
        ClientError::Unknown(text) => assert_eq!(text, " not found\"}"),
        other => panic!("unexpected {:?}", other),
    }
}

#[test]
fn keeps_unrecognised_body_whole() {
    match ClientError::from("{\"message\":\"teapot\"}") {
        ClientError::Unknown(text) => assert_eq!(text, "{\"message\":\"teapot\"}"),
        other => panic!("unexpected {:?}", other),
    }
}

#[test]
fn unknown_for_empty_and_near_miss_bodies() {
    match ClientError::from("") {
        ClientError::Unknown(text) => assert_eq!(text, ""),
        other => panic!("unexpected {:?}", other),
    }
    // One character short of a known body.
    match ClientError::from("{\"message\":\"Could not infer a primary key\"") {
        ClientError::Unknown(text) => {
            assert_eq!(text, "{\"message\":\"Could not infer a primary key\"")
        }
        other => panic!("unexpected {:?}", other),
    }
    // A known body with something after it.
    match ClientError::from("{\"message\":\"Could not infer a primary key\"}\n") {
        ClientError::Unknown(text) => {
            assert_eq!(text, "{\"message\":\"Could not infer a primary key\"}\n")
        }
        other => panic!("unexpected {:?}", other),
    }
    match ClientError::from("{\"message\":\"server is in maintenance, please try again later\"}") {
        ClientError::Unknown(_) => {}
        other => panic!("unexpected {:?}", other),
    }
}

#[test]
fn known_shapes_exclude_one_another() {
    let bodies = [
        INDEX_ALREADY_EXISTS_BODY.to_string(),
        INVALID_INDEX_UID_BODY.to_string(),
        NO_PRIMARY_KEY_BODY.to_string(),
        format!("{}{}", MAINTENANCE_PREFIX, "}"),
        format!("{}abc{}", INDEX_PREFIX, NOT_FOUND_SUFFIX),
    ];
    for body in bodies.iter() {
        let shapes = [
            body == INDEX_ALREADY_EXISTS_BODY,
            body == INVALID_INDEX_UID_BODY,
            body == NO_PRIMARY_KEY_BODY,
            body.starts_with(MAINTENANCE_PREFIX),
            body.starts_with(INDEX_PREFIX) && body.ends_with(NOT_FOUND_SUFFIX),
        ];
        assert_eq!(shapes.iter().filter(|shape| **shape).count(), 1);
    }
}

#[test]
fn transport_failure_without_status_is_unreachable_server() {
    let error = failure_without_status();
    assert!(error.status().is_none());
    assert!(matches!(ClientError::from(error), ClientError::UnreachableServer));
}

#[test]
fn transport_failure_with_status_is_http() {
    let error = failure_with_status(404);
    assert_eq!(error.status().map(|code| code.as_u16()), Some(404));
    match ClientError::from(error) {
        ClientError::Http(inner) => assert_eq!(inner.status().map(|code| code.as_u16()), Some(404)),
        other => panic!("unexpected {:?}", other),
    }
    assert!(matches!(ClientError::from(failure_with_status(500)), ClientError::Http(_)));
}

#[test]
fn from_transport_goes_by_the_given_status() {
    assert!(matches!(
        ClientError::from_transport(None, failure_with_status(404)),
        ClientError::UnreachableServer
    ));
    assert!(matches!(
        ClientError::from_transport(Some(503), failure_without_status()),
        ClientError::Http(_)
    ));
}

#[test]
fn describes_fixed_failures() {
    assert_eq!(
        ClientError::UnreachableServer.describe(),
        "Error::UnreachableServer: The MeiliSearch server can't be reached."
    );
    assert_eq!(
        ClientError::IndexAlreadyExist.describe(),
        "Error::IndexAlreadyExist: The creation of an index failed because it already exists."
    );
    assert_eq!(
        ClientError::IndexNotFound.describe(),
        "Error::IndexNotFound: The requested index does not exist."
    );
    assert_eq!(
        ClientError::InvalidIndexUid.describe(),
        "Error::InvalidIndexUid: The requested UID is invalid. Index UID can only be composed of alphanumeric characters, hyphens (-), and underscores (_)."
    );
    assert_eq!(
        ClientError::CantInferPrimaryKey.describe(),
        "Error::CantInferPrimaryKey: MeiliSearch was unable to infer the primary key of added documents."
    );
    assert_eq!(
        ClientError::ServerInMaintenance.describe(),
        "Error::ServerInMaintenance: Server is in maintenance, please try again later."
    );
}

#[test]
fn describes_unknown_with_quoted_message() {
    assert_eq!(
        ClientError::Unknown("tea\"pot\n".to_string()).describe(),
        "Error::Unknown: An unknown error occured. Please open an issue (https://github.com/Mubelotix/meilisearch-sdk/issues). Message: \"tea\\\"pot\\n\""
    );
    assert_eq!(
        ClientError::from("{\"message\":\"teapot\"}").describe(),
        "Error::Unknown: An unknown error occured. Please open an issue (https://github.com/Mubelotix/meilisearch-sdk/issues). Message: \"{\\\"message\\\":\\\"teapot\\\"}\""
    );
}

#[test]
fn describes_http_with_the_clients_account() {
    let error = failure_with_status(404);
    let detail = format!("{:?}", error);
    let text = ClientError::from(error).describe();
    assert_eq!(text, format!("Error::Http: The http request failed: {}.", detail));
    assert!(text.contains("reqwest::Error"));
    assert!(text.contains("404"));
}

#[test]
fn describe_http_frames_the_detail() {
    assert_eq!(describe_http("timeout"), "Error::Http: The http request failed: timeout.");
    assert_eq!(describe_http(""), "Error::Http: The http request failed: .");
}

#[test]
fn describe_unknown_frames_the_quoted_message() {
    assert_eq!(
        describe_unknown("\"teapot\""),
        "Error::Unknown: An unknown error occured. Please open an issue (https://github.com/Mubelotix/meilisearch-sdk/issues). Message: \"teapot\""
    );
    assert_eq!(
        describe_unknown(""),
        "Error::Unknown: An unknown error occured. Please open an issue (https://github.com/Mubelotix/meilisearch-sdk/issues). Message: "
    );
}
