use minihttp::StatusCode;

#[test]
fn as_tuple_gives_code_and_reason() {
    assert_eq!(StatusCode::OK.as_tuple(), (200, "Ok"));
    assert_eq!(StatusCode::NotFound.as_tuple(), (404, "NotFound"));
    assert_eq!(StatusCode::RequestTimeout.as_tuple(), (408, "RequestTimeout"));
    assert_eq!(
        StatusCode::HTTPVersionNotSupported.as_tuple(),
        (505, "HTTPVersionNotSupported")
    );
    assert_eq!(StatusCode::Other(299).as_tuple(), (299, "Unknown"));
}

#[test]
fn message_and_code_split_the_tuple() {
    assert_eq!(StatusCode::BadRequest.code(), 400);
    assert_eq!(StatusCode::BadRequest.message(), "BadRequest");
    assert_eq!(StatusCode::InternalServerError.code(), 500);
}

#[test]
fn from_code_maps_known_and_unknown_codes() {
    assert_eq!(StatusCode::from_code(200), StatusCode::OK);
    assert_eq!(StatusCode::from_code(301), StatusCode::MovedPermanently);
    assert_eq!(StatusCode::from_code(511), StatusCode::NetworkAuthenticationRequired);
    assert_eq!(StatusCode::from_code(299), StatusCode::Other(299));
    assert_eq!(StatusCode::from(404u16), StatusCode::NotFound);
}

#[test]
fn try_from_parses_decimal_status_strings() {
    assert_eq!(StatusCode::try_from("200"), Ok(StatusCode::OK));
    assert_eq!(StatusCode::try_from("505"), Ok(StatusCode::HTTPVersionNotSupported));
    assert_eq!(StatusCode::try_from("299"), Err("299".to_string()));
    assert_eq!(StatusCode::try_from("abc"), Err("abc".to_string()));
    assert_eq!(StatusCode::try_from(""), Err("".to_string()));
    assert_eq!(StatusCode::try_from("99999"), Err("99999".to_string()));
}

#[test]
fn default_status_is_ok() {
    assert_eq!(StatusCode::default(), StatusCode::OK);
}
