use minitube::error::Error;

#[test]
fn constructors_carry_their_detail() {
    let e = Error::invalid_route("/nope".to_string());
    assert!(matches!(&e, Error::InvalidRoute { route } if route == "/nope"));
    assert_eq!(e.info(), "/nope");

    let e = Error::invalid_request("bad body".to_string());
    assert!(matches!(&e, Error::InvalidRequest { info } if info == "bad body"));

    let e = Error::internal_error("boom".to_string());
    assert!(matches!(&e, Error::InternalError { info } if info == "boom"));
}

#[test]
fn status_codes_follow_the_taxonomy() {
    assert_eq!(Error::invalid_route("/x".to_string()).status_code(), 404);
    assert_eq!(Error::invalid_request("x".to_string()).status_code(), 400);
    assert_eq!(Error::internal_error("x".to_string()).status_code(), 500);
    assert_eq!(Error::StoreError { info: "x".to_string() }.status_code(), 500);
    assert_eq!(Error::ProviderError { info: "x".to_string() }.status_code(), 500);
}

#[test]
fn error_types_follow_the_taxonomy() {
    assert_eq!(Error::invalid_route("/x".to_string()).error_type(), "invalid_route");
    assert_eq!(Error::invalid_request("x".to_string()).error_type(), "invalid_request");
    assert_eq!(Error::internal_error("x".to_string()).error_type(), "internal_error");
    assert_eq!(Error::StoreError { info: "x".to_string() }.error_type(), "internal_error");
    assert_eq!(Error::ProviderError { info: "x".to_string() }.error_type(), "internal_error");
}
