use tabula::web::{put_body_kind, raw_put_content, required_field, Error, PutBody};

#[test]
fn write_body_sources() {
    assert!(matches!(put_body_kind("Multipart/Form-Data; boundary=x", 10, false), Ok(PutBody::Multipart)));
    assert!(matches!(put_body_kind("application/x-www-form-urlencoded", 0, false), Ok(PutBody::Form)));
    assert!(matches!(put_body_kind("text/plain", 0, true), Ok(PutBody::Empty)));
    match put_body_kind("", 0, false) {
        Err(Error::InvalidInput(m)) => assert_eq!(m, "empty body"),
        _ => panic!("expected an empty-body refusal"),
    }
    assert!(matches!(put_body_kind("application/json", 5, false), Ok(PutBody::Raw)));
}

#[test]
fn raw_bodies_and_fields() {
    assert_eq!(raw_put_content(b"{\"content\":\"x\"}", Some("x".to_string())), "x");
    assert_eq!(raw_put_content(b"plain \xff text", None), "plain \u{fffd} text");
    match required_field(Some("v".to_string()), "q") {
        Ok(v) => assert_eq!(v, "v"),
        Err(_) => panic!("expected the field"),
    }
    match required_field(None, "content") {
        Err(Error::InvalidInput(m)) => assert_eq!(m, "multipart field content required"),
        _ => panic!("expected a refusal"),
    }
}
