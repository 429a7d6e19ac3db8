use tabula::claims::{group_name_prefix, normalize_groups_from_claim, ordered_jwks};
use tabula::json::{JsonNumber, JsonValue};
use tabula::web::Error;

fn s(x: &str) -> JsonValue {
    JsonValue::String(x.to_string())
}

fn claims(field: &str, v: JsonValue) -> JsonValue {
    JsonValue::Object(vec![("sub".to_string(), s("u1")), (field.to_string(), v)])
}

fn unauthorized(r: Result<Vec<String>, Error>) -> String {
    match r {
        Err(Error::Unauthorized(m)) => m,
        _ => panic!("expected an unauthorized error"),
    }
}

#[test]
fn groups_from_array_and_string() {
    let c = claims("groups", JsonValue::Array(vec![s(" ops "), s(""), s("dev")]));
    assert_eq!(normalize_groups_from_claim(&c, "groups", None).unwrap(), vec!["ops", "dev"]);
    let c = claims("groups", s("a, b,,  c "));
    assert_eq!(normalize_groups_from_claim(&c, "groups", None).unwrap(), vec!["a", "b", "c"]);
}

#[test]
fn groups_prefix_filters_and_strips() {
    let c = claims("groups", JsonValue::Array(vec![s("tb-ops"), s("other"), s("tb- dev"), s("tb-")]));
    assert_eq!(normalize_groups_from_claim(&c, "groups", Some("tb-")).unwrap(), vec!["ops", "dev"]);
}

#[test]
fn groups_refusals() {
    let c = claims("groups", s("a"));
    assert_eq!(
        unauthorized(normalize_groups_from_claim(&c, "", None)),
        "[oidc].groups_field must not be empty"
    );
    assert_eq!(
        unauthorized(normalize_groups_from_claim(&c, "roles", None)),
        "missing JWT claim `roles` for ACL mapping"
    );
    let n = JsonValue::Number(JsonNumber { text: "1".to_string(), as_u64: Some(1) });
    let c = claims("groups", JsonValue::Array(vec![s("a"), n]));
    assert_eq!(
        unauthorized(normalize_groups_from_claim(&c, "groups", None)),
        "JWT `groups` entries must be strings (got non-string array element)"
    );
    let c = claims("groups", JsonValue::Bool(true));
    assert_eq!(
        unauthorized(normalize_groups_from_claim(&c, "groups", None)),
        "JWT `groups` must be a JSON array of strings or a comma-separated string"
    );
}

#[test]
fn group_prefix_is_trimmed() {
    assert_eq!(group_name_prefix(Some("  tb- ")), Some("tb-".to_string()));
    assert_eq!(group_name_prefix(Some("   ")), None);
    assert_eq!(group_name_prefix(None), None);
}

#[test]
fn named_keys_are_tried_first() {
    let ids = vec![Some("a".to_string()), None, Some("b".to_string()), Some("b".to_string())];
    assert_eq!(ordered_jwks(&ids, Some("b")), vec![2, 3, 0, 1]);
    assert_eq!(ordered_jwks(&ids, None), vec![0, 1, 2, 3]);
    assert_eq!(ordered_jwks(&ids, Some("z")), vec![0, 1, 2, 3]);
}
