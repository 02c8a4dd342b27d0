use aster::boundary::EffectRequest;
use aster::evaluation::EffectKind;
use aster::fixture::{DriverError, FixtureDriver, FixtureEntry, FixtureSet, is_json_subset};
use aster::json_value::JsonValue;

fn text(value: &str) -> JsonValue {
    JsonValue::String(value.to_owned())
}

fn object(members: &[(&str, JsonValue)]) -> JsonValue {
    JsonValue::Object(
        members
            .iter()
            .map(|(key, value)| ((*key).to_owned(), value.clone()))
            .collect(),
    )
}

fn request(identity: &str, payload: JsonValue) -> EffectRequest {
    EffectRequest {
        kind: EffectKind::Model,
        identity: identity.to_owned(),
        payload,
        request_hash: "request-001".to_owned(),
    }
}

fn entry(match_request: JsonValue, response: JsonValue) -> FixtureEntry {
    FixtureEntry {
        kind: EffectKind::Model,
        identity: "Parse".to_owned(),
        match_request,
        response,
        max_usage: vec![("model_tokens".to_owned(), 5)],
        actual_usage: vec![("model_tokens".to_owned(), 3)],
    }
}

#[test]
fn fixture_actual_usage_above_maximum_is_rejected_after_one_driver_call() {
    let request = EffectRequest {
        kind: EffectKind::Model,
        identity: "Parse".to_owned(),
        payload: object(&[("model_alias", text("planner"))]),
        request_hash: "request-001".to_owned(),
    };
    let mut driver = FixtureDriver::new(FixtureSet {
        schema_version: 1,
        entries: vec![FixtureEntry {
            kind: EffectKind::Model,
            identity: "Parse".to_owned(),
            match_request: object(&[("model_alias", text("planner"))]),
            response: object(&[("value", text("answer"))]),
            max_usage: vec![("model_tokens".to_owned(), 5)],
            actual_usage: vec![("model_tokens".to_owned(), 6)],
        }],
    })
    .expect("fixture set is structurally valid");
    let preview = driver.preview(&request).expect("fixture matches");
    assert_eq!(driver.resolve(&request, &preview), Err(DriverError::ActualExceedsMaximum));
    assert_eq!(driver.call_count(EffectKind::Model), 1);
}

#[test]
fn matched_fixture_resolves_once_with_its_response_and_usage() {
    let payload = object(&[("model_alias", text("planner")), ("data", object(&[("x", JsonValue::Int(1))]))]);
    let mut driver = FixtureDriver::new(FixtureSet {
        schema_version: 1,
        entries: vec![entry(object(&[("model_alias", text("planner"))]), text("answer"))],
    })
    .unwrap();
    let call = request("Parse", payload);
    let preview = driver.preview(&call).expect("fixture matches");
    assert_eq!(preview.max_usage, vec![("model_tokens".to_owned(), 5)]);
    let resolution = driver.resolve(&call, &preview).expect("fixture resolves");
    assert_eq!(resolution.request_hash, "request-001");
    assert_eq!(resolution.payload, text("answer"));
    assert_eq!(resolution.actual_usage, vec![("model_tokens".to_owned(), 3)]);
    assert_eq!(driver.call_count(EffectKind::Model), 1);
    assert_eq!(driver.call_count(EffectKind::Write), 0);
    assert_eq!(driver.preview(&call), Err(DriverError::NoMatchingFixture));
    assert_eq!(driver.resolve(&call, &preview), Err(DriverError::PreviewMismatch));
}

#[test]
fn fixture_sets_must_be_versioned_and_explicit() {
    let wrong = FixtureSet { schema_version: 2, entries: vec![] };
    assert_eq!(FixtureDriver::new(wrong).err(), Some(DriverError::SchemaMismatch));
    let loose = FixtureSet { schema_version: 1, entries: vec![entry(object(&[]), JsonValue::Null)] };
    assert_eq!(FixtureDriver::new(loose).err(), Some(DriverError::LooseFixture));
    let scalar = FixtureSet { schema_version: 1, entries: vec![entry(text("x"), JsonValue::Null)] };
    assert_eq!(FixtureDriver::new(scalar).err(), Some(DriverError::LooseFixture));
    assert_eq!(DriverError::AmbiguousFixture.message(), "fixture request match is ambiguous");
}

#[test]
fn different_matches_for_one_request_are_ambiguous() {
    let driver = FixtureDriver::new(FixtureSet {
        schema_version: 1,
        entries: vec![
            entry(object(&[("model_alias", text("planner"))]), text("one")),
            entry(object(&[("prompt", text("Parse"))]), text("two")),
        ],
    })
    .unwrap();
    let call = request("Parse", object(&[("model_alias", text("planner")), ("prompt", text("Parse"))]));
    assert_eq!(driver.preview(&call), Err(DriverError::AmbiguousFixture));
    let identical = FixtureDriver::new(FixtureSet {
        schema_version: 1,
        entries: vec![
            entry(object(&[("model_alias", text("planner"))]), text("one")),
            entry(object(&[("model_alias", text("planner"))]), text("two")),
        ],
    })
    .unwrap();
    assert!(identical.preview(&call).is_ok());
    assert_eq!(
        driver.preview(&request("Other", object(&[("model_alias", text("planner"))]))),
        Err(DriverError::NoMatchingFixture)
    );
}

#[test]
fn json_subset_recurses_through_objects_and_arrays() {
    let actual = object(&[
        ("a", JsonValue::Array(vec![JsonValue::Int(1), object(&[("b", JsonValue::Bool(true)), ("c", JsonValue::Null)])])),
        ("d", text("x")),
    ]);
    let expected = object(&[("a", JsonValue::Array(vec![JsonValue::Int(1), object(&[("b", JsonValue::Bool(true))])]))]);
    assert!(is_json_subset(&expected, &actual));
    let shorter = object(&[("a", JsonValue::Array(vec![JsonValue::Int(1)]))]);
    assert!(!is_json_subset(&shorter, &actual));
    let missing = object(&[("e", JsonValue::Null)]);
    assert!(!is_json_subset(&missing, &actual));
    assert!(is_json_subset(&text("x"), &text("x")));
    assert!(!is_json_subset(&JsonValue::Int(1), &text("1")));
}
