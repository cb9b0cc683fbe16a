use reli::base::json::JsonValue;
use reli::base::schema_compat::{assert_backward_compatible_schema, assert_backward_compatible_schema_values};
use reli::base::validation::ValidationIssue;

fn s(text: &str) -> JsonValue {
    JsonValue::Str(text.to_string())
}

fn arr(items: Vec<JsonValue>) -> JsonValue {
    JsonValue::Array(items)
}

fn obj(members: Vec<(&str, JsonValue)>) -> JsonValue {
    JsonValue::Object(members.into_iter().map(|(k, v)| (k.to_string(), v)).collect())
}

fn typed(t: &str) -> JsonValue {
    obj(vec![("type", s(t))])
}

/// The v1 job specification schema: the fields of a job spec, all required.
fn job_spec_v1(extra_required: &[&str], extra_props: Vec<(&str, JsonValue)>, privacy: &[&str]) -> JsonValue {
    let mut required = vec![
        "job_id",
        "requester",
        "input_ref",
        "input_schema",
        "algorithm_profile",
        "metric_profile",
        "min_worker_stake",
        "reward_pool",
        "commit_deadline_epoch_ms",
        "reveal_deadline_epoch_ms",
        "verify_deadline_epoch_ms",
        "finalize_deadline_epoch_ms",
        "privacy_mode",
    ];
    required.extend_from_slice(extra_required);
    let mut props = vec![
        ("job_id", typed("string")),
        ("requester", typed("string")),
        ("input_ref", typed("object")),
        ("input_schema", typed("string")),
        ("algorithm_profile", typed("string")),
        ("metric_profile", typed("string")),
        ("min_worker_stake", typed("integer")),
        ("reward_pool", typed("integer")),
        ("commit_deadline_epoch_ms", typed("integer")),
        ("reveal_deadline_epoch_ms", typed("integer")),
        ("verify_deadline_epoch_ms", typed("integer")),
        ("finalize_deadline_epoch_ms", typed("integer")),
        (
            "privacy_mode",
            obj(vec![("type", s("string")), ("enum", arr(privacy.iter().map(|p| s(p)).collect()))]),
        ),
    ];
    props.extend(extra_props);
    obj(vec![
        ("$schema", s("https://json-schema.org/draft/2020-12/schema")),
        ("title", s("JobSpec")),
        ("type", s("object")),
        ("required", arr(required.into_iter().map(s).collect())),
        ("properties", obj(props)),
        ("additionalProperties", JsonValue::Bool(false)),
    ])
}

fn baseline() -> JsonValue {
    job_spec_v1(&[], vec![], &["public", "private"])
}

#[test]
fn job_spec_compatible_candidate_passes() {
    let candidate = job_spec_v1(&[], vec![("notes", typed("string"))], &["public", "private", "confidential"]);
    assert!(assert_backward_compatible_schema(Ok(baseline()), Ok(candidate)).is_ok());
}

#[test]
fn job_spec_breaking_candidate_fails() {
    let candidate = job_spec_v1(&["priority"], vec![("priority", typed("integer"))], &["public", "private"]);
    let err = assert_backward_compatible_schema(Ok(baseline()), Ok(candidate))
        .expect_err("breaking candidate should fail compatibility");
    assert!(err.details.contains("adds new required fields"));
}

fn issue_of(b: &JsonValue, c: &JsonValue) -> (String, String) {
    let err = assert_backward_compatible_schema_values(b, c).expect_err("should fail");
    (err.target, err.details)
}

#[test]
fn new_required_fields_are_listed_sorted_once() {
    let candidate = job_spec_v1(&["zeta", "alpha", "zeta"], vec![], &["public", "private"]);
    assert_eq!(
        issue_of(&baseline(), &candidate),
        (
            "schema.required".to_string(),
            "candidate adds new required fields and breaks backward compatibility: alpha, zeta".to_string()
        )
    );
}

#[test]
fn schema_is_compatible_with_itself() {
    assert!(assert_backward_compatible_schema_values(&baseline(), &baseline()).is_ok());
}

#[test]
fn non_object_schemas_are_refused() {
    let b = obj(vec![("type", s("array"))]);
    assert_eq!(
        issue_of(&b, &baseline()),
        ("schema.type".to_string(), "both schemas must be object schemas".to_string())
    );
}

#[test]
fn required_list_must_be_strings() {
    let b = obj(vec![("type", s("object")), ("required", arr(vec![JsonValue::PosInt(3)]))]);
    assert_eq!(
        issue_of(&b, &baseline()),
        ("schema.required".to_string(), "required entry must be string".to_string())
    );
    let b = obj(vec![("type", s("object"))]);
    assert_eq!(
        issue_of(&b, &baseline()),
        ("schema.required".to_string(), "missing or invalid required array".to_string())
    );
}

#[test]
fn removed_property_changed_type_and_removed_enum_value_are_reported() {
    let mut candidate = job_spec_v1(&[], vec![], &["public", "private"]);
    if let JsonValue::Object(members) = &mut candidate {
        for (key, value) in members.iter_mut() {
            if key == "properties" {
                if let JsonValue::Object(props) = value {
                    props.retain(|(name, _)| name != "requester" && name != "job_id");
                }
            }
        }
    }
    assert_eq!(
        issue_of(&baseline(), &candidate),
        ("schema.properties.job_id".to_string(), "candidate removed existing property".to_string())
    );

    let candidate = job_spec_v1(&[], vec![("reward_pool", typed("string"))], &["public", "private"]);
    assert_eq!(
        issue_of(&baseline(), &candidate),
        ("schema.properties.reward_pool.type".to_string(), "candidate changed property type".to_string())
    );

    let candidate = job_spec_v1(&[], vec![], &["public"]);
    assert_eq!(
        issue_of(&baseline(), &candidate),
        ("schema.properties.privacy_mode.enum".to_string(), "candidate removed existing enum values".to_string())
    );
}

#[test]
fn tightening_additional_properties_is_reported() {
    let open = obj(vec![
        ("type", s("object")),
        ("required", arr(vec![])),
        ("properties", obj(vec![])),
        ("additionalProperties", JsonValue::Bool(true)),
    ]);
    let closed = obj(vec![
        ("type", s("object")),
        ("required", arr(vec![])),
        ("properties", obj(vec![])),
        ("additionalProperties", JsonValue::Bool(false)),
    ]);
    assert_eq!(
        issue_of(&open, &closed),
        (
            "schema.additionalProperties".to_string(),
            "candidate tightens additionalProperties from true to false".to_string()
        )
    );
    assert!(assert_backward_compatible_schema_values(&closed, &open).is_ok());
}

#[test]
fn failed_reads_are_reported_first() {
    let issue = ValidationIssue { target: "a.json".to_string(), details: "read failed: gone".to_string() };
    let err = assert_backward_compatible_schema(Err(issue), Ok(baseline())).expect_err("read failure");
    assert_eq!(err.target, "a.json");
    let issue = ValidationIssue { target: "b.json".to_string(), details: "invalid json: x".to_string() };
    let err = assert_backward_compatible_schema(Ok(baseline()), Err(issue)).expect_err("read failure");
    assert_eq!(err.details, "invalid json: x");
}
