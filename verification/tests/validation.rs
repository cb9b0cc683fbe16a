use reli::base::validation::{
    build_sample_candidate_submission, build_sample_challenge_record, build_sample_job_spec,
    build_sample_soft_evidence_bundle, build_sample_verification_record, is_fixture_name, parse_json_document,
    phase0_summary, schema_failure, validate_file_against_schema, validate_sample_object, ValidationIssue,
    ValidationSummary,
};
use reli::text::push_json_string;
use reli::verifiers::Verifier;

const SCHEMA: &str = r#"{"type":"object","required":["job_id"],"properties":{"job_id":{"type":"string"}}}"#;

fn schema() -> Result<String, ValidationIssue> {
    Ok(SCHEMA.to_string())
}

fn validator_messages(schema_text: &str, instance_text: &str) -> Vec<String> {
    let schema_doc: serde_json::Value = serde_json::from_str(schema_text).expect("schema json");
    let instance: serde_json::Value = serde_json::from_str(instance_text).expect("instance json");
    let compiled = jsonschema::JSONSchema::compile(&schema_doc).expect("compiles");
    let messages: Vec<String> = match compiled.validate(&instance) {
        Ok(()) => Vec::new(),
        Err(errors) => errors.map(|e| e.to_string()).collect(),
    };
    messages
}

fn parse_message(text: &str) -> String {
    serde_json::from_str::<serde_json::Value>(text).expect_err("not json").to_string()
}

#[test]
fn sample_object_passes_or_reports_under_its_label() {
    assert!(validate_sample_object("s.json", schema(), r#"{"job_id":"j"}"#, "sample").is_ok());
    let err = validate_sample_object("s.json", schema(), r#"{"job_id":7}"#, "sample").expect_err("invalid");
    assert_eq!(err.target, "sample");
    assert!(!err.details.is_empty());
    assert_eq!(err.details, validator_messages(SCHEMA, r#"{"job_id":7}"#).join("; "));
    let err = validate_sample_object("s.json", schema(), "{}", "sample").expect_err("missing member");
    assert_eq!(err.details, validator_messages(SCHEMA, "{}").join("; "));
    let err = validate_sample_object("s.json", schema(), "{oops", "sample").expect_err("not json");
    assert_eq!(err.target, "sample");
    assert_eq!(err.details, parse_message("{oops"));
}

#[test]
fn invalid_schema_is_reported_under_the_schema_path() {
    let err = validate_sample_object("bad.json", Ok(r#"{"type":12}"#.to_string()), "{}", "sample").expect_err("compile error");
    assert_eq!(err.target, "bad.json");
    assert!(err.details.starts_with("invalid schema: "));
    assert!(err.details.len() > "invalid schema: ".len());
    let err = validate_sample_object("bad.json", Ok("{\"type\":".to_string()), "{}", "sample").expect_err("not json");
    assert_eq!(err.target, "bad.json");
    assert_eq!(err.details, format!("invalid json: {}", parse_message("{\"type\":")));
    let unread = ValidationIssue::new("bad.json".to_string(), "read failed: gone".to_string());
    let err = validate_sample_object("bad.json", Err(unread), "{}", "sample").expect_err("unread");
    assert_eq!(err.details, "read failed: gone");
}

#[test]
fn file_validation_reports_reads_and_failures() {
    let read_failure = ValidationIssue::new("t.json".to_string(), "read failed: missing".to_string());
    let err = validate_file_against_schema("s.json", schema(), "t.json", Err(read_failure)).expect_err("read");
    assert_eq!(err.details, "read failed: missing");
    let err = validate_file_against_schema("s.json", schema(), "t.json", Ok("{}".to_string())).expect_err("invalid");
    assert_eq!(err.target, "t.json");
    assert!(err.details.starts_with("schema validation failed: "));
    assert_eq!(err.details, format!("schema validation failed: {}", validator_messages(SCHEMA, "{}").join("; ")));
    assert!(validate_file_against_schema("s.json", schema(), "t.json", Ok(r#"{"job_id":"x"}"#.to_string())).is_ok());
    let err = validate_file_against_schema("s.json", schema(), "t.json", Ok("[1,".to_string())).expect_err("not json");
    assert_eq!(err.target, "t.json");
    assert_eq!(err.details, format!("invalid json: {}", parse_message("[1,")));
    let schema_unread = ValidationIssue::new("s.json".to_string(), "read failed: no schema".to_string());
    let err = validate_file_against_schema("s.json", Err(schema_unread), "t.json", Ok("{}".to_string())).expect_err("schema");
    assert_eq!(err.details, "read failed: no schema");
}

#[test]
fn json_documents_are_checked() {
    assert!(parse_json_document("d.json", r#"{"a":[1,2,{"b":null}]}"#).is_ok());
    let err = parse_json_document("d.json", "[1,2").expect_err("truncated");
    assert_eq!(err.target, "d.json");
    assert_eq!(err.details, format!("invalid json: {}", parse_message("[1,2")));
}

#[test]
fn fixture_names_end_in_fixture_json() {
    assert!(is_fixture_name("viterbi_basic.fixture.json"));
    assert!(is_fixture_name(".fixture.json"));
    assert!(!is_fixture_name("fixture.json"));
    assert!(!is_fixture_name("viterbi.fixture.jsonx"));
    assert!(!is_fixture_name("README.md"));
    assert!(!is_fixture_name(""));
}

fn issue(target: &str, details: &str) -> ValidationIssue {
    ValidationIssue::new(target.to_string(), details.to_string())
}

#[test]
fn phase0_summary_counts_checks_and_reports_the_first_failure() {
    let summary = phase0_summary(vec![Ok(()); 14], Ok(()), Err(issue("b", "breaks")), "b.json", vec![Ok(()); 3])
        .expect("all pass");
    assert_eq!(summary.checked, 19);
    let err = phase0_summary(
        vec![Ok(()), Err(issue("s1", "first")), Err(issue("s2", "second"))],
        Err(issue("c", "compat")),
        Ok(()),
        "b.json",
        vec![],
    )
    .expect_err("sample fails");
    assert_eq!((err.target.as_str(), err.details.as_str()), ("s1", "first"));
    let err = phase0_summary(vec![Ok(())], Err(issue("c", "compat")), Ok(()), "b.json", vec![]).expect_err("compat");
    assert_eq!(err.target, "c");
    let err = phase0_summary(vec![Ok(())], Ok(()), Ok(()), "b.json", vec![Err(issue("f", "fixture"))]).expect_err("breaking");
    assert_eq!(err.target, "b.json");
    assert_eq!(err.details, "expected breaking candidate to fail compatibility check");
    let err = phase0_summary(vec![], Ok(()), Err(issue("b", "breaks")), "b.json", vec![Ok(()), Err(issue("f", "fixture"))])
        .expect_err("fixture");
    assert_eq!(err.target, "f");
}

#[test]
fn validator_messages_are_joined() {
    assert!(schema_failure("t", vec![]).is_ok());
    let err = schema_failure("t", vec!["a".to_string(), "b".to_string()]).expect_err("messages");
    assert_eq!(err.details, "schema validation failed: a; b");
}

#[test]
fn sample_records_are_well_formed() {
    assert!(Verifier::validate_submission(&build_sample_candidate_submission()).is_ok());
    assert!(Verifier::validate_verification_record(&build_sample_verification_record()).is_ok());
    let challenge = build_sample_challenge_record();
    assert!(Verifier::validate_challenge_record(&challenge, |_r: u64, _q: u64| false).is_ok());
    assert_eq!(build_sample_job_spec().job_id, "job-sample-0001");
    let bundle = build_sample_soft_evidence_bundle();
    assert_eq!(f64::from_bits(bundle.confidence_score_bits), 0.875);
    assert_eq!(f64::from_bits(bundle.residual_score_bits), 0.125);
    assert_eq!(ValidationSummary::default().checked, 0);
}

#[test]
fn json_strings_are_escaped_like_serde_json() {
    for text in ["plain", "quote\"back\\slash", "tab\tnl\ncr\rbs\u{8}ff\u{c}", "ctl\u{1}\u{1f}", "unicode é ✓"] {
        let mut out = Vec::new();
        push_json_string(&mut out, text);
        assert_eq!(String::from_utf8(out).expect("utf8"), serde_json::to_string(text).expect("json"));
    }
}

#[test]
fn schemas_with_references_are_refused_before_validation() {
    let unsupported = "unsupported schema: $ref is not followed";
    for schema_text in [
        r##"{"$ref": "#"}"##,
        r##"{"definitions":{"a":{"$ref":"#/definitions/a"}},"$ref":"#/definitions/a"}"##,
        r##"{"properties":{"x":{"\u0024ref":"#"}}}"##,
        r##"{"properties":{"id":{"$ref":"#/definitions/id"}},"definitions":{"id":{"type":"string"}}}"##,
    ] {
        let err = validate_sample_object("loop.json", Ok(schema_text.to_string()), "{}", "sample").expect_err("refused");
        assert_eq!((err.target.as_str(), err.details.as_str()), ("loop.json", unsupported));
        let err = validate_file_against_schema("loop.json", Ok(schema_text.to_string()), "t.json", Ok("{}".to_string()))
            .expect_err("refused");
        assert_eq!((err.target.as_str(), err.details.as_str()), ("loop.json", unsupported));
    }
    let with_schema_key = r#"{"$schema":"http://json-schema.org/draft-07/schema#","type":"object"}"#;
    assert!(validate_sample_object("s.json", Ok(with_schema_key.to_string()), "{}", "sample").is_ok());
}
