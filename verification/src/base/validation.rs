//! Validation outcomes, sample artifacts and schema validation of JSON
//! documents.

use vstd::prelude::*;

use crate::base::schema_compat::{join, push_join, texts};
use crate::base::types::{HashRef, SignatureEnvelope};
use crate::worker::models::{CandidateSubmission, ChallengeRecord, JobSpec, SoftEvidenceBundle, VerificationRecord};
use crate::keyed::owned;
use crate::text::push_text;

verus! {

/// A failed validation: what was checked, and what went wrong.
#[derive(Debug, Clone)]
pub struct ValidationIssue {
    pub target: String,
    pub details: String,
}

impl ValidationIssue {
    /// An issue about `target`.
    pub fn new(target: String, details: String) -> (r: Self)
        ensures
            r.target@ == target@,
            r.details@ == details@,
    {
        ValidationIssue { target, details }
    }
}

/// `r` is the issue `(target, details)`.
pub open spec fn issue_is(r: ValidationIssue, issue: (Seq<char>, Seq<char>)) -> bool {
    r.target@ == issue.0 && r.details@ == issue.1
}

/// `r` is `Ok` where `expected` is, and carries the expected issue where
/// `expected` is an error.
pub open spec fn outcome_is<T>(r: Result<T, ValidationIssue>, expected: Result<(), (Seq<char>, Seq<char>)>) -> bool {
    match expected {
        Ok(_) => r is Ok,
        Err(issue) => r matches Err(i) && issue_is(i, issue),
    }
}

/// How many artifacts a validation run checked.
#[derive(Debug)]
pub struct ValidationSummary {
    pub checked: usize,
}

impl Default for ValidationSummary {
    fn default() -> (r: Self)
        ensures
            r.checked == 0,
    {
        ValidationSummary { checked: 0 }
    }
}

/// A compiled JSON Schema; carried through unread.
#[verifier::external_type_specification]
#[verifier::external_body]
pub struct ExCompiledSchema(jsonschema::JSONSchema);

/// The message of the error that `serde_json::from_str` reports when `text`
/// is read as one JSON document, or `None` where it parses.
pub uninterp spec fn json_parse_error(text: Seq<char>) -> Option<Seq<char>>;

/// The message of the error that `jsonschema::JSONSchema::compile` reports
/// for the JSON document `schema_text`, or `None` where it compiles.
pub uninterp spec fn schema_compile_error(schema_text: Seq<char>) -> Option<Seq<char>>;

/// The messages, in the validator's order, of the errors that
/// `jsonschema::JSONSchema::validate` reports for the JSON document
/// `instance_text` against the compiled schema `schema_text`.
pub uninterp spec fn schema_messages(schema_text: Seq<char>, instance_text: Seq<char>) -> Seq<Seq<char>>;

/// A JSON Schema compiled from its text. It is made only by
/// `compile_json_schema`, so `compiled` is always the compilation of
/// `source`.
pub struct CompiledSchema {
    source: String,
    compiled: jsonschema::JSONSchema,
}

impl CompiledSchema {
    /// The text the schema was compiled from.
    pub closed spec fn source_text(&self) -> Seq<char> {
        self.source@
    }
}

/// Reads `text` with `serde_json::from_str` as one JSON document and
/// returns the parse error's message, if any. The contract claims that the
/// outcome is `json_parse_error` of the text.
#[verifier::external_body]
fn json_syntax_error(text: &str) -> (r: Option<String>)
    ensures
        match r {
            Some(m) => json_parse_error(text@) == Some(m@),
            None => json_parse_error(text@) is None,
        },
{
    match serde_json::from_str::<serde_json::Value>(text) {
        Ok(_) => None,
        Err(err) => Some(err.to_string()),
    }
}

/// Calls `jsonschema::JSONSchema::compile` on the JSON document
/// `schema_text` (parsed with `serde_json::from_str`, which the `requires`
/// says succeeds) and renders a compile error as its message. The contract
/// claims that the outcome is `schema_compile_error` of the text.
#[verifier::external_body]
fn compile_json_schema(schema_text: &str) -> (r: Result<CompiledSchema, String>)
    requires
        json_parse_error(schema_text@) is None,
    ensures
        match r {
            Ok(c) => c.source_text() == schema_text@ && schema_compile_error(schema_text@) is None,
            Err(m) => schema_compile_error(schema_text@) == Some(m@),
        },
{
    let document: serde_json::Value = serde_json::from_str(schema_text).unwrap_or_default();
    match jsonschema::JSONSchema::compile(&document) {
        Ok(compiled) => Ok(CompiledSchema { source: schema_text.to_string(), compiled }),
        Err(err) => Err(err.to_string()),
    }
}

/// Calls `jsonschema::JSONSchema::validate` on the JSON document
/// `instance_text` (parsed with `serde_json::from_str`, which the
/// `requires` says succeeds) and renders each validation error as its
/// message; the list is empty when the instance is valid. The contract
/// claims that the messages are `schema_messages` of the two texts.
/// The validator follows `$ref` without bounding the depth, so a schema
/// whose references form a cycle, such as `{"$ref": "#"}`, would make it
/// recurse until the stack overflows; the `requires` leaves out every
/// schema that could hold a `$ref` member (see `reference_free`). Without
/// one, validation walks the finite schema and instance trees.
#[verifier::external_body]
fn schema_error_messages(schema: &CompiledSchema, instance_text: &str) -> (r: Vec<String>)
    requires
        json_parse_error(instance_text@) is None,
        reference_free(schema.source_text()),
    ensures
        texts(r@) == schema_messages(schema.source_text(), instance_text@),
{
    let instance: serde_json::Value = serde_json::from_str(instance_text).unwrap_or_default();
    let messages: Vec<String> = match schema.compiled.validate(&instance) {
        Ok(()) => Vec::new(),
        Err(errors) => errors.map(|err| err.to_string()).collect(),
    };
    messages
}

/// The verdict on `text` as the JSON document at `target`.
pub open spec fn json_verdict(target: Seq<char>, text: Seq<char>) -> Result<(), (Seq<char>, Seq<char>)> {
    match json_parse_error(text) {
        Some(m) => Err((target, "invalid json: "@ + m)),
        None => Ok(()),
    }
}

/// Whether `pattern` occurs in `text`.
pub open spec fn occurs_in(text: Seq<char>, pattern: Seq<char>) -> bool {
    exists|i: int| 0 <= i && i + pattern.len() <= text.len() && #[trigger] text.subrange(i, i + pattern.len()) == pattern
}

/// Whether a schema text certainly has no `$ref` member: neither `$ref` nor
/// a `\u` escape (through which a member name could spell `$ref`) occurs
/// in it.
pub open spec fn reference_free(text: Seq<char>) -> bool {
    !occurs_in(text, "$ref"@) && !occurs_in(text, "\\u"@)
}

/// The issue details for a schema that may hold references.
pub open spec fn unsupported_reference_details() -> Seq<char> {
    "unsupported schema: $ref is not followed"@
}

/// The verdict on `text` as the schema at `path`: it must be JSON, compile,
/// and hold no reference.
pub open spec fn schema_verdict(path: Seq<char>, text: Seq<char>) -> Result<(), (Seq<char>, Seq<char>)> {
    match json_parse_error(text) {
        Some(m) => Err((path, "invalid json: "@ + m)),
        None => match schema_compile_error(text) {
            Some(m) => Err((path, "invalid schema: "@ + m)),
            None => if reference_free(text) {
                Ok(())
            } else {
                Err((path, unsupported_reference_details()))
            },
        },
    }
}

/// Whether `pattern` occurs in `text`.
fn text_contains(text: &str, pattern: &str) -> (r: bool)
    ensures
        r == occurs_in(text@, pattern@),
{
    let n = text.unicode_len();
    let m = pattern.unicode_len();
    if m > n {
        return false;
    }
    let mut i: usize = 0;
    while i <= n - m
        invariant
            n == text@.len(),
            m == pattern@.len(),
            m <= n,
            i <= n - m + 1,
            forall|j: int| 0 <= j < i ==> #[trigger] text@.subrange(j, j + m) != pattern@,
        decreases n - m + 1 - i,
    {
        let mut k: usize = 0;
        let mut same = true;
        while k < m
            invariant
                n == text@.len(),
                m == pattern@.len(),
                i + m <= n,
                k <= m,
                same <==> forall|q: int| 0 <= q < k ==> text@[i + q] == pattern@[q],
            decreases m - k,
        {
            if text.get_char(i + k) != pattern.get_char(k) {
                same = false;
            }
            k = k + 1;
        }
        if same {
            proof {
                assert(text@.subrange(i as int, i + m) =~= pattern@);
            }
            return true;
        }
        proof {
            let q = choose|q: int| 0 <= q < m && text@[i + q] != pattern@[q];
            assert(text@.subrange(i as int, i + m)[q] != pattern@[q]);
        }
        i = i + 1;
    }
    false
}

/// Whether the schema text `text` certainly holds no `$ref` member.
fn is_reference_free(text: &str) -> (r: bool)
    ensures
        r == reference_free(text@),
{
    let a = text_contains(text, "$ref");
    let b = text_contains(text, "\\u");
    !a && !b
}

/// The verdict on the document `text` at `target` against the schema
/// `schema_text`: it must be JSON, and the validator must report nothing.
pub open spec fn document_verdict(schema_text: Seq<char>, target: Seq<char>, text: Seq<char>) -> Result<
    (),
    (Seq<char>, Seq<char>),
> {
    match json_parse_error(text) {
        Some(m) => Err((target, "invalid json: "@ + m)),
        None => {
            let msgs = schema_messages(schema_text, text);
            if msgs.len() == 0 {
                Ok(())
            } else {
                Err((target, "schema validation failed: "@ + join(msgs, "; "@)))
            }
        },
    }
}

/// The verdict on a sample document against the schema `schema_text`,
/// reported under `label` with the bare messages.
pub open spec fn sample_verdict(schema_text: Seq<char>, label: Seq<char>, text: Seq<char>) -> Result<
    (),
    (Seq<char>, Seq<char>),
> {
    match json_parse_error(text) {
        Some(m) => Err((label, m)),
        None => {
            let msgs = schema_messages(schema_text, text);
            if msgs.len() == 0 {
                Ok(())
            } else {
                Err((label, join(msgs, "; "@)))
            }
        },
    }
}

/// Checks that `text`, read from `target`, is one JSON document; if not,
/// the issue about `target` gives the parser's message.
pub fn parse_json_document(target: &str, text: &str) -> (r: Result<(), ValidationIssue>)
    ensures
        outcome_is(r, json_verdict(target@, text@)),
{
    match json_syntax_error(text) {
        None => Ok(()),
        Some(msg) => {
            let mut details = owned("invalid json: ");
            push_text(&mut details, msg.as_str());
            Err(ValidationIssue::new(owned(target), details))
        },
    }
}

/// The outcome of validating the document at `target` given the
/// validator's messages: `Ok` when there are none, otherwise an issue about
/// `target` that lists them all, separated by `; `.
pub fn schema_failure(target: &str, messages: Vec<String>) -> (r: Result<(), ValidationIssue>)
    ensures
        messages@.len() == 0 ==> r is Ok,
        messages@.len() > 0 ==> (r matches Err(i) && i.target@ == target@ && i.details@
            == "schema validation failed: "@ + join(texts(messages@), "; "@)),
{
    if messages.len() == 0 {
        return Ok(());
    }
    let mut details = owned("schema validation failed: ");
    push_join(&mut details, &messages, "; ");
    Err(ValidationIssue::new(owned(target), details))
}

/// The schema text read from `schema_path`, compiled: a failed read is
/// reported as it came; text that is not JSON, does not compile, or may
/// hold a `$ref` member (which validation would follow without bound), as
/// an issue about the path.
pub fn compile_schema(schema_path: &str, schema_text: Result<String, ValidationIssue>) -> (r: Result<
    CompiledSchema,
    ValidationIssue,
>)
    ensures
        schema_text matches Err(e) ==> r == Err::<CompiledSchema, ValidationIssue>(e),
        schema_text matches Ok(t) ==> outcome_is(r, schema_verdict(schema_path@, t@)),
        schema_text matches Ok(t) ==> (r matches Ok(c) ==> c.source_text() == t@),
        r matches Ok(c) ==> reference_free(c.source_text()),
{
    let text = match schema_text {
        Ok(t) => t,
        Err(e) => {
            return Err(e);
        },
    };
    match parse_json_document(schema_path, text.as_str()) {
        Ok(()) => {},
        Err(e) => {
            return Err(e);
        },
    }
    match compile_json_schema(text.as_str()) {
        Ok(compiled) => {
            if is_reference_free(text.as_str()) {
                Ok(compiled)
            } else {
                proof {
                    reveal_strlit("unsupported schema: $ref is not followed");
                }
                Err(ValidationIssue::new(owned(schema_path), owned("unsupported schema: $ref is not followed")))
            }
        },
        Err(msg) => {
            let mut details = owned("invalid schema: ");
            push_text(&mut details, msg.as_str());
            Err(ValidationIssue::new(owned(schema_path), details))
        },
    }
}

/// Validates the document read from `target_path` against the schema read
/// from `schema_path`. The schema is compiled first; a failed read of the
/// target is reported next; then the target must be JSON, and it passes
/// when the validator reports nothing.
pub fn validate_file_against_schema(
    schema_path: &str,
    schema_text: Result<String, ValidationIssue>,
    target_path: &str,
    target_text: Result<String, ValidationIssue>,
) -> (r: Result<(), ValidationIssue>)
    ensures
        schema_text matches Err(e) ==> r == Err::<(), ValidationIssue>(e),
        schema_text matches Ok(s) ==> (schema_verdict(schema_path@, s@) is Err ==> outcome_is(
            r,
            schema_verdict(schema_path@, s@),
        )),
        schema_text matches Ok(s) ==> (schema_verdict(schema_path@, s@) is Ok ==> (target_text matches Err(e)
            ==> r == Err::<(), ValidationIssue>(e))),
        schema_text matches Ok(s) ==> (schema_verdict(schema_path@, s@) is Ok ==> (target_text matches Ok(t)
            ==> outcome_is(r, document_verdict(s@, target_path@, t@)))),
{
    let schema = match compile_schema(schema_path, schema_text) {
        Ok(s) => s,
        Err(e) => {
            return Err(e);
        },
    };
    let payload = match target_text {
        Ok(t) => t,
        Err(e) => {
            return Err(e);
        },
    };
    match parse_json_document(target_path, payload.as_str()) {
        Ok(()) => {},
        Err(e) => {
            return Err(e);
        },
    }
    let messages = schema_error_messages(&schema, payload.as_str());
    schema_failure(target_path, messages)
}

/// Validates the JSON text of a sample document against the schema read
/// from `schema_path`; a failure is reported under `label`, with the
/// validator's messages separated by `; ` (or the parser's message, where
/// the sample is not JSON).
pub fn validate_sample_object(
    schema_path: &str,
    schema_text: Result<String, ValidationIssue>,
    sample_text: &str,
    label: &str,
) -> (r: Result<(), ValidationIssue>)
    ensures
        schema_text matches Err(e) ==> r == Err::<(), ValidationIssue>(e),
        schema_text matches Ok(s) ==> (schema_verdict(schema_path@, s@) is Err ==> outcome_is(
            r,
            schema_verdict(schema_path@, s@),
        )),
        schema_text matches Ok(s) ==> (schema_verdict(schema_path@, s@) is Ok ==> outcome_is(
            r,
            sample_verdict(s@, label@, sample_text@),
        )),
{
    let schema = match compile_schema(schema_path, schema_text) {
        Ok(s) => s,
        Err(e) => {
            return Err(e);
        },
    };
    match json_syntax_error(sample_text) {
        None => {},
        Some(msg) => {
            return Err(ValidationIssue::new(owned(label), msg));
        },
    }
    let messages = schema_error_messages(&schema, sample_text);
    if messages.len() == 0 {
        return Ok(());
    }
    let mut details = String::new();
    push_join(&mut details, &messages, "; ");
    Err(ValidationIssue::new(owned(label), details))
}

/// Whether the text `s` ends with `suffix`.
pub open spec fn ends_with_text(s: Seq<char>, suffix: Seq<char>) -> bool {
    suffix.len() <= s.len() && s.subrange(s.len() - suffix.len(), s.len() as int) == suffix
}

/// Whether a file name is that of an algorithm fixture: it ends in
/// `.fixture.json`.
pub fn is_fixture_name(name: &str) -> (r: bool)
    ensures
        r == ends_with_text(name@, ".fixture.json"@),
{
    let suffix = ".fixture.json";
    assert(suffix@ == ".fixture.json"@);
    let n = name.unicode_len();
    let m = suffix.unicode_len();
    if n < m {
        return false;
    }
    let mut k: usize = 0;
    while k < m
        invariant
            n == name@.len(),
            m == suffix@.len(),
            suffix@ == ".fixture.json"@,
            m <= n,
            k <= m,
            forall|j: int| 0 <= j < k ==> name@[n - m + j] == suffix@[j],
        decreases m - k,
    {
        if name.get_char(n - m + k) != suffix.get_char(k) {
            proof {
                assert(name@.subrange(n - m, n as int)[k as int] != suffix@[k as int]);
            }
            return false;
        }
        k = k + 1;
    }
    proof {
        assert(name@.subrange(n - m, n as int) =~= suffix@);
    }
    true
}

/// The first failed check, in order, if any.
pub open spec fn first_failure(checks: Seq<Result<(), ValidationIssue>>) -> Option<ValidationIssue>
    decreases checks.len(),
{
    if checks.len() == 0 {
        None
    } else {
        match first_failure(checks.drop_last()) {
            Some(e) => Some(e),
            None => match checks.last() {
                Err(e) => Some(e),
                Ok(_) => None,
            },
        }
    }
}

/// The first failed check of `checks`, if any.
fn first_failed(checks: Vec<Result<(), ValidationIssue>>) -> (r: Option<ValidationIssue>)
    ensures
        r == first_failure(checks@),
{
    let ghost all = checks@;
    let mut k: usize = 0;
    proof {
        assert(all.subrange(0, 0) =~= Seq::<Result<(), ValidationIssue>>::empty());
    }
    while k < checks.len()
        invariant
            checks@ == all,
            k <= all.len(),
            first_failure(all.subrange(0, k as int)) is None,
        decreases all.len() - k,
    {
        proof {
            assert(all.subrange(0, k as int + 1).drop_last() =~= all.subrange(0, k as int));
        }
        if checks[k].is_err() {
            proof {
                lemma_first_failure_prefix(all, k as int + 1);
            }
            let mut rest = checks;
            return match rest.remove(k) {
                Err(e) => Some(e),
                Ok(()) => None,
            };
        }
        k = k + 1;
    }
    proof {
        assert(all.subrange(0, all.len() as int) =~= all);
    }
    None
}

/// Once a prefix fails, the first failure of the whole is the prefix's.
proof fn lemma_first_failure_prefix(all: Seq<Result<(), ValidationIssue>>, k: int)
    requires
        0 <= k <= all.len(),
        first_failure(all.subrange(0, k)) is Some,
    ensures
        first_failure(all) == first_failure(all.subrange(0, k)),
    decreases all.len() - k,
{
    if k < all.len() {
        assert(all.subrange(0, k + 1).drop_last() =~= all.subrange(0, k));
        lemma_first_failure_prefix(all, k + 1);
    } else {
        assert(all.subrange(0, k) =~= all);
    }
}

/// The summary of a phase-0 run from its checks, in the order they are
/// made: the sample records, the compatible schema revision, the breaking
/// one (which must fail), then the fixtures. The first failure is the
/// outcome; a breaking revision that passes is an issue about
/// `breaking_target`; otherwise every check counts.
pub fn phase0_summary(
    sample_checks: Vec<Result<(), ValidationIssue>>,
    compatible: Result<(), ValidationIssue>,
    breaking: Result<(), ValidationIssue>,
    breaking_target: &str,
    fixture_checks: Vec<Result<(), ValidationIssue>>,
) -> (r: Result<ValidationSummary, ValidationIssue>)
    requires
        sample_checks@.len() + fixture_checks@.len() + 2 <= usize::MAX,
    ensures
        first_failure(sample_checks@) matches Some(e) ==> r == Err::<ValidationSummary, ValidationIssue>(e),
        first_failure(sample_checks@) is None ==> (compatible matches Err(e) ==> r == Err::<
            ValidationSummary,
            ValidationIssue,
        >(e)),
        first_failure(sample_checks@) is None && compatible is Ok && breaking is Ok ==> (r matches Err(i)
            && issue_is(i, (breaking_target@, "expected breaking candidate to fail compatibility check"@))),
        first_failure(sample_checks@) is None && compatible is Ok && breaking is Err ==> (first_failure(
            fixture_checks@,
        ) matches Some(e) ==> r == Err::<ValidationSummary, ValidationIssue>(e)),
        first_failure(sample_checks@) is None && compatible is Ok && breaking is Err && first_failure(
            fixture_checks@,
        ) is None ==> (r matches Ok(summary) && summary.checked == sample_checks@.len() + 2
            + fixture_checks@.len()),
{
    let samples = sample_checks.len();
    let fixtures = fixture_checks.len();
    match first_failed(sample_checks) {
        Some(e) => {
            return Err(e);
        },
        None => {},
    }
    match compatible {
        Err(e) => {
            return Err(e);
        },
        Ok(()) => {},
    }
    if breaking.is_ok() {
        return Err(
            ValidationIssue::new(owned(breaking_target), owned("expected breaking candidate to fail compatibility check")),
        );
    }
    match first_failed(fixture_checks) {
        Some(e) => {
            return Err(e);
        },
        None => {},
    }
    Ok(ValidationSummary { checked: samples + 2 + fixtures })
}

fn sha256_ref_of(digest_hex: &str) -> (r: HashRef)
    ensures
        r.algorithm@ == "sha256"@,
        r.digest_hex@ == digest_hex@,
{
    HashRef { algorithm: owned("sha256"), digest_hex: owned(digest_hex) }
}

fn envelope(signer_id: &str, signature_hex: &str, key_id: &str) -> (r: SignatureEnvelope)
    ensures
        r.signer_id@ == signer_id@,
        r.signature_hex@ == signature_hex@,
        r.key_id@ == key_id@,
{
    SignatureEnvelope { signer_id: owned(signer_id), signature_hex: owned(signature_hex), key_id: owned(key_id) }
}

/// The sample job specification checked against the job schema.
pub fn build_sample_job_spec() -> (r: JobSpec)
    ensures
        r.job_id@ == "job-sample-0001"@,
        r.requester@ == "requester-001"@,
        r.input_ref.algorithm@ == "sha256"@,
        r.input_ref.digest_hex@ == "abcd"@,
        r.input_schema@ == "sensor.packet.v1"@,
        r.algorithm_profile@ == "viterbi-basic-bsc"@,
        r.metric_profile@ == "default-v1"@,
        r.min_worker_stake == 10,
        r.reward_pool == 1000,
        r.commit_deadline_epoch_ms == 1,
        r.reveal_deadline_epoch_ms == 2,
        r.verify_deadline_epoch_ms == 3,
        r.finalize_deadline_epoch_ms == 4,
        r.privacy_mode@ == "public"@,
{
    JobSpec {
        job_id: owned("job-sample-0001"),
        requester: owned("requester-001"),
        input_ref: sha256_ref_of("abcd"),
        input_schema: owned("sensor.packet.v1"),
        algorithm_profile: owned("viterbi-basic-bsc"),
        metric_profile: owned("default-v1"),
        min_worker_stake: 10,
        reward_pool: 1000,
        commit_deadline_epoch_ms: 1,
        reveal_deadline_epoch_ms: 2,
        verify_deadline_epoch_ms: 3,
        finalize_deadline_epoch_ms: 4,
        privacy_mode: owned("public"),
    }
}

/// The sample candidate submission checked against the submission schema.
pub fn build_sample_candidate_submission() -> (r: CandidateSubmission)
    ensures
        r.job_id@ == "job-sample-0001"@,
        r.worker_id@ == "worker-001"@,
        r.output_ref.algorithm@ == "sha256"@,
        r.output_ref.digest_hex@ == "00aa"@,
        r.output_summary_hash.algorithm@ == "sha256"@,
        r.output_summary_hash.digest_hex@ == "00bb"@,
        r.soft_evidence_ref.algorithm@ == "sha256"@,
        r.soft_evidence_ref.digest_hex@ == "00cc"@,
        r.algorithm_execution_hash.algorithm@ == "sha256"@,
        r.algorithm_execution_hash.digest_hex@ == "00dd"@,
        r.worker_signature.signer_id@ == "worker-001"@,
        r.worker_signature.signature_hex@ == "deadbeef"@,
        r.worker_signature.key_id@ == "key-1"@,
{
    CandidateSubmission {
        job_id: owned("job-sample-0001"),
        worker_id: owned("worker-001"),
        output_ref: sha256_ref_of("00aa"),
        output_summary_hash: sha256_ref_of("00bb"),
        soft_evidence_ref: sha256_ref_of("00cc"),
        algorithm_execution_hash: sha256_ref_of("00dd"),
        worker_signature: envelope("worker-001", "deadbeef", "key-1"),
    }
}

/// The sample verification record checked against its schema.
pub fn build_sample_verification_record() -> (r: VerificationRecord)
    ensures
        r.submission_id@ == "sub-0001"@,
        r.verifier_id@ == "verifier-001"@,
        r.checks_performed@.len() == 1,
        r.checks_performed@[0]@ == "shape_check"@,
        r.check_result@ == "pass"@,
        r.dispute_proof_ref is None,
        r.verifier_signature.signer_id@ == "verifier-001"@,
        r.verifier_signature.signature_hex@ == "faceb00c"@,
        r.verifier_signature.key_id@ == "key-2"@,
{
    let mut checks: Vec<String> = Vec::new();
    checks.push(owned("shape_check"));
    VerificationRecord {
        submission_id: owned("sub-0001"),
        verifier_id: owned("verifier-001"),
        checks_performed: checks,
        check_result: owned("pass"),
        dispute_proof_ref: None,
        verifier_signature: envelope("verifier-001", "faceb00c", "key-2"),
    }
}

/// The sample challenge record checked against its schema.
pub fn build_sample_challenge_record() -> (r: ChallengeRecord)
    ensures
        r.challenge_id@ == "challenge-001"@,
        r.submission_id@ == "sub-0001"@,
        r.challenger_id@ == "challenger-001"@,
        r.challenge_type@ == "fabricated_output"@,
        r.reason@ == "deterministic mismatch in evidence"@,
        r.observed_residual_score_bits is None,
        r.min_required_quality_bits is None,
        r.dispute_proof_ref matches Some(h) && h.algorithm@ == "sha256"@ && h.digest_hex@ == "proof-hash"@,
        r.replay_of_submission_id is None,
        r.challenger_signature.signer_id@ == "challenger-001"@,
        r.challenger_signature.signature_hex@ == "feedface"@,
        r.challenger_signature.key_id@ == "key-3"@,
{
    ChallengeRecord {
        challenge_id: owned("challenge-001"),
        submission_id: owned("sub-0001"),
        challenger_id: owned("challenger-001"),
        challenge_type: owned("fabricated_output"),
        reason: owned("deterministic mismatch in evidence"),
        observed_residual_score_bits: None,
        min_required_quality_bits: None,
        dispute_proof_ref: Some(sha256_ref_of("proof-hash")),
        replay_of_submission_id: None,
        challenger_signature: envelope("challenger-001", "feedface", "key-3"),
    }
}

/// The sample soft-evidence bundle checked against its schema: the
/// Viterbi decoder's evidence (confidence 0.875, residual 0.125).
pub fn build_sample_soft_evidence_bundle() -> (r: SoftEvidenceBundle)
    ensures
        r.schema_version@ == "1.0.0"@,
        r.algorithm_id@ == "viterbi"@,
        r.profile_id@ == "viterbi-basic-bsc"@,
        r.confidence_score_bits == 0x3FEC_0000_0000_0000,
        r.residual_score_bits == 0x3FC0_0000_0000_0000,
        r.notes@.len() == 1,
        r.notes@[0]@ == "path_metric=viterbi_stub"@,
{
    let mut notes: Vec<String> = Vec::new();
    notes.push(owned("path_metric=viterbi_stub"));
    SoftEvidenceBundle {
        schema_version: owned("1.0.0"),
        algorithm_id: owned("viterbi"),
        profile_id: owned("viterbi-basic-bsc"),
        confidence_score_bits: 0x3FEC_0000_0000_0000,
        residual_score_bits: 0x3FC0_0000_0000_0000,
        notes,
    }
}

} // verus!
