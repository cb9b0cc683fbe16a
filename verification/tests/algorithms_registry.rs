use reli::algorithms::{AlgorithmError, AlgorithmRegistry};
use reli::base::types::HashRef;
use reli::worker::models::JobSpec;

fn sample_job(profile: &str) -> JobSpec {
    JobSpec {
        job_id: "job-001".to_string(),
        requester: "requester-001".to_string(),
        input_ref: HashRef { algorithm: "sha256".to_string(), digest_hex: "abcd".to_string() },
        input_schema: "sensor.packet.v1".to_string(),
        algorithm_profile: profile.to_string(),
        metric_profile: "default-v1".to_string(),
        min_worker_stake: 1,
        reward_pool: 100,
        commit_deadline_epoch_ms: 1,
        reveal_deadline_epoch_ms: 2,
        verify_deadline_epoch_ms: 3,
        finalize_deadline_epoch_ms: 4,
        privacy_mode: "public".to_string(),
    }
}

#[test]
fn default_registry_supports_three_profiles() {
    let registry = AlgorithmRegistry::with_defaults();
    assert!(registry.supports_profile("viterbi-basic-bsc"));
    assert!(registry.supports_profile("ldpc-minsum-basic"));
    assert!(registry.supports_profile("turbo-basic"));
}

#[test]
fn decode_unsupported_profile_returns_error() {
    let registry = AlgorithmRegistry::with_defaults();
    let job = sample_job("unsupported-profile");
    let err = registry.decode(&job, b"input").expect_err("should fail");

    assert_eq!(err, AlgorithmError::UnsupportedProfile("unsupported-profile".to_string()));
}

#[test]
fn viterbi_flips_low_bit_of_every_fifth_byte() {
    let registry = AlgorithmRegistry::with_defaults();
    let out = registry.decode(&sample_job("viterbi-basic-bsc"), &[0u8; 11]).expect("decode");
    assert_eq!(out.output_bytes, vec![1, 0, 0, 0, 0, 1, 0, 0, 0, 0, 1]);
    assert_eq!(out.algorithm_id, "viterbi");
    assert_eq!(f64::from_bits(out.residual_score_bits), 0.125);
    assert_eq!(f64::from_bits(out.quality_score_bits), 0.875);
}

#[test]
fn ldpc_and_turbo_flip_their_masks() {
    let registry = AlgorithmRegistry::with_defaults();
    let ldpc = registry.decode(&sample_job("ldpc-minsum-basic"), &[0u8; 8]).expect("decode");
    assert_eq!(ldpc.output_bytes, vec![2, 0, 0, 0, 0, 0, 0, 2]);
    assert_eq!(f64::from_bits(ldpc.residual_score_bits), 0.0625);
    let turbo = registry.decode(&sample_job("turbo-basic"), &[0xFFu8; 4]).expect("decode");
    assert_eq!(turbo.output_bytes, vec![0xFB, 0xFF, 0xFF, 0xFB]);
    assert_eq!(f64::from_bits(turbo.residual_score_bits), 0.08);
    assert_eq!(f64::from_bits(turbo.quality_score_bits), 0.92);
}

#[test]
fn soft_evidence_document_is_compact_json() {
    let registry = AlgorithmRegistry::with_defaults();
    let out = registry.decode(&sample_job("viterbi-basic-bsc"), b"x").expect("decode");
    let text = String::from_utf8(out.evidence_bytes.clone()).expect("utf8");
    assert_eq!(
        text,
        "{\"schema_version\":\"1.0.0\",\"algorithm_id\":\"viterbi\",\"profile_id\":\"viterbi-basic-bsc\",\"confidence_score\":0.875,\"residual_score\":0.125,\"notes\":[\"path_metric=viterbi_stub\"]}"
    );
    let value: serde_json::Value = serde_json::from_slice(&out.evidence_bytes).expect("json");
    assert_eq!(value["residual_score"].as_f64(), Some(0.125));

    let turbo = registry.decode(&sample_job("turbo-basic"), b"x").expect("decode");
    let value: serde_json::Value = serde_json::from_slice(&turbo.evidence_bytes).expect("json");
    assert_eq!(value["confidence_score"].as_f64(), Some(0.92));
    assert_eq!(value["residual_score"].as_f64(), Some(0.08));
    assert_eq!(value["notes"][1].as_str(), Some("decoder=turbo_stub"));
}
