use reli::base::types::HashRef;
use reli::worker::models::JobSpec;
use reli::worker::{JobLifecycleState, LifecycleError, WorkerEngine, WorkerJobSession};

fn sample_job(profile: &str) -> JobSpec {
    JobSpec {
        job_id: "job-001".to_string(),
        requester: "requester-001".to_string(),
        input_ref: HashRef { algorithm: "sha256".to_string(), digest_hex: "abcd".to_string() },
        input_schema: "sensor.packet.v1".to_string(),
        algorithm_profile: profile.to_string(),
        metric_profile: "default-v1".to_string(),
        min_worker_stake: 10,
        reward_pool: 1000,
        commit_deadline_epoch_ms: 1,
        reveal_deadline_epoch_ms: 2,
        verify_deadline_epoch_ms: 3,
        finalize_deadline_epoch_ms: 4,
        privacy_mode: "public".to_string(),
    }
}

#[test]
fn lifecycle_accepts_happy_path_transitions() {
    let mut session = WorkerJobSession::new("job-001");

    assert_eq!(session.state, JobLifecycleState::Created);
    assert!(session.commit("job-001").is_ok());
    assert!(session.reveal_output("job-001").is_ok());
    assert!(session.verify("job-001").is_ok());
    assert!(session.finalize("job-001").is_ok());
    assert!(session.settle("job-001").is_ok());
    assert_eq!(session.state, JobLifecycleState::Settled);
}

#[test]
fn lifecycle_rejects_out_of_order_transition() {
    let mut session = WorkerJobSession::new("job-001");

    let err = session.reveal_output("job-001").expect_err("reveal from created should fail");

    assert_eq!(
        err,
        LifecycleError::InvalidTransition {
            current: JobLifecycleState::Created,
            attempted: JobLifecycleState::Revealed,
        }
    );
}

#[test]
fn lifecycle_rejects_job_id_mismatch() {
    let mut session = WorkerJobSession::new("job-001");

    let err = session.commit("job-002").expect_err("commit with wrong job id should fail");
    assert_eq!(err, LifecycleError::JobIdMismatch);
}

#[test]
fn terminal_state_rejects_further_transitions() {
    let mut session = WorkerJobSession::new("job-001");

    session.commit("job-001").unwrap();
    session.reveal_output("job-001").unwrap();
    session.verify("job-001").unwrap();
    session.finalize("job-001").unwrap();
    session.settle("job-001").unwrap();

    let err = session.settle("job-001").expect_err("settle should not be repeatable");
    assert_eq!(
        err,
        LifecycleError::InvalidTransition {
            current: JobLifecycleState::Settled,
            attempted: JobLifecycleState::Settled,
        }
    );
}

#[test]
fn worker_executes_multiple_profiles_via_common_interface() {
    let engine = WorkerEngine::new();
    let input = b"noisy-payload";

    for profile in ["viterbi-basic-bsc", "ldpc-minsum-basic", "turbo-basic"] {
        let job = sample_job(profile);
        let report = engine.execute_job(&job, "worker-001", input).expect("profile should decode");

        assert_eq!(report.submission.job_id, job.job_id);
        assert_eq!(report.algorithm_profile, profile.to_string());
        let quality = f64::from_bits(report.quality_score_bits);
        assert!(quality >= 0.0 && quality <= 1.0);
        assert!(!report.soft_evidence_bytes.is_empty());
    }
}

#[test]
fn quality_score_is_one_minus_residual_clamped() {
    let engine = WorkerEngine::new();
    for profile in ["viterbi-basic-bsc", "ldpc-minsum-basic", "turbo-basic"] {
        let report = engine.execute_job(&sample_job(profile), "worker-001", b"abc").expect("decode");
        let residual = f64::from_bits(report.residual_score_bits);
        let quality = f64::from_bits(report.quality_score_bits);
        assert_eq!(quality, (1.0 - residual).clamp(0.0, 1.0));
    }
}

#[test]
fn transitions_only_move_to_the_next_state() {
    let order = [
        JobLifecycleState::Created,
        JobLifecycleState::Committed,
        JobLifecycleState::Revealed,
        JobLifecycleState::Verified,
        JobLifecycleState::Finalized,
        JobLifecycleState::Settled,
    ];
    for (i, from) in order.iter().enumerate() {
        for (j, to) in order.iter().enumerate() {
            assert_eq!(from.can_transition_to(*to), j == i + 1);
        }
    }
}

#[test]
fn unsupported_profile_fails_execution_with_message() {
    let engine = WorkerEngine::new();
    let err = engine.execute_job(&sample_job("mystery"), "worker-001", b"x").expect_err("unsupported");
    assert_eq!(err.message(), "algorithm decode failed: unsupported algorithm profile: mystery");
    assert!(!engine.supports_profile("mystery"));
    assert!(engine.supports_profile("turbo-basic"));
}

#[test]
fn submission_stub_hashes_fixed_markers() {
    let engine = WorkerEngine::new();
    let stub = engine.build_submission_stub(&sample_job("turbo-basic"), "worker-9");
    assert_eq!(stub.job_id, "job-001");
    assert_eq!(stub.worker_id, "worker-9");
    assert_eq!(stub.output_summary_hash.algorithm, "sha256");
    assert_eq!(
        stub.output_summary_hash.digest_hex,
        engine.commit_payload_hash(b"summary").digest_hex
    );
    assert_eq!(stub.worker_signature.key_id, "worker-key-1");
}

#[test]
fn commit_payload_hash_is_sha256_hex() {
    let engine = WorkerEngine::new();
    let h = engine.commit_payload_hash(b"abc");
    assert_eq!(h.algorithm, "sha256");
    assert_eq!(h.digest_hex, "ba7816bf8f01cfea414140de5dae2223b00361a396177a9cb410ff61f20015ad");
}
