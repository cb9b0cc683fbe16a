use reli::base::types::HashRef;
use reli::contracts::{ContractJobState, ContractLifecycle, FinalizationRecord};
use reli::sdk::{ContractLifecycleClient, RequesterClient};
use reli::verifiers::Verifier;
use reli::worker::models::{JobSpec, SoftEvidenceBundle};
use reli::worker::{JobLifecycleState, WorkerEngine, WorkerExecutionReport};

fn sample_job(job_id: &str, profile: &str) -> JobSpec {
    JobSpec {
        job_id: job_id.to_string(),
        requester: "requester-001".to_string(),
        input_ref: HashRef { algorithm: "sha256".to_string(), digest_hex: "abcd".to_string() },
        input_schema: "sensor.packet.v1".to_string(),
        algorithm_profile: profile.to_string(),
        metric_profile: "default-v1".to_string(),
        min_worker_stake: 1,
        reward_pool: 100,
        commit_deadline_epoch_ms: 1,
        reveal_deadline_epoch_ms: 2,
        verify_deadline_epoch_ms: 3,
        finalize_deadline_epoch_ms: 4,
        privacy_mode: "public".to_string(),
    }
}

fn parse_bundle(bytes: &[u8]) -> Option<SoftEvidenceBundle> {
    let value: serde_json::Value = serde_json::from_slice(bytes).ok()?;
    let text = |key: &str| value.get(key).and_then(|v| v.as_str()).map(|s| s.to_string());
    let number = |key: &str| value.get(key).and_then(|v| v.as_f64()).map(|x| x.to_bits());
    let notes = value
        .get("notes")?
        .as_array()?
        .iter()
        .map(|v| v.as_str().map(|s| s.to_string()))
        .collect::<Option<Vec<_>>>()?;
    Some(SoftEvidenceBundle {
        schema_version: text("schema_version")?,
        algorithm_id: text("algorithm_id")?,
        profile_id: text("profile_id")?,
        confidence_score_bits: number("confidence_score")?,
        residual_score_bits: number("residual_score")?,
        notes,
    })
}

fn residual_matches(a: u64, b: u64) -> bool {
    (f64::from_bits(a) - f64::from_bits(b)).abs() < 1e-9
}

fn reliability_score(report: &WorkerExecutionReport) -> f64 {
    let quality = f64::from_bits(report.quality_score_bits);
    (0.4 * 0.8) + (0.2 * 0.8) + (0.3 * quality) + (0.1 * 0.8) - (0.4 * 0.0)
}

#[test]
fn create_job_sets_initial_state() {
    let mut client = RequesterClient::new();
    let job_id = client.create_job(sample_job("job-001", "viterbi-basic-bsc")).expect("create should succeed");

    assert_eq!(job_id, "job-001");
    assert_eq!(client.get_job_state(&job_id), Some(JobLifecycleState::Created));
}

#[test]
fn transition_state_enforces_order() {
    let mut client = RequesterClient::new();
    let job_id = client.create_job(sample_job("job-001", "viterbi-basic-bsc")).expect("create should succeed");

    assert!(client.transition_job_state(&job_id, JobLifecycleState::Committed).is_ok());
    assert!(client.transition_job_state(&job_id, JobLifecycleState::Finalized).is_err());
}

#[test]
fn worker_execution_is_recorded_in_sdk() {
    let mut client = RequesterClient::new();
    let engine = WorkerEngine::new();
    let job_id = client.create_job(sample_job("job-001", "turbo-basic")).expect("create should succeed");

    client.run_worker_and_record(&engine, &job_id, "worker-001", b"noisy").expect("worker should succeed");

    let submissions = client.list_submissions(&job_id);
    assert_eq!(submissions.len(), 1);
    assert_eq!(submissions[0].worker_id, "worker-001");
}

#[test]
fn contract_lifecycle_sdk_binding_drives_phase2_flow() {
    let mut client = ContractLifecycleClient::new();
    let engine = WorkerEngine::new();

    client.register_worker("worker-a", 100);
    client.register_worker("worker-b", 100);
    let job_id = client.create_job(sample_job("job-001", "viterbi-basic-bsc"));

    let report_a = engine.execute_job(&sample_job("job-001", "viterbi-basic-bsc"), "worker-a", b"noisy").expect("report a");
    let report_b = engine.execute_job(&sample_job("job-001", "turbo-basic"), "worker-b", b"noisy").expect("report b");

    let commit_a = ContractLifecycle::commitment_for_report(&report_a);
    let commit_b = ContractLifecycle::commitment_for_report(&report_b);

    client.commit_submission(&job_id, "worker-a", &commit_a).expect("commit a");
    client.commit_submission(&job_id, "worker-b", &commit_b).expect("commit b");
    client.open_reveal_phase(&job_id).expect("open reveal");
    client.reveal_submission(&job_id, report_a).expect("reveal a");
    client.reveal_submission(&job_id, report_b).expect("reveal b");
    client.open_verify_phase(&job_id).expect("open verify");
    client.record_verification(&job_id, "verifier-1", "worker-a", true).expect("verification");

    let score = |report: &WorkerExecutionReport| -> u64 {
        let (accuracy, consensus, uncertainty, penalty) = if report.submission.worker_id == "worker-a" {
            (0.8, 0.8, 0.8, 0.0)
        } else {
            (0.7, 0.7, 0.7, 0.0)
        };
        let quality = f64::from_bits(report.quality_score_bits);
        ((0.4 * accuracy) + (0.2 * consensus) + (0.3 * quality) + (0.1 * uncertainty) - (0.4 * penalty)).to_bits()
    };
    client.finalize_job(&job_id, score).expect("finalize");
    let share = |fin: &FinalizationRecord, j: usize| -> u64 {
        let total: f64 = fin.scored_workers.iter().map(|(_, b)| f64::from_bits(*b).max(0.0)).sum();
        let mine = f64::from_bits(fin.scored_workers[j].1).max(0.0);
        (if total == 0.0 { 0.0 } else { mine / total }).to_bits()
    };
    let payouts = client.settle_job(&job_id, share).expect("settle");

    assert_eq!(client.get_job_state(&job_id), Some(ContractJobState::Settled));
    let payout_sum: f64 = payouts.iter().map(|(_, b)| f64::from_bits(*b)).sum();
    assert!((payout_sum - 1.0).abs() < 1e-9);
    assert_eq!(client.inner().events().last().map(|e| e.details.clone()), Some("payout_recipients=2".to_string()));
}

#[test]
fn end_to_end_requester_worker_verifier_settlement_flow() {
    let mut client = RequesterClient::new();
    let engine = WorkerEngine::new();

    let job_id = client.create_job(sample_job("job-001", "viterbi-basic-bsc")).expect("job creation should pass");
    client.transition_job_state(&job_id, JobLifecycleState::Committed).expect("commit transition should pass");
    client.transition_job_state(&job_id, JobLifecycleState::Revealed).expect("reveal transition should pass");

    let report_a = engine
        .execute_job(&sample_job("job-001", "viterbi-basic-bsc"), "worker-a", b"noisy-stream")
        .expect("worker-a execution should pass");
    let report_b = engine
        .execute_job(&sample_job("job-001", "turbo-basic"), "worker-b", b"noisy-stream")
        .expect("worker-b execution should pass");

    for report in [&report_a, &report_b] {
        Verifier::validate_submission(&report.submission).expect("submission shape valid");
        Verifier::validate_submission_attestation(&report.submission).expect("submission signature valid");
        Verifier::validate_soft_evidence_bundle(report, parse_bundle(&report.soft_evidence_bytes), residual_matches)
            .expect("evidence valid");
    }

    client.record_submission(report_a.submission.clone());
    client.record_submission(report_b.submission.clone());
    assert_eq!(client.list_submissions(&job_id).len(), 2);

    client.transition_job_state(&job_id, JobLifecycleState::Verified).expect("verify transition should pass");

    let scores = [reliability_score(&report_a), reliability_score(&report_b)];
    let positive: f64 = scores.iter().map(|s| s.max(0.0)).sum();
    let payout_sum: f64 = scores.iter().map(|s| s.max(0.0) / positive).sum();
    assert!((payout_sum - 1.0).abs() < 1e-9);

    client.transition_job_state(&job_id, JobLifecycleState::Finalized).expect("finalize transition should pass");
    client.transition_job_state(&job_id, JobLifecycleState::Settled).expect("settle transition should pass");

    assert_eq!(client.get_job_state(&job_id), Some(JobLifecycleState::Settled));
}

#[test]
fn transition_errors_name_the_states() {
    let mut client = RequesterClient::new();
    assert_eq!(client.transition_job_state("nope", JobLifecycleState::Committed), Err("unknown job_id".to_string()));
    client.create_job(sample_job("job-9", "turbo-basic")).expect("create");
    assert_eq!(
        client.transition_job_state("job-9", JobLifecycleState::Verified),
        Err("invalid state transition: Created -> Verified".to_string())
    );
    assert_eq!(client.create_job(sample_job("", "turbo-basic")), Err("job_id is required".to_string()));
}

#[test]
fn unknown_and_unsupported_jobs_are_reported() {
    let mut client = RequesterClient::new();
    let engine = WorkerEngine::new();
    assert_eq!(
        client.run_worker_and_record(&engine, "missing", "w", b"x"),
        Err("unknown job_id".to_string())
    );
    client.create_job(sample_job("job-2", "mystery-profile")).expect("create");
    assert_eq!(
        client.run_worker_and_record(&engine, "job-2", "w", b"x"),
        Err("algorithm decode failed: unsupported algorithm profile: mystery-profile".to_string())
    );
    assert!(client.list_submissions("job-2").is_empty());
}
