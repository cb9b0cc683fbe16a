use std::collections::HashMap;

use reli::base::types::HashRef;
use reli::contracts::{
    ChallengeType, ContractError, ContractEventKind, ContractJobState, ContractLifecycle, EventIndexer, FinalizationRecord,
};
use reli::worker::models::JobSpec;
use reli::worker::{WorkerEngine, WorkerExecutionReport};

fn sample_job(profile: &str) -> JobSpec {
    JobSpec {
        job_id: "job-001".to_string(),
        requester: "requester-001".to_string(),
        input_ref: HashRef { algorithm: "sha256".to_string(), digest_hex: "abcd".to_string() },
        input_schema: "sensor.packet.v1".to_string(),
        algorithm_profile: profile.to_string(),
        metric_profile: "default-v1".to_string(),
        min_worker_stake: 50,
        reward_pool: 1_000,
        commit_deadline_epoch_ms: 1,
        reveal_deadline_epoch_ms: 2,
        verify_deadline_epoch_ms: 3,
        finalize_deadline_epoch_ms: 4,
        privacy_mode: "public".to_string(),
    }
}

/// accuracy, consensus, uncertainty, penalty
type Signal = (f64, f64, f64, f64);

fn score_of(signals: &HashMap<String, Signal>, report: &WorkerExecutionReport) -> u64 {
    let (accuracy, consensus, uncertainty, penalty) =
        signals.get(&report.submission.worker_id).copied().unwrap_or((0.5, 0.5, 0.5, 0.0));
    let quality = f64::from_bits(report.quality_score_bits);
    let score = (0.4 * accuracy) + (0.2 * consensus) + (0.3 * quality) + (0.1 * uncertainty) - (0.4 * penalty);
    score.to_bits()
}

fn share_of(fin: &FinalizationRecord, j: usize) -> u64 {
    let positive_sum: f64 = fin.scored_workers.iter().map(|(_, b)| f64::from_bits(*b).max(0.0)).sum();
    let share = if positive_sum == 0.0 { 0.0 } else { f64::from_bits(fin.scored_workers[j].1).max(0.0) / positive_sum };
    share.to_bits()
}

fn payout_sum(payouts: &[(String, u64)]) -> f64 {
    payouts.iter().map(|(_, b)| f64::from_bits(*b)).sum()
}

#[test]
fn phase2_lifecycle_simulation_succeeds_end_to_end() {
    let mut lifecycle = ContractLifecycle::new();
    let engine = WorkerEngine::new();

    lifecycle.register_worker("worker-a", 100);
    lifecycle.register_worker("worker-b", 100);

    let job_id = lifecycle.create_job(sample_job("viterbi-basic-bsc"));
    assert_eq!(lifecycle.get_job_state(&job_id), Some(ContractJobState::CommitOpen));

    let report_a = engine.execute_job(&sample_job("viterbi-basic-bsc"), "worker-a", b"noisy-stream").expect("report a");
    let report_b = engine.execute_job(&sample_job("turbo-basic"), "worker-b", b"noisy-stream").expect("report b");

    let commit_a = ContractLifecycle::commitment_for_report(&report_a);
    let commit_b = ContractLifecycle::commitment_for_report(&report_b);

    lifecycle.commit_submission(&job_id, "worker-a", &commit_a).expect("commit a");
    lifecycle.commit_submission(&job_id, "worker-b", &commit_b).expect("commit b");

    assert_eq!(lifecycle.locked_stake(&job_id, "worker-a"), Some(50));

    lifecycle.open_reveal_phase(&job_id).expect("open reveal");
    lifecycle.reveal_submission(&job_id, report_a.clone()).expect("reveal a");
    lifecycle.reveal_submission(&job_id, report_b.clone()).expect("reveal b");

    lifecycle.open_verify_phase(&job_id).expect("open verify");
    lifecycle.record_verification(&job_id, "verifier-1", "worker-a", true).expect("verify pass");
    lifecycle.record_verification(&job_id, "verifier-1", "worker-b", true).expect("verify pass");

    let mut signals = HashMap::new();
    signals.insert("worker-a".to_string(), (0.8, 0.8, 0.8, 0.0));
    signals.insert("worker-b".to_string(), (0.7, 0.7, 0.7, 0.0));

    let finalization = lifecycle.finalize_job(&job_id, |r: &WorkerExecutionReport| score_of(&signals, r)).expect("finalize");
    assert!(!finalization.winner_worker_id.is_empty());

    let payouts = lifecycle.settle_job(&job_id, share_of).expect("settle");
    assert!((payout_sum(&payouts) - 1.0).abs() < 1e-9);
    assert_eq!(lifecycle.get_job_state(&job_id), Some(ContractJobState::Settled));

    assert!(lifecycle.worker_reputation("worker-a").unwrap_or_default() >= 0);

    let rebuilt = EventIndexer::rebuild_state(lifecycle.events(), &job_id);
    assert_eq!(rebuilt, Some(ContractJobState::Settled));
}

#[test]
fn event_timeline_rebuild_is_deterministic() {
    let mut lifecycle = ContractLifecycle::new();
    lifecycle.register_worker("worker-a", 100);
    let job_id = lifecycle.create_job(sample_job("viterbi-basic-bsc"));

    let state_before = EventIndexer::rebuild_state(lifecycle.events(), &job_id);
    assert_eq!(state_before, Some(ContractJobState::CommitOpen));

    let timeline = EventIndexer::timeline_for_job(lifecycle.events(), &job_id);
    let rebuilt_a = EventIndexer::rebuild_state(&timeline, &job_id);
    let rebuilt_b = EventIndexer::rebuild_state(&timeline, &job_id);
    assert_eq!(rebuilt_a, rebuilt_b);
}

#[test]
fn insufficient_stake_blocks_commit() {
    let mut lifecycle = ContractLifecycle::new();
    lifecycle.register_worker("worker-low", 10);
    let job_id = lifecycle.create_job(sample_job("viterbi-basic-bsc"));

    let err = lifecycle.commit_submission(&job_id, "worker-low", "commit").expect_err("should reject low stake");
    assert_eq!(err, ContractError::InsufficientStake);
}

#[test]
fn accepted_challenge_slashes_target_and_blocks_settlement_until_resolution() {
    let mut lifecycle = ContractLifecycle::new();
    let engine = WorkerEngine::new();

    lifecycle.register_worker("worker-a", 120);
    lifecycle.register_worker("worker-b", 120);
    lifecycle.register_worker("challenger-1", 120);

    let job_id = lifecycle.create_job(sample_job("viterbi-basic-bsc"));
    let report_a = engine.execute_job(&sample_job("viterbi-basic-bsc"), "worker-a", b"noisy-stream").expect("report a");
    let report_b = engine.execute_job(&sample_job("turbo-basic"), "worker-b", b"noisy-stream").expect("report b");

    let commit_a = ContractLifecycle::commitment_for_report(&report_a);
    let commit_b = ContractLifecycle::commitment_for_report(&report_b);
    lifecycle.commit_submission(&job_id, "worker-a", &commit_a).expect("commit a");
    lifecycle.commit_submission(&job_id, "worker-b", &commit_b).expect("commit b");
    lifecycle.open_reveal_phase(&job_id).expect("open reveal");
    lifecycle.reveal_submission(&job_id, report_a).expect("reveal a");
    lifecycle.reveal_submission(&job_id, report_b).expect("reveal b");
    lifecycle.open_verify_phase(&job_id).expect("open verify");
    lifecycle.record_verification(&job_id, "verifier-1", "worker-a", true).expect("verification");

    let mut signals = HashMap::new();
    signals.insert("worker-a".to_string(), (0.8, 0.8, 0.8, 0.0));
    signals.insert("worker-b".to_string(), (0.8, 0.8, 0.8, 0.0));

    lifecycle.finalize_job(&job_id, |r: &WorkerExecutionReport| score_of(&signals, r)).expect("finalize");

    let challenge_id = lifecycle
        .submit_challenge(&job_id, "challenger-1", "worker-a", ChallengeType::LowQuality, 0.92f64.to_bits(), "0.920")
        .expect("challenge submit");

    let settle_err = lifecycle.settle_job(&job_id, share_of).expect_err("settlement should be blocked by unresolved challenge");
    assert_eq!(settle_err, ContractError::InvalidChallengeState);

    let before = lifecycle.worker_reputation("worker-a").unwrap_or_default();
    lifecycle.resolve_challenge(&challenge_id, true).expect("resolve accepted");
    let after = lifecycle.worker_reputation("worker-a").unwrap_or_default();
    assert!(after <= before - 1);

    let payouts = lifecycle.settle_job(&job_id, share_of).expect("settle after resolve");
    assert!((payout_sum(&payouts) - 1.0).abs() < 1e-9);
}

#[test]
fn rejected_challenge_counts_toward_false_positive_rate() {
    let mut lifecycle = ContractLifecycle::new();
    let engine = WorkerEngine::new();

    lifecycle.register_worker("worker-a", 120);
    lifecycle.register_worker("challenger-1", 120);
    let job_id = lifecycle.create_job(sample_job("viterbi-basic-bsc"));
    let report_a = engine.execute_job(&sample_job("viterbi-basic-bsc"), "worker-a", b"noisy").expect("report");
    let commit = ContractLifecycle::commitment_for_report(&report_a);
    lifecycle.commit_submission(&job_id, "worker-a", &commit).expect("commit");
    lifecycle.open_reveal_phase(&job_id).expect("reveal open");
    lifecycle.reveal_submission(&job_id, report_a).expect("reveal");
    lifecycle.open_verify_phase(&job_id).expect("verify open");

    let challenge_id = lifecycle
        .submit_challenge(&job_id, "challenger-1", "worker-a", ChallengeType::ReplayAttack, 0.3f64.to_bits(), "0.300")
        .expect("challenge");
    lifecycle.resolve_challenge(&challenge_id, false).expect("resolve rejected");

    let (rejected, resolved) = lifecycle.challenge_resolution_counts();
    let fp = if resolved == 0 { 0.0 } else { rejected as f64 / resolved as f64 };
    assert!((fp - 1.0).abs() < 1e-9);
    assert!(lifecycle.challenge_slo_ok(3));
}

#[test]
fn collusion_heuristic_flags_extreme_pass_pairing() {
    let mut lifecycle = ContractLifecycle::new();
    let engine = WorkerEngine::new();

    lifecycle.register_worker("worker-a", 200);
    lifecycle.register_worker("worker-b", 200);

    for i in 0..3 {
        let job_id = format!("job-collusion-{i}");
        let mut spec = sample_job("viterbi-basic-bsc");
        spec.job_id = job_id.clone();
        let created_id = lifecycle.create_job(spec);

        let report_a = engine.execute_job(&sample_job("viterbi-basic-bsc"), "worker-a", b"noisy").expect("report a");
        let report_b = engine.execute_job(&sample_job("turbo-basic"), "worker-b", b"noisy").expect("report b");
        let commit_a = ContractLifecycle::commitment_for_report(&report_a);
        let commit_b = ContractLifecycle::commitment_for_report(&report_b);
        lifecycle.commit_submission(&created_id, "worker-a", &commit_a).expect("commit a");
        lifecycle.commit_submission(&created_id, "worker-b", &commit_b).expect("commit b");
        lifecycle.open_reveal_phase(&created_id).expect("reveal open");
        lifecycle.reveal_submission(&created_id, report_a).expect("reveal a");
        lifecycle.reveal_submission(&created_id, report_b).expect("reveal b");
        lifecycle.open_verify_phase(&created_id).expect("verify open");
        lifecycle.record_verification(&created_id, "verifier-1", "worker-a", true).expect("verify a pass");
        lifecycle.record_verification(&created_id, "verifier-1", "worker-b", false).expect("verify b fail");
    }

    let suspicious: Vec<(String, String, f64, u64)> = lifecycle
        .verifier_worker_pairs(3)
        .into_iter()
        .map(|(v, w, passes, total)| (v, w, passes as f64 / total as f64, total))
        .filter(|(_, _, ratio, _)| *ratio >= 0.95)
        .collect();
    assert!(suspicious.iter().any(|(verifier, worker, _, _)| verifier == "verifier-1" && worker == "worker-a"));
    assert!(!suspicious.iter().any(|(_, worker, _, _)| worker == "worker-b"));
}

#[test]
fn reveal_must_match_commitment() {
    let mut lifecycle = ContractLifecycle::new();
    let engine = WorkerEngine::new();
    lifecycle.register_worker("worker-a", 100);
    let job_id = lifecycle.create_job(sample_job("viterbi-basic-bsc"));
    let report = engine.execute_job(&sample_job("viterbi-basic-bsc"), "worker-a", b"noisy").expect("report");
    let other = engine.execute_job(&sample_job("viterbi-basic-bsc"), "worker-a", b"other").expect("report");
    lifecycle
        .commit_submission(&job_id, "worker-a", &ContractLifecycle::commitment_for_report(&report))
        .expect("commit");
    lifecycle.open_reveal_phase(&job_id).expect("open");
    assert_eq!(lifecycle.reveal_submission(&job_id, other), Err(ContractError::CommitmentMismatch));
    assert!(lifecycle.reveal_submission(&job_id, report).is_ok());
}

#[test]
fn operations_on_unknown_jobs_and_out_of_phase_are_refused() {
    let mut lifecycle = ContractLifecycle::new();
    lifecycle.register_worker("worker-a", 100);
    assert_eq!(lifecycle.open_reveal_phase("missing"), Err(ContractError::JobNotFound));
    let job_id = lifecycle.create_job(sample_job("viterbi-basic-bsc"));
    assert_eq!(lifecycle.open_verify_phase(&job_id), Err(ContractError::InvalidState));
    assert_eq!(lifecycle.commit_submission(&job_id, "nobody", "x"), Err(ContractError::WorkerNotRegistered));
    assert_eq!(lifecycle.settle_job(&job_id, share_of), Err(ContractError::InvalidState));
    assert_eq!(
        lifecycle.finalize_job(&job_id, |_r: &WorkerExecutionReport| 0u64).map(|f| f.winner_worker_id),
        Err(ContractError::InvalidState)
    );
}

#[test]
fn events_are_numbered_in_order() {
    let mut lifecycle = ContractLifecycle::new();
    lifecycle.register_worker("worker-a", 100);
    let job_id = lifecycle.create_job(sample_job("viterbi-basic-bsc"));
    lifecycle.open_reveal_phase(&job_id).expect("open");
    let seqs: Vec<u64> = lifecycle.events().iter().map(|e| e.seq).collect();
    assert_eq!(seqs, vec![1, 2, 3]);
    assert_eq!(lifecycle.events()[0].details, "job created");
}

#[test]
fn settlement_slashes_committers_that_did_not_reveal() {
    let mut lifecycle = ContractLifecycle::new();
    let engine = WorkerEngine::new();
    lifecycle.register_worker("worker-a", 100);
    lifecycle.register_worker("worker-c", 100);

    let job_id = lifecycle.create_job(sample_job("viterbi-basic-bsc"));
    let report_a = engine.execute_job(&sample_job("viterbi-basic-bsc"), "worker-a", b"noisy-stream").expect("report a");
    let report_c = engine.execute_job(&sample_job("viterbi-basic-bsc"), "worker-c", b"noisy-stream").expect("report c");
    lifecycle.commit_submission(&job_id, "worker-a", &ContractLifecycle::commitment_for_report(&report_a)).expect("commit a");
    lifecycle.commit_submission(&job_id, "worker-c", &ContractLifecycle::commitment_for_report(&report_c)).expect("commit c");
    lifecycle.open_reveal_phase(&job_id).expect("open reveal");
    lifecycle.reveal_submission(&job_id, report_a).expect("reveal a");
    lifecycle.open_verify_phase(&job_id).expect("open verify");

    let signals = HashMap::new();
    lifecycle.finalize_job(&job_id, |r: &WorkerExecutionReport| score_of(&signals, r)).expect("finalize");
    let payouts = lifecycle.settle_job(&job_id, share_of).expect("settle");
    assert_eq!(payouts.len(), 1);
    assert_eq!(payouts[0].0, "worker-a");

    let events = lifecycle.events();
    let n = events.len();
    assert_eq!(events[n - 1].kind, ContractEventKind::JobSettled);
    assert_eq!(events[n - 1].details, "payout_recipients=1");
    assert_eq!(events[n - 2].kind, ContractEventKind::StakeSlashed);
    assert_eq!(events[n - 2].actor_id, "worker-c");
    assert_eq!(events[n - 2].details, "reason=no_reveal;amount=10");
    assert_eq!(events[n - 3].kind, ContractEventKind::ReputationUpdated);
    assert_eq!(events[n - 3].actor_id, "worker-a");
    assert!(events.iter().all(|e| !(e.kind == ContractEventKind::StakeSlashed && e.actor_id == "worker-a")));
    assert_eq!(lifecycle.worker_reputation("worker-c"), Some(0));
}

#[test]
fn timeline_replay_matches_whole_log_replay() {
    let mut lifecycle = ContractLifecycle::new();
    let mut first = sample_job("viterbi-basic-bsc");
    first.job_id = "job-first".to_string();
    let mut second = sample_job("viterbi-basic-bsc");
    second.job_id = "job-second".to_string();
    let a = lifecycle.create_job(first);
    let b = lifecycle.create_job(second);
    lifecycle.open_reveal_phase(&a).expect("reveal a");

    for job in [a.as_str(), b.as_str(), "job-missing"] {
        let timeline = EventIndexer::timeline_for_job(lifecycle.events(), job);
        assert!(timeline.iter().all(|e| e.job_id == job));
        assert_eq!(EventIndexer::rebuild_state(&timeline, job), EventIndexer::rebuild_state(lifecycle.events(), job));
    }
    assert_eq!(EventIndexer::rebuild_state(lifecycle.events(), &a), Some(ContractJobState::RevealOpen));
    assert_eq!(EventIndexer::rebuild_state(lifecycle.events(), &b), Some(ContractJobState::CommitOpen));
    assert_eq!(EventIndexer::rebuild_state(lifecycle.events(), "job-missing"), None);
    assert_eq!(EventIndexer::timeline_for_job(lifecycle.events(), &a).len(), 3);
}
