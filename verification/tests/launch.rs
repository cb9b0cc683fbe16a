use reli::launch::{assess_launch_readiness, LaunchReadinessInput};

fn all_true() -> LaunchReadinessInput {
    LaunchReadinessInput {
        legal_opinion_ready: true,
        aml_kyc_policy_ready: true,
        sanctions_screening_ready: true,
        tokenomics_policy_finalized: true,
        contract_audit_passed: true,
        economic_audit_passed: true,
        bug_bounty_completed: true,
        governance_timelock_enabled: true,
        treasury_multisig_ready: true,
        testnet_canary_completed: true,
        incident_drills_passed: true,
        launch_communications_ready: true,
    }
}

fn score_percent(passed: usize, total: usize) -> f64 {
    (passed as f64 / total as f64) * 100.0
}

#[test]
fn launch_is_ready_when_all_gates_pass() {
    let report = assess_launch_readiness(&all_true());
    assert!(report.ready);
    assert_eq!(report.blockers.len(), 0);
    assert!((score_percent(report.checks_passed, report.checks_total) - 100.0).abs() < 1e-12);
}

#[test]
fn launch_is_blocked_when_critical_items_fail() {
    let mut input = all_true();
    input.contract_audit_passed = false;
    input.legal_opinion_ready = false;

    let report = assess_launch_readiness(&input);
    assert!(!report.ready);
    assert!(report.blockers.iter().any(|msg| msg.contains("legal opinion")));
    assert!(report.blockers.iter().any(|msg| msg.contains("Smart-contract audit")));
    assert!(score_percent(report.checks_passed, report.checks_total) < 100.0);
}

#[test]
fn blockers_come_in_check_order() {
    let mut input = all_true();
    input.launch_communications_ready = false;
    input.aml_kyc_policy_ready = false;
    let report = assess_launch_readiness(&input);
    assert_eq!(
        report.blockers,
        vec![
            "Missing AML/KYC policy package".to_string(),
            "Launch communications and disclosures not ready".to_string()
        ]
    );
    assert_eq!(report.checks_passed, 10);
    assert_eq!(report.checks_total, 12);
}
