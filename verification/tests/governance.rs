use reli::governance::{GovernanceChange, GovernanceEngine, GovernanceError, ProposalStatus};

fn change(key: &str, value: f64, rollback: f64) -> GovernanceChange {
    GovernanceChange { key: key.to_string(), value_bits: value.to_bits(), rollback_value_bits: rollback.to_bits() }
}

#[test]
fn activation_delay_is_enforced() {
    let mut engine = GovernanceEngine::new(3);
    let proposal_id = engine.submit_proposal("raise_quality_floor", change("quality_floor", 0.8, 0.7));

    let err = engine.schedule_proposal(&proposal_id, 1).expect_err("delay too small should fail");
    assert_eq!(err, GovernanceError::InvalidDelay);

    engine.schedule_proposal(&proposal_id, 3).expect("valid delay should pass");
    engine.advance_epochs(3);
    engine.activate_due_proposals();

    assert_eq!(engine.proposal_status(&proposal_id), Some(ProposalStatus::Active));
    assert_eq!(engine.get_param("quality_floor").map(f64::from_bits), Some(0.8));
}

#[test]
fn rollback_drill_restores_parameter() {
    let mut engine = GovernanceEngine::new(2);
    let ok = engine.run_rollback_drill("weight_update", change("w1_accuracy", 0.5, 0.4)).expect("drill should succeed");

    assert!(ok);
}

#[test]
fn proposal_ids_count_up_zero_padded() {
    let mut engine = GovernanceEngine::default();
    assert_eq!(engine.submit_proposal("a", change("k", 1.0, 0.0)), "gov-0001");
    assert_eq!(engine.submit_proposal("b", change("k", 1.0, 0.0)), "gov-0002");
    assert_eq!(engine.proposal_status("gov-0002"), Some(ProposalStatus::Proposed));
    assert_eq!(engine.proposal_status("gov-0003"), None);
}

#[test]
fn proposal_is_not_active_before_its_epoch() {
    let mut engine = GovernanceEngine::new(2);
    let id = engine.submit_proposal("p", change("floor", 0.9, 0.1));
    engine.schedule_proposal(&id, 5).expect("schedule");
    engine.advance_epochs(4);
    engine.activate_due_proposals();
    assert_eq!(engine.proposal_status(&id), Some(ProposalStatus::Scheduled));
    assert_eq!(engine.get_param("floor"), None);
    engine.advance_epochs(1);
    engine.activate_due_proposals();
    assert_eq!(engine.proposal_status(&id), Some(ProposalStatus::Active));
}

#[test]
fn rollback_requires_an_active_proposal() {
    let mut engine = GovernanceEngine::new(0);
    assert_eq!(engine.rollback_proposal("gov-0001"), Err(GovernanceError::ProposalNotFound));
    let id = engine.submit_proposal("p", change("floor", 0.9, 0.1));
    assert_eq!(engine.rollback_proposal(&id), Err(GovernanceError::InvalidState));
    engine.schedule_proposal(&id, 0).expect("schedule");
    assert_eq!(engine.schedule_proposal(&id, 0), Err(GovernanceError::InvalidState));
    engine.activate_due_proposals();
    engine.rollback_proposal(&id).expect("rollback");
    assert_eq!(engine.get_param("floor").map(f64::from_bits), Some(0.1));
    assert_eq!(engine.proposal_status(&id), Some(ProposalStatus::RolledBack));
}

#[test]
fn drill_reports_non_finite_rollback_values_as_not_restored() {
    let mut engine = GovernanceEngine::new(1);
    let ok = engine.run_rollback_drill("nan", change("x", 1.0, f64::NAN)).expect("drill runs");
    assert!(!ok);
}

#[test]
fn clock_saturates() {
    let mut engine = GovernanceEngine::new(1);
    engine.advance_epochs(u64::MAX);
    engine.advance_epochs(5);
    assert_eq!(engine.current_epoch, u64::MAX);
}
