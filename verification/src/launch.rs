//! Launch readiness: twelve legal, audit, security and operations
//! checks, each of which blocks the launch until it passes.
//!
//! The report counts the passed checks; the score as a percentage is
//! `100 * passed / total`, computed in floating point by callers.

use vstd::prelude::*;

verus! {

/// The state of each launch prerequisite.
#[derive(Debug, Clone, PartialEq, Eq, Structural)]
pub struct LaunchReadinessInput {
    pub legal_opinion_ready: bool,
    pub aml_kyc_policy_ready: bool,
    pub sanctions_screening_ready: bool,
    pub tokenomics_policy_finalized: bool,
    pub contract_audit_passed: bool,
    pub economic_audit_passed: bool,
    pub bug_bounty_completed: bool,
    pub governance_timelock_enabled: bool,
    pub treasury_multisig_ready: bool,
    pub testnet_canary_completed: bool,
    pub incident_drills_passed: bool,
    pub launch_communications_ready: bool,
}

/// The assessment: ready when nothing blocks; the blockers in the order of
/// the checks; and how many of the checks passed, out of how many.
#[derive(Debug, Clone)]
pub struct LaunchReadinessReport {
    pub ready: bool,
    pub checks_passed: usize,
    pub checks_total: usize,
    pub blockers: Vec<String>,
}

/// The checks in order, each with the blocker message it raises when it
/// fails.
pub open spec fn launch_checks(input: LaunchReadinessInput) -> Seq<(bool, Seq<char>)> {
    seq![
        (input.legal_opinion_ready, "Missing legal opinion for target jurisdictions"@),
        (input.aml_kyc_policy_ready, "Missing AML/KYC policy package"@),
        (input.sanctions_screening_ready, "Missing sanctions-screening operations"@),
        (input.tokenomics_policy_finalized, "Tokenomics policy is not finalized"@),
        (input.contract_audit_passed, "Smart-contract audit not passed"@),
        (input.economic_audit_passed, "Economic design audit not passed"@),
        (input.bug_bounty_completed, "Bug bounty program not completed"@),
        (input.governance_timelock_enabled, "Governance timelock not enabled"@),
        (input.treasury_multisig_ready, "Treasury multisig not ready"@),
        (input.testnet_canary_completed, "Testnet/canary rollout not completed"@),
        (input.incident_drills_passed, "Incident drills not passed"@),
        (input.launch_communications_ready, "Launch communications and disclosures not ready"@),
    ]
}

/// The messages of the failed checks, in order.
pub open spec fn blockers_of(checks: Seq<(bool, Seq<char>)>) -> Seq<Seq<char>>
    decreases checks.len(),
{
    if checks.len() == 0 {
        Seq::empty()
    } else if checks.last().0 {
        blockers_of(checks.drop_last())
    } else {
        blockers_of(checks.drop_last()).push(checks.last().1)
    }
}

/// How many checks passed.
pub open spec fn passed_count(checks: Seq<(bool, Seq<char>)>) -> nat
    decreases checks.len(),
{
    if checks.len() == 0 {
        0
    } else {
        passed_count(checks.drop_last()) + if checks.last().0 {
            1nat
        } else {
            0nat
        }
    }
}

/// Each check either passes or blocks.
pub proof fn lemma_checks_partition(checks: Seq<(bool, Seq<char>)>)
    ensures
        passed_count(checks) + blockers_of(checks).len() == checks.len(),
    decreases checks.len(),
{
    if checks.len() > 0 {
        lemma_checks_partition(checks.drop_last());
    }
}

/// Assesses launch readiness.
pub fn assess_launch_readiness(input: &LaunchReadinessInput) -> (r: LaunchReadinessReport)
    ensures
        r.blockers@.map_values(|b: String| b@) == blockers_of(launch_checks(*input)),
        r.checks_passed == passed_count(launch_checks(*input)),
        r.checks_total == 12,
        r.ready == (blockers_of(launch_checks(*input)).len() == 0),
{
    let checks: Vec<(bool, &str)> = vec![
        (input.legal_opinion_ready, "Missing legal opinion for target jurisdictions"),
        (input.aml_kyc_policy_ready, "Missing AML/KYC policy package"),
        (input.sanctions_screening_ready, "Missing sanctions-screening operations"),
        (input.tokenomics_policy_finalized, "Tokenomics policy is not finalized"),
        (input.contract_audit_passed, "Smart-contract audit not passed"),
        (input.economic_audit_passed, "Economic design audit not passed"),
        (input.bug_bounty_completed, "Bug bounty program not completed"),
        (input.governance_timelock_enabled, "Governance timelock not enabled"),
        (input.treasury_multisig_ready, "Treasury multisig not ready"),
        (input.testnet_canary_completed, "Testnet/canary rollout not completed"),
        (input.incident_drills_passed, "Incident drills not passed"),
        (input.launch_communications_ready, "Launch communications and disclosures not ready"),
    ];
    let ghost spec_checks = launch_checks(*input);
    assert(checks@.map_values(|c: (bool, &str)| (c.0, c.1@)) =~= spec_checks);
    let mut passed: usize = 0;
    let mut blockers: Vec<String> = Vec::new();
    let mut k: usize = 0;
    while k < checks.len()
        invariant
            k <= checks@.len(),
            checks@.len() == 12,
            checks@.map_values(|c: (bool, &str)| (c.0, c.1@)) == spec_checks,
            passed == passed_count(spec_checks.subrange(0, k as int)),
            passed <= k,
            blockers@.map_values(|b: String| b@) == blockers_of(spec_checks.subrange(0, k as int)),
        decreases checks@.len() - k,
    {
        let (ok, message) = checks[k];
        proof {
            let pre = spec_checks.subrange(0, k as int + 1);
            assert(pre.drop_last() =~= spec_checks.subrange(0, k as int));
            assert(pre.last() == (ok, message@));
        }
        if ok {
            passed = passed + 1;
        } else {
            blockers.push(message.to_owned());
        }
        k = k + 1;
        assert(blockers@.map_values(|b: String| b@) =~= blockers_of(spec_checks.subrange(0, k as int)));
    }
    assert(spec_checks.subrange(0, 12) =~= spec_checks);
    let ready = blockers.len() == 0;
    LaunchReadinessReport { ready, checks_passed: passed, checks_total: checks.len(), blockers }
}

/// The launch is ready exactly when every check passes, and then all twelve
/// count as passed.
pub proof fn law_ready_iff_all_checks_pass(input: LaunchReadinessInput)
    ensures
        blockers_of(launch_checks(input)).len() == 0 <==> forall|i: int|
            0 <= i < launch_checks(input).len() ==> #[trigger] launch_checks(input)[i].0,
        blockers_of(launch_checks(input)).len() == 0 ==> passed_count(launch_checks(input)) == 12,
{
    lemma_checks_partition(launch_checks(input));
    lemma_blockers_empty(launch_checks(input));
}

/// A message is among the blockers exactly when some failed check raises it.
proof fn lemma_blockers_contain(checks: Seq<(bool, Seq<char>)>, m: Seq<char>)
    ensures
        blockers_of(checks).contains(m) <==> exists|i: int|
            0 <= i < checks.len() && !(#[trigger] checks[i]).0 && checks[i].1 == m,
    decreases checks.len(),
{
    if checks.len() > 0 {
        let pre = checks.drop_last();
        lemma_blockers_contain(pre, m);
        assert forall|i: int| 0 <= i < pre.len() implies #[trigger] pre[i] == checks[i] by {}
        let b = blockers_of(checks);
        let bp = blockers_of(pre);
        if bp.contains(m) {
            let k = choose|k: int| 0 <= k < bp.len() && bp[k] == m;
            if !checks.last().0 {
                assert(b[k] == bp[k]);
            }
            assert(b.contains(m));
        }
        if b.contains(m) && !bp.contains(m) {
            let k = choose|k: int| 0 <= k < b.len() && b[k] == m;
            assert(!checks.last().0 && k == bp.len());
            assert(!checks[checks.len() - 1].0 && checks[checks.len() - 1].1 == m);
        }
        if exists|i: int| 0 <= i < checks.len() && !(#[trigger] checks[i]).0 && checks[i].1 == m {
            let i = choose|i: int| 0 <= i < checks.len() && !(#[trigger] checks[i]).0 && checks[i].1 == m;
            if i < pre.len() {
                assert(!pre[i].0 && pre[i].1 == m);
            } else {
                assert(b == bp.push(m));
                assert(b[bp.len() as int] == m);
            }
        }
    }
}

/// Each blocker message is raised exactly when its own check fails, and the
/// launch is ready exactly when all twelve prerequisites hold; the passed
/// checks and the blockers together number twelve.
pub proof fn law_each_blocker_names_its_failed_check(input: LaunchReadinessInput)
    ensures
        blockers_of(launch_checks(input)).contains("Missing legal opinion for target jurisdictions"@)
            <==> !input.legal_opinion_ready,
        blockers_of(launch_checks(input)).contains("Missing AML/KYC policy package"@) <==> !input.aml_kyc_policy_ready,
        blockers_of(launch_checks(input)).contains("Missing sanctions-screening operations"@)
            <==> !input.sanctions_screening_ready,
        blockers_of(launch_checks(input)).contains("Tokenomics policy is not finalized"@)
            <==> !input.tokenomics_policy_finalized,
        blockers_of(launch_checks(input)).contains("Smart-contract audit not passed"@) <==> !input.contract_audit_passed,
        blockers_of(launch_checks(input)).contains("Economic design audit not passed"@)
            <==> !input.economic_audit_passed,
        blockers_of(launch_checks(input)).contains("Bug bounty program not completed"@)
            <==> !input.bug_bounty_completed,
        blockers_of(launch_checks(input)).contains("Governance timelock not enabled"@)
            <==> !input.governance_timelock_enabled,
        blockers_of(launch_checks(input)).contains("Treasury multisig not ready"@) <==> !input.treasury_multisig_ready,
        blockers_of(launch_checks(input)).contains("Testnet/canary rollout not completed"@)
            <==> !input.testnet_canary_completed,
        blockers_of(launch_checks(input)).contains("Incident drills not passed"@) <==> !input.incident_drills_passed,
        blockers_of(launch_checks(input)).contains("Launch communications and disclosures not ready"@)
            <==> !input.launch_communications_ready,
        blockers_of(launch_checks(input)).len() == 0 <==> (input.legal_opinion_ready && input.aml_kyc_policy_ready
            && input.sanctions_screening_ready && input.tokenomics_policy_finalized && input.contract_audit_passed
            && input.economic_audit_passed && input.bug_bounty_completed && input.governance_timelock_enabled
            && input.treasury_multisig_ready && input.testnet_canary_completed && input.incident_drills_passed
            && input.launch_communications_ready),
        passed_count(launch_checks(input)) + blockers_of(launch_checks(input)).len() == 12,
{
    let c = launch_checks(input);
    reveal_strlit("Missing legal opinion for target jurisdictions");
    reveal_strlit("Missing AML/KYC policy package");
    reveal_strlit("Missing sanctions-screening operations");
    reveal_strlit("Tokenomics policy is not finalized");
    reveal_strlit("Smart-contract audit not passed");
    reveal_strlit("Economic design audit not passed");
    reveal_strlit("Bug bounty program not completed");
    reveal_strlit("Governance timelock not enabled");
    reveal_strlit("Treasury multisig not ready");
    reveal_strlit("Testnet/canary rollout not completed");
    reveal_strlit("Incident drills not passed");
    reveal_strlit("Launch communications and disclosures not ready");
    assert forall|k: int| 0 <= k < 12 implies #[trigger] c[k] == launch_checks(input)[k] by {}
    assert forall|k: int, j: int| 0 <= k < 12 && 0 <= j < 12 && k != j implies #[trigger] c[k].1 != #[trigger] c[j].1 by {
        assert(c[k].1.len() != c[j].1.len() || c[k].1[0] != c[j].1[0] || c[k].1[1] != c[j].1[1]
            || c[k].1[2] != c[j].1[2]);
    }
    assert forall|k: int| 0 <= k < 12 implies (blockers_of(c).contains(#[trigger] c[k].1) <==> !c[k].0) by {
        lemma_blockers_contain(c, c[k].1);
        if blockers_of(c).contains(c[k].1) {
            let i = choose|i: int| 0 <= i < c.len() && !(#[trigger] c[i]).0 && c[i].1 == c[k].1;
            assert(i == k);
        }
    }
    assert(blockers_of(c).contains(c[0].1) <==> !c[0].0);
    assert(blockers_of(c).contains(c[1].1) <==> !c[1].0);
    assert(blockers_of(c).contains(c[2].1) <==> !c[2].0);
    assert(blockers_of(c).contains(c[3].1) <==> !c[3].0);
    assert(blockers_of(c).contains(c[4].1) <==> !c[4].0);
    assert(blockers_of(c).contains(c[5].1) <==> !c[5].0);
    assert(blockers_of(c).contains(c[6].1) <==> !c[6].0);
    assert(blockers_of(c).contains(c[7].1) <==> !c[7].0);
    assert(blockers_of(c).contains(c[8].1) <==> !c[8].0);
    assert(blockers_of(c).contains(c[9].1) <==> !c[9].0);
    assert(blockers_of(c).contains(c[10].1) <==> !c[10].0);
    assert(blockers_of(c).contains(c[11].1) <==> !c[11].0);
    lemma_checks_partition(c);
    lemma_blockers_empty(c);
    if input.legal_opinion_ready && input.aml_kyc_policy_ready && input.sanctions_screening_ready
        && input.tokenomics_policy_finalized && input.contract_audit_passed && input.economic_audit_passed
        && input.bug_bounty_completed && input.governance_timelock_enabled && input.treasury_multisig_ready
        && input.testnet_canary_completed && input.incident_drills_passed && input.launch_communications_ready {
        assert forall|i: int| 0 <= i < c.len() implies #[trigger] c[i].0 by {
            assert(0 <= i < 12);
        }
    } else {
        assert(!c[0].0 || !c[1].0 || !c[2].0 || !c[3].0 || !c[4].0 || !c[5].0 || !c[6].0 || !c[7].0 || !c[8].0
            || !c[9].0 || !c[10].0 || !c[11].0);
    }
}

/// No blocker exactly when every check passed.
proof fn lemma_blockers_empty(checks: Seq<(bool, Seq<char>)>)
    ensures
        blockers_of(checks).len() == 0 <==> forall|i: int| 0 <= i < checks.len() ==> #[trigger] checks[i].0,
    decreases checks.len(),
{
    if checks.len() > 0 {
        lemma_blockers_empty(checks.drop_last());
        let pre = checks.drop_last();
        assert forall|i: int| 0 <= i < pre.len() implies #[trigger] pre[i] == checks[i] by {}
        if blockers_of(checks).len() == 0 {
            assert forall|i: int| 0 <= i < checks.len() implies #[trigger] checks[i].0 by {
                if i < checks.len() - 1 {
                    assert(pre[i].0);
                }
            }
        }
        if forall|i: int| 0 <= i < checks.len() ==> #[trigger] checks[i].0 {
            assert(checks[checks.len() - 1].0);
            assert forall|i: int| 0 <= i < pre.len() implies #[trigger] pre[i].0 by {
                assert(checks[i].0);
            }
        }
    }
}

} // verus!
