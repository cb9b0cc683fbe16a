//! Parameter governance: proposals to change a named parameter are
//! submitted, scheduled no sooner than a minimum delay, activated when due,
//! and can be rolled back to a recorded value.
//!
//! Parameter values are `f64` values held as their IEEE-754 bit patterns.
//! Proposals are kept in submission order; when several due proposals set the
//! same parameter, activation applies them in that order.

use vstd::prelude::*;

use crate::keyed::{StrMap, owned};
use crate::text::{dec_padded, lemma_dec_padded_injective, push_dec_padded, push_text};

verus! {

/// A parameter change and the value that undoes it.
#[derive(Debug, Clone)]
pub struct GovernanceChange {
    pub key: String,
    pub value_bits: u64,
    pub rollback_value_bits: u64,
}

/// Where a proposal stands.
#[derive(Debug, Clone, Copy, PartialEq, Eq, Structural)]
pub enum ProposalStatus {
    Proposed,
    Scheduled,
    Active,
    RolledBack,
    Rejected,
}

/// A submitted proposal.
#[derive(Debug, Clone)]
pub struct GovernanceProposal {
    pub proposal_id: String,
    pub title: String,
    pub submitted_epoch: u64,
    pub activation_epoch: Option<u64>,
    pub status: ProposalStatus,
    pub change: GovernanceChange,
}

/// Why a governance operation was refused.
#[derive(Debug, PartialEq, Eq, Structural)]
pub enum GovernanceError {
    ProposalNotFound,
    InvalidDelay,
    InvalidState,
}

/// The identifier of the `n`-th proposal: `gov-` and `n`, zero-padded to four
/// digits.
pub open spec fn gov_id(n: nat) -> Seq<char> {
    "gov-"@ + dec_padded(n, 4)
}

/// The epoch a proposal waits for; one that was never scheduled waits for
/// the last epoch.
pub open spec fn due_epoch(p: GovernanceProposal) -> u64 {
    match p.activation_epoch {
        Some(e) => e,
        None => u64::MAX,
    }
}

/// `p` is scheduled and due at epoch `now`.
pub open spec fn is_due(p: GovernanceProposal, now: u64) -> bool {
    p.status == ProposalStatus::Scheduled && due_epoch(p) <= now
}

/// `p` after activation at epoch `now`.
pub open spec fn activated(p: GovernanceProposal, now: u64) -> GovernanceProposal {
    if is_due(p, now) {
        GovernanceProposal { status: ProposalStatus::Active, ..p }
    } else {
        p
    }
}

/// The parameters after applying, in order, every proposal of `ps` that is
/// due at `now`.
pub open spec fn apply_due(params: Map<Seq<char>, u64>, ps: Seq<GovernanceProposal>, now: u64) -> Map<
    Seq<char>,
    u64,
>
    decreases ps.len(),
{
    if ps.len() == 0 {
        params
    } else {
        let before = apply_due(params, ps.drop_last(), now);
        if is_due(ps.last(), now) {
            before.insert(ps.last().change.key@, ps.last().change.value_bits)
        } else {
            before
        }
    }
}

/// Whether an `f64` bit pattern is finite (neither infinite nor NaN).
pub open spec fn finite_bits(bits: u64) -> bool {
    bits & 0x7FF0_0000_0000_0000 != 0x7FF0_0000_0000_0000
}

/// `k` is the id of a proposal numbered below `next`.
pub open spec fn issued_id(k: Seq<char>, next: u64) -> bool {
    exists|n: nat| 1 <= n < next && #[trigger] gov_id(n) == k
}

/// Distinct numbers give distinct proposal ids.
pub proof fn lemma_gov_id_injective(n: nat, m: nat)
    requires
        gov_id(n) == gov_id(m),
    ensures
        n == m,
{
    reveal_strlit("gov-");
    assert(gov_id(n).subrange(4, gov_id(n).len() as int) =~= dec_padded(n, 4));
    assert(gov_id(m).subrange(4, gov_id(m).len() as int) =~= dec_padded(m, 4));
    lemma_dec_padded_injective(n, m, 4);
}

/// Nothing observable about the engine changed.
pub open spec fn engine_unchanged(a: GovernanceEngine, b: GovernanceEngine) -> bool {
    &&& b.epoch() == a.epoch()
    &&& b.min_delay() == a.min_delay()
    &&& b.next_number() == a.next_number()
    &&& b.proposal_map() == a.proposal_map()
    &&& b.proposal_ids() == a.proposal_ids()
    &&& b.proposal_order() == a.proposal_order()
    &&& b.param_map() == a.param_map()
}

/// Proposal `id` became `q`; every other proposal, the order, the clock and
/// the id counter stayed.
pub open spec fn proposal_replaced(a: GovernanceEngine, b: GovernanceEngine, id: Seq<char>, q: GovernanceProposal) -> bool {
    &&& b.epoch() == a.epoch()
    &&& b.min_delay() == a.min_delay()
    &&& b.next_number() == a.next_number()
    &&& b.proposal_map() == a.proposal_map().insert(id, q)
    &&& b.proposal_ids() == a.proposal_ids()
    &&& b.proposal_order().len() == a.proposal_order().len()
    &&& forall|i: int|
        0 <= i < a.proposal_order().len() ==> #[trigger] b.proposal_order()[i] == if a.proposal_ids()[i] == id {
            q
        } else {
            a.proposal_order()[i]
        }
}

/// The outcome of `submit_proposal`: a fresh id from the counter, a new
/// `Proposed` proposal at the end of the order, submitted now.
pub open spec fn submit_post(
    a: GovernanceEngine,
    b: GovernanceEngine,
    title: Seq<char>,
    change: GovernanceChange,
    id: Seq<char>,
) -> bool {
    let p = b.proposal_map()[id];
    &&& id == gov_id(a.next_number() as nat)
    &&& !a.proposal_map().contains_key(id)
    &&& b.next_number() == a.next_number() + 1
    &&& b.epoch() == a.epoch()
    &&& b.min_delay() == a.min_delay()
    &&& b.param_map() == a.param_map()
    &&& p.proposal_id@ == id
    &&& p.title@ == title
    &&& p.submitted_epoch == a.epoch()
    &&& p.activation_epoch is None
    &&& p.status == ProposalStatus::Proposed
    &&& p.change == change
    &&& b.proposal_map() == a.proposal_map().insert(id, p)
    &&& b.proposal_ids() == a.proposal_ids().push(id)
    &&& b.proposal_order() == a.proposal_order().push(p)
}

/// The outcome of `schedule_proposal`.
pub open spec fn schedule_post(
    a: GovernanceEngine,
    b: GovernanceEngine,
    id: Seq<char>,
    delay: u64,
    r: Result<(), GovernanceError>,
) -> bool {
    if delay < a.min_delay() {
        r == Err::<(), GovernanceError>(GovernanceError::InvalidDelay) && engine_unchanged(a, b)
    } else if !a.proposal_map().contains_key(id) {
        r == Err::<(), GovernanceError>(GovernanceError::ProposalNotFound) && engine_unchanged(a, b)
    } else if a.proposal_map()[id].status != ProposalStatus::Proposed {
        r == Err::<(), GovernanceError>(GovernanceError::InvalidState) && engine_unchanged(a, b)
    } else {
        &&& r is Ok
        &&& a.epoch() + delay <= u64::MAX
        &&& proposal_replaced(
            a,
            b,
            id,
            GovernanceProposal {
                activation_epoch: Some((a.epoch() + delay) as u64),
                status: ProposalStatus::Scheduled,
                ..a.proposal_map()[id]
            },
        )
        &&& b.param_map() == a.param_map()
    }
}

/// The outcome of `advance_epochs`: the clock moves forward by `delta`,
/// stopping at the last epoch; nothing else changes.
pub open spec fn advance_post(a: GovernanceEngine, b: GovernanceEngine, delta: u64) -> bool {
    &&& b.epoch() == (if a.epoch() + delta > u64::MAX {
        u64::MAX
    } else {
        (a.epoch() + delta) as u64
    })
    &&& b.min_delay() == a.min_delay()
    &&& b.next_number() == a.next_number()
    &&& b.proposal_map() == a.proposal_map()
    &&& b.proposal_ids() == a.proposal_ids()
    &&& b.proposal_order() == a.proposal_order()
    &&& b.param_map() == a.param_map()
}

/// The outcome of `run_rollback_drill`: a proposal for `change` is
/// submitted, scheduled with the minimum delay, brought due by advancing the
/// clock by that delay, activated with everything else that is due, and
/// rolled back; the drill reports whether the parameter then reads back the
/// rollback value within `1e-12`, which holds exactly when that value is
/// finite.
pub open spec fn drill_post(
    a: GovernanceEngine,
    b: GovernanceEngine,
    title: Seq<char>,
    change: GovernanceChange,
    r: Result<bool, GovernanceError>,
) -> bool {
    let id = gov_id(a.next_number() as nat);
    &&& exists|s1: GovernanceEngine, s2: GovernanceEngine, s3: GovernanceEngine, s4: GovernanceEngine|
        #![trigger submit_post(a, s1, title, change, id), schedule_post(s1, s2, id, a.min_delay(), Ok(())), advance_post(s2, s3, a.min_delay()), activate_post(s3, s4), rollback_post(s4, b, id, Ok(()))]
        submit_post(a, s1, title, change, id) && schedule_post(s1, s2, id, a.min_delay(), Ok(())) && advance_post(
            s2,
            s3,
            a.min_delay(),
        ) && activate_post(s3, s4) && rollback_post(s4, b, id, Ok(()))
    &&& b.param_map().contains_key(change.key@)
    &&& b.param_map()[change.key@] == change.rollback_value_bits
    &&& b.proposal_map()[id].status == ProposalStatus::RolledBack
    &&& r == Ok::<bool, GovernanceError>(finite_bits(change.rollback_value_bits))
}

/// The outcome of `activate_due_proposals`.
pub open spec fn activate_post(a: GovernanceEngine, b: GovernanceEngine) -> bool {
    &&& b.epoch() == a.epoch()
    &&& b.min_delay() == a.min_delay()
    &&& b.next_number() == a.next_number()
    &&& b.proposal_ids() == a.proposal_ids()
    &&& b.proposal_order() == a.proposal_order().map_values(|p: GovernanceProposal| activated(p, a.epoch()))
    &&& b.proposal_map() == a.proposal_map().map_values(|p: GovernanceProposal| activated(p, a.epoch()))
    &&& b.param_map() == apply_due(a.param_map(), a.proposal_order(), a.epoch())
}

/// The outcome of `rollback_proposal`.
pub open spec fn rollback_post(a: GovernanceEngine, b: GovernanceEngine, id: Seq<char>, r: Result<(), GovernanceError>) -> bool {
    if !a.proposal_map().contains_key(id) {
        r == Err::<(), GovernanceError>(GovernanceError::ProposalNotFound) && engine_unchanged(a, b)
    } else if a.proposal_map()[id].status != ProposalStatus::Active {
        r == Err::<(), GovernanceError>(GovernanceError::InvalidState) && engine_unchanged(a, b)
    } else {
        let p = a.proposal_map()[id];
        &&& r is Ok
        &&& proposal_replaced(a, b, id, GovernanceProposal { status: ProposalStatus::RolledBack, ..p })
        &&& b.param_map() == a.param_map().insert(p.change.key@, p.change.rollback_value_bits)
    }
}

/// Activating the proposals one by one in order activates each of them in
/// the map.
proof fn lemma_activated_map(before: GovernanceEngine, after: GovernanceEngine, now: u64)
    requires
        before.wf(),
        after.wf(),
        after.proposal_ids() == before.proposal_ids(),
        after.proposal_order() == before.proposal_order().map_values(|p: GovernanceProposal| activated(p, now)),
    ensures
        after.proposal_map() == before.proposal_map().map_values(|p: GovernanceProposal| activated(p, now)),
{
    before.lemma_order();
    after.lemma_order();
    assert forall|k: Seq<char>| #[trigger] after.proposal_map().contains_key(k) <==> before.proposal_map().contains_key(k) by {
        if after.proposal_map().contains_key(k) {
            let i = choose|i: int| 0 <= i < after.proposal_ids().len() && after.proposal_ids()[i] == k;
            assert(before.proposal_map().contains_key(before.proposal_ids()[i]));
        }
        if before.proposal_map().contains_key(k) {
            let i = choose|i: int| 0 <= i < before.proposal_ids().len() && before.proposal_ids()[i] == k;
            assert(after.proposal_map().contains_key(after.proposal_ids()[i]));
        }
    }
    assert forall|k: Seq<char>| #[trigger] after.proposal_map().contains_key(k) implies after.proposal_map()[k]
        == activated(before.proposal_map()[k], now) by {
        let i = choose|i: int| 0 <= i < after.proposal_ids().len() && after.proposal_ids()[i] == k;
        assert(after.proposal_map()[after.proposal_ids()[i]] == after.proposal_order()[i]);
        assert(before.proposal_map()[before.proposal_ids()[i]] == before.proposal_order()[i]);
    }
    assert(after.proposal_map() =~= before.proposal_map().map_values(|p: GovernanceProposal| activated(p, now)));
}

/// Tracks proposals and the parameter values they set.
pub struct GovernanceEngine {
    pub current_epoch: u64,
    pub min_activation_delay_epochs: u64,
    next_id: u64,
    proposals: StrMap<GovernanceProposal>,
    params: StrMap<u64>,
}

impl GovernanceEngine {
    /// The current epoch.
    pub closed spec fn epoch(&self) -> u64 {
        self.current_epoch
    }

    /// The minimum number of epochs between scheduling and activation.
    pub closed spec fn min_delay(&self) -> u64 {
        self.min_activation_delay_epochs
    }

    /// The proposals by id.
    pub closed spec fn proposal_map(&self) -> Map<Seq<char>, GovernanceProposal> {
        self.proposals.map()
    }

    /// The proposal ids in submission order.
    pub closed spec fn proposal_ids(&self) -> Seq<Seq<char>> {
        self.proposals.keys()
    }

    /// The proposals in submission order.
    pub closed spec fn proposal_order(&self) -> Seq<GovernanceProposal> {
        self.proposals.values()
    }

    /// The parameter values by key.
    pub closed spec fn param_map(&self) -> Map<Seq<char>, u64> {
        self.params.map()
    }

    /// The number the next proposal id is made from.
    pub closed spec fn next_number(&self) -> u64 {
        self.next_id
    }

    /// The internal tables hold at most one entry per key, and every
    /// proposal id was made from a number below the next one.
    pub closed spec fn wf(&self) -> bool {
        &&& self.proposals.wf()
        &&& self.params.wf()
        &&& self.next_id >= 1
        &&& forall|i: int| 0 <= i < self.proposals.size() ==> issued_id(#[trigger] self.proposals.key_at(i), self.next_id)
    }

    /// The ids and the proposals in order line up with the map.
    pub proof fn lemma_order(&self)
        requires
            self.wf(),
        ensures
            self.proposal_ids().len() == self.proposal_order().len(),
            forall|i: int|
                0 <= i < self.proposal_ids().len() ==> self.proposal_map().contains_key(
                    #[trigger] self.proposal_ids()[i],
                ) && self.proposal_map()[self.proposal_ids()[i]] == self.proposal_order()[i],
            forall|k: Seq<char>|
                #[trigger] self.proposal_map().contains_key(k) ==> exists|i: int|
                    0 <= i < self.proposal_ids().len() && self.proposal_ids()[i] == k,
    {
        assert forall|i: int| 0 <= i < self.proposal_ids().len() implies self.proposal_map().contains_key(
            #[trigger] self.proposal_ids()[i],
        ) && self.proposal_map()[self.proposal_ids()[i]] == self.proposal_order()[i] by {
            self.proposals.lemma_pos(i);
        }
        assert forall|k: Seq<char>| #[trigger] self.proposal_map().contains_key(k) implies exists|i: int|
            0 <= i < self.proposal_ids().len() && self.proposal_ids()[i] == k by {
            let i = choose|i: int| 0 <= i < self.proposals.size() && self.proposals.key_at(i) == k;
            assert(self.proposal_ids()[i] == k);
        }
    }

    /// An engine at epoch 0 with no proposals and no parameters.
    pub fn new(min_activation_delay_epochs: u64) -> (r: Self)
        ensures
            r.wf(),
            r.epoch() == 0,
            r.min_delay() == min_activation_delay_epochs,
            r.next_number() == 1,
            r.proposal_map() == Map::<Seq<char>, GovernanceProposal>::empty(),
            r.proposal_order() == Seq::<GovernanceProposal>::empty(),
            r.param_map() == Map::<Seq<char>, u64>::empty(),
    {
        let r = GovernanceEngine {
            current_epoch: 0,
            min_activation_delay_epochs,
            next_id: 1,
            proposals: StrMap::new(),
            params: StrMap::new(),
        };
        assert(r.proposal_order() =~= Seq::<GovernanceProposal>::empty());
        r
    }

    /// Submits a proposal; it gets the next id and waits in `Proposed`.
    pub fn submit_proposal(&mut self, title: &str, change: GovernanceChange) -> (id: String)
        requires
            old(self).wf(),
            old(self).next_number() < u64::MAX,
        ensures
            final(self).wf(),
            submit_post(*old(self), *final(self), title@, change, id@),
    {
        let ghost before = *self;
        let mut id = owned("gov-");
        push_dec_padded(&mut id, self.next_id, 4);
        proof {
            reveal_strlit("gov-");
            assert(id@ == gov_id(self.next_id as nat));
            assert(!self.proposals.has(id@)) by {
                if self.proposals.has(id@) {
                    let i = choose|i: int| 0 <= i < self.proposals.size() && self.proposals.key_at(i) == id@;
                    let n = choose|n: nat| 1 <= n < self.next_id && #[trigger] gov_id(n) == self.proposals.key_at(i);
                    lemma_gov_id_injective(n, self.next_id as nat);
                }
            }
        }
        self.next_id = self.next_id + 1;
        let proposal = GovernanceProposal {
            proposal_id: id.clone(),
            title: owned(title),
            submitted_epoch: self.current_epoch,
            activation_epoch: None,
            status: ProposalStatus::Proposed,
            change,
        };
        let ghost p = proposal;
        self.proposals.insert(id.clone(), proposal);
        proof {
            assert forall|i: int| 0 <= i < self.proposals.size() implies issued_id(self.proposals.key_at(i), self.next_id) by {
                assert(self.proposals.keys()[i] == self.proposals.key_at(i));
                if i < before.proposals.size() {
                    assert(before.proposals.keys()[i] == before.proposals.key_at(i));
                    let n = choose|n: nat| 1 <= n < before.next_id && #[trigger] gov_id(n) == before.proposals.key_at(i);
                    assert(gov_id(n) == self.proposals.key_at(i));
                } else {
                    assert(self.proposals.keys() == before.proposals.keys().push(id@));
                    assert(self.proposals.keys().len() == self.proposals.size());
                    assert(before.proposals.keys().len() == before.proposals.size());
                    assert(i == before.proposals.size());
                    assert(self.proposals.keys()[i] == id@);
                    assert(gov_id(before.next_id as nat) == self.proposals.key_at(i));
                }
            }
        }
        id
    }

    /// Schedules a proposed proposal to activate `delay_epochs` from now. The
    /// delay must reach the minimum.
    pub fn schedule_proposal(&mut self, proposal_id: &str, delay_epochs: u64) -> (r: Result<(), GovernanceError>)
        requires
            old(self).wf(),
            delay_epochs >= old(self).min_delay() && old(self).proposal_map().contains_key(proposal_id@)
                && old(self).proposal_map()[proposal_id@].status == ProposalStatus::Proposed ==> old(self).epoch()
                + delay_epochs <= u64::MAX,
        ensures
            final(self).wf(),
            schedule_post(*old(self), *final(self), proposal_id@, delay_epochs, r),
    {
        if delay_epochs < self.min_activation_delay_epochs {
            return Err(GovernanceError::InvalidDelay);
        }
        let i = match self.proposals.find(proposal_id) {
            Some(i) => i,
            None => {
                return Err(GovernanceError::ProposalNotFound);
            },
        };
        if self.proposals.value_ref(i).status != ProposalStatus::Proposed {
            return Err(GovernanceError::InvalidState);
        }
        let ghost before = *self;
        let activation = self.current_epoch + delay_epochs;
        {
            let p = self.proposals.value_mut(i);
            p.activation_epoch = Some(activation);
            p.status = ProposalStatus::Scheduled;
        }
        proof {
            StrMap::lemma_changed_at(before.proposals, self.proposals, i as int);
            before.proposals.lemma_pos(i as int);
            assert forall|j: int| 0 <= j < self.proposals.size() implies issued_id(self.proposals.key_at(j), self.next_id) by {
                assert(self.proposals.keys()[j] == self.proposals.key_at(j));
                assert(before.proposals.keys()[j] == before.proposals.key_at(j));
                let n = choose|n: nat| 1 <= n < before.next_id && #[trigger] gov_id(n) == before.proposals.key_at(j);
            }
            let q = GovernanceProposal {
                activation_epoch: Some((before.current_epoch + delay_epochs) as u64),
                status: ProposalStatus::Scheduled,
                ..before.proposal_map()[proposal_id@]
            };
            assert forall|j: int| 0 <= j < before.proposals.size() implies #[trigger] self.proposal_order()[j] == if before.proposal_ids()[j] == proposal_id@ {
                q
            } else {
                before.proposal_order()[j]
            } by {
                assert(self.proposals.values()[j] == self.proposals.value_at(j));
                assert(before.proposals.values()[j] == before.proposals.value_at(j));
                assert(before.proposals.keys()[j] == before.proposals.key_at(j));
                if before.proposals.key_at(j) == proposal_id@ && j != i {
                    assert(before.proposals.key_at(j) != before.proposals.key_at(i as int));
                }
            }
        }
        Ok(())
    }

    /// Moves the clock forward, stopping at the last epoch.
    pub fn advance_epochs(&mut self, delta: u64)
        ensures
            final(self).wf() == old(self).wf(),
            advance_post(*old(self), *final(self), delta),
    {
        self.current_epoch = self.current_epoch.saturating_add(delta);
    }

    /// Activates every scheduled proposal whose activation epoch has come,
    /// in submission order, setting its parameter.
    pub fn activate_due_proposals(&mut self)
        requires
            old(self).wf(),
        ensures
            final(self).wf(),
            activate_post(*old(self), *final(self)),
    {
        let ghost before = *self;
        let now = self.current_epoch;
        let n = self.proposals.len();
        let mut k: usize = 0;
        while k < n
            invariant
                self.wf(),
                now == before.current_epoch,
                n == before.proposals.size(),
                k <= n,
                self.current_epoch == before.current_epoch,
                self.min_activation_delay_epochs == before.min_activation_delay_epochs,
                self.next_id == before.next_id,
                self.proposals.size() == n,
                self.proposals.keys() == before.proposals.keys(),
                forall|j: int| 0 <= j < k ==> #[trigger] self.proposals.values()[j] == activated(before.proposals.values()[j], now),
                forall|j: int| k <= j < n ==> #[trigger] self.proposals.values()[j] == before.proposals.values()[j],
                self.params.map() == apply_due(before.params.map(), before.proposals.values().subrange(0, k as int), now),
            decreases n - k,
        {
            let ghost at_step = *self;
            proof {
                assert(self.proposals.values()[k as int] == self.proposals.value_at(k as int));
                assert(before.proposals.values()[k as int] == before.proposals.value_at(k as int));
                let pre = before.proposals.values().subrange(0, k as int + 1);
                assert(pre.drop_last() =~= before.proposals.values().subrange(0, k as int));
                assert(pre.last() == before.proposals.values()[k as int]);
            }
            let due = {
                let p = self.proposals.value_ref(k);
                p.status == ProposalStatus::Scheduled && match p.activation_epoch {
                    Some(e) => e <= now,
                    None => u64::MAX <= now,
                }
            };
            if due {
                let key = self.proposals.value_ref(k).change.key.clone();
                let value = self.proposals.value_ref(k).change.value_bits;
                self.params.insert(key, value);
                {
                    let p = self.proposals.value_mut(k);
                    p.status = ProposalStatus::Active;
                }
                proof {
                    StrMap::lemma_changed_at(at_step.proposals, self.proposals, k as int);
                }
            }
            proof {
                assert forall|j: int| 0 <= j < self.proposals.size() implies issued_id(self.proposals.key_at(j), self.next_id) by {
                    assert(self.proposals.keys()[j] == self.proposals.key_at(j));
                    assert(before.proposals.keys()[j] == before.proposals.key_at(j));
                    let m = choose|m: nat| 1 <= m < before.next_id && #[trigger] gov_id(m) == before.proposals.key_at(j);
                }
                assert forall|j: int| 0 <= j < k + 1 implies #[trigger] self.proposals.values()[j] == activated(
                    before.proposals.values()[j],
                    now,
                ) by {
                    if j < k {
                        assert(at_step.proposals.values()[j] == self.proposals.values()[j]);
                    }
                }
                assert forall|j: int| k + 1 <= j < n implies #[trigger] self.proposals.values()[j]
                    == before.proposals.values()[j] by {
                    assert(at_step.proposals.values()[j] == self.proposals.values()[j]);
                }
            }
            k = k + 1;
        }
        proof {
            assert(before.proposals.values().subrange(0, n as int) =~= before.proposals.values());
            assert(self.proposals.values() =~= before.proposals.values().map_values(|p: GovernanceProposal| activated(p, now)));
            lemma_activated_map(before, *self, now);
        }
    }


    /// Rolls an active proposal back: its parameter takes the rollback
    /// value.
    pub fn rollback_proposal(&mut self, proposal_id: &str) -> (r: Result<(), GovernanceError>)
        requires
            old(self).wf(),
        ensures
            final(self).wf(),
            rollback_post(*old(self), *final(self), proposal_id@, r),
    {
        let i = match self.proposals.find(proposal_id) {
            Some(i) => i,
            None => {
                return Err(GovernanceError::ProposalNotFound);
            },
        };
        if self.proposals.value_ref(i).status != ProposalStatus::Active {
            return Err(GovernanceError::InvalidState);
        }
        let ghost before = *self;
        let key = self.proposals.value_ref(i).change.key.clone();
        let value = self.proposals.value_ref(i).change.rollback_value_bits;
        self.params.insert(key, value);
        {
            let p = self.proposals.value_mut(i);
            p.status = ProposalStatus::RolledBack;
        }
        proof {
            StrMap::lemma_changed_at(before.proposals, self.proposals, i as int);
            before.proposals.lemma_pos(i as int);
            assert forall|j: int| 0 <= j < self.proposals.size() implies issued_id(self.proposals.key_at(j), self.next_id) by {
                assert(self.proposals.keys()[j] == self.proposals.key_at(j));
                assert(before.proposals.keys()[j] == before.proposals.key_at(j));
                let n = choose|n: nat| 1 <= n < before.next_id && #[trigger] gov_id(n) == before.proposals.key_at(j);
            }
            assert forall|j: int| 0 <= j < before.proposals.size() implies #[trigger] self.proposal_order()[j] == if before.proposal_ids()[j] == proposal_id@ {
                GovernanceProposal { status: ProposalStatus::RolledBack, ..before.proposal_map()[proposal_id@] }
            } else {
                before.proposal_order()[j]
            } by {
                assert(self.proposals.values()[j] == self.proposals.value_at(j));
                assert(before.proposals.values()[j] == before.proposals.value_at(j));
                assert(before.proposals.keys()[j] == before.proposals.key_at(j));
                if before.proposals.key_at(j) == proposal_id@ && j != i {
                    assert(before.proposals.key_at(j) != before.proposals.key_at(i as int));
                }
            }
        }
        Ok(())
    }

    /// The current value of parameter `key`.
    pub fn get_param(&self, key: &str) -> (r: Option<u64>)
        requires
            self.wf(),
        ensures
            r == (if self.param_map().contains_key(key@) {
                Some(self.param_map()[key@])
            } else {
                None::<u64>
            }),
    {
        match self.params.get(key) {
            Some(v) => Some(*v),
            None => None,
        }
    }

    /// The status of proposal `proposal_id`.
    pub fn proposal_status(&self, proposal_id: &str) -> (r: Option<ProposalStatus>)
        requires
            self.wf(),
        ensures
            r == (if self.proposal_map().contains_key(proposal_id@) {
                Some(self.proposal_map()[proposal_id@].status)
            } else {
                None::<ProposalStatus>
            }),
    {
        match self.proposals.get(proposal_id) {
            Some(p) => Some(p.status),
            None => None,
        }
    }

    /// Exercises a full activate-then-roll-back cycle for `change` and
    /// reports whether the parameter was restored.
    pub fn run_rollback_drill(&mut self, title: &str, change: GovernanceChange) -> (r: Result<bool, GovernanceError>)
        requires
            old(self).wf(),
            old(self).next_number() < u64::MAX,
            old(self).epoch() + old(self).min_delay() <= u64::MAX,
        ensures
            final(self).wf(),
            drill_post(*old(self), *final(self), title@, change, r),
    {
        let ghost a = *self;
        let ghost change0 = change;
        let key = change.key.clone();
        let rollback_bits = change.rollback_value_bits;
        let proposal_id = self.submit_proposal(title, change);
        let ghost s1 = *self;
        let delay = self.min_activation_delay_epochs;
        let scheduled = self.schedule_proposal(proposal_id.as_str(), delay);
        let ghost s2 = *self;
        if scheduled.is_err() {
            proof {
                assert(false);
            }
            return Err(GovernanceError::InvalidState);
        }
        self.advance_epochs(delay);
        let ghost s3 = *self;
        self.activate_due_proposals();
        let ghost s4 = *self;
        proof {
            s3.lemma_order();
            let id = proposal_id@;
            assert(s3.proposal_map()[id].status == ProposalStatus::Scheduled);
            assert(is_due(s3.proposal_map()[id], s3.epoch()));
            assert(s4.proposal_map().contains_key(id));
        }
        let rolled = self.rollback_proposal(proposal_id.as_str());
        if rolled.is_err() {
            proof {
                assert(false);
            }
            return Err(GovernanceError::InvalidState);
        }
        let value = match self.get_param(key.as_str()) {
            Some(v) => v,
            None => 0x7FF8_0000_0000_0000,
        };
        let restored = value == rollback_bits && rollback_bits & 0x7FF0_0000_0000_0000 != 0x7FF0_0000_0000_0000;
        proof {
            assert(submit_post(a, s1, title@, change0, proposal_id@));
            assert(schedule_post(s1, s2, proposal_id@, a.min_delay(), Ok(())));
            assert(advance_post(s2, s3, a.min_delay()));
            assert(activate_post(s3, s4));
            assert(rollback_post(s4, *self, proposal_id@, Ok(())));
        }
        Ok(restored)
    }
}

impl Default for GovernanceEngine {
    /// An engine with a minimum activation delay of two epochs.
    fn default() -> (r: Self)
        ensures
            r.wf(),
            r.epoch() == 0,
            r.min_delay() == 2,
            r.next_number() == 1,
            r.proposal_map() == Map::<Seq<char>, GovernanceProposal>::empty(),
            r.proposal_order() == Seq::<GovernanceProposal>::empty(),
            r.param_map() == Map::<Seq<char>, u64>::empty(),
    {
        Self::new(2)
    }

}

/// A proposal never activates before the minimum delay has passed since it
/// was scheduled: if it was scheduled at `a` and, still as scheduled, is
/// activated by an activation run at `c`, the clock at `c` is at least the
/// scheduling epoch plus the minimum delay.
pub proof fn law_activation_waits_for_delay(
    a: GovernanceEngine,
    b: GovernanceEngine,
    c: GovernanceEngine,
    d: GovernanceEngine,
    id: Seq<char>,
    delay: u64,
)
    requires
        schedule_post(a, b, id, delay, Ok(())),
        c.proposal_map().contains_key(id),
        c.proposal_map()[id] == b.proposal_map()[id],
        activate_post(c, d),
        d.proposal_map()[id].status == ProposalStatus::Active,
    ensures
        c.epoch() >= a.epoch() + a.min_delay(),
{
    assert(b.proposal_map()[id].activation_epoch == Some((a.epoch() + delay) as u64));
    assert(d.proposal_map()[id] == activated(c.proposal_map()[id], c.epoch()));
}

/// Rolling an active proposal back sets its parameter to the rollback
/// value, and the proposal to `RolledBack`.
pub proof fn law_rollback_restores_parameter(a: GovernanceEngine, b: GovernanceEngine, id: Seq<char>)
    requires
        rollback_post(a, b, id, Ok(())),
    ensures
        a.proposal_map().contains_key(id),
        b.param_map()[a.proposal_map()[id].change.key@] == a.proposal_map()[id].change.rollback_value_bits,
        b.proposal_map()[id].status == ProposalStatus::RolledBack,
{
}

} // verus!
