//! The proposal lifecycle: submission, voting, tallying, execution and the
//! settlement of a submission deposit.

use vstd::prelude::*;
use crate::tally::{
    ballot_sum, choice_sum, has_unique_top, is_unique_top, lemma_ballot_sum_update,
    lemma_choice_sum_ge, lemma_choice_sum_update, lemma_sum_ge, lemma_sum_update,
    lemma_tied_has_no_unique_top, lemma_unique_top_unique, sum, top_choice, top_is_tied, Ballot,
};
use crate::threshold::{
    lemma_quorum_monotonic, quorum_met, spec_quorum_met, PercentageThreshold, Threshold,
};

verus! {

/// Errors of the proposal module.
#[derive(Clone, Copy, Debug, PartialEq, Eq, Structural)]
pub enum ProposalError {
    /// The caller lacks the required power or role.
    Unauthorized,
    /// The action is not valid for the proposal's status.
    InvalidState,
    /// A choice index out of range, or fewer than two choices.
    InvalidInput,
    /// The voting period has ended.
    Expired,
    /// The voter has voted and revoting is off.
    AlreadyVoted,
    /// A revote reported another power than the voter's recorded ballot.
    SnapshotMismatch,
    /// The reported power would take cast power above the snapshot's total.
    PowerExceedsTotal,
    /// A deposit is configured and none was paid.
    DepositRequired,
    /// The paid deposit differs from the configured amount.
    DepositMismatch,
    /// Dispatching the winning choice failed, and the proposal stays passed.
    ExecutionFailed,
}

/// Where a proposal stands.
#[derive(Clone, Copy, Debug, PartialEq, Eq, Structural)]
pub enum Status {
    Open,
    Rejected,
    Passed { winner: usize },
    Executed,
    ExecutionFailed,
    Closed,
}

impl Status {
    /// No further change is possible.
    pub open spec fn is_terminal(self) -> bool {
        self is Rejected || self is Executed || self is ExecutionFailed || self is Closed
    }
}

/// What becomes of a deposit once its proposal is final.
#[derive(Clone, Copy, Debug, PartialEq, Eq, Structural)]
pub enum DepositRefundPolicy {
    Always,
    OnlyPassed,
    Never,
}

/// Whether a deposit under `policy` goes back to its payer when the proposal
/// ends in `status`.
pub open spec fn refund_due(policy: DepositRefundPolicy, status: Status) -> bool {
    match policy {
        DepositRefundPolicy::Always => true,
        DepositRefundPolicy::OnlyPassed => status is Executed || status is ExecutionFailed,
        DepositRefundPolicy::Never => false,
    }
}

/// A configured deposit requirement.
#[derive(Clone, Copy, Debug, PartialEq, Eq, Structural)]
pub struct DepositInfo {
    pub amount: u128,
    pub refund_policy: DepositRefundPolicy,
}

/// A deposit held in escrow for a proposal.
#[derive(Debug)]
pub struct Deposit {
    pub depositor: String,
    pub amount: u128,
    pub refund_policy: DepositRefundPolicy,
}

/// The release of an escrowed deposit.
#[derive(Debug)]
pub enum DepositAction {
    Refund { to: String, amount: u128 },
    Forfeit { amount: u128 },
}

/// The action owed for `d` once its proposal ends in `status`.
pub open spec fn deposit_action_for(d: Deposit, status: Status) -> DepositAction {
    if refund_due(d.refund_policy, status) {
        DepositAction::Refund { to: d.depositor, amount: d.amount }
    } else {
        DepositAction::Forfeit { amount: d.amount }
    }
}

/// A proposal module's configuration.
#[derive(Clone, Copy, Debug, PartialEq, Eq, Structural)]
pub struct Config {
    pub quorum: Threshold,
    /// The share of cast power that the winning choice needs, if any.
    pub threshold: Option<Threshold>,
    /// Each proposal gets an implicit last choice, "none of the above",
    /// whose win rejects the proposal.
    pub none_of_the_above: bool,
    /// Weight cast for "none of the above" counts toward quorum.
    pub none_of_the_above_counts: bool,
    /// Seconds from submission to expiration.
    pub max_voting_period: u64,
    /// Seconds from submission before voting may end early, once all power
    /// is cast; no more than `max_voting_period`.
    pub min_voting_period: Option<u64>,
    pub only_members_execute: bool,
    pub allow_revoting: bool,
    pub close_proposal_on_execution_failure: bool,
    /// When false, only holders of voting power may submit.
    pub open_proposal_submission: bool,
    pub deposit_info: Option<DepositInfo>,
}

/// A multiple-choice proposal and its tally.
#[derive(Debug)]
pub struct Proposal {
    pub id: u64,
    pub proposer: String,
    pub choices: Vec<String>,
    /// Accumulated weight per choice.
    pub votes: Vec<u128>,
    pub ballots: Vec<Ballot>,
    /// Total power cast.
    pub cast: u128,
    /// Total power at the snapshot height.
    pub total_power: u128,
    pub start_height: u64,
    /// Time (seconds) at which voting ends.
    pub expiration: u64,
    /// Time (seconds) before which voting does not end early.
    pub min_voting_end: u64,
    pub quorum: Threshold,
    pub threshold: Option<Threshold>,
    /// The last entry of `votes` is the implicit "none of the above".
    pub none_of_the_above: bool,
    /// That entry's weight counts toward quorum.
    pub none_of_the_above_counts: bool,
    pub allow_revoting: bool,
    pub status: Status,
    pub deposit: Option<Deposit>,
    pub deposit_settled: bool,
}

pub open spec fn has_voted(b: Seq<Ballot>, voter: Seq<char>) -> bool {
    exists|i: int| 0 <= i < b.len() && b[i].voter@ == voter
}

pub open spec fn ballot_index(b: Seq<Ballot>, voter: Seq<char>) -> int {
    choose|i: int| 0 <= i < b.len() && b[i].voter@ == voter
}

impl Proposal {
    /// The tally agrees with the ballots, each voter has one ballot, and
    /// cast power stays within the snapshot's total.
    pub open spec fn wf(self) -> bool {
        &&& self.votes@.len() == self.choices@.len() + if self.none_of_the_above {
            1int
        } else {
            0int
        }
        &&& self.choices@.len() >= 2
        &&& self.quorum.valid()
        &&& (self.threshold matches Some(t) ==> t.valid())
        &&& forall|c: int|
            0 <= c < self.votes@.len() ==> #[trigger] self.votes@[c] as int == choice_sum(
                self.ballots@,
                c,
            )
        &&& forall|i: int|
            0 <= i < self.ballots@.len() ==> #[trigger] self.ballots@[i].choice
                < self.votes@.len()
        &&& forall|i: int, j: int|
            0 <= i < j < self.ballots@.len() ==> #[trigger] self.ballots@[i].voter@
                != #[trigger] self.ballots@[j].voter@
        &&& sum(self.votes@) == self.cast
        &&& ballot_sum(self.ballots@) == self.cast
        &&& self.cast <= self.total_power
        &&& (self.status matches Status::Passed { winner } ==> winner < self.votes@.len())
        &&& (self.deposit_settled ==> self.status.is_terminal())
    }

    /// Choice `w` may win: it is no "none of the above", and its weight
    /// clears the threshold against cast power.
    pub open spec fn may_win(self, w: int) -> bool {
        &&& !(self.none_of_the_above && w == self.votes@.len() - 1)
        &&& match self.threshold {
            Some(t) => spec_quorum_met(self.votes@[w] as int, self.cast as int, t),
            None => true,
        }
    }

    /// The cast power that counts toward quorum.
    pub open spec fn quorum_power(self) -> int {
        if self.none_of_the_above && !self.none_of_the_above_counts {
            self.cast - self.votes@.last()
        } else {
            self.cast as int
        }
    }

    /// The outcome once voting is decided: closed without quorum; passed for
    /// a unique top choice that may win; rejected otherwise, a tie at the
    /// top included.
    pub open spec fn outcome(self) -> Status {
        if !spec_quorum_met(self.quorum_power(), self.total_power as int, self.quorum) {
            Status::Closed
        } else if has_unique_top(self.votes@) && self.may_win(
            choose|i: int| is_unique_top(self.votes@, i),
        ) {
            Status::Passed { winner: (choose|i: int| is_unique_top(self.votes@, i)) as usize }
        } else {
            Status::Rejected
        }
    }

    /// Voting is decided at `now`: the period is over, or, past the minimum
    /// period and without revoting, all power at the snapshot has been cast.
    pub open spec fn decided(self, now: u64) -> bool {
        now >= self.expiration || (now >= self.min_voting_end && !self.allow_revoting && self.cast
            == self.total_power)
    }

    fn is_decided(&self, now: u64) -> (r: bool)
        ensures
            r == self.decided(now),
    {
        now >= self.expiration || (now >= self.min_voting_end && !self.allow_revoting && self.cast
            == self.total_power)
    }

    /// The status that an open proposal takes at `now`.
    pub open spec fn status_at(self, now: u64) -> Status {
        if self.status is Open && self.decided(now) {
            self.outcome()
        } else {
            self.status
        }
    }

    /// Everything but the status is as in `other`.
    pub open spec fn same_but_status(self, other: Proposal) -> bool {
        &&& self.id == other.id
        &&& self.proposer == other.proposer
        &&& self.choices == other.choices
        &&& self.votes == other.votes
        &&& self.ballots == other.ballots
        &&& self.cast == other.cast
        &&& self.total_power == other.total_power
        &&& self.start_height == other.start_height
        &&& self.expiration == other.expiration
        &&& self.min_voting_end == other.min_voting_end
        &&& self.quorum == other.quorum
        &&& self.threshold == other.threshold
        &&& self.none_of_the_above == other.none_of_the_above
        &&& self.none_of_the_above_counts == other.none_of_the_above_counts
        &&& self.allow_revoting == other.allow_revoting
        &&& self.deposit == other.deposit
        &&& self.deposit_settled == other.deposit_settled
    }

    /// Why a vote would be refused, if it would be.
    pub open spec fn vote_error(
        self,
        voter: Seq<char>,
        choice: usize,
        power: u128,
        now: u64,
    ) -> Option<ProposalError> {
        if !(self.status is Open) {
            Some(ProposalError::InvalidState)
        } else if now >= self.expiration {
            Some(ProposalError::Expired)
        } else if choice >= self.votes@.len() {
            Some(ProposalError::InvalidInput)
        } else if power == 0 {
            Some(ProposalError::Unauthorized)
        } else if has_voted(self.ballots@, voter) {
            if !self.allow_revoting {
                Some(ProposalError::AlreadyVoted)
            } else if self.ballots@[ballot_index(self.ballots@, voter)].power != power {
                Some(ProposalError::SnapshotMismatch)
            } else {
                None
            }
        } else if self.cast + power > self.total_power {
            Some(ProposalError::PowerExceedsTotal)
        } else {
            None
        }
    }

    /// The accumulated weights after `voter` votes `power` for `choice`: a
    /// previous ballot's weight leaves its choice first.
    pub open spec fn votes_after(self, voter: Seq<char>, choice: usize, power: u128) -> Seq<u128> {
        let mid = if has_voted(self.ballots@, voter) {
            let old_choice = self.ballots@[ballot_index(self.ballots@, voter)].choice as int;
            self.votes@.update(old_choice, (self.votes@[old_choice] - power) as u128)
        } else {
            self.votes@
        };
        mid.update(choice as int, (mid[choice as int] + power) as u128)
    }

    /// Brings the status up to date at `now`.
    pub fn update_status(&mut self, now: u64)
        requires
            old(self).wf(),
        ensures
            final(self).wf(),
            final(self).status == old(self).status_at(now),
            final(self).same_but_status(*old(self)),
    {
        if matches!(self.status, Status::Open) && self.is_decided(now) {
            let qp: u128 = if self.none_of_the_above && !self.none_of_the_above_counts {
                proof {
                    lemma_sum_ge(self.votes@, self.votes@.len() - 1);
                }
                self.cast - self.votes[self.votes.len() - 1]
            } else {
                self.cast
            };
            let met = quorum_met(qp, self.total_power, &self.quorum);
            if !met {
                self.status = Status::Closed;
            } else {
                match top_choice(&self.votes) {
                    Some(w) => {
                        proof {
                            let c = choose|i: int| is_unique_top(self.votes@, i);
                            lemma_unique_top_unique(self.votes@, w as int, c);
                        }
                        let last = self.none_of_the_above && w == self.votes.len() - 1;
                        let clears = match &self.threshold {
                            Some(t) => quorum_met(self.votes[w], self.cast, t),
                            None => true,
                        };
                        if !last && clears {
                            self.status = Status::Passed { winner: w };
                        } else {
                            self.status = Status::Rejected;
                        }
                    },
                    None => {
                        self.status = Status::Rejected;
                    },
                }
            }
        }
    }

    /// Casts, or with revoting recasts, `voter`'s ballot of `power` (its
    /// power at the snapshot height) for `choice`, then brings the status up
    /// to date.
    pub fn vote(&mut self, voter: String, choice: usize, power: u128, now: u64) -> (r: Result<
        (),
        ProposalError,
    >)
        requires
            old(self).wf(),
        ensures
            final(self).wf(),
            match old(self).vote_error(voter@, choice, power, now) {
                Some(e) => r == Err::<(), ProposalError>(e) && *final(self) == *old(self),
                None => {
                    &&& r is Ok
                    &&& final(self).votes@ == old(self).votes_after(voter@, choice, power)
                    &&& final(self).cast == if has_voted(old(self).ballots@, voter@) {
                        old(self).cast
                    } else {
                        (old(self).cast + power) as u128
                    }
                    &&& has_voted(final(self).ballots@, voter@)
                    &&& final(self).ballots@[ballot_index(final(self).ballots@, voter@)].choice
                        == choice
                    &&& final(self).ballots@ == if has_voted(old(self).ballots@, voter@) {
                        old(self).ballots@.update(
                            ballot_index(old(self).ballots@, voter@),
                            (Ballot { voter, choice, power }),
                        )
                    } else {
                        old(self).ballots@.push((Ballot { voter, choice, power }))
                    }
                    &&& final(self).status == if final(self).decided(now) {
                        final(self).outcome()
                    } else {
                        Status::Open
                    }
                    &&& final(self).choices == old(self).choices
                    &&& final(self).id == old(self).id
                    &&& final(self).proposer == old(self).proposer
                    &&& final(self).total_power == old(self).total_power
                    &&& final(self).start_height == old(self).start_height
                    &&& final(self).expiration == old(self).expiration
                    &&& final(self).min_voting_end == old(self).min_voting_end
                    &&& final(self).quorum == old(self).quorum
                    &&& final(self).threshold == old(self).threshold
                    &&& final(self).none_of_the_above == old(self).none_of_the_above
                    &&& final(self).none_of_the_above_counts == old(self).none_of_the_above_counts
                    &&& final(self).allow_revoting == old(self).allow_revoting
                    &&& final(self).deposit == old(self).deposit
                    &&& final(self).deposit_settled == old(self).deposit_settled
                },
            },
            final(self).cast >= old(self).cast,
            !(has_voted(old(self).ballots@, voter@) && old(self).none_of_the_above && !old(
                self,
            ).none_of_the_above_counts) ==> final(self).quorum_power() >= old(self).quorum_power(),
    {
        if !matches!(self.status, Status::Open) {
            return Err(ProposalError::InvalidState);
        }
        if now >= self.expiration {
            return Err(ProposalError::Expired);
        }
        if choice >= self.votes.len() {
            return Err(ProposalError::InvalidInput);
        }
        if power == 0 {
            return Err(ProposalError::Unauthorized);
        }
        let mut idx: usize = 0;
        let mut found: bool = false;
        while !found && idx < self.ballots.len()
            invariant
                idx <= self.ballots@.len(),
                forall|k: int| 0 <= k < idx ==> self.ballots@[k].voter@ != voter@,
                found ==> idx < self.ballots@.len() && self.ballots@[idx as int].voter@ == voter@,
            decreases self.ballots@.len() - idx + if found {
                0int
            } else {
                1int
            },
        {
            if self.ballots[idx].voter == voter {
                found = true;
            } else {
                idx = idx + 1;
            }
        }
        proof {
            if found {
                lemma_unique_ballot(self.ballots@, voter@, idx as int);
            } else {
                assert(!has_voted(self.ballots@, voter@));
            }
        }
        let ghost prev = *self;
        if found {
            if !self.allow_revoting {
                return Err(ProposalError::AlreadyVoted);
            }
            if self.ballots[idx].power != power {
                return Err(ProposalError::SnapshotMismatch);
            }
            let old_choice: usize = self.ballots[idx].choice;
            proof {
                lemma_choice_sum_ge(self.ballots@, idx as int);
            }
            let w: u128 = self.votes[old_choice];
            self.votes.set(old_choice, w - power);
            let ghost mid = self.votes@;
            proof {
                lemma_sum_update(prev.votes@, old_choice as int, (w - power) as u128);
                lemma_sum_ge(mid, choice as int);
            }
            let w2: u128 = self.votes[choice];
            self.votes.set(choice, w2 + power);
            let nb = Ballot { voter, choice, power };
            proof {
                lemma_sum_update(mid, choice as int, (w2 + power) as u128);
                lemma_ballot_sum_update(prev.ballots@, idx as int, nb);
                assert forall|c: int| 0 <= c < self.votes@.len() implies #[trigger] self.votes@[c]
                    as int == choice_sum(prev.ballots@.update(idx as int, nb), c) by {
                    lemma_choice_sum_update(prev.ballots@, idx as int, nb, c);
                }
            }
            self.ballots.set(idx, nb);
            proof {
                assert(self.ballots@[idx as int].voter@ == voter@);
                lemma_unique_ballot(self.ballots@, voter@, idx as int);
            }
        } else {
            if power > self.total_power - self.cast {
                return Err(ProposalError::PowerExceedsTotal);
            }
            proof {
                lemma_sum_ge(self.votes@, choice as int);
            }
            let w: u128 = self.votes[choice];
            self.votes.set(choice, w + power);
            self.cast = self.cast + power;
            let nb = Ballot { voter, choice, power };
            proof {
                lemma_sum_update(prev.votes@, choice as int, (w + power) as u128);
            }
            self.ballots.push(nb);
            proof {
                let b = self.ballots@;
                assert(b.drop_last() =~= prev.ballots@);
                assert forall|c: int| 0 <= c < self.votes@.len() implies #[trigger] self.votes@[c]
                    as int == choice_sum(b, c) by {
                    assert(choice_sum(b, c) == choice_sum(prev.ballots@, c) + if nb.choice == c {
                        nb.power as int
                    } else {
                        0
                    });
                }
                assert(b[b.len() - 1].voter@ == voter@);
                lemma_unique_ballot(b, voter@, b.len() - 1);
            }
        }
        self.update_status(now);
        Ok(())
    }
}

/// Why a submission would be refused, if it would be.
pub open spec fn propose_error(
    config: Config,
    n_choices: nat,
    proposer_power: u128,
    paid: u128,
) -> Option<ProposalError> {
    if !config.open_proposal_submission && proposer_power == 0 {
        Some(ProposalError::Unauthorized)
    } else if n_choices < 2 {
        Some(ProposalError::InvalidInput)
    } else {
        match config.deposit_info {
            Some(info) => if info.amount > 0 && paid == 0 {
                Some(ProposalError::DepositRequired)
            } else if paid != info.amount {
                Some(ProposalError::DepositMismatch)
            } else {
                None
            },
            None => if paid != 0 {
                Some(ProposalError::DepositMismatch)
            } else {
                None
            },
        }
    }
}

proof fn lemma_zeros(v: Seq<u128>, b: Seq<Ballot>, c: int)
    requires
        forall|i: int| 0 <= i < v.len() ==> v[i] == 0,
        b.len() == 0,
    ensures
        sum(v) == 0,
        choice_sum(b, c) == 0,
        ballot_sum(b) == 0,
    decreases v.len(),
{
    if v.len() > 0 {
        lemma_zeros(v.drop_last(), b, c);
    }
}

/// `p` is the proposal just submitted under `config` with these values.
pub open spec fn is_fresh(
    p: Proposal,
    config: Config,
    id: u64,
    proposer: String,
    choices: Vec<String>,
    total_power: u128,
    height: u64,
    now: u64,
) -> bool {
    &&& p.wf()
    &&& p.id == id
    &&& p.proposer == proposer
    &&& p.choices == choices
    &&& p.votes@ == Seq::new(
        choices@.len() + if config.none_of_the_above {
            1nat
        } else {
            0nat
        },
        |i: int| 0u128,
    )
    &&& p.ballots@.len() == 0
    &&& p.cast == 0
    &&& p.total_power == total_power
    &&& p.start_height == height
    &&& p.expiration == now + config.max_voting_period
    &&& p.min_voting_end == match config.min_voting_period {
    Some(m) => now + m,
    None => now as int,
    }
    &&& p.quorum == config.quorum
    &&& p.threshold == config.threshold
    &&& p.none_of_the_above == config.none_of_the_above
    &&& p.none_of_the_above_counts == config.none_of_the_above_counts
    &&& p.allow_revoting == config.allow_revoting
    &&& p.status == Status::Open
    &&& !p.deposit_settled
    &&& match config.deposit_info {
        Some(info) => p.deposit == Some(
            (Deposit {
                depositor: proposer,
                amount: info.amount,
                refund_policy: info.refund_policy,
            }),
        ),
        None => p.deposit is None,
    }
}

/// Submits a proposal with `choices`, snapshotting `total_power` at `height`.
/// `proposer_power` is the proposer's power and `paid` the deposit escrowed
/// with the submission.
pub fn propose(
    config: &Config,
    id: u64,
    proposer: String,
    choices: Vec<String>,
    proposer_power: u128,
    total_power: u128,
    height: u64,
    now: u64,
    paid: u128,
) -> (r: Result<Proposal, ProposalError>)
    requires
        config.quorum.valid(),
        config.threshold matches Some(t) ==> t.valid(),
        now + config.max_voting_period <= u64::MAX,
        config.min_voting_period matches Some(m) ==> m <= config.max_voting_period,
    ensures
        match propose_error(*config, choices@.len(), proposer_power, paid) {
            Some(e) => r == Err::<Proposal, ProposalError>(e),
            None => r matches Ok(p) && is_fresh(p, *config, id, proposer, choices, total_power, height, now),
        },
{
    if !config.open_proposal_submission && proposer_power == 0 {
        return Err(ProposalError::Unauthorized);
    }
    if choices.len() < 2 {
        return Err(ProposalError::InvalidInput);
    }
    let deposit = match config.deposit_info {
        Some(info) => {
            if info.amount > 0 && paid == 0 {
                return Err(ProposalError::DepositRequired);
            }
            if paid != info.amount {
                return Err(ProposalError::DepositMismatch);
            }
            Some(
                Deposit {
                    depositor: proposer.clone(),
                    amount: info.amount,
                    refund_policy: info.refund_policy,
                },
            )
        },
        None => {
            if paid != 0 {
                return Err(ProposalError::DepositMismatch);
            }
            None
        },
    };
    let mut votes: Vec<u128> = Vec::new();
    let mut i: usize = 0;
    while i < choices.len()
        invariant
            i <= choices@.len(),
            votes@.len() == i,
            forall|k: int| 0 <= k < i ==> votes@[k] == 0,
        decreases choices@.len() - i,
    {
        votes.push(0);
        i = i + 1;
    }
    if config.none_of_the_above {
        votes.push(0);
    }
    let ballots: Vec<Ballot> = Vec::new();
    proof {
        assert forall|c: int| 0 <= c < votes@.len() implies #[trigger] votes@[c] as int
            == choice_sum(ballots@, c) by {
            lemma_zeros(votes@, ballots@, c);
        }
        lemma_zeros(votes@, ballots@, 0);
        assert(votes@ =~= Seq::new(
            choices@.len() + if config.none_of_the_above {
                1nat
            } else {
                0nat
            },
            |i: int| 0u128,
        ));
    }
    Ok(
        Proposal {
            id,
            proposer,
            choices,
            votes,
            ballots,
            cast: 0,
            total_power,
            start_height: height,
            expiration: now + config.max_voting_period,
            min_voting_end: match config.min_voting_period {
                Some(m) => now + m,
                None => now,
            },
            quorum: config.quorum,
            threshold: config.threshold,
            none_of_the_above: config.none_of_the_above,
            none_of_the_above_counts: config.none_of_the_above_counts,
            allow_revoting: config.allow_revoting,
            status: Status::Open,
            deposit,
            deposit_settled: false,
        },
    )
}

impl Proposal {
    /// The deposit action owed now: once, when the proposal is final and its
    /// deposit not yet released.
    pub open spec fn settlement(self) -> Option<DepositAction> {
        match self.deposit {
            Some(d) => if self.status.is_terminal() && !self.deposit_settled {
                Some(deposit_action_for(d, self.status))
            } else {
                None
            },
            None => None,
        }
    }

    /// Finalizes an open proposal whose voting is decided at `now`, and
    /// returns its outcome. Any other proposal, one still undecided or one
    /// already passed or final, is refused with `InvalidState` and left as
    /// it is.
    pub fn close(&mut self, now: u64) -> (r: Result<Status, ProposalError>)
        requires
            old(self).wf(),
        ensures
            final(self).wf(),
            final(self).status == old(self).status_at(now),
            final(self).same_but_status(*old(self)),
            r == if old(self).status is Open && old(self).decided(now) {
                Ok::<Status, ProposalError>(final(self).status)
            } else {
                Err(ProposalError::InvalidState)
            },
            r is Ok ==> final(self).status == old(self).outcome(),
            r is Err ==> *final(self) == *old(self),
    {
        if !matches!(self.status, Status::Open) {
            return Err(ProposalError::InvalidState);
        }
        if !self.is_decided(now) {
            return Err(ProposalError::InvalidState);
        }
        self.update_status(now);
        Ok(self.status)
    }

    /// Checks that the winning choice may be dispatched by a caller holding
    /// `caller_power`, and returns it.
    pub fn begin_execute(&self, config: &Config, caller_power: u128) -> (r: Result<
        usize,
        ProposalError,
    >)
        ensures
            r == match self.status {
                Status::Passed { winner } => if config.only_members_execute && caller_power == 0 {
                    Err(ProposalError::Unauthorized)
                } else {
                    Ok(winner)
                },
                _ => Err(ProposalError::InvalidState),
            },
    {
        match self.status {
            Status::Passed { winner } => {
                if config.only_members_execute && caller_power == 0 {
                    Err(ProposalError::Unauthorized)
                } else {
                    Ok(winner)
                }
            },
            _ => Err(ProposalError::InvalidState),
        }
    }

    /// Records how dispatching the winning choice went: executed on success;
    /// on failure, closed as failed where the configuration says so, and
    /// otherwise left passed for a retry with `ExecutionFailed`.
    pub fn finish_execute(&mut self, config: &Config, succeeded: bool) -> (r: Result<
        (),
        ProposalError,
    >)
        requires
            old(self).wf(),
            old(self).status is Passed,
        ensures
            final(self).wf(),
            final(self).same_but_status(*old(self)),
            succeeded ==> r is Ok && final(self).status == Status::Executed,
            !succeeded && config.close_proposal_on_execution_failure ==> r is Ok
                && final(self).status == Status::ExecutionFailed,
            !succeeded && !config.close_proposal_on_execution_failure ==> r == Err::<
                (),
                ProposalError,
            >(ProposalError::ExecutionFailed) && final(self).status == old(self).status,
    {
        if succeeded {
            self.status = Status::Executed;
            Ok(())
        } else if config.close_proposal_on_execution_failure {
            self.status = Status::ExecutionFailed;
            Ok(())
        } else {
            Err(ProposalError::ExecutionFailed)
        }
    }

    /// Releases the deposit once the proposal is final: a refund to the
    /// depositor or a forfeit, by the refund policy, and only the first time.
    pub fn settle_deposit(&mut self) -> (r: Option<DepositAction>)
        requires
            old(self).wf(),
        ensures
            final(self).wf(),
            r == old(self).settlement(),
            *final(self) == (Proposal {
                deposit_settled: old(self).deposit_settled || r is Some,
                ..*old(self)
            }),
    {
        if self.deposit_settled {
            return None;
        }
        let terminal = match self.status {
            Status::Rejected | Status::Executed | Status::ExecutionFailed | Status::Closed => true,
            _ => false,
        };
        if !terminal {
            return None;
        }
        let action = match &self.deposit {
            Some(d) => {
                let refund = match d.refund_policy {
                    DepositRefundPolicy::Always => true,
                    DepositRefundPolicy::OnlyPassed => matches!(
                        self.status,
                        Status::Executed | Status::ExecutionFailed
                    ),
                    DepositRefundPolicy::Never => false,
                };
                if refund {
                    DepositAction::Refund { to: d.depositor.clone(), amount: d.amount }
                } else {
                    DepositAction::Forfeit { amount: d.amount }
                }
            },
            None => {
                return None;
            },
        };
        self.deposit_settled = true;
        Some(action)
    }
}

/// Voting periods of a week, in seconds.
pub const WEEK_SECONDS: u64 = 604800;

/// The deposit, in the voting module's token, that the default token
/// configuration asks for.
pub const DEFAULT_DEPOSIT: u128 = 10_000_000;

/// The default configuration of a token-based organisation: majority quorum,
/// a week to vote, only members execute, no revoting, closed submission, and
/// a deposit refunded only if the proposal passes.
pub fn default_token_dao_config() -> (r: Config)
    ensures
        r == (Config {
            quorum: Threshold::Percentage { percentage: PercentageThreshold::Majority },
            threshold: None,
            none_of_the_above: false,
            none_of_the_above_counts: true,
            max_voting_period: WEEK_SECONDS,
            min_voting_period: None,
            only_members_execute: true,
            allow_revoting: false,
            close_proposal_on_execution_failure: true,
            open_proposal_submission: false,
            deposit_info: Some(
                DepositInfo {
                    amount: DEFAULT_DEPOSIT,
                    refund_policy: DepositRefundPolicy::OnlyPassed,
                },
            ),
        }),
{
    Config {
        quorum: Threshold::Percentage { percentage: PercentageThreshold::Majority },
        threshold: None,
        none_of_the_above: false,
        none_of_the_above_counts: true,
        max_voting_period: WEEK_SECONDS,
        min_voting_period: None,
        only_members_execute: true,
        allow_revoting: false,
        close_proposal_on_execution_failure: true,
        open_proposal_submission: false,
        deposit_info: Some(
            DepositInfo { amount: DEFAULT_DEPOSIT, refund_policy: DepositRefundPolicy::OnlyPassed },
        ),
    }
}

/// The default configuration of an organisation without a token: as
/// `default_token_dao_config`, with no deposit.
pub fn default_non_token_dao_config() -> (r: Config)
    ensures
        r == (Config { deposit_info: None, ..default_token_dao_config_spec() }),
{
    let mut c = default_token_dao_config();
    c.deposit_info = None;
    c
}

/// The value `default_token_dao_config` returns.
pub open spec fn default_token_dao_config_spec() -> Config {
    Config {
        quorum: Threshold::Percentage { percentage: PercentageThreshold::Majority },
        threshold: None,
        none_of_the_above: false,
        none_of_the_above_counts: true,
        max_voting_period: WEEK_SECONDS,
        min_voting_period: None,
        only_members_execute: true,
        allow_revoting: false,
        close_proposal_on_execution_failure: true,
        open_proposal_submission: false,
        deposit_info: Some(
            DepositInfo { amount: DEFAULT_DEPOSIT, refund_policy: DepositRefundPolicy::OnlyPassed },
        ),
    }
}

/// A module's proposals, numbered 1, 2, ... in order of submission.
#[derive(Debug)]
pub struct ProposalStore {
    pub next_id: u64,
    pub proposals: Vec<Proposal>,
}

impl ProposalStore {
    /// Ids run from 1 without gaps, and every proposal is well formed.
    pub open spec fn wf(self) -> bool {
        &&& self.next_id == self.proposals@.len() + 1
        &&& forall|i: int|
            0 <= i < self.proposals@.len() ==> #[trigger] self.proposals@[i].id == i + 1
                && self.proposals@[i].wf()
    }

    /// No proposals yet; the first gets id 1.
    pub fn new() -> (r: ProposalStore)
        ensures
            r.wf(),
            r.proposals@.len() == 0,
    {
        ProposalStore { next_id: 1, proposals: Vec::new() }
    }

    /// Submits a proposal under the next id and returns that id; the
    /// proposals stored before are kept as they were.
    pub fn submit(
        &mut self,
        config: &Config,
        proposer: String,
        choices: Vec<String>,
        proposer_power: u128,
        total_power: u128,
        height: u64,
        now: u64,
        paid: u128,
    ) -> (r: Result<u64, ProposalError>)
        requires
            old(self).wf(),
            old(self).next_id < u64::MAX,
            config.quorum.valid(),
            config.threshold matches Some(t) ==> t.valid(),
            now + config.max_voting_period <= u64::MAX,
            config.min_voting_period matches Some(m) ==> m <= config.max_voting_period,
        ensures
            final(self).wf(),
            match propose_error(*config, choices@.len(), proposer_power, paid) {
                Some(e) => r == Err::<u64, ProposalError>(e) && *final(self) == *old(self),
                None => {
                    &&& r == Ok::<u64, ProposalError>(old(self).next_id)
                    &&& final(self).proposals@.len() == old(self).proposals@.len() + 1
                    &&& final(self).proposals@.drop_last() == old(self).proposals@
                    &&& is_fresh(
                        final(self).proposals@.last(),
                        *config,
                        old(self).next_id,
                        proposer,
                        choices,
                        total_power,
                        height,
                        now,
                    )
                },
            },
    {
        let id = self.next_id;
        match propose(config, id, proposer, choices, proposer_power, total_power, height, now, paid) {
            Ok(p) => {
                self.proposals.push(p);
                self.next_id = id + 1;
                proof {
                    assert(self.proposals@.drop_last() =~= old(self).proposals@);
                }
                Ok(id)
            },
            Err(e) => Err(e),
        }
    }

    /// The proposal with `id`, if there is one.
    pub fn proposal(&self, id: u64) -> (r: Option<&Proposal>)
        requires
            self.wf(),
        ensures
            r matches Some(p) ==> 1 <= id < self.next_id && *p == self.proposals@[id as int - 1],
            r is None ==> !(1 <= id < self.next_id),
    {
        let n: usize = self.proposals.len();
        if id >= 1 && ((id - 1) as u128) < (n as u128) {
            let i: usize = (id - 1) as usize;
            Some(&self.proposals[i])
        } else {
            None
        }
    }
}

/// The per-choice weights never sum above the snapshot's total power, and
/// they equal the sum over ballots, one ballot per voter, so that a revote
/// is never counted twice.
pub proof fn lemma_tally_within_total(p: Proposal)
    requires
        p.wf(),
    ensures
        sum(p.votes@) <= p.total_power,
        sum(p.votes@) == ballot_sum(p.ballots@),
        forall|i: int, j: int|
            0 <= i < j < p.ballots@.len() ==> #[trigger] p.ballots@[i].voter@
                != #[trigger] p.ballots@[j].voter@,
{
}

/// Quorum, once met, stays met as long as the power counting toward it does
/// not fall, which every vote guarantees but a revote away from a choice to
/// a "none of the above" that does not count.
pub proof fn lemma_quorum_stays_met(before: Proposal, after: Proposal)
    requires
        before.wf(),
        after.wf(),
        after.total_power == before.total_power,
        after.quorum == before.quorum,
        after.quorum_power() >= before.quorum_power(),
        spec_quorum_met(before.quorum_power(), before.total_power as int, before.quorum),
    ensures
        spec_quorum_met(after.quorum_power(), after.total_power as int, after.quorum),
{
    lemma_sum_ge(before.votes@, before.votes@.len() - 1);
    lemma_quorum_monotonic(
        before.quorum_power(),
        after.quorum_power(),
        before.total_power as int,
        before.quorum,
    );
}

/// A tie among the top-weighted choices yields `Rejected` once quorum is met.
pub proof fn lemma_tie_rejected(p: Proposal)
    requires
        p.wf(),
        top_is_tied(p.votes@),
        spec_quorum_met(p.quorum_power(), p.total_power as int, p.quorum),
    ensures
        p.outcome() == Status::Rejected,
{
    lemma_tied_has_no_unique_top(p.votes@);
}

/// A deposit is released at most once and by its policy: what settling
/// returns matches the refund policy for the final status, and a second
/// settlement returns nothing.
pub proof fn lemma_deposit_settles_once(p: Proposal)
    requires
        p.wf(),
    ensures
        p.settlement() matches Some(a) ==> p.status.is_terminal() && (a is Refund
            <==> refund_due(p.deposit.unwrap().refund_policy, p.status)),
        p.settlement() is Some ==> (Proposal { deposit_settled: true, ..p }).settlement() is None,
        p.deposit_settled ==> p.settlement() is None,
{
}

proof fn lemma_unique_ballot(b: Seq<Ballot>, voter: Seq<char>, i: int)
    requires
        0 <= i < b.len(),
        b[i].voter@ == voter,
        forall|x: int, y: int| 0 <= x < y < b.len() ==> #[trigger] b[x].voter@ != #[trigger] b[y].voter@,
    ensures
        has_voted(b, voter),
        ballot_index(b, voter) == i,
{
    let k = ballot_index(b, voter);
    if k < i {
        assert(b[k].voter@ != b[i].voter@);
    } else if k > i {
        assert(b[i].voter@ != b[k].voter@);
    }
}

} // verus!
