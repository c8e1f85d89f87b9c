use cwd_governance::proposal::{
    default_non_token_dao_config, default_token_dao_config, propose, Config, DepositAction,
    DepositInfo, DepositRefundPolicy, Proposal, ProposalError, ProposalStore, Status,
};
use cwd_governance::tally::top_choice;
use cwd_governance::threshold::{quorum_met, validate_threshold, PercentageThreshold, Threshold};

const WEEK: u64 = 604800;

fn majority() -> Threshold {
    Threshold::Percentage { percentage: PercentageThreshold::Majority }
}

fn config(allow_revoting: bool, deposit_info: Option<DepositInfo>) -> Config {
    Config {
        quorum: majority(),
        threshold: None,
        none_of_the_above: false,
        none_of_the_above_counts: true,
        max_voting_period: WEEK,
        min_voting_period: None,
        only_members_execute: true,
        allow_revoting,
        close_proposal_on_execution_failure: true,
        open_proposal_submission: false,
        deposit_info,
    }
}

fn two_choices() -> Vec<String> {
    vec!["A".to_string(), "B".to_string()]
}

fn open_proposal(cfg: &Config, total: u128) -> Proposal {
    propose(cfg, 1, "creator".to_string(), two_choices(), 101, total, 10, 1000, 0).unwrap()
}

#[test]
fn majority_all_for_one_choice_passes_then_executes() {
    let cfg = config(false, None);
    let mut p = open_proposal(&cfg, 301);
    assert_eq!(p.vote("alice".to_string(), 0, 100, 1001), Ok(()));
    assert_eq!(p.vote("bob".to_string(), 0, 100, 1002), Ok(()));
    assert_eq!(p.status, Status::Open);
    assert_eq!(p.vote("creator".to_string(), 0, 101, 1003), Ok(()));
    assert_eq!(p.status, Status::Passed { winner: 0 });
    assert_eq!(p.votes, vec![301, 0]);
    assert_eq!(p.begin_execute(&cfg, 101), Ok(0));
    assert_eq!(p.finish_execute(&cfg, true), Ok(()));
    assert_eq!(p.status, Status::Executed);
}

#[test]
fn split_vote_with_quorum_is_rejected() {
    let cfg = config(false, None);
    let mut p = open_proposal(&cfg, 301);
    assert_eq!(p.vote("alice".to_string(), 0, 150, 1001), Ok(()));
    assert_eq!(p.vote("bob".to_string(), 1, 150, 1002), Ok(()));
    assert_eq!(p.status, Status::Open);
    assert_eq!(p.close(1000 + WEEK), Ok(Status::Rejected));
    assert_eq!(p.status, Status::Rejected);
}

#[test]
fn proposer_without_power_is_unauthorized() {
    let cfg = config(false, None);
    let r = propose(&cfg, 1, "nobody".to_string(), two_choices(), 0, 301, 10, 1000, 0);
    assert!(matches!(r, Err(ProposalError::Unauthorized)));
}

#[test]
fn open_submission_accepts_proposer_without_power() {
    let mut cfg = config(false, None);
    cfg.open_proposal_submission = true;
    let p = propose(&cfg, 7, "nobody".to_string(), two_choices(), 0, 301, 10, 1000, 0).unwrap();
    assert_eq!(p.id, 7);
    assert_eq!(p.expiration, 1000 + WEEK);
    assert_eq!(p.start_height, 10);
    assert_eq!(p.votes, vec![0, 0]);
    assert_eq!(p.status, Status::Open);
}

#[test]
fn propose_refuses_bad_input_and_deposits() {
    let cfg = config(false, None);
    let one = vec!["A".to_string()];
    let r = propose(&cfg, 1, "c".to_string(), one, 5, 10, 1, 1, 0);
    assert!(matches!(r, Err(ProposalError::InvalidInput)));
    let r = propose(&cfg, 1, "c".to_string(), two_choices(), 5, 10, 1, 1, 3);
    assert!(matches!(r, Err(ProposalError::DepositMismatch)));
    let info = DepositInfo { amount: 10_000_000, refund_policy: DepositRefundPolicy::OnlyPassed };
    let cfg = config(false, Some(info));
    let r = propose(&cfg, 1, "c".to_string(), two_choices(), 5, 10, 1, 1, 0);
    assert!(matches!(r, Err(ProposalError::DepositRequired)));
    let r = propose(&cfg, 1, "c".to_string(), two_choices(), 5, 10, 1, 1, 9);
    assert!(matches!(r, Err(ProposalError::DepositMismatch)));
    let p = propose(&cfg, 1, "c".to_string(), two_choices(), 5, 10, 1, 1, 10_000_000).unwrap();
    let d = p.deposit.unwrap();
    assert_eq!(d.depositor, "c");
    assert_eq!(d.amount, 10_000_000);
}

#[test]
fn revote_moves_weight_without_double_counting() {
    let cfg = config(true, None);
    let mut p = open_proposal(&cfg, 301);
    assert_eq!(p.vote("alice".to_string(), 0, 100, 1001), Ok(()));
    assert_eq!(p.vote("alice".to_string(), 1, 100, 1002), Ok(()));
    assert_eq!(p.votes, vec![0, 100]);
    assert_eq!(p.cast, 100);
    assert_eq!(p.ballots.len(), 1);
    assert_eq!(p.vote("alice".to_string(), 1, 99, 1003), Err(ProposalError::SnapshotMismatch));
    // With revoting, casting all power does not end voting early.
    assert_eq!(p.vote("bob".to_string(), 1, 201, 1004), Ok(()));
    assert_eq!(p.status, Status::Open);
    assert!(p.votes.iter().sum::<u128>() <= p.total_power);
}

#[test]
fn vote_errors() {
    let cfg = config(false, None);
    let mut p = open_proposal(&cfg, 301);
    assert_eq!(p.vote("a".to_string(), 2, 10, 1001), Err(ProposalError::InvalidInput));
    assert_eq!(p.vote("a".to_string(), 0, 0, 1001), Err(ProposalError::Unauthorized));
    assert_eq!(p.vote("a".to_string(), 0, 10, 1000 + WEEK), Err(ProposalError::Expired));
    assert_eq!(p.vote("a".to_string(), 0, 302, 1001), Err(ProposalError::PowerExceedsTotal));
    assert_eq!(p.vote("a".to_string(), 0, 10, 1001), Ok(()));
    assert_eq!(p.vote("a".to_string(), 1, 10, 1002), Err(ProposalError::AlreadyVoted));
    assert_eq!(p.votes, vec![10, 0]);
    assert_eq!(p.close(1003), Err(ProposalError::InvalidState));
    assert_eq!(p.close(1000 + WEEK), Ok(Status::Closed));
    assert_eq!(p.vote("b".to_string(), 0, 10, 1004), Err(ProposalError::InvalidState));
}

#[test]
fn cast_power_and_quorum_only_grow() {
    let cfg = config(false, None);
    let mut p = open_proposal(&cfg, 301);
    let mut last = 0u128;
    let mut met = false;
    for (i, w) in [50u128, 100, 60, 40].iter().enumerate() {
        p.vote(format!("v{i}"), 0, *w, 1001).unwrap();
        assert!(p.cast >= last);
        last = p.cast;
        let now_met = quorum_met(p.cast, p.total_power, &p.quorum);
        assert!(!met || now_met);
        met = now_met;
    }
    assert!(met);
}

#[test]
fn only_passed_refund_policy() {
    let info = DepositInfo { amount: 500, refund_policy: DepositRefundPolicy::OnlyPassed };
    let cfg = config(false, Some(info));
    // Rejected: the deposit is forfeited, once.
    let mut p = propose(&cfg, 1, "creator".to_string(), two_choices(), 101, 301, 1, 1000, 500)
        .unwrap();
    assert!(p.settle_deposit().is_none());
    p.vote("a".to_string(), 0, 150, 1001).unwrap();
    p.vote("b".to_string(), 1, 150, 1001).unwrap();
    p.close(1000 + WEEK).unwrap();
    assert!(matches!(p.settle_deposit(), Some(DepositAction::Forfeit { amount: 500 })));
    assert!(p.settle_deposit().is_none());
    // Executed: the deposit goes back to the proposer, once.
    let mut p = propose(&cfg, 2, "creator".to_string(), two_choices(), 101, 301, 1, 1000, 500)
        .unwrap();
    p.vote("a".to_string(), 1, 301, 1001).unwrap();
    assert_eq!(p.status, Status::Passed { winner: 1 });
    assert!(p.settle_deposit().is_none());
    p.finish_execute(&cfg, true).unwrap();
    match p.settle_deposit() {
        Some(DepositAction::Refund { to, amount }) => {
            assert_eq!(to, "creator");
            assert_eq!(amount, 500);
        },
        other => panic!("expected a refund, got {other:?}"),
    }
    assert!(p.settle_deposit().is_none());
}

#[test]
fn always_and_never_refund_policies() {
    for (policy, refunded) in [(DepositRefundPolicy::Always, true), (DepositRefundPolicy::Never, false)] {
        let cfg = config(false, Some(DepositInfo { amount: 7, refund_policy: policy }));
        let mut p = propose(&cfg, 1, "c".to_string(), two_choices(), 1, 10, 1, 0, 7).unwrap();
        p.close(WEEK).unwrap();
        assert_eq!(p.status, Status::Closed);
        let a = p.settle_deposit().unwrap();
        assert_eq!(matches!(a, DepositAction::Refund { .. }), refunded);
    }
}

#[test]
fn execution_failure_by_configuration() {
    let mut cfg = config(false, None);
    let mut p = open_proposal(&cfg, 100);
    p.vote("a".to_string(), 1, 100, 1001).unwrap();
    assert_eq!(p.begin_execute(&cfg, 0), Err(ProposalError::Unauthorized));
    cfg.close_proposal_on_execution_failure = false;
    assert_eq!(p.finish_execute(&cfg, false), Err(ProposalError::ExecutionFailed));
    assert_eq!(p.status, Status::Passed { winner: 1 });
    cfg.close_proposal_on_execution_failure = true;
    assert_eq!(p.finish_execute(&cfg, false), Ok(()));
    assert_eq!(p.status, Status::ExecutionFailed);
    assert_eq!(p.begin_execute(&cfg, 5), Err(ProposalError::InvalidState));
}

#[test]
fn top_choice_needs_a_unique_leader() {
    assert_eq!(top_choice(&vec![3, 9, 4]), Some(1));
    assert_eq!(top_choice(&vec![9, 2, 9]), None);
    assert_eq!(top_choice(&vec![0, 0]), None);
    assert_eq!(top_choice(&vec![5]), Some(0));
}

#[test]
fn quorum_rules_exact_values() {
    let m = majority();
    assert!(!quorum_met(50, 100, &m));
    assert!(quorum_met(51, 100, &m));
    assert!(quorum_met(2, 3, &m));
    let half = Threshold::Percentage { percentage: PercentageThreshold::Percent { bps: 5000 } };
    assert!(quorum_met(50, 100, &half));
    assert!(!quorum_met(49, 100, &half));
    assert!(quorum_met(u128::MAX / 2 + 1, u128::MAX, &half));
    assert!(!quorum_met(u128::MAX / 2, u128::MAX, &half));
    let count = Threshold::AbsoluteCount { count: 10 };
    assert!(quorum_met(10, 1000, &count));
    assert!(!quorum_met(9, 1000, &count));
    assert!(validate_threshold(&half));
    let too_much = Threshold::Percentage { percentage: PercentageThreshold::Percent { bps: 10001 } };
    assert!(!validate_threshold(&too_much));
}

#[test]
fn none_of_the_above_winning_rejects() {
    let mut cfg = config(false, None);
    cfg.none_of_the_above = true;
    let mut p = open_proposal(&cfg, 100);
    assert_eq!(p.votes, vec![0, 0, 0]);
    assert_eq!(p.vote("a".to_string(), 2, 60, 1001), Ok(()));
    assert_eq!(p.vote("b".to_string(), 0, 40, 1001), Ok(()));
    assert_eq!(p.status, Status::Rejected);
    assert_eq!(p.vote("c".to_string(), 3, 1, 1001), Err(ProposalError::InvalidState));
    let mut q = open_proposal(&cfg, 100);
    assert_eq!(q.vote("a".to_string(), 3, 60, 1001), Err(ProposalError::InvalidInput));
    q.vote("a".to_string(), 1, 60, 1001).unwrap();
    q.vote("b".to_string(), 2, 40, 1001).unwrap();
    assert_eq!(q.status, Status::Passed { winner: 1 });
}

#[test]
fn winner_must_clear_the_threshold() {
    let mut cfg = config(false, None);
    cfg.threshold = Some(Threshold::Percentage { percentage: PercentageThreshold::Percent { bps: 6000 } });
    let choices = vec!["A".to_string(), "B".to_string(), "C".to_string()];
    let mut p = propose(&cfg, 1, "c".to_string(), choices, 1, 100, 1, 0, 0).unwrap();
    p.vote("a".to_string(), 0, 50, 1).unwrap();
    p.vote("b".to_string(), 1, 30, 1).unwrap();
    p.vote("c".to_string(), 2, 20, 1).unwrap();
    assert_eq!(p.status, Status::Rejected);
    let choices = vec!["A".to_string(), "B".to_string()];
    let mut p = propose(&cfg, 2, "c".to_string(), choices, 1, 100, 1, 0, 0).unwrap();
    p.vote("a".to_string(), 0, 60, 1).unwrap();
    p.vote("b".to_string(), 1, 40, 1).unwrap();
    assert_eq!(p.status, Status::Passed { winner: 0 });
}

#[test]
fn closing_a_final_proposal_is_refused() {
    let cfg = config(false, Some(DepositInfo { amount: 5, refund_policy: DepositRefundPolicy::Always }));
    let mut p = propose(&cfg, 1, "c".to_string(), two_choices(), 1, 10, 1, 0, 5).unwrap();
    assert_eq!(p.close(WEEK), Ok(Status::Closed));
    assert!(p.settle_deposit().is_some());
    assert_eq!(p.close(WEEK + 1), Err(ProposalError::InvalidState));
    assert_eq!(p.status, Status::Closed);
    assert!(p.settle_deposit().is_none());
    // A passed proposal cannot be closed either.
    let mut q = propose(&cfg, 2, "c".to_string(), two_choices(), 1, 10, 1, 0, 5).unwrap();
    q.vote("a".to_string(), 0, 10, 1).unwrap();
    assert_eq!(q.status, Status::Passed { winner: 0 });
    assert_eq!(q.close(WEEK), Err(ProposalError::InvalidState));
    assert_eq!(q.status, Status::Passed { winner: 0 });
}

#[test]
fn closed_submission_refuses_powerless_proposer_first() {
    let cfg = config(false, None);
    let r = propose(&cfg, 1, "nobody".to_string(), vec!["A".to_string()], 0, 10, 1, 0, 0);
    assert!(matches!(r, Err(ProposalError::Unauthorized)));
}

#[test]
fn minimum_voting_period_delays_early_decision() {
    let mut cfg = config(false, None);
    cfg.min_voting_period = Some(100);
    let mut p = propose(&cfg, 1, "c".to_string(), two_choices(), 1, 10, 1, 1000, 0).unwrap();
    assert_eq!(p.min_voting_end, 1100);
    p.vote("a".to_string(), 0, 10, 1050).unwrap();
    assert_eq!(p.status, Status::Open);
    assert_eq!(p.close(1099), Err(ProposalError::InvalidState));
    assert_eq!(p.close(1100), Ok(Status::Passed { winner: 0 }));
}

#[test]
fn none_of_the_above_may_be_left_out_of_quorum() {
    let mut cfg = config(false, None);
    cfg.none_of_the_above = true;
    cfg.none_of_the_above_counts = false;
    let mut p = open_proposal(&cfg, 100);
    p.vote("a".to_string(), 2, 60, 1001).unwrap();
    p.vote("b".to_string(), 0, 30, 1001).unwrap();
    // 30 of 100 count toward quorum: not met.
    assert_eq!(p.close(1000 + WEEK), Ok(Status::Closed));
    cfg.none_of_the_above_counts = true;
    let mut q = open_proposal(&cfg, 100);
    q.vote("a".to_string(), 2, 60, 1001).unwrap();
    q.vote("b".to_string(), 0, 30, 1001).unwrap();
    assert_eq!(q.close(1000 + WEEK), Ok(Status::Rejected));
}

#[test]
fn store_numbers_proposals_from_one() {
    let cfg = config(false, None);
    let mut store = ProposalStore::new();
    assert_eq!(store.submit(&cfg, "c".to_string(), two_choices(), 1, 10, 1, 0, 0), Ok(1));
    assert_eq!(store.submit(&cfg, "c".to_string(), two_choices(), 0, 10, 1, 0, 0), Err(ProposalError::Unauthorized));
    assert_eq!(store.submit(&cfg, "d".to_string(), two_choices(), 1, 10, 2, 0, 0), Ok(2));
    assert_eq!(store.next_id, 3);
    assert_eq!(store.proposal(2).unwrap().proposer, "d");
    assert_eq!(store.proposal(1).unwrap().start_height, 1);
    assert!(store.proposal(0).is_none());
    assert!(store.proposal(3).is_none());
    assert_eq!(store.proposals.len(), 2);
}

#[test]
fn default_configurations() {
    let t = default_token_dao_config();
    assert_eq!(t.max_voting_period, WEEK);
    assert_eq!(t.quorum, majority());
    assert!(t.only_members_execute && !t.allow_revoting && t.close_proposal_on_execution_failure);
    assert!(!t.open_proposal_submission);
    assert_eq!(t.deposit_info, Some(DepositInfo { amount: 10_000_000, refund_policy: DepositRefundPolicy::OnlyPassed }));
    let n = default_non_token_dao_config();
    assert_eq!(n.deposit_info, None);
    assert_eq!(n.max_voting_period, WEEK);
}
