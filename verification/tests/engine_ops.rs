use nft_staking::engine::{ItemInfo, NFTStakingContract, DAY, MONTH};
use nft_staking::errors::StakingError;

const QUEEN_META: &str =
    r#"{"reference_blob":{"attributes":[{"trait_type":"Body","value":"Queen"}]}}"#;
const WORKER_META: &str =
    r#"{"reference_blob":{"attributes":[{"trait_type":"Wings","value":"Diamond"}]}}"#;

fn s(x: &str) -> String {
    x.to_string()
}

fn engine() -> NFTStakingContract {
    NFTStakingContract::new(s("owner"), s("token"), s("registry"), 0)
}

fn stake(c: &mut NFTStakingContract, staker: &str, nft: &str, meta: &str, now: u64) {
    let pending = c.nft_on_transfer(&s(staker), &s("registry"), s(nft), now).unwrap();
    let replies = vec![ItemInfo { owner_id: s(staker), metadata: s(meta) }];
    c.on_describe_item(pending, &replies).unwrap();
}

fn fund(c: &mut NFTStakingContract, amount: u128, now: u64) {
    assert_eq!(c.ft_on_transfer(&s("owner"), &s("token"), amount, now), Ok(0));
}

#[test]
fn funding_rejects_non_owner() {
    let mut c = engine();
    let r = c.ft_on_transfer(&s("mallory"), &s("token"), 10, 1);
    assert_eq!(r, Err(StakingError::Unauthorized));
    assert_eq!(c.get_available_reward(), 0);
}

#[test]
fn funding_rejects_wrong_token_origin() {
    let mut c = engine();
    let r = c.ft_on_transfer(&s("owner"), &s("other-token"), 10, 1);
    assert_eq!(r, Err(StakingError::Unauthorized));
}

#[test]
fn funding_rejects_zero_amount() {
    let mut c = engine();
    let r = c.ft_on_transfer(&s("owner"), &s("token"), 0, 1);
    assert_eq!(r, Err(StakingError::InvalidInput));
}

#[test]
fn funding_rejects_pool_overflow() {
    let mut c = engine();
    fund(&mut c, u128::MAX, 1);
    let r = c.ft_on_transfer(&s("owner"), &s("token"), 1, 2);
    assert_eq!(r, Err(StakingError::AmountOverflow));
    assert_eq!(c.get_available_reward(), u128::MAX);
}

#[test]
fn funding_accumulates_and_records_history() {
    let mut c = engine();
    fund(&mut c, 400, 7);
    fund(&mut c, 600, 9);
    assert_eq!(c.get_available_reward(), 1000);
    let log = c.get_funding_details();
    assert_eq!(log.len(), 2);
    assert_eq!((log[0].amount, log[0].timestamp), (400, 7));
    assert_eq!((log[1].amount, log[1].timestamp), (600, 9));
}

#[test]
fn stake_rejects_wrong_registry_origin() {
    let c = engine();
    let r = c.nft_on_transfer(&s("alice"), &s("impostor"), s("bee1"), 5);
    assert!(matches!(r, Err(StakingError::Unauthorized)));
}

#[test]
fn stake_pending_carries_context() {
    let c = engine();
    let p = c.nft_on_transfer(&s("alice"), &s("registry"), s("bee1"), 5).unwrap();
    assert_eq!(p.staker_id, "alice");
    assert_eq!(p.nft_id, "bee1");
    assert_eq!(p.start_timestamp, 5);
}

#[test]
fn resume_rejects_zero_replies() {
    let mut c = engine();
    let p = c.nft_on_transfer(&s("alice"), &s("registry"), s("bee1"), 0).unwrap();
    let r = c.on_describe_item(p, &Vec::new());
    assert_eq!(r, Err(StakingError::ExternalCallFailed));
    assert_eq!(c.get_staking_info(&s("alice")).len(), 0);
}

#[test]
fn resume_rejects_two_replies() {
    let mut c = engine();
    let p = c.nft_on_transfer(&s("alice"), &s("registry"), s("bee1"), 0).unwrap();
    let info = ItemInfo { owner_id: s("alice"), metadata: s(QUEEN_META) };
    let r = c.on_describe_item(p, &vec![info.clone(), info]);
    assert_eq!(r, Err(StakingError::ExternalCallFailed));
}

#[test]
fn resume_rejects_foreign_owner() {
    let mut c = engine();
    let p = c.nft_on_transfer(&s("alice"), &s("registry"), s("bee1"), 0).unwrap();
    let replies = vec![ItemInfo { owner_id: s("bob"), metadata: s(QUEEN_META) }];
    let r = c.on_describe_item(p, &replies);
    assert_eq!(r, Err(StakingError::OwnershipMismatch));
    assert_eq!(c.get_staking_info(&s("alice")).len(), 0);
}

#[test]
fn resume_rejects_malformed_metadata() {
    let mut c = engine();
    let p = c.nft_on_transfer(&s("alice"), &s("registry"), s("bee1"), 0).unwrap();
    let replies = vec![ItemInfo { owner_id: s("alice"), metadata: s("{not json") }];
    let r = c.on_describe_item(p, &replies);
    assert_eq!(r, Err(StakingError::ExternalCallFailed));
}

#[test]
fn stake_appears_in_staking_info() {
    let mut c = engine();
    stake(&mut c, "alice", "bee1", QUEEN_META, 42);
    let infos = c.get_staking_info(&s("alice"));
    assert_eq!(infos.len(), 1);
    assert_eq!(infos[0].nft_ids, vec![s("bee1")]);
    assert_eq!(infos[0].queen, 1);
    assert_eq!(infos[0].worker, 0);
    assert_eq!(infos[0].drone, 0);
    assert_eq!(infos[0].start_timestamp, 42);
    assert_eq!(infos[0].lockup_period, MONTH);
    assert_eq!(infos[0].claimed_rewards, 0);
}

#[test]
fn staking_info_empty_for_unknown_staker() {
    let c = engine();
    assert_eq!(c.get_staking_info(&s("nobody")).len(), 0);
}

#[test]
fn distribute_rejects_non_owner() {
    let mut c = engine();
    fund(&mut c, 1000, 0);
    stake(&mut c, "alice", "bee1", QUEEN_META, 0);
    let r = c.distribute_rewards(&s("alice"), 100, 1);
    assert_eq!(r, Err(StakingError::Unauthorized));
}

#[test]
fn distribute_rejects_more_than_pool() {
    let mut c = engine();
    fund(&mut c, 100, 0);
    stake(&mut c, "alice", "bee1", QUEEN_META, 0);
    let r = c.distribute_rewards(&s("owner"), 101, 1);
    assert_eq!(r, Err(StakingError::InvalidInput));
    assert_eq!(c.get_available_reward(), 100);
}

#[test]
fn distribute_rejects_empty_ledger() {
    let mut c = engine();
    fund(&mut c, 100, 0);
    let r = c.distribute_rewards(&s("owner"), 50, 1);
    assert_eq!(r, Err(StakingError::NothingToDistribute));
}

#[test]
fn distribute_splits_proportionally() {
    let mut c = engine();
    fund(&mut c, 1000, 0);
    stake(&mut c, "alice", "bee1", QUEEN_META, 0);
    stake(&mut c, "bob", "bee2", WORKER_META, 0);
    // weights 50 and 30, total 80
    assert_eq!(c.distribute_rewards(&s("owner"), 800, 10), Ok(()));
    assert_eq!(c.get_staking_info(&s("alice"))[0].claimed_rewards, 500);
    assert_eq!(c.get_staking_info(&s("bob"))[0].claimed_rewards, 300);
    assert_eq!(c.get_available_reward(), 200);
    assert_eq!(c.get_last_reward_distribution(), 10);
}

#[test]
fn distribute_rounds_down_and_keeps_residue() {
    let mut c = engine();
    fund(&mut c, 1000, 0);
    stake(&mut c, "alice", "bee1", QUEEN_META, 0);
    stake(&mut c, "bob", "bee2", WORKER_META, 0);
    // floor(100*50/80) = 62, floor(100*30/80) = 37; the residue 1 stays.
    assert_eq!(c.distribute_rewards(&s("owner"), 100, 10), Ok(()));
    let paid_a = c.get_staking_info(&s("alice"))[0].claimed_rewards;
    let paid_b = c.get_staking_info(&s("bob"))[0].claimed_rewards;
    assert_eq!(paid_a, 62);
    assert_eq!(paid_b, 37);
    // Conservation: the payout never exceeds the distributed amount, and
    // the rounding loss stays below the total weight.
    assert!(paid_a + paid_b <= 100);
    assert!(100 - (paid_a + paid_b) < 80);
    // The whole amount left the distributable pool.
    assert_eq!(c.get_available_reward(), 900);
}

#[test]
fn claim_rejects_unknown_staker() {
    let mut c = engine();
    let r = c.claim_reward(&s("nobody"), 0);
    assert!(matches!(r, Err(StakingError::NotFound)));
}

#[test]
fn claim_rejects_bad_index() {
    let mut c = engine();
    stake(&mut c, "alice", "bee1", QUEEN_META, 0);
    let r = c.claim_reward(&s("alice"), 1);
    assert!(matches!(r, Err(StakingError::IndexOutOfRange)));
}

#[test]
fn claim_rejects_zero_accrual() {
    let mut c = engine();
    stake(&mut c, "alice", "bee1", QUEEN_META, 0);
    let r = c.claim_reward(&s("alice"), 0);
    assert!(matches!(r, Err(StakingError::NothingToClaim)));
}

#[test]
fn claim_pays_accrued_exactly_once() {
    let mut c = engine();
    fund(&mut c, 1000, 0);
    stake(&mut c, "alice", "bee1", QUEEN_META, 0);
    c.distribute_rewards(&s("owner"), 800, 1).unwrap();
    let transfer = c.claim_reward(&s("alice"), 0).unwrap();
    assert_eq!(transfer.token, "token");
    assert_eq!(transfer.receiver_id, "alice");
    assert_eq!(transfer.amount, 800);
    assert_eq!(c.get_staking_info(&s("alice"))[0].claimed_rewards, 0);
    // Claiming again without a distribution pays nothing.
    let again = c.claim_reward(&s("alice"), 0);
    assert!(matches!(again, Err(StakingError::NothingToClaim)));
}

#[test]
fn unstake_rejects_unknown_staker() {
    let mut c = engine();
    let r = c.unstake_nfts(&s("nobody"), 0, MONTH);
    assert!(matches!(r, Err(StakingError::NotFound)));
}

#[test]
fn unstake_rejects_bad_index() {
    let mut c = engine();
    stake(&mut c, "alice", "bee1", QUEEN_META, 0);
    let r = c.unstake_nfts(&s("alice"), 3, MONTH);
    assert!(matches!(r, Err(StakingError::IndexOutOfRange)));
}

#[test]
fn unstake_respects_lockup_boundary() {
    let mut c = engine();
    stake(&mut c, "alice", "bee1", QUEEN_META, 0);
    let early = c.unstake_nfts(&s("alice"), 0, MONTH - 1);
    assert!(matches!(early, Err(StakingError::LockupActive)));
    let on_time = c.unstake_nfts(&s("alice"), 0, MONTH).unwrap();
    assert_eq!(on_time.nft_contract, "registry");
    assert_eq!(on_time.receiver_id, "alice");
    assert_eq!(on_time.nft_ids, vec![s("bee1")]);
    assert_eq!(c.get_staking_info(&s("alice")).len(), 0);
}

#[test]
fn unstake_swaps_last_stake_into_place() {
    let mut c = engine();
    stake(&mut c, "alice", "bee1", QUEEN_META, 0);
    stake(&mut c, "alice", "bee2", WORKER_META, 0);
    stake(&mut c, "alice", "bee3", QUEEN_META, 0);
    c.unstake_nfts(&s("alice"), 0, MONTH).unwrap();
    let infos = c.get_staking_info(&s("alice"));
    assert_eq!(infos.len(), 2);
    // The last record moved into the removed slot.
    assert_eq!(infos[0].nft_ids, vec![s("bee3")]);
    assert_eq!(infos[1].nft_ids, vec![s("bee2")]);
}

#[test]
fn counters_reject_machine_overflow() {
    let mut c = engine();
    fund(&mut c, u128::MAX, 0);
    stake(&mut c, "alice", "bee1", QUEEN_META, 0);
    // The single queen holds the whole weight, so the full pool accrues.
    assert_eq!(c.distribute_rewards(&s("owner"), u128::MAX, 1), Ok(()));
    assert_eq!(c.get_staking_info(&s("alice"))[0].claimed_rewards, u128::MAX);
    // A further credit cannot fit the stake's counter; nothing moves.
    fund(&mut c, 50, 2);
    let r = c.distribute_rewards(&s("owner"), 50, 3);
    assert_eq!(r, Err(StakingError::AmountOverflow));
    assert_eq!(c.get_staking_info(&s("alice"))[0].claimed_rewards, u128::MAX);
    assert_eq!(c.get_available_reward(), 50);
    // After paying out, it is the lifetime counter that cannot fit.
    let paid = c.claim_reward(&s("alice"), 0).unwrap();
    assert_eq!(paid.amount, u128::MAX);
    assert_eq!(c.distribute_rewards(&s("owner"), 50, 4), Ok(()));
    let again = c.claim_reward(&s("alice"), 0);
    assert!(matches!(again, Err(StakingError::AmountOverflow)));
    // The rejected claim left the accrual untouched.
    assert_eq!(c.get_staking_info(&s("alice"))[0].claimed_rewards, 50);
}

#[test]
fn next_distribution_counts_whole_days() {
    let c = NFTStakingContract::new(s("owner"), s("token"), s("registry"), 0);
    assert_eq!(c.get_next_reward_distribution(0), 30);
    assert_eq!(c.get_next_reward_distribution(15 * DAY), 15);
    assert_eq!(c.get_next_reward_distribution(15 * DAY + DAY / 2), 14);
    assert_eq!(c.get_next_reward_distribution(MONTH - 1), 0);
    assert_eq!(c.get_next_reward_distribution(MONTH), 0);
    assert_eq!(c.get_next_reward_distribution(MONTH + DAY), 0);
}
