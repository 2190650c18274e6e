use nft_staking::classify::ItemType;
use nft_staking::errors::StakingError;
use nft_staking::ledger::{NFTStakingRecord, StakeLedger};

fn s(x: &str) -> String {
    x.to_string()
}

fn open(l: &mut StakeLedger, staker: &str, nft: &str, t: ItemType, now: u64) {
    l.open_stake(&s(staker), vec![s(nft)], vec![t], now, 100);
}

#[test]
fn open_stake_creates_account_lazily() {
    let mut l = StakeLedger::new();
    assert_eq!(l.entries.len(), 0);
    open(&mut l, "alice", "bee1", ItemType::Queen, 5);
    assert_eq!(l.entries.len(), 1);
    assert_eq!(l.entries[0].account_id, "alice");
    assert_eq!(l.entries[0].info.total_rewards_claimed, 0);
    assert_eq!(l.entries[0].info.stakes.len(), 1);
    open(&mut l, "alice", "bee2", ItemType::Drone, 6);
    assert_eq!(l.entries.len(), 1);
    assert_eq!(l.entries[0].info.stakes.len(), 2);
    open(&mut l, "bob", "bee3", ItemType::Worker, 7);
    assert_eq!(l.entries.len(), 2);
}

#[test]
fn get_stake_reports_missing_account_and_index() {
    let mut l = StakeLedger::new();
    assert_eq!(l.get_stake("alice", 0).unwrap_err(), StakingError::NotFound);
    open(&mut l, "alice", "bee1", ItemType::Queen, 5);
    assert_eq!(l.get_stake("alice", 1).unwrap_err(), StakingError::IndexOutOfRange);
    let rec = l.get_stake("alice", 0).unwrap();
    assert_eq!(rec.nft_ids, vec![s("bee1")]);
    assert_eq!(rec.nft_types, vec![ItemType::Queen]);
    assert_eq!(rec.start_timestamp, 5);
    assert_eq!(rec.lockup_period, 100);
    assert_eq!(rec.claimed_rewards, 0);
}

#[test]
fn replace_stake_updates_in_place() {
    let mut l = StakeLedger::new();
    open(&mut l, "alice", "bee1", ItemType::Queen, 5);
    open(&mut l, "alice", "bee2", ItemType::Worker, 6);
    let updated = NFTStakingRecord {
        nft_ids: vec![s("bee1")],
        nft_types: vec![ItemType::Queen],
        start_timestamp: 5,
        lockup_period: 100,
        claimed_rewards: 77,
    };
    l.replace_stake("alice", 0, updated);
    assert_eq!(l.get_stake("alice", 0).unwrap().claimed_rewards, 77);
    assert_eq!(l.get_stake("alice", 1).unwrap().claimed_rewards, 0);
}

#[test]
fn remove_stake_swaps_last_into_place() {
    let mut l = StakeLedger::new();
    open(&mut l, "alice", "bee1", ItemType::Queen, 1);
    open(&mut l, "alice", "bee2", ItemType::Worker, 2);
    open(&mut l, "alice", "bee3", ItemType::Drone, 3);
    let removed = l.remove_stake("alice", 0);
    assert_eq!(removed.nft_ids, vec![s("bee1")]);
    // The last record took the freed index; the account stays.
    assert_eq!(l.entries[0].info.stakes.len(), 2);
    assert_eq!(l.get_stake("alice", 0).unwrap().nft_ids, vec![s("bee3")]);
    assert_eq!(l.get_stake("alice", 1).unwrap().nft_ids, vec![s("bee2")]);
    l.remove_stake("alice", 0);
    l.remove_stake("alice", 0);
    assert_eq!(l.entries.len(), 1);
    assert_eq!(l.entries[0].info.stakes.len(), 0);
}
