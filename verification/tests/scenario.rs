use nft_staking::engine::{ItemInfo, NFTStakingContract, DAY};
use nft_staking::errors::StakingError;
use nft_staking::classify::ItemWeightTable;

const QUEEN_META: &str =
    r#"{"reference_blob":{"attributes":[{"trait_type":"Body","value":"Queen"}]}}"#;

fn s(x: &str) -> String {
    x.to_string()
}

#[test]
fn queen_lifecycle_stake_distribute_claim_unstake() {
    // Staker A stakes one queen-type item at t = 0 with a 30-day lockup.
    let mut c = NFTStakingContract::new(s("owner"), s("token"), s("registry"), 0);
    assert_eq!(c.ft_on_transfer(&s("owner"), &s("token"), 1000, 0), Ok(0));
    let pending = c.nft_on_transfer(&s("alice"), &s("registry"), s("queen-bee"), 0).unwrap();
    let replies = vec![ItemInfo { owner_id: s("alice"), metadata: s(QUEEN_META) }];
    c.on_describe_item(pending, &replies).unwrap();

    // At t = 15 d the owner distributes 1000 over A's weight of 50, the
    // only outstanding stake: A's accrued reward becomes 1000.
    assert_eq!(c.distribute_rewards(&s("owner"), 1000, 15 * DAY), Ok(()));
    assert_eq!(c.get_staking_info(&s("alice"))[0].claimed_rewards, 1000);
    assert_eq!(c.get_available_reward(), 0);

    // At t = 20 d the lockup is still active.
    let early = c.unstake_nfts(&s("alice"), 0, 20 * DAY);
    assert!(matches!(early, Err(StakingError::LockupActive)));

    // The claim pays out the full 1000 and resets the accrual; the
    // lifetime total records it.
    let transfer = c.claim_reward(&s("alice"), 0).unwrap();
    assert_eq!(transfer.amount, 1000);
    assert_eq!(transfer.receiver_id, "alice");
    assert_eq!(c.get_staking_info(&s("alice"))[0].claimed_rewards, 0);
    assert_eq!(c.stakers.entries[0].info.total_rewards_claimed, 1000);

    // At t = 31 d the unstake succeeds and returns the item.
    let returned = c.unstake_nfts(&s("alice"), 0, 31 * DAY).unwrap();
    assert_eq!(returned.nft_ids, vec![s("queen-bee")]);
    assert_eq!(c.get_staking_info(&s("alice")).len(), 0);
}

#[test]
fn distribution_conserves_pool_across_many_stakes() {
    // Seven stakes of mixed weights; a distribution that does not divide
    // evenly pays out at most the distributed amount, short by less than
    // the total weight.
    let mut c = NFTStakingContract::new(s("owner"), s("token"), s("registry"), 0);
    assert_eq!(c.ft_on_transfer(&s("owner"), &s("token"), 10_000, 0), Ok(0));
    let metas = [
        ("alice", "b1", r#"{"reference_blob":{"attributes":[{"trait_type":"Body","value":"Queen"}]}}"#),
        ("alice", "b2", r#"{"reference_blob":{"attributes":[{"trait_type":"Wings","value":"Diamond"}]}}"#),
        ("bob", "b3", r#"{"reference_blob":{"attributes":[]}}"#),
        ("bob", "b4", r#"{"reference_blob":{"attributes":[{"trait_type":"Body","value":"Queen"}]}}"#),
        ("carol", "b5", r#"{"reference_blob":{"attributes":[{"trait_type":"Wings","value":"Diamond"}]}}"#),
        ("carol", "b6", r#"{"name":"plain"}"#),
        ("carol", "b7", r#"{"reference_blob":{"attributes":[{"trait_type":"Body","value":"Queen"}]}}"#),
    ];
    for (staker, nft, meta) in metas {
        let p = c.nft_on_transfer(&s(staker), &s("registry"), s(nft), 0).unwrap();
        let replies = vec![ItemInfo { owner_id: s(staker), metadata: s(meta) }];
        c.on_describe_item(p, &replies).unwrap();
    }
    // Weights: 50+30 | 20+50 | 30+20+50 — total 250.
    let amount: u128 = 999;
    assert_eq!(c.distribute_rewards(&s("owner"), amount, 1), Ok(()));
    let mut paid: u128 = 0;
    for staker in ["alice", "bob", "carol"] {
        for info in c.get_staking_info(&s(staker)) {
            paid += info.claimed_rewards;
        }
    }
    assert!(paid <= amount);
    assert!(amount - paid < 250);
    // Exact shares: floor(999 * w / 250) for w in 50,30,20,50,30,20,50.
    assert_eq!(c.get_staking_info(&s("alice"))[0].claimed_rewards, 199);
    assert_eq!(c.get_staking_info(&s("alice"))[1].claimed_rewards, 119);
    assert_eq!(c.get_staking_info(&s("bob"))[0].claimed_rewards, 79);
    assert_eq!(c.get_staking_info(&s("bob"))[1].claimed_rewards, 199);
    assert_eq!(c.get_staking_info(&s("carol"))[0].claimed_rewards, 119);
    assert_eq!(c.get_staking_info(&s("carol"))[1].claimed_rewards, 79);
    assert_eq!(c.get_staking_info(&s("carol"))[2].claimed_rewards, 199);
}

#[test]
fn custom_weight_schedule_drives_shares() {
    let weights = ItemWeightTable { queen: 7, worker: 2, drone: 1 };
    let mut c = NFTStakingContract::with_weights(s("owner"), s("token"), s("registry"), 0, weights);
    assert_eq!(c.ft_on_transfer(&s("owner"), &s("token"), 100, 0), Ok(0));
    let p = c.nft_on_transfer(&s("alice"), &s("registry"), s("q"), 0).unwrap();
    c.on_describe_item(p, &vec![ItemInfo { owner_id: s("alice"), metadata: s(QUEEN_META) }])
        .unwrap();
    let p = c.nft_on_transfer(&s("bob"), &s("registry"), s("d"), 0).unwrap();
    c.on_describe_item(p, &vec![ItemInfo { owner_id: s("bob"), metadata: s("{}") }]).unwrap();
    // Total weight 8: floor(100*7/8) = 87 and floor(100*1/8) = 12.
    assert_eq!(c.distribute_rewards(&s("owner"), 100, 1), Ok(()));
    assert_eq!(c.get_staking_info(&s("alice"))[0].claimed_rewards, 87);
    assert_eq!(c.get_staking_info(&s("bob"))[0].claimed_rewards, 12);
}

#[test]
fn repeated_distributions_accumulate_accrual() {
    let mut c = NFTStakingContract::new(s("owner"), s("token"), s("registry"), 0);
    assert_eq!(c.ft_on_transfer(&s("owner"), &s("token"), 300, 0), Ok(0));
    let p = c.nft_on_transfer(&s("alice"), &s("registry"), s("bee"), 0).unwrap();
    let replies = vec![ItemInfo { owner_id: s("alice"), metadata: s(QUEEN_META) }];
    c.on_describe_item(p, &replies).unwrap();
    assert_eq!(c.distribute_rewards(&s("owner"), 100, 1), Ok(()));
    assert_eq!(c.distribute_rewards(&s("owner"), 100, 2), Ok(()));
    assert_eq!(c.get_staking_info(&s("alice"))[0].claimed_rewards, 200);
    assert_eq!(c.get_available_reward(), 100);
    let t = c.claim_reward(&s("alice"), 0).unwrap();
    assert_eq!(t.amount, 200);
    assert_eq!(c.stakers.entries[0].info.total_rewards_claimed, 200);
}
