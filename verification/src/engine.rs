use vstd::prelude::*;
use crate::classify::{
    classify_attributes, spec_type_label, type_label, ItemType, ItemWeightTable,
};
use crate::errors::StakingError;
use crate::ledger::{
    ledger_weight, lemma_ledger_weight_congruent, lemma_ledger_weight_push,
    lemma_ledger_weight_update, lemma_stake_le_stakes, lemma_stakes_le_ledger,
    lemma_stakes_weight_congruent, lemma_stakes_weight_push, lemma_stakes_weight_update,
    lemma_types_weight_nonneg, record_weight, spec_opened, spec_removed, stakes_weight,
    total_accrued, accrued_of_stakes, ledger_stake_weights, weights_of_stakes, types_weight,
    NFTStakingRecord, StakeLedger, StakerEntry, StakerInfo,
};
use crate::metadata::{extract_attributes, parse_json};
use crate::rewards::{compute_share, share};
use crate::text::str_eq;

verus! {

/// Seconds in a day.
pub const DAY: u64 = 86400;

/// Seconds in a month: the fixed lockup period of every stake.
pub const MONTH: u64 = 30 * 86400;

/// One funding event: an amount added to the reward pool at a time.  The
/// funding history is append-only.
#[derive(Clone, Copy, Debug, PartialEq, Eq, Structural)]
pub struct FundingRecord {
    pub amount: u128,
    pub timestamp: u64,
}

/// The reward pool: the balance still available for distribution, the time
/// of the initial funding cycle, and the append-only funding history.
#[derive(Debug)]
pub struct RewardDistribution {
    pub total_reward_pool: u128,
    pub last_distributed: u64,
    pub funding_records: Vec<FundingRecord>,
}

/// The continuation of a stake attempt awaiting registry verification.
///
/// It carries exactly the data needed to resume — the requesting staker,
/// the item, and the intended start time — so concurrent in-flight attempts
/// share no mutable state.  The ledger is only touched once the registry
/// reply passes the ownership gate.
#[derive(Clone, Debug)]
pub struct PendingStake {
    pub staker_id: String,
    pub nft_id: String,
    pub start_timestamp: u64,
}

/// The registry's description of one item: its current owner and its
/// metadata document (a JSON text).
#[derive(Clone, Debug)]
pub struct ItemInfo {
    pub owner_id: String,
    pub metadata: String,
}

/// A fungible-token transfer for the caller to request externally.
#[derive(Clone, Debug)]
pub struct TokenTransfer {
    pub token: String,
    pub receiver_id: String,
    pub amount: u128,
}

/// A batch return of items for the caller to request externally.
#[derive(Clone, Debug)]
pub struct NftBatchTransfer {
    pub nft_contract: String,
    pub receiver_id: String,
    pub nft_ids: Vec<String>,
}

/// One stake, summarized for reporting: its items, the count of each
/// classified type, its timing, and its accrued unclaimed reward.
#[derive(Clone, Debug)]
pub struct StakeSummary {
    pub nft_ids: Vec<String>,
    pub queen: u64,
    pub worker: u64,
    pub drone: u64,
    pub start_timestamp: u64,
    pub lockup_period: u64,
    pub claimed_rewards: u128,
}

/// How many of the given type a type sequence holds.
pub open spec fn count_type(ts: Seq<ItemType>, t: ItemType) -> int
    decreases ts.len(),
{
    if ts.len() == 0 {
        0
    } else {
        count_type(ts.drop_last(), t) + if ts.last() == t {
            1int
        } else {
            0int
        }
    }
}

/// Opening a stake adds exactly the new record's weight to the ledger's
/// total weight.
proof fn lemma_total_weight_after_open(
    pre: StakeLedger,
    post: StakeLedger,
    staker: String,
    rec: NFTStakingRecord,
    table: ItemWeightTable,
)
    requires
        spec_opened(pre, post, staker, rec),
    ensures
        ledger_weight(post.entries@, table) == ledger_weight(pre.entries@, table) + rec.spec_weight(
            table,
        ),
{
    if pre.spec_has(staker@) {
        let j = pre.spec_idx(staker@);
        assert(0 <= j < pre.entries@.len() && pre.entries@[j].account_id@ == staker@);
        assert(post.entries@ =~= pre.entries@.update(j, post.entries@[j]));
        lemma_ledger_weight_update(pre.entries@, j, post.entries@[j], table);
        lemma_stakes_weight_push(pre.entries@[j].info.stakes@, rec, table);
    } else {
        assert(post.entries@ =~= pre.entries@.push(post.entries@.last()));
        lemma_ledger_weight_push(pre.entries@, post.entries@.last(), table);
        lemma_stakes_weight_push(Seq::empty(), rec, table);
    }
}

/// What a summary reports of a stake record.
pub open spec fn summarizes(s: StakeSummary, rec: NFTStakingRecord) -> bool {
    &&& s.nft_ids@ == rec.nft_ids@
    &&& s.queen == count_type(rec.nft_types@, ItemType::Queen)
    &&& s.worker == count_type(rec.nft_types@, ItemType::Worker)
    &&& s.drone == count_type(rec.nft_types@, ItemType::Drone)
    &&& s.start_timestamp == rec.start_timestamp
    &&& s.lockup_period == rec.lockup_period
    &&& s.claimed_rewards == rec.claimed_rewards
}

/// Counts how many items of a record carry the given type.
fn count_types_of(ts: &Vec<ItemType>, t: ItemType) -> (n: u64)
    ensures
        n == count_type(ts@, t),
{
    let mut n: u64 = 0;
    let mut i: usize = 0;
    while i < ts.len()
        invariant
            0 <= i <= ts@.len(),
            n == count_type(ts@.take(i as int), t),
            n <= i,
        decreases ts@.len() - i,
    {
        proof {
            assert(ts@.take(i + 1 as int).drop_last() =~= ts@.take(i as int));
            assert(ts@.take(i + 1 as int).last() == ts@[i as int]);
        }
        if ts[i] == t {
            n = n + 1;
        }
        i = i + 1;
    }
    proof {
        assert(ts@.take(ts@.len() as int) =~= ts@);
    }
    n
}

/// One stake after a distribution of `r` against total weight `t`: only
/// the accrued amount moved, up by exactly the rounded-down proportional
/// share of the stake's weight.
pub open spec fn credited(
    pre: NFTStakingRecord,
    post: NFTStakingRecord,
    r: int,
    t: int,
    table: ItemWeightTable,
) -> bool {
    &&& post.nft_ids@ == pre.nft_ids@
    &&& post.nft_types@ == pre.nft_types@
    &&& post.start_timestamp == pre.start_timestamp
    &&& post.lockup_period == pre.lockup_period
    &&& post.claimed_rewards == pre.claimed_rewards + share(r, pre.spec_weight(table), t)
}

/// One account after a distribution: identity and lifetime total kept,
/// every stake credited its share.
pub open spec fn entry_credited(
    pe: StakerEntry,
    qe: StakerEntry,
    r: int,
    t: int,
    table: ItemWeightTable,
) -> bool {
    &&& qe.account_id == pe.account_id
    &&& qe.info.total_rewards_claimed == pe.info.total_rewards_claimed
    &&& qe.info.stakes@.len() == pe.info.stakes@.len()
    &&& forall|i: int|
        0 <= i < pe.info.stakes@.len() ==> credited(
            pe.info.stakes@[i],
            #[trigger] qe.info.stakes@[i],
            r,
            t,
            table,
        )
}

/// Whether crediting some stake its share of `r` would exceed the machine
/// range of its accrued counter.
pub open spec fn spec_credit_overflows(c: NFTStakingContract, r: int) -> bool {
    let t = ledger_weight(c.stakers.entries@, c.nft_weights);
    exists|j: int, i: int|
        {
            &&& 0 <= j < c.stakers.entries@.len()
            &&& 0 <= i < c.stakers.entries@[j].info.stakes@.len()
            &&& (#[trigger] c.stakers.entries@[j].info.stakes@[i]).claimed_rewards + share(
                r,
                c.stakers.entries@[j].info.stakes@[i].spec_weight(c.nft_weights),
                t,
            ) > u128::MAX
        }
}

/// How the engine changes when `r` is distributed at time `now`: every
/// stake of every account is credited its proportional share against the
/// pre-state total weight in one atomic pass, the pool shrinks by exactly
/// `r`, and the distribution time is recorded.  The rounding residue stays
/// in the pool.
pub open spec fn spec_distributed(
    pre: NFTStakingContract,
    post: NFTStakingContract,
    r: int,
    now: u64,
) -> bool {
    let t = ledger_weight(pre.stakers.entries@, pre.nft_weights);
    &&& same_config(pre, post)
    &&& post.stakers.entries@.len() == pre.stakers.entries@.len()
    &&& forall|j: int|
        0 <= j < pre.stakers.entries@.len() ==> entry_credited(
            pre.stakers.entries@[j],
            #[trigger] post.stakers.entries@[j],
            r,
            t,
            pre.nft_weights,
        )
    &&& post.reward_pool == pre.reward_pool
    &&& post.last_distributed == now
    &&& post.reward_distribution.total_reward_pool == pre.reward_distribution.total_reward_pool
        - r
    &&& post.reward_distribution.last_distributed == pre.reward_distribution.last_distributed
    &&& post.reward_distribution.funding_records@ == pre.reward_distribution.funding_records@
}

/// A credited record sequence accrues in total exactly the summed shares
/// of the pre-state weights.
proof fn lemma_stakes_credit_sum(
    pre: Seq<NFTStakingRecord>,
    post: Seq<NFTStakingRecord>,
    r: int,
    t: int,
    table: ItemWeightTable,
)
    requires
        pre.len() == post.len(),
        forall|i: int| 0 <= i < pre.len() ==> credited(pre[i], #[trigger] post[i], r, t, table),
    ensures
        accrued_of_stakes(post) == accrued_of_stakes(pre) + crate::rewards::sum_shares(
            r,
            weights_of_stakes(pre, table),
            t,
        ),
    decreases pre.len(),
{
    if pre.len() > 0 {
        assert(forall|i: int|
            0 <= i < pre.drop_last().len() ==> credited(
                pre.drop_last()[i],
                #[trigger] post.drop_last()[i],
                r,
                t,
                table,
            ));
        lemma_stakes_credit_sum(pre.drop_last(), post.drop_last(), r, t, table);
        assert(credited(pre.last(), post[pre.len() - 1], r, t, table));
        assert(weights_of_stakes(pre, table).drop_last() =~= weights_of_stakes(
            pre.drop_last(),
            table,
        ));
    }
}

/// An entry-credited ledger accrues in total exactly the summed shares of
/// all its stakes' weights.
proof fn lemma_ledger_credit_sum(
    pre: Seq<StakerEntry>,
    post: Seq<StakerEntry>,
    r: int,
    t: int,
    table: ItemWeightTable,
)
    requires
        pre.len() == post.len(),
        forall|j: int|
            0 <= j < pre.len() ==> entry_credited(pre[j], #[trigger] post[j], r, t, table),
    ensures
        total_accrued(post) == total_accrued(pre) + crate::rewards::sum_shares(
            r,
            ledger_stake_weights(pre, table),
            t,
        ),
    decreases pre.len(),
{
    if pre.len() > 0 {
        assert(forall|j: int|
            0 <= j < pre.drop_last().len() ==> entry_credited(
                pre.drop_last()[j],
                #[trigger] post.drop_last()[j],
                r,
                t,
                table,
            ));
        lemma_ledger_credit_sum(pre.drop_last(), post.drop_last(), r, t, table);
        assert(entry_credited(pre.last(), post[pre.len() - 1], r, t, table));
        lemma_stakes_credit_sum(
            pre.last().info.stakes@,
            post[pre.len() - 1].info.stakes@,
            r,
            t,
            table,
        );
        crate::rewards::lemma_sum_shares_concat(
            r,
            ledger_stake_weights(pre.drop_last(), table),
            weights_of_stakes(pre.last().info.stakes@, table),
            t,
        );
    }
}

/// Conservation of the distribution operation itself: across any
/// distribution of `amount`, the ledger's total accrued reward rises by
/// the summed shares — never by more than `amount`, and by so much that
/// what rounding withholds stays strictly below the pre-state total
/// weight.  Together with the pool decrement that `spec_distributed`
/// states, the withheld residue provably remains in the pool.
pub proof fn lemma_distributed_conservation(
    pre: NFTStakingContract,
    post: NFTStakingContract,
    amount: u128,
    now: u64,
)
    requires
        ledger_weight(pre.stakers.entries@, pre.nft_weights) > 0,
        spec_distributed(pre, post, amount as int, now),
    ensures
        ({
            let credited_total = total_accrued(post.stakers.entries@) - total_accrued(
                pre.stakers.entries@,
            );
            &&& 0 <= credited_total <= amount
            &&& amount - credited_total < ledger_weight(pre.stakers.entries@, pre.nft_weights)
        }),
{
    let t = ledger_weight(pre.stakers.entries@, pre.nft_weights);
    lemma_ledger_credit_sum(
        pre.stakers.entries@,
        post.stakers.entries@,
        amount as int,
        t,
        pre.nft_weights,
    );
    crate::ledger::lemma_ledger_distribution_conservation(
        pre.stakers.entries@,
        pre.nft_weights,
        amount as int,
    );
}

/// The staking engine: configuration, the stake ledger, and the reward
/// pool.  All operations take the caller identity and the current time as
/// plain values and return any external transfer to perform as a value; the
/// ledger mutation always commits before such a transfer is handed out, so
/// no accrued amount can ever be paid twice.
#[derive(Debug)]
pub struct NFTStakingContract {
    pub owner: String,
    pub sin_token: String,
    pub sin_nft_contract: String,
    pub stakers: StakeLedger,
    pub reward_pool: u128,
    pub last_distributed: u64,
    pub reward_distribution: RewardDistribution,
    pub nft_weights: ItemWeightTable,
}

/// The immutable configuration is untouched.
pub open spec fn same_config(pre: NFTStakingContract, post: NFTStakingContract) -> bool {
    &&& post.owner == pre.owner
    &&& post.sin_token == pre.sin_token
    &&& post.sin_nft_contract == pre.sin_nft_contract
    &&& post.nft_weights == pre.nft_weights
}

/// Everything but the stake ledger is untouched.
pub open spec fn same_but_ledger(pre: NFTStakingContract, post: NFTStakingContract) -> bool {
    &&& same_config(pre, post)
    &&& post.reward_pool == pre.reward_pool
    &&& post.last_distributed == pre.last_distributed
    &&& post.reward_distribution.total_reward_pool == pre.reward_distribution.total_reward_pool
    &&& post.reward_distribution.last_distributed == pre.reward_distribution.last_distributed
    &&& post.reward_distribution.funding_records@ == pre.reward_distribution.funding_records@
}

impl NFTStakingContract {
    /// The ledger is well-formed, the weight table is within bounds, and
    /// the total outstanding weight fits the distribution arithmetic.
    pub open spec fn wf(self) -> bool {
        &&& self.stakers.wf()
        &&& self.nft_weights.wf()
        &&& ledger_weight(self.stakers.entries@, self.nft_weights) <= u64::MAX as int
    }

    /// Creates the engine with an empty ledger, an empty pool, and the
    /// standard weight schedule.
    pub fn new(owner: String, sin_token: String, sin_nft_contract: String, now: u64) -> (c:
        NFTStakingContract)
        ensures
            c.wf(),
            c.owner == owner,
            c.sin_token == sin_token,
            c.sin_nft_contract == sin_nft_contract,
            c.stakers.entries@.len() == 0,
            c.reward_pool == 0,
            c.last_distributed == now,
            c.reward_distribution.total_reward_pool == 0,
            c.reward_distribution.last_distributed == now,
            c.reward_distribution.funding_records@.len() == 0,
            c.nft_weights == (ItemWeightTable { queen: 50u64, worker: 30u64, drone: 20u64 }),
    {
        Self::with_weights(owner, sin_token, sin_nft_contract, now, ItemWeightTable::standard())
    }

    /// Creates the engine with an explicit weight schedule.
    ///
    /// The schedule is immutable configuration: a caller wanting another
    /// one constructs a new engine.
    pub fn with_weights(
        owner: String,
        sin_token: String,
        sin_nft_contract: String,
        now: u64,
        nft_weights: ItemWeightTable,
    ) -> (c: NFTStakingContract)
        requires
            nft_weights.wf(),
        ensures
            c.wf(),
            c.owner == owner,
            c.sin_token == sin_token,
            c.sin_nft_contract == sin_nft_contract,
            c.stakers.entries@.len() == 0,
            c.reward_pool == 0,
            c.last_distributed == now,
            c.reward_distribution.total_reward_pool == 0,
            c.reward_distribution.last_distributed == now,
            c.reward_distribution.funding_records@.len() == 0,
            c.nft_weights == nft_weights,
    {
        NFTStakingContract {
            owner,
            sin_token,
            sin_nft_contract,
            stakers: StakeLedger::new(),
            reward_pool: 0,
            last_distributed: now,
            reward_distribution: RewardDistribution {
                total_reward_pool: 0,
                last_distributed: now,
                funding_records: Vec::new(),
            },
            nft_weights,
        }
    }

    /// Accepts a funding deposit into the reward pool.
    ///
    /// Only the designated owner may fund, only through the designated
    /// token ledger, and only with a positive amount; the deposit is
    /// rejected rather than allowed to overflow the pool.  On success the
    /// whole amount is accepted (zero is returned to refund) and the event
    /// is appended to the funding history.
    pub fn ft_on_transfer(
        &mut self,
        sender_id: &String,
        predecessor_id: &String,
        amount: u128,
        now: u64,
    ) -> (r: Result<u128, StakingError>)
        requires
            old(self).wf(),
        ensures
            final(self).wf(),
            r == Err::<u128, StakingError>(StakingError::Unauthorized) <==> (sender_id@ != old(
                self,
            ).owner@ || predecessor_id@ != old(self).sin_token@),
            r == Err::<u128, StakingError>(StakingError::InvalidInput) <==> (sender_id@ == old(
                self,
            ).owner@ && predecessor_id@ == old(self).sin_token@ && amount == 0),
            r == Err::<u128, StakingError>(StakingError::AmountOverflow) <==> (sender_id@ == old(
                self,
            ).owner@ && predecessor_id@ == old(self).sin_token@ && amount > 0 && old(
                self,
            ).reward_distribution.total_reward_pool + amount > u128::MAX),
            r is Err ==> (r->Err_0 == StakingError::Unauthorized || r->Err_0
                == StakingError::InvalidInput || r->Err_0 == StakingError::AmountOverflow),
            r is Ok <==> (sender_id@ == old(self).owner@ && predecessor_id@ == old(
                self,
            ).sin_token@ && amount > 0 && old(self).reward_distribution.total_reward_pool + amount
                <= u128::MAX),
            r is Err ==> *final(self) == *old(self),
            r is Ok ==> {
                &&& r->Ok_0 == 0u128
                &&& same_config(*old(self), *final(self))
                &&& final(self).stakers == old(self).stakers
                &&& final(self).reward_pool == old(self).reward_pool
                &&& final(self).last_distributed == old(self).last_distributed
                &&& final(self).reward_distribution.total_reward_pool == old(
                    self,
                ).reward_distribution.total_reward_pool + amount
                &&& final(self).reward_distribution.last_distributed == old(
                    self,
                ).reward_distribution.last_distributed
                &&& final(self).reward_distribution.funding_records@ == old(
                    self,
                ).reward_distribution.funding_records@.push(
                    FundingRecord { amount, timestamp: now },
                )
            },
    {
        if !str_eq(sender_id.as_str(), self.owner.as_str()) {
            return Err(StakingError::Unauthorized);
        }
        if !str_eq(predecessor_id.as_str(), self.sin_token.as_str()) {
            return Err(StakingError::Unauthorized);
        }
        if amount == 0 {
            return Err(StakingError::InvalidInput);
        }
        if amount > u128::MAX - self.reward_distribution.total_reward_pool {
            return Err(StakingError::AmountOverflow);
        }
        self.reward_distribution.total_reward_pool =
            self.reward_distribution.total_reward_pool + amount;
        self.reward_distribution.funding_records.push(FundingRecord { amount, timestamp: now });
        Ok(0)
    }

    /// Begins a stake attempt for one transferred item.
    ///
    /// Only transfers arriving from the designated item registry are
    /// accepted.  Nothing is recorded yet: the returned continuation must
    /// be resumed with the registry's description of the item, and only a
    /// reply passing the ownership gate appends a stake.
    pub fn nft_on_transfer(
        &self,
        sender_id: &String,
        predecessor_id: &String,
        token_id: String,
        now: u64,
    ) -> (r: Result<PendingStake, StakingError>)
        ensures
            r is Err <==> predecessor_id@ != self.sin_nft_contract@,
            r is Err ==> r->Err_0 == StakingError::Unauthorized,
            r is Ok ==> r->Ok_0 == (PendingStake {
                staker_id: *sender_id,
                nft_id: token_id,
                start_timestamp: now,
            }),
    {
        if !str_eq(predecessor_id.as_str(), self.sin_nft_contract.as_str()) {
            return Err(StakingError::Unauthorized);
        }
        Ok(PendingStake { staker_id: sender_id.clone(), nft_id: token_id, start_timestamp: now })
    }

    /// Classifies an item from its metadata document.
    ///
    /// The returned label is always one of the three type names; which one
    /// is decided by the extracted attribute list exactly as
    /// `spec_classify` states it.
    pub fn classify_nft_type(meta: &serde_json::Value) -> (s: String)
        ensures
            s@ == spec_type_label(ItemType::Queen) || s@ == spec_type_label(ItemType::Worker)
                || s@ == spec_type_label(ItemType::Drone),
    {
        let attrs = extract_attributes(meta);
        type_label(classify_attributes(&attrs))
    }

    /// Resumes a stake attempt with the registry's reply.
    ///
    /// Exactly one item description is expected: zero or several abort the
    /// attempt.  The reported owner must be the requesting staker — an item
    /// cannot be staked by anyone else, whatever item id was claimed.  Only
    /// then is the metadata decoded (a malformed document aborts), the item
    /// classified, and the stake appended with the intended start time and
    /// the fixed one-month lockup; a stake whose weight would overflow the
    /// ledger's total is rejected.  Every failure leaves the engine
    /// untouched: the attempt is fatal only to itself.
    pub fn on_describe_item(&mut self, pending: PendingStake, replies: &Vec<ItemInfo>) -> (r:
        Result<(), StakingError>)
        requires
            old(self).wf(),
        ensures
            final(self).wf(),
            r is Err ==> (r->Err_0 == StakingError::ExternalCallFailed || r->Err_0
                == StakingError::OwnershipMismatch || r->Err_0 == StakingError::AmountOverflow),
            r == Err::<(), StakingError>(StakingError::ExternalCallFailed) <==> (replies@.len()
                != 1 || (replies@[0].owner_id@ == pending.staker_id@ && !crate::metadata::json_parses(
                replies@[0].metadata@,
            ))),
            r == Err::<(), StakingError>(StakingError::OwnershipMismatch) <==> (replies@.len()
                == 1 && replies@[0].owner_id@ != pending.staker_id@),
            replies@.len() == 1 && replies@[0].owner_id@ == pending.staker_id@
                && crate::metadata::json_parses(replies@[0].metadata@) && ledger_weight(
                old(self).stakers.entries@,
                old(self).nft_weights,
            ) + old(self).nft_weights.spec_max_weight() <= u64::MAX ==> r is Ok,
            r is Err ==> *final(self) == *old(self),
            r is Ok ==> {
                &&& replies@.len() == 1
                &&& replies@[0].owner_id@ == pending.staker_id@
                &&& same_but_ledger(*old(self), *final(self))
                &&& exists|rec: NFTStakingRecord|
                    {
                        &&& #[trigger] spec_opened(
                            old(self).stakers,
                            final(self).stakers,
                            pending.staker_id,
                            rec,
                        )
                        &&& rec.nft_ids@.len() == 1
                        &&& rec.nft_ids@[0] == pending.nft_id
                        &&& rec.nft_types@.len() == 1
                        &&& rec.start_timestamp == pending.start_timestamp
                        &&& rec.lockup_period == MONTH
                        &&& rec.claimed_rewards == 0
                    }
            },
    {
        if replies.len() != 1 {
            return Err(StakingError::ExternalCallFailed);
        }
        let info = &replies[0];
        if !str_eq(info.owner_id.as_str(), pending.staker_id.as_str()) {
            return Err(StakingError::OwnershipMismatch);
        }
        let meta = match parse_json(info.metadata.as_str()) {
            Ok(v) => v,
            Err(_) => { return Err(StakingError::ExternalCallFailed) },
        };
        let attrs = extract_attributes(&meta);
        let t = classify_attributes(&attrs);
        let w: u64 = self.nft_weights.weight_of(t);
        let total: u64 = self.stakers.total_weight(&self.nft_weights);
        if w > u64::MAX - total {
            proof {
                // A single item's weight never exceeds the table's largest,
                // so overflowing here falsifies the owed-success premise.
                assert(self.nft_weights.spec_weight_of(t) <= self.nft_weights.spec_max_weight());
            }
            return Err(StakingError::AmountOverflow);
        }
        let mut ids: Vec<String> = Vec::new();
        ids.push(pending.nft_id);
        let mut types: Vec<ItemType> = Vec::new();
        types.push(t);
        let ghost rec = (NFTStakingRecord {
            nft_ids: ids,
            nft_types: types,
            start_timestamp: pending.start_timestamp,
            lockup_period: MONTH,
            claimed_rewards: 0,
        });
        let ghost pre = self.stakers;
        let ghost table = self.nft_weights;
        self.stakers.open_stake(&pending.staker_id, ids, types, pending.start_timestamp, MONTH);
        proof {
            // The new record weighs exactly the classified type's weight.
            assert(rec.nft_types@.len() == 1);
            assert(rec.nft_types@.last() == t);
            assert(rec.nft_types@.drop_last() =~= Seq::<ItemType>::empty());
            assert(types_weight(Seq::<ItemType>::empty(), table) == 0);
            assert(types_weight(rec.nft_types@, table) == table.spec_weight_of(t));
            lemma_total_weight_after_open(pre, self.stakers, pending.staker_id, rec, table);
        }
        Ok(())
    }

    /// Distributes `amount` proportionally over every outstanding stake.
    ///
    /// Only the designated owner may distribute, at most what the pool
    /// holds, and only while some stake carries weight.  Each stake is
    /// credited `floor(amount * weight / total_weight)` against a single
    /// consistent snapshot of the weights: all credits are computed first
    /// and committed together, so no partial distribution is ever
    /// observable — a credit that would overflow a stake's counter rejects
    /// the whole pass before anything moves.  The pool shrinks by the full
    /// `amount`; what rounding withholds (provably less than the total
    /// weight) stays in the pool.
    #[verifier::loop_isolation(false)]
    pub fn distribute_rewards(&mut self, predecessor_id: &String, amount: u128, now: u64) -> (r:
        Result<(), StakingError>)
        requires
            old(self).wf(),
        ensures
            final(self).wf(),
            r == Err::<(), StakingError>(StakingError::Unauthorized) <==> predecessor_id@ != old(
                self,
            ).owner@,
            r == Err::<(), StakingError>(StakingError::InvalidInput) <==> predecessor_id@ == old(
                self,
            ).owner@ && amount > old(self).reward_distribution.total_reward_pool,
            r == Err::<(), StakingError>(StakingError::NothingToDistribute) <==> predecessor_id@
                == old(self).owner@ && amount <= old(self).reward_distribution.total_reward_pool
                && ledger_weight(old(self).stakers.entries@, old(self).nft_weights) == 0,
            r == Err::<(), StakingError>(StakingError::AmountOverflow) <==> predecessor_id@ == old(
                self,
            ).owner@ && amount <= old(self).reward_distribution.total_reward_pool && ledger_weight(
                old(self).stakers.entries@,
                old(self).nft_weights,
            ) > 0 && spec_credit_overflows(*old(self), amount as int),
            r is Err ==> (r->Err_0 == StakingError::Unauthorized || r->Err_0
                == StakingError::InvalidInput || r->Err_0 == StakingError::NothingToDistribute
                || r->Err_0 == StakingError::AmountOverflow),
            r is Ok <==> (predecessor_id@ == old(self).owner@ && amount <= old(
                self,
            ).reward_distribution.total_reward_pool && ledger_weight(
                old(self).stakers.entries@,
                old(self).nft_weights,
            ) > 0 && !spec_credit_overflows(*old(self), amount as int)),
            r is Err ==> *final(self) == *old(self),
            r is Ok ==> spec_distributed(*old(self), *final(self), amount as int, now),
    {
        if !str_eq(predecessor_id.as_str(), self.owner.as_str()) {
            return Err(StakingError::Unauthorized);
        }
        if amount > self.reward_distribution.total_reward_pool {
            return Err(StakingError::InvalidInput);
        }
        let total: u64 = self.stakers.total_weight(&self.nft_weights);
        if total == 0 {
            proof {
                crate::ledger::lemma_ledger_weight_nonneg(self.stakers.entries@, self.nft_weights);
            }
            return Err(StakingError::NothingToDistribute);
        }
        let mut new_entries: Vec<StakerEntry> = Vec::new();
        let mut j: usize = 0;
        while j < self.stakers.entries.len()
            invariant
                0 <= j <= self.stakers.entries@.len(),
                new_entries@.len() == j,
                forall|k: int|
                    0 <= k < j ==> entry_credited(
                        self.stakers.entries@[k],
                        #[trigger] new_entries@[k],
                        amount as int,
                        total as int,
                        self.nft_weights,
                    ),
            decreases self.stakers.entries@.len() - j,
        {
            let entry = &self.stakers.entries[j];
            let mut new_stakes: Vec<NFTStakingRecord> = Vec::new();
            let mut i: usize = 0;
            while i < entry.info.stakes.len()
                invariant
                    0 <= i <= entry.info.stakes@.len(),
                    new_stakes@.len() == i,
                    forall|k: int|
                        0 <= k < i ==> credited(
                            entry.info.stakes@[k],
                            #[trigger] new_stakes@[k],
                            amount as int,
                            total as int,
                            self.nft_weights,
                        ),
                decreases entry.info.stakes@.len() - i,
            {
                let rec = &entry.info.stakes[i];
                proof {
                    lemma_stake_le_stakes(entry.info.stakes@, i as int, self.nft_weights);
                    lemma_stakes_le_ledger(self.stakers.entries@, j as int, self.nft_weights);
                    lemma_types_weight_nonneg(rec.nft_types@, self.nft_weights);
                }
                let w128: u128 = record_weight(rec, &self.nft_weights);
                let w: u64 = w128 as u64;
                let s: u128 = compute_share(amount, w, total);
                if s > u128::MAX - rec.claimed_rewards {
                    proof {
                        assert(self.stakers.entries@[j as int].info.stakes@[
                            i as int
                        ].claimed_rewards + share(
                            amount as int,
                            self.stakers.entries@[j as int].info.stakes@[i as int].spec_weight(
                                self.nft_weights,
                            ),
                            ledger_weight(self.stakers.entries@, self.nft_weights),
                        ) > u128::MAX);
                    }
                    return Err(StakingError::AmountOverflow);
                }
                let new_ids = rec.nft_ids.clone();
                let new_types = rec.nft_types.clone();
                proof {
                    assert(new_ids@ =~= rec.nft_ids@);
                    assert(new_types@ =~= rec.nft_types@);
                }
                new_stakes.push(
                    NFTStakingRecord {
                        nft_ids: new_ids,
                        nft_types: new_types,
                        start_timestamp: rec.start_timestamp,
                        lockup_period: rec.lockup_period,
                        claimed_rewards: rec.claimed_rewards + s,
                    },
                );
                i = i + 1;
            }
            new_entries.push(
                StakerEntry {
                    account_id: entry.account_id.clone(),
                    info: StakerInfo {
                        stakes: new_stakes,
                        total_rewards_claimed: entry.info.total_rewards_claimed,
                    },
                },
            );
            j = j + 1;
        }
        proof {
            let table = self.nft_weights;
            let pre_entries = self.stakers.entries@;
            let r_int = amount as int;
            let t_int = total as int;
            // No credit overflowed: every new accrued amount is a machine
            // integer already.
            assert(!spec_credit_overflows(*self, r_int)) by {
                if spec_credit_overflows(*self, r_int) {
                    let (jw, iw) = choose|jw: int, iw: int|
                        {
                            &&& 0 <= jw < pre_entries.len()
                            &&& 0 <= iw < pre_entries[jw].info.stakes@.len()
                            &&& (#[trigger] pre_entries[jw].info.stakes@[iw]).claimed_rewards
                                + share(
                                r_int,
                                pre_entries[jw].info.stakes@[iw].spec_weight(table),
                                t_int,
                            ) > u128::MAX
                        };
                    assert(entry_credited(
                        pre_entries[jw],
                        new_entries@[jw],
                        r_int,
                        t_int,
                        table,
                    ));
                    assert(credited(
                        pre_entries[jw].info.stakes@[iw],
                        new_entries@[jw].info.stakes@[iw],
                        r_int,
                        t_int,
                        table,
                    ));
                }
            }
            // The rebuilt ledger weighs the same, keeps identities unique,
            // and keeps every record well-formed.
            assert forall|k: int| 0 <= k < pre_entries.len() implies stakes_weight(
                new_entries@[k].info.stakes@,
                table,
            ) == stakes_weight(pre_entries[k].info.stakes@, table) by {
                lemma_stakes_weight_congruent(
                    new_entries@[k].info.stakes@,
                    pre_entries[k].info.stakes@,
                    table,
                );
            }
            lemma_ledger_weight_congruent(new_entries@, pre_entries, table);
        }
        self.stakers.entries = new_entries;
        self.reward_distribution.total_reward_pool = self.reward_distribution.total_reward_pool
            - amount;
        self.last_distributed = now;
        Ok(())
    }

    /// Pays out a stake's accrued reward, exactly once per accrual.
    ///
    /// A stake with nothing accrued cannot be claimed, so two claims in a
    /// row without an intervening distribution pay at most once.  The
    /// ledger mutation — accrual reset to zero, lifetime total raised —
    /// commits before the returned transfer is handed to the caller to
    /// perform: even if the external transfer's outcome is never observed,
    /// the same accrued amount can never be paid again.
    pub fn claim_reward(&mut self, predecessor_id: &String, stake_index: usize) -> (r: Result<
        TokenTransfer,
        StakingError,
    >)
        requires
            old(self).wf(),
        ensures
            final(self).wf(),
            r == Err::<TokenTransfer, StakingError>(StakingError::NotFound) <==> !old(
                self,
            ).stakers.spec_has(predecessor_id@),
            r == Err::<TokenTransfer, StakingError>(StakingError::IndexOutOfRange) <==> old(
                self,
            ).stakers.spec_has(predecessor_id@) && stake_index >= old(self).stakers.spec_stakes(
                predecessor_id@,
            ).len(),
            r == Err::<TokenTransfer, StakingError>(StakingError::NothingToClaim) <==> old(
                self,
            ).stakers.spec_has(predecessor_id@) && stake_index < old(self).stakers.spec_stakes(
                predecessor_id@,
            ).len() && old(self).stakers.spec_stakes(
                predecessor_id@,
            )[stake_index as int].claimed_rewards == 0,
            r == Err::<TokenTransfer, StakingError>(StakingError::AmountOverflow) <==> old(
                self,
            ).stakers.spec_has(predecessor_id@) && stake_index < old(self).stakers.spec_stakes(
                predecessor_id@,
            ).len() && old(self).stakers.spec_stakes(
                predecessor_id@,
            )[stake_index as int].claimed_rewards > 0 && old(self).stakers.spec_account(
                predecessor_id@,
            ).total_rewards_claimed + old(self).stakers.spec_stakes(
                predecessor_id@,
            )[stake_index as int].claimed_rewards > u128::MAX,
            r is Err ==> (r->Err_0 == StakingError::NotFound || r->Err_0
                == StakingError::IndexOutOfRange || r->Err_0 == StakingError::NothingToClaim
                || r->Err_0 == StakingError::AmountOverflow),
            r is Ok <==> (old(self).stakers.spec_has(predecessor_id@) && stake_index < old(
                self,
            ).stakers.spec_stakes(predecessor_id@).len() && old(self).stakers.spec_stakes(
                predecessor_id@,
            )[stake_index as int].claimed_rewards > 0 && old(self).stakers.spec_account(
                predecessor_id@,
            ).total_rewards_claimed + old(self).stakers.spec_stakes(
                predecessor_id@,
            )[stake_index as int].claimed_rewards <= u128::MAX),
            r is Err ==> *final(self) == *old(self),
            r is Ok ==> {
                &&& same_but_ledger(*old(self), *final(self))
                &&& crate::ledger::spec_claimed(
                    old(self).stakers,
                    final(self).stakers,
                    predecessor_id@,
                    stake_index as int,
                    r->Ok_0.amount,
                )
                &&& r->Ok_0.token == old(self).sin_token
                &&& r->Ok_0.receiver_id == *predecessor_id
                &&& r->Ok_0.amount > 0
            },
    {
        let j = match self.stakers.find_account(predecessor_id.as_str()) {
            None => { return Err(StakingError::NotFound) },
            Some(j) => j,
        };
        if stake_index >= self.stakers.entries[j].info.stakes.len() {
            return Err(StakingError::IndexOutOfRange);
        }
        let amt = self.stakers.entries[j].info.stakes[stake_index].claimed_rewards;
        if amt == 0 {
            return Err(StakingError::NothingToClaim);
        }
        if amt > u128::MAX - self.stakers.entries[j].info.total_rewards_claimed {
            return Err(StakingError::AmountOverflow);
        }
        let ghost pre = self.stakers;
        let ghost table = self.nft_weights;
        let mut entry = self.stakers.entries.remove(j);
        let mut rec = entry.info.stakes.remove(stake_index);
        rec.claimed_rewards = 0;
        entry.info.stakes.insert(stake_index, rec);
        entry.info.total_rewards_claimed = entry.info.total_rewards_claimed + amt;
        self.stakers.entries.insert(j, entry);
        proof {
            let stakes = pre.entries@[j as int].info.stakes@;
            assert(self.stakers.entries@[j as int].info.stakes@ =~= stakes.update(
                stake_index as int,
                (NFTStakingRecord { claimed_rewards: 0, ..stakes[stake_index as int] }),
            ));
            assert(self.stakers.entries@ =~= pre.entries@.update(
                j as int,
                self.stakers.entries@[j as int],
            ));
            // The reset stake keeps its items, so every weight is unchanged.
            lemma_stakes_weight_update(
                stakes,
                stake_index as int,
                self.stakers.entries@[j as int].info.stakes@[stake_index as int],
                table,
            );
            lemma_ledger_weight_update(
                pre.entries@,
                j as int,
                self.stakers.entries@[j as int],
                table,
            );
        }
        Ok(
            TokenTransfer {
                token: self.sin_token.clone(),
                receiver_id: predecessor_id.clone(),
                amount: amt,
            },
        )
    }

    /// Withdraws a stake's items once its lockup has elapsed.
    ///
    /// Before `start_timestamp + lockup_period` the request fails with an
    /// active lockup, at or after that time it succeeds: the stake is
    /// removed — swapping the last record into its index, so indices are
    /// unstable across removals — and the items are handed back as a batch
    /// transfer for the caller to perform.  Any accrued reward still on the
    /// stake is forfeited with it.  The removal commits before the transfer
    /// is handed out.
    pub fn unstake_nfts(&mut self, predecessor_id: &String, stake_index: usize, now: u64) -> (r:
        Result<NftBatchTransfer, StakingError>)
        requires
            old(self).wf(),
        ensures
            final(self).wf(),
            r == Err::<NftBatchTransfer, StakingError>(StakingError::NotFound) <==> !old(
                self,
            ).stakers.spec_has(predecessor_id@),
            r == Err::<NftBatchTransfer, StakingError>(StakingError::IndexOutOfRange) <==> old(
                self,
            ).stakers.spec_has(predecessor_id@) && stake_index >= old(self).stakers.spec_stakes(
                predecessor_id@,
            ).len(),
            r == Err::<NftBatchTransfer, StakingError>(StakingError::LockupActive) <==> old(
                self,
            ).stakers.spec_has(predecessor_id@) && stake_index < old(self).stakers.spec_stakes(
                predecessor_id@,
            ).len() && (now as int) < old(self).stakers.spec_stakes(
                predecessor_id@,
            )[stake_index as int].start_timestamp + old(self).stakers.spec_stakes(
                predecessor_id@,
            )[stake_index as int].lockup_period,
            r is Err ==> (r->Err_0 == StakingError::NotFound || r->Err_0
                == StakingError::IndexOutOfRange || r->Err_0 == StakingError::LockupActive),
            r is Ok <==> (old(self).stakers.spec_has(predecessor_id@) && stake_index < old(
                self,
            ).stakers.spec_stakes(predecessor_id@).len() && (now as int) >= old(
                self,
            ).stakers.spec_stakes(predecessor_id@)[stake_index as int].start_timestamp + old(
                self,
            ).stakers.spec_stakes(predecessor_id@)[stake_index as int].lockup_period),
            r is Err ==> *final(self) == *old(self),
            r is Ok ==> {
                &&& (now as int) >= old(self).stakers.spec_stakes(
                    predecessor_id@,
                )[stake_index as int].start_timestamp + old(self).stakers.spec_stakes(
                    predecessor_id@,
                )[stake_index as int].lockup_period
                &&& same_but_ledger(*old(self), *final(self))
                &&& spec_removed(
                    old(self).stakers,
                    final(self).stakers,
                    predecessor_id@,
                    stake_index as int,
                )
                &&& r->Ok_0.nft_contract == old(self).sin_nft_contract
                &&& r->Ok_0.receiver_id == *predecessor_id
                &&& r->Ok_0.nft_ids == old(self).stakers.spec_stakes(
                    predecessor_id@,
                )[stake_index as int].nft_ids
            },
    {
        let j = match self.stakers.find_account(predecessor_id.as_str()) {
            None => { return Err(StakingError::NotFound) },
            Some(j) => j,
        };
        if stake_index >= self.stakers.entries[j].info.stakes.len() {
            return Err(StakingError::IndexOutOfRange);
        }
        let start = self.stakers.entries[j].info.stakes[stake_index].start_timestamp;
        let lockup = self.stakers.entries[j].info.stakes[stake_index].lockup_period;
        if (now as u128) < start as u128 + lockup as u128 {
            return Err(StakingError::LockupActive);
        }
        let ghost pre = self.stakers;
        let ghost table = self.nft_weights;
        let rec = self.stakers.remove_stake(predecessor_id.as_str(), stake_index);
        proof {
            let j_idx = pre.spec_idx(predecessor_id@);
            let stakes = pre.entries@[j_idx].info.stakes@;
            assert(self.stakers.entries@ =~= pre.entries@.update(
                j_idx,
                self.stakers.entries@[j_idx],
            ));
            crate::ledger::lemma_stakes_weight_swap_removed(stakes, stake_index as int, table);
            lemma_ledger_weight_update(pre.entries@, j_idx, self.stakers.entries@[j_idx], table);
            lemma_types_weight_nonneg(stakes[stake_index as int].nft_types@, table);
        }
        Ok(
            NftBatchTransfer {
                nft_contract: self.sin_nft_contract.clone(),
                receiver_id: predecessor_id.clone(),
                nft_ids: rec.nft_ids,
            },
        )
    }

    /// Per-stake summaries of one staker's holdings: item ids, the count
    /// of each classified type, start time, lockup, and unclaimed reward.
    /// A staker without an account has no stakes to report.
    #[verifier::loop_isolation(false)]
    pub fn get_staking_info(&self, staker_id: &String) -> (v: Vec<StakeSummary>)
        requires
            self.wf(),
        ensures
            !self.stakers.spec_has(staker_id@) ==> v@.len() == 0,
            self.stakers.spec_has(staker_id@) ==> {
                &&& v@.len() == self.stakers.spec_stakes(staker_id@).len()
                &&& forall|i: int|
                    0 <= i < v@.len() ==> summarizes(
                        #[trigger] v@[i],
                        self.stakers.spec_stakes(staker_id@)[i],
                    )
            },
    {
        let mut v: Vec<StakeSummary> = Vec::new();
        let j = match self.stakers.find_account(staker_id.as_str()) {
            None => { return v },
            Some(j) => j,
        };
        let stakes = &self.stakers.entries[j].info.stakes;
        let mut i: usize = 0;
        while i < stakes.len()
            invariant
                0 <= i <= stakes@.len(),
                v@.len() == i,
                forall|k: int| 0 <= k < i ==> summarizes(#[trigger] v@[k], stakes@[k]),
            decreases stakes@.len() - i,
        {
            let rec = &stakes[i];
            let ids = rec.nft_ids.clone();
            proof {
                assert(ids@ =~= rec.nft_ids@);
            }
            v.push(
                StakeSummary {
                    nft_ids: ids,
                    queen: count_types_of(&rec.nft_types, ItemType::Queen),
                    worker: count_types_of(&rec.nft_types, ItemType::Worker),
                    drone: count_types_of(&rec.nft_types, ItemType::Drone),
                    start_timestamp: rec.start_timestamp,
                    lockup_period: rec.lockup_period,
                    claimed_rewards: rec.claimed_rewards,
                },
            );
            i = i + 1;
        }
        v
    }

    /// The time of the most recent reward distribution.
    pub fn get_last_reward_distribution(&self) -> (t: u64)
        ensures
            t == self.last_distributed,
    {
        self.last_distributed
    }

    /// The balance still available for distribution.
    pub fn get_available_reward(&self) -> (b: u128)
        ensures
            b == self.reward_distribution.total_reward_pool,
    {
        self.reward_distribution.total_reward_pool
    }

    /// The funding history, oldest first.
    pub fn get_funding_details(&self) -> (v: Vec<FundingRecord>)
        ensures
            v@ == self.reward_distribution.funding_records@,
    {
        let r = self.reward_distribution.funding_records.clone();
        proof {
            assert(r@ =~= self.reward_distribution.funding_records@);
        }
        r
    }

    /// Whole days until one month will have passed since the last
    /// distribution; zero once the month is over.
    pub fn get_next_reward_distribution(&self, now: u64) -> (days: u64)
        ensures
            self.last_distributed + MONTH > now ==> days == (self.last_distributed + MONTH
                - now) as int / DAY as int,
            self.last_distributed + MONTH <= now ==> days == 0,
    {
        let next: u128 = self.last_distributed as u128 + MONTH as u128;
        if next > now as u128 {
            let remaining: u128 = next - now as u128;
            let days_wide: u128 = remaining / (DAY as u128);
            proof {
                assert((remaining as int) < 86400 * (u64::MAX as int)) by (nonlinear_arith)
                    requires
                        remaining as int <= u64::MAX as int + MONTH as int,
                ;
                vstd::arithmetic::div_mod::lemma_multiply_divide_lt(
                    remaining as int,
                    86400,
                    u64::MAX as int,
                );
            }
            days_wide as u64
        } else {
            0
        }
    }
}

} // verus!
