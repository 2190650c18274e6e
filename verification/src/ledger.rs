use vstd::prelude::*;
use crate::classify::{ItemType, ItemWeightTable};
use crate::errors::StakingError;
use crate::text::str_eq;

verus! {

/// One bundle of items locked together: they share a start time and a
/// lockup duration, and accrue reward as a unit.
///
/// `nft_ids` and `nft_types` run in parallel: `nft_types[i]` is the
/// classified type of the item `nft_ids[i]`.  `nft_ids`, `start_timestamp`
/// and `lockup_period` never change after creation; only `claimed_rewards`
/// (the accrued-but-unpaid amount) is mutated, by distribution and claims.
#[derive(Debug)]
pub struct NFTStakingRecord {
    pub nft_ids: Vec<String>,
    pub nft_types: Vec<ItemType>,
    pub start_timestamp: u64,
    pub lockup_period: u64,
    pub claimed_rewards: u128,
}

impl NFTStakingRecord {
    /// A record holds at least one item, one classified type per item, and
    /// no item twice.
    pub open spec fn wf(self) -> bool {
        &&& self.nft_ids@.len() == self.nft_types@.len()
        &&& self.nft_ids@.len() >= 1
        &&& forall|i: int, j: int|
            0 <= i < j < self.nft_ids@.len() ==> self.nft_ids@[i]@ != self.nft_ids@[j]@
    }

    /// The record's reward weight: the summed weight of its item types.
    pub open spec fn spec_weight(self, table: ItemWeightTable) -> int {
        types_weight(self.nft_types@, table)
    }
}

/// The summed weight of a sequence of item types.
pub open spec fn types_weight(ts: Seq<ItemType>, table: ItemWeightTable) -> int
    decreases ts.len(),
{
    if ts.len() == 0 {
        0
    } else {
        types_weight(ts.drop_last(), table) + table.spec_weight_of(ts.last())
    }
}

/// The summed weight of a sequence of stake records.
pub open spec fn stakes_weight(rs: Seq<NFTStakingRecord>, table: ItemWeightTable) -> int
    decreases rs.len(),
{
    if rs.len() == 0 {
        0
    } else {
        stakes_weight(rs.drop_last(), table) + rs.last().spec_weight(table)
    }
}

/// One staker's account: the ordered, index-addressed collection of that
/// staker's stake records and the lifetime total already paid out.
#[derive(Debug)]
pub struct StakerInfo {
    pub stakes: Vec<NFTStakingRecord>,
    pub total_rewards_claimed: u128,
}

/// A staker identity together with its account.
#[derive(Debug)]
pub struct StakerEntry {
    pub account_id: String,
    pub info: StakerInfo,
}

/// The summed weight of every stake of every entry.
pub open spec fn ledger_weight(es: Seq<StakerEntry>, table: ItemWeightTable) -> int
    decreases es.len(),
{
    if es.len() == 0 {
        0
    } else {
        ledger_weight(es.drop_last(), table) + stakes_weight(es.last().info.stakes@, table)
    }
}

/// The mapping from staker identity to account.
///
/// Entries are held in insertion order; identities are unique.  An account
/// is created lazily on first stake and never removed: one with no stakes
/// behaves as if absent.
#[derive(Debug)]
pub struct StakeLedger {
    pub entries: Vec<StakerEntry>,
}

impl StakeLedger {
    /// Identities are unique and every record is well-formed.
    pub open spec fn wf(self) -> bool {
        &&& forall|i: int, j: int|
            0 <= i < j < self.entries@.len()
                ==> self.entries@[i].account_id@ != self.entries@[j].account_id@
        &&& forall|i: int, k: int|
            0 <= i < self.entries@.len() && 0 <= k < self.entries@[i].info.stakes@.len()
                ==> (#[trigger] self.entries@[i].info.stakes@[k]).wf()
    }

    /// Whether an account exists for the given identity.
    pub open spec fn spec_has(self, id: Seq<char>) -> bool {
        exists|j: int| 0 <= j < self.entries@.len() && self.entries@[j].account_id@ == id
    }

    /// The index of the identity's account (meaningful when `spec_has`).
    pub open spec fn spec_idx(self, id: Seq<char>) -> int {
        choose|j: int| 0 <= j < self.entries@.len() && self.entries@[j].account_id@ == id
    }

    /// The identity's account (meaningful when `spec_has`).
    pub open spec fn spec_account(self, id: Seq<char>) -> StakerInfo {
        self.entries@[self.spec_idx(id)].info
    }

    /// The identity's stake records (meaningful when `spec_has`).
    pub open spec fn spec_stakes(self, id: Seq<char>) -> Seq<NFTStakingRecord> {
        self.spec_account(id).stakes@
    }

    /// An empty ledger.
    pub fn new() -> (l: StakeLedger)
        ensures
            l.entries@.len() == 0,
            l.wf(),
    {
        StakeLedger { entries: Vec::new() }
    }

    /// Finds the account index of a staker identity by a linear scan.
    pub fn find_account(&self, staker_id: &str) -> (r: Option<usize>)
        ensures
            match r {
                Some(j) => {
                    &&& j < self.entries@.len()
                    &&& self.entries@[j as int].account_id@ == staker_id@
                    &&& forall|k: int| 0 <= k < j ==> self.entries@[k].account_id@ != staker_id@
                    &&& self.spec_has(staker_id@)
                    &&& self.wf() ==> j == self.spec_idx(staker_id@)
                },
                None => !self.spec_has(staker_id@),
            },
    {
        let mut j: usize = 0;
        while j < self.entries.len()
            invariant
                0 <= j <= self.entries@.len(),
                forall|k: int| 0 <= k < j ==> self.entries@[k].account_id@ != staker_id@,
            decreases self.entries@.len() - j,
        {
            if str_eq(self.entries[j].account_id.as_str(), staker_id) {
                proof {
                    if self.wf() {
                        let w = self.spec_idx(staker_id@);
                        assert(0 <= w < self.entries@.len()
                            && self.entries@[w].account_id@ == staker_id@);
                    }
                }
                return Some(j);
            }
            j = j + 1;
        }
        None
    }
}

/// How a ledger changes when a stake record `rec` is appended for `staker`:
/// either the existing account gains one record at the end of its stakes, or
/// a fresh account holding exactly that record is appended to the ledger.
/// Everything else is untouched.
pub open spec fn spec_opened(
    pre: StakeLedger,
    post: StakeLedger,
    staker: String,
    rec: NFTStakingRecord,
) -> bool {
    if pre.spec_has(staker@) {
        let j = pre.spec_idx(staker@);
        &&& post.entries@.len() == pre.entries@.len()
        &&& forall|k: int|
            0 <= k < pre.entries@.len() && k != j ==> post.entries@[k] == pre.entries@[k]
        &&& post.entries@[j].account_id == pre.entries@[j].account_id
        &&& post.entries@[j].info.total_rewards_claimed
            == pre.entries@[j].info.total_rewards_claimed
        &&& post.entries@[j].info.stakes@ == pre.entries@[j].info.stakes@.push(rec)
    } else {
        &&& post.entries@.len() == pre.entries@.len() + 1
        &&& forall|k: int| 0 <= k < pre.entries@.len() ==> post.entries@[k] == pre.entries@[k]
        &&& post.entries@.last().account_id == staker
        &&& post.entries@.last().info.total_rewards_claimed == 0
        &&& post.entries@.last().info.stakes@ == Seq::empty().push(rec)
    }
}

/// How a ledger changes when the stake at `index` of `id`'s account is
/// replaced by `rec` in place.
pub open spec fn spec_replaced(
    pre: StakeLedger,
    post: StakeLedger,
    id: Seq<char>,
    index: int,
    rec: NFTStakingRecord,
) -> bool {
    let j = pre.spec_idx(id);
    &&& post.entries@.len() == pre.entries@.len()
    &&& forall|k: int| 0 <= k < pre.entries@.len() && k != j ==> post.entries@[k] == pre.entries@[k]
    &&& post.entries@[j].account_id == pre.entries@[j].account_id
    &&& post.entries@[j].info.total_rewards_claimed == pre.entries@[j].info.total_rewards_claimed
    &&& post.entries@[j].info.stakes@ == pre.entries@[j].info.stakes@.update(index, rec)
}

/// How a ledger changes when the accrued reward of the stake at `index` of
/// `id`'s account is paid out: the stake's accrued amount — exactly `amt` —
/// is reset to zero and added to the account's lifetime total, and nothing
/// else moves.
pub open spec fn spec_claimed(
    pre: StakeLedger,
    post: StakeLedger,
    id: Seq<char>,
    index: int,
    amt: u128,
) -> bool {
    let j = pre.spec_idx(id);
    let stakes = pre.entries@[j].info.stakes@;
    &&& amt == stakes[index].claimed_rewards
    &&& post.entries@.len() == pre.entries@.len()
    &&& forall|k: int| 0 <= k < pre.entries@.len() && k != j ==> post.entries@[k] == pre.entries@[k]
    &&& post.entries@[j].account_id == pre.entries@[j].account_id
    &&& post.entries@[j].info.total_rewards_claimed == pre.entries@[j].info.total_rewards_claimed
        + amt
    &&& post.entries@[j].info.stakes@ == stakes.update(
        index,
        (NFTStakingRecord { claimed_rewards: 0, ..stakes[index] }),
    )
}

/// How a ledger changes when the stake at `index` of `id`'s account is
/// removed by swapping the last record into its place: the order of the
/// remaining records is not preserved, so callers must treat stake indices
/// as unstable across removals.
pub open spec fn spec_removed(pre: StakeLedger, post: StakeLedger, id: Seq<char>, index: int) -> bool {
    let j = pre.spec_idx(id);
    let stakes = pre.entries@[j].info.stakes@;
    &&& post.entries@.len() == pre.entries@.len()
    &&& forall|k: int| 0 <= k < pre.entries@.len() && k != j ==> post.entries@[k] == pre.entries@[k]
    &&& post.entries@[j].account_id == pre.entries@[j].account_id
    &&& post.entries@[j].info.total_rewards_claimed == pre.entries@[j].info.total_rewards_claimed
    &&& post.entries@[j].info.stakes@ == stakes.update(index, stakes.last()).drop_last()
}

impl StakeLedger {
    /// Appends a new stake record for `staker_id`, creating the account on
    /// first use.  Authorization and ownership checks happen upstream; the
    /// only structural preconditions are a non-empty item set with one
    /// classified type per item and no duplicate item.
    pub fn open_stake(
        &mut self,
        staker_id: &String,
        nft_ids: Vec<String>,
        nft_types: Vec<ItemType>,
        now: u64,
        lockup: u64,
    )
        requires
            old(self).wf(),
            nft_ids@.len() == nft_types@.len(),
            nft_ids@.len() >= 1,
            forall|i: int, j: int| 0 <= i < j < nft_ids@.len() ==> nft_ids@[i]@ != nft_ids@[j]@,
        ensures
            final(self).wf(),
            spec_opened(
                *old(self),
                *final(self),
                *staker_id,
                (NFTStakingRecord {
                    nft_ids,
                    nft_types,
                    start_timestamp: now,
                    lockup_period: lockup,
                    claimed_rewards: 0,
                }),
            ),
    {
        let rec = NFTStakingRecord {
            nft_ids,
            nft_types,
            start_timestamp: now,
            lockup_period: lockup,
            claimed_rewards: 0,
        };
        match self.find_account(staker_id.as_str()) {
            Some(j) => {
                let mut entry = self.entries.remove(j);
                entry.info.stakes.push(rec);
                self.entries.insert(j, entry);
                proof {
                    assert(self.entries@ =~= old(self).entries@.update(
                        j as int,
                        self.entries@[j as int],
                    ));
                }
            },
            None => {
                let mut stakes: Vec<NFTStakingRecord> = Vec::new();
                stakes.push(rec);
                self.entries.push(
                    StakerEntry {
                        account_id: staker_id.clone(),
                        info: StakerInfo { stakes, total_rewards_claimed: 0 },
                    },
                );
            },
        }
    }

    /// Looks up one stake record.
    pub fn get_stake(&self, staker_id: &str, index: usize) -> (r: Result<
        &NFTStakingRecord,
        StakingError,
    >)
        requires
            self.wf(),
        ensures
            r is Err && r->Err_0 == StakingError::NotFound <==> !self.spec_has(staker_id@),
            r is Err && r->Err_0 == StakingError::IndexOutOfRange <==> self.spec_has(staker_id@)
                && index >= self.spec_stakes(staker_id@).len(),
            r is Ok <==> self.spec_has(staker_id@) && index < self.spec_stakes(staker_id@).len(),
            r is Ok ==> *r->Ok_0 == self.spec_stakes(staker_id@)[index as int],
    {
        match self.find_account(staker_id) {
            None => Err(StakingError::NotFound),
            Some(j) => {
                let entry = &self.entries[j];
                if index >= entry.info.stakes.len() {
                    Err(StakingError::IndexOutOfRange)
                } else {
                    Ok(&entry.info.stakes[index])
                }
            },
        }
    }

    /// Replaces the stake at `index` of `staker_id`'s account in place.
    pub fn replace_stake(&mut self, staker_id: &str, index: usize, rec: NFTStakingRecord)
        requires
            old(self).wf(),
            old(self).spec_has(staker_id@),
            index < old(self).spec_stakes(staker_id@).len(),
            rec.wf(),
        ensures
            final(self).wf(),
            spec_replaced(*old(self), *final(self), staker_id@, index as int, rec),
    {
        if let Some(j) = self.find_account(staker_id) {
            let mut entry = self.entries.remove(j);
            entry.info.stakes.remove(index);
            entry.info.stakes.insert(index, rec);
            self.entries.insert(j, entry);
            proof {
                assert(self.entries@[j as int].info.stakes@ =~= old(self).entries@[
                    j as int
                ].info.stakes@.update(index as int, rec));
                assert(self.entries@ =~= old(self).entries@.update(
                    j as int,
                    self.entries@[j as int],
                ));
            }
        }
    }

    /// Removes the stake at `index` of `staker_id`'s account by swapping the
    /// last record into its place, and returns the removed record.  The
    /// account itself stays, even when its last stake is removed.
    pub fn remove_stake(&mut self, staker_id: &str, index: usize) -> (rec: NFTStakingRecord)
        requires
            old(self).wf(),
            old(self).spec_has(staker_id@),
            index < old(self).spec_stakes(staker_id@).len(),
        ensures
            final(self).wf(),
            spec_removed(*old(self), *final(self), staker_id@, index as int),
            rec == old(self).spec_stakes(staker_id@)[index as int],
    {
        let mut removed: Option<NFTStakingRecord> = None;
        if let Some(j) = self.find_account(staker_id) {
            let mut entry = self.entries.remove(j);
            let rec = entry.info.stakes.swap_remove(index);
            self.entries.insert(j, entry);
            removed = Some(rec);
            proof {
                assert(self.entries@ =~= old(self).entries@.update(
                    j as int,
                    self.entries@[j as int],
                ));
            }
        }
        match removed {
            Some(rec) => rec,
            None => {
                proof {
                    assert(false);
                }
                NFTStakingRecord {
                    nft_ids: Vec::new(),
                    nft_types: Vec::new(),
                    start_timestamp: 0,
                    lockup_period: 0,
                    claimed_rewards: 0,
                }
            },
        }
    }
}

/// Claiming is idempotent: a successful claim leaves the stake with zero
/// accrued reward, so an immediate second claim of the same stake — with no
/// distribution in between — finds nothing to pay and can only fail with
/// `NothingToClaim`.  An accrued amount is paid out at most once.
pub proof fn lemma_claim_pays_once(
    pre: StakeLedger,
    post: StakeLedger,
    id: Seq<char>,
    index: int,
    amt: u128,
)
    requires
        pre.wf(),
        pre.spec_has(id),
        0 <= index < pre.spec_stakes(id).len(),
        spec_claimed(pre, post, id, index, amt),
    ensures
        post.spec_has(id),
        index < post.spec_stakes(id).len(),
        post.spec_stakes(id)[index].claimed_rewards == 0,
{
    let j = pre.spec_idx(id);
    assert(0 <= j < pre.entries@.len() && pre.entries@[j].account_id@ == id);
    assert(post.entries@[j].account_id@ == id);
    assert(post.spec_has(id));
    let j2 = post.spec_idx(id);
    assert(0 <= j2 < post.entries@.len() && post.entries@[j2].account_id@ == id);
    if j2 != j {
        // A second entry with the same identity would already have existed
        // before the claim, contradicting uniqueness.
        assert(pre.entries@[j2].account_id@ == id);
        assert(false);
    }
}

/// Type weights are non-negative.
pub proof fn lemma_types_weight_nonneg(ts: Seq<ItemType>, table: ItemWeightTable)
    ensures
        types_weight(ts, table) >= 0,
    decreases ts.len(),
{
    if ts.len() > 0 {
        lemma_types_weight_nonneg(ts.drop_last(), table);
    }
}

/// With a well-formed table, a record's weight is at most 32 bits per item.
pub proof fn lemma_types_weight_bound(ts: Seq<ItemType>, table: ItemWeightTable)
    requires
        table.wf(),
    ensures
        types_weight(ts, table) <= ts.len() * (u32::MAX as int),
    decreases ts.len(),
{
    if ts.len() > 0 {
        lemma_types_weight_bound(ts.drop_last(), table);
        assert((ts.len() - 1) * (u32::MAX as int) + (u32::MAX as int) == ts.len() * (
        u32::MAX as int)) by (nonlinear_arith);
    }
}

/// Extending a type sequence by one extends its weight by that type's.
pub proof fn lemma_types_weight_take_step(ts: Seq<ItemType>, i: int, table: ItemWeightTable)
    requires
        0 <= i < ts.len(),
    ensures
        types_weight(ts.take(i + 1), table) == types_weight(ts.take(i), table)
            + table.spec_weight_of(ts[i]),
{
    assert(ts.take(i + 1).drop_last() =~= ts.take(i));
    assert(ts.take(i + 1).last() == ts[i]);
}

/// Stake weights are non-negative.
pub proof fn lemma_stakes_weight_nonneg(rs: Seq<NFTStakingRecord>, table: ItemWeightTable)
    ensures
        stakes_weight(rs, table) >= 0,
    decreases rs.len(),
{
    if rs.len() > 0 {
        lemma_stakes_weight_nonneg(rs.drop_last(), table);
        lemma_types_weight_nonneg(rs.last().nft_types@, table);
    }
}

/// Extending a record sequence by one extends its weight by that record's.
pub proof fn lemma_stakes_weight_take_step(
    rs: Seq<NFTStakingRecord>,
    i: int,
    table: ItemWeightTable,
)
    requires
        0 <= i < rs.len(),
    ensures
        stakes_weight(rs.take(i + 1), table) == stakes_weight(rs.take(i), table)
            + rs[i].spec_weight(table),
{
    assert(rs.take(i + 1).drop_last() =~= rs.take(i));
    assert(rs.take(i + 1).last() == rs[i]);
}

/// A prefix never outweighs the whole record sequence.
pub proof fn lemma_stakes_weight_prefix(rs: Seq<NFTStakingRecord>, i: int, table: ItemWeightTable)
    requires
        0 <= i <= rs.len(),
    ensures
        stakes_weight(rs.take(i), table) <= stakes_weight(rs, table),
    decreases rs.len() - i,
{
    if i == rs.len() {
        assert(rs.take(i) =~= rs);
    } else {
        lemma_stakes_weight_take_step(rs, i, table);
        lemma_types_weight_nonneg(rs[i].nft_types@, table);
        lemma_stakes_weight_prefix(rs, i + 1, table);
    }
}

/// One record never outweighs its whole sequence.
pub proof fn lemma_stake_le_stakes(rs: Seq<NFTStakingRecord>, i: int, table: ItemWeightTable)
    requires
        0 <= i < rs.len(),
    ensures
        rs[i].spec_weight(table) <= stakes_weight(rs, table),
        stakes_weight(rs, table) >= 0,
{
    lemma_stakes_weight_take_step(rs, i, table);
    lemma_stakes_weight_prefix(rs, i + 1, table);
    lemma_stakes_weight_nonneg(rs.take(i), table);
    lemma_stakes_weight_nonneg(rs, table);
}

/// Ledger weights are non-negative.
pub proof fn lemma_ledger_weight_nonneg(es: Seq<StakerEntry>, table: ItemWeightTable)
    ensures
        ledger_weight(es, table) >= 0,
    decreases es.len(),
{
    if es.len() > 0 {
        lemma_ledger_weight_nonneg(es.drop_last(), table);
        lemma_stakes_weight_nonneg(es.last().info.stakes@, table);
    }
}

/// Extending an entry sequence by one extends its weight by that account's.
pub proof fn lemma_ledger_weight_take_step(es: Seq<StakerEntry>, j: int, table: ItemWeightTable)
    requires
        0 <= j < es.len(),
    ensures
        ledger_weight(es.take(j + 1), table) == ledger_weight(es.take(j), table)
            + stakes_weight(es[j].info.stakes@, table),
{
    assert(es.take(j + 1).drop_last() =~= es.take(j));
    assert(es.take(j + 1).last() == es[j]);
}

/// A prefix never outweighs the whole entry sequence.
pub proof fn lemma_ledger_weight_prefix(es: Seq<StakerEntry>, j: int, table: ItemWeightTable)
    requires
        0 <= j <= es.len(),
    ensures
        ledger_weight(es.take(j), table) <= ledger_weight(es, table),
    decreases es.len() - j,
{
    if j == es.len() {
        assert(es.take(j) =~= es);
    } else {
        lemma_ledger_weight_take_step(es, j, table);
        lemma_stakes_weight_nonneg(es[j].info.stakes@, table);
        lemma_ledger_weight_prefix(es, j + 1, table);
    }
}

/// One account never outweighs the whole ledger.
pub proof fn lemma_stakes_le_ledger(es: Seq<StakerEntry>, j: int, table: ItemWeightTable)
    requires
        0 <= j < es.len(),
    ensures
        stakes_weight(es[j].info.stakes@, table) <= ledger_weight(es, table),
        ledger_weight(es, table) >= 0,
{
    lemma_ledger_weight_take_step(es, j, table);
    lemma_ledger_weight_prefix(es, j + 1, table);
    lemma_ledger_weight_nonneg(es.take(j), table);
    lemma_ledger_weight_nonneg(es, table);
}

/// Replacing one record changes the summed weight by the weight difference.
pub proof fn lemma_stakes_weight_update(
    rs: Seq<NFTStakingRecord>,
    i: int,
    rec: NFTStakingRecord,
    table: ItemWeightTable,
)
    requires
        0 <= i < rs.len(),
    ensures
        stakes_weight(rs.update(i, rec), table) == stakes_weight(rs, table) - rs[i].spec_weight(
            table,
        ) + rec.spec_weight(table),
    decreases rs.len(),
{
    let upd = rs.update(i, rec);
    if i == rs.len() - 1 {
        assert(upd.drop_last() =~= rs.drop_last());
    } else {
        assert(upd.drop_last() =~= rs.drop_last().update(i, rec));
        lemma_stakes_weight_update(rs.drop_last(), i, rec, table);
        assert(upd.last() == rs.last());
    }
}

/// Replacing one entry changes the ledger weight by the account difference.
pub proof fn lemma_ledger_weight_update(
    es: Seq<StakerEntry>,
    j: int,
    e: StakerEntry,
    table: ItemWeightTable,
)
    requires
        0 <= j < es.len(),
    ensures
        ledger_weight(es.update(j, e), table) == ledger_weight(es, table) - stakes_weight(
            es[j].info.stakes@,
            table,
        ) + stakes_weight(e.info.stakes@, table),
    decreases es.len(),
{
    let upd = es.update(j, e);
    if j == es.len() - 1 {
        assert(upd.drop_last() =~= es.drop_last());
    } else {
        assert(upd.drop_last() =~= es.drop_last().update(j, e));
        lemma_ledger_weight_update(es.drop_last(), j, e, table);
        assert(upd.last() == es.last());
    }
}

/// Appending one record adds exactly its weight.
pub proof fn lemma_stakes_weight_push(
    rs: Seq<NFTStakingRecord>,
    rec: NFTStakingRecord,
    table: ItemWeightTable,
)
    ensures
        stakes_weight(rs.push(rec), table) == stakes_weight(rs, table) + rec.spec_weight(table),
{
    assert(rs.push(rec).drop_last() =~= rs);
    assert(rs.push(rec).last() == rec);
}

/// Appending one entry adds exactly its account's weight.
pub proof fn lemma_ledger_weight_push(es: Seq<StakerEntry>, e: StakerEntry, table: ItemWeightTable)
    ensures
        ledger_weight(es.push(e), table) == ledger_weight(es, table) + stakes_weight(
            e.info.stakes@,
            table,
        ),
{
    assert(es.push(e).drop_last() =~= es);
    assert(es.push(e).last() == e);
}

/// Removing one record by swap-with-last subtracts exactly its weight.
pub proof fn lemma_stakes_weight_swap_removed(
    rs: Seq<NFTStakingRecord>,
    i: int,
    table: ItemWeightTable,
)
    requires
        0 <= i < rs.len(),
    ensures
        stakes_weight(rs.update(i, rs.last()).drop_last(), table) == stakes_weight(rs, table)
            - rs[i].spec_weight(table),
{
    let upd = rs.update(i, rs.last());
    lemma_stakes_weight_update(rs, i, rs.last(), table);
    assert(stakes_weight(upd, table) == stakes_weight(upd.drop_last(), table)
        + upd.last().spec_weight(table));
    if i == rs.len() - 1 {
        assert(upd.last() == rs.last());
    } else {
        assert(upd.last() == rs.last());
    }
}

/// Two record sequences whose items carry the same types weigh the same.
pub proof fn lemma_stakes_weight_congruent(
    a: Seq<NFTStakingRecord>,
    b: Seq<NFTStakingRecord>,
    table: ItemWeightTable,
)
    requires
        a.len() == b.len(),
        forall|i: int| 0 <= i < a.len() ==> a[i].nft_types@ == b[i].nft_types@,
    ensures
        stakes_weight(a, table) == stakes_weight(b, table),
    decreases a.len(),
{
    if a.len() > 0 {
        lemma_stakes_weight_congruent(a.drop_last(), b.drop_last(), table);
    }
}

/// Two entry sequences whose accounts weigh the same weigh the same.
pub proof fn lemma_ledger_weight_congruent(
    a: Seq<StakerEntry>,
    b: Seq<StakerEntry>,
    table: ItemWeightTable,
)
    requires
        a.len() == b.len(),
        forall|j: int|
            0 <= j < a.len() ==> stakes_weight(a[j].info.stakes@, table) == stakes_weight(
                b[j].info.stakes@,
                table,
            ),
    ensures
        ledger_weight(a, table) == ledger_weight(b, table),
    decreases a.len(),
{
    if a.len() > 0 {
        lemma_ledger_weight_congruent(a.drop_last(), b.drop_last(), table);
    }
}

/// The total accrued-but-unclaimed reward over a record sequence.
pub open spec fn accrued_of_stakes(rs: Seq<NFTStakingRecord>) -> int
    decreases rs.len(),
{
    if rs.len() == 0 {
        0
    } else {
        accrued_of_stakes(rs.drop_last()) + rs.last().claimed_rewards
    }
}

/// The total accrued-but-unclaimed reward over the whole ledger.
pub open spec fn total_accrued(es: Seq<StakerEntry>) -> int
    decreases es.len(),
{
    if es.len() == 0 {
        0
    } else {
        total_accrued(es.drop_last()) + accrued_of_stakes(es.last().info.stakes@)
    }
}

/// The weights of a record sequence's stakes, in order.
pub open spec fn weights_of_stakes(rs: Seq<NFTStakingRecord>, table: ItemWeightTable) -> Seq<int>
    decreases rs.len(),
{
    if rs.len() == 0 {
        Seq::empty()
    } else {
        weights_of_stakes(rs.drop_last(), table).push(rs.last().spec_weight(table))
    }
}

/// The weights of every stake of every entry, account by account.
pub open spec fn ledger_stake_weights(es: Seq<StakerEntry>, table: ItemWeightTable) -> Seq<int>
    decreases es.len(),
{
    if es.len() == 0 {
        Seq::empty()
    } else {
        ledger_stake_weights(es.drop_last(), table) + weights_of_stakes(
            es.last().info.stakes@,
            table,
        )
    }
}

/// Summing weights distributes over concatenation.
proof fn lemma_sum_weights_concat(a: Seq<int>, b: Seq<int>)
    ensures
        crate::rewards::sum_weights(a + b) == crate::rewards::sum_weights(a)
            + crate::rewards::sum_weights(b),
    decreases b.len(),
{
    if b.len() == 0 {
        assert(a + b =~= a);
    } else {
        assert((a + b).drop_last() =~= a + b.drop_last());
        assert((a + b).last() == b.last());
        lemma_sum_weights_concat(a, b.drop_last());
    }
}

/// A record sequence's weight is the sum of its stakes' weights, and every
/// one of those weights is non-negative.
proof fn lemma_weights_of_stakes_sum(rs: Seq<NFTStakingRecord>, table: ItemWeightTable)
    ensures
        crate::rewards::sum_weights(weights_of_stakes(rs, table)) == stakes_weight(rs, table),
        weights_of_stakes(rs, table).len() == rs.len(),
        forall|i: int|
            0 <= i < rs.len() ==> #[trigger] weights_of_stakes(rs, table)[i] >= 0,
    decreases rs.len(),
{
    if rs.len() > 0 {
        lemma_weights_of_stakes_sum(rs.drop_last(), table);
        let ws = weights_of_stakes(rs, table);
        assert(ws.drop_last() =~= weights_of_stakes(rs.drop_last(), table));
        lemma_types_weight_nonneg(rs.last().nft_types@, table);
    }
}

/// The ledger's total weight is the sum of its stakes' weights, every one
/// of which is non-negative.
proof fn lemma_ledger_stake_weights_sum(es: Seq<StakerEntry>, table: ItemWeightTable)
    ensures
        crate::rewards::sum_weights(ledger_stake_weights(es, table)) == ledger_weight(es, table),
        forall|i: int|
            0 <= i < ledger_stake_weights(es, table).len()
                ==> #[trigger] ledger_stake_weights(es, table)[i] >= 0,
    decreases es.len(),
{
    if es.len() > 0 {
        lemma_ledger_stake_weights_sum(es.drop_last(), table);
        lemma_weights_of_stakes_sum(es.last().info.stakes@, table);
        lemma_sum_weights_concat(
            ledger_stake_weights(es.drop_last(), table),
            weights_of_stakes(es.last().info.stakes@, table),
        );
    }
}

/// Conservation over a concrete ledger: distributing any amount `r`
/// proportionally over the ledger's stake weights — each stake credited
/// the rounded-down share a distribution grants it — pays out at most `r`
/// in total, and withholds strictly less than the ledger's total weight.
pub proof fn lemma_ledger_distribution_conservation(
    es: Seq<StakerEntry>,
    table: ItemWeightTable,
    r: int,
)
    requires
        r >= 0,
        ledger_weight(es, table) > 0,
    ensures
        crate::rewards::sum_weights(ledger_stake_weights(es, table)) == ledger_weight(es, table),
        0 <= crate::rewards::sum_shares(
            r,
            ledger_stake_weights(es, table),
            ledger_weight(es, table),
        ) <= r,
        r - crate::rewards::sum_shares(
            r,
            ledger_stake_weights(es, table),
            ledger_weight(es, table),
        ) < ledger_weight(es, table),
{
    lemma_ledger_stake_weights_sum(es, table);
    crate::rewards::lemma_distribution_conservation(
        r,
        ledger_stake_weights(es, table),
        ledger_weight(es, table),
    );
}

/// Computes one record's reward weight: the sum of its items' weights.
pub fn record_weight(rec: &NFTStakingRecord, table: &ItemWeightTable) -> (w: u128)
    requires
        table.wf(),
    ensures
        w == rec.spec_weight(*table),
{
    let ts = &rec.nft_types;
    let mut acc: u128 = 0;
    let mut i: usize = 0;
    while i < ts.len()
        invariant
            0 <= i <= ts.len(),
            table.wf(),
            acc == types_weight(ts@.take(i as int), *table),
            acc <= i * (u32::MAX as int),
        decreases ts.len() - i,
    {
        let wt: u64 = table.weight_of(ts[i]);
        proof {
            lemma_types_weight_take_step(ts@, i as int, *table);
            assert((i + 1) * (u32::MAX as int) == i * (u32::MAX as int) + (
            u32::MAX as int)) by (nonlinear_arith);
            assert((i + 1) * (u32::MAX as int) <= (usize::MAX as int + 1) * (
            u32::MAX as int)) by (nonlinear_arith)
                requires
                    0 <= i < usize::MAX as int,
            ;
            assert((usize::MAX as int + 1) * (u32::MAX as int) < u128::MAX as int)
                by (nonlinear_arith)
                requires
                    usize::MAX as int <= u64::MAX as int,
            ;
        }
        acc = acc + (wt as u128);
        i = i + 1;
    }
    proof {
        assert(ts@.take(ts@.len() as int) =~= ts@);
    }
    acc
}

/// Computes one account's total stake weight.
pub fn account_weight(info: &StakerInfo, table: &ItemWeightTable) -> (w: u128)
    requires
        table.wf(),
        stakes_weight(info.stakes@, *table) <= u128::MAX as int,
    ensures
        w == stakes_weight(info.stakes@, *table),
{
    let rs = &info.stakes;
    let mut acc: u128 = 0;
    let mut i: usize = 0;
    while i < rs.len()
        invariant
            0 <= i <= rs.len(),
            table.wf(),
            stakes_weight(rs@, *table) <= u128::MAX as int,
            acc == stakes_weight(rs@.take(i as int), *table),
        decreases rs.len() - i,
    {
        let rw: u128 = record_weight(&rs[i], table);
        proof {
            lemma_stakes_weight_take_step(rs@, i as int, *table);
            lemma_stakes_weight_prefix(rs@, i + 1 as int, *table);
        }
        acc = acc + rw;
        i = i + 1;
    }
    proof {
        assert(rs@.take(rs@.len() as int) =~= rs@);
    }
    acc
}

impl StakeLedger {
    /// Computes the total weight of every outstanding stake in the ledger.
    pub fn total_weight(&self, table: &ItemWeightTable) -> (w: u64)
        requires
            table.wf(),
            ledger_weight(self.entries@, *table) <= u64::MAX as int,
        ensures
            w == ledger_weight(self.entries@, *table),
    {
        let es = &self.entries;
        let mut acc: u128 = 0;
        let mut j: usize = 0;
        while j < es.len()
            invariant
                0 <= j <= es.len(),
                table.wf(),
                ledger_weight(es@, *table) <= u64::MAX as int,
                acc == ledger_weight(es@.take(j as int), *table),
            decreases es.len() - j,
        {
            proof {
                lemma_stakes_le_ledger(es@, j as int, *table);
                lemma_stakes_weight_nonneg(es@[j as int].info.stakes@, *table);
            }
            let aw: u128 = account_weight(&es[j].info, table);
            proof {
                lemma_ledger_weight_take_step(es@, j as int, *table);
                lemma_ledger_weight_prefix(es@, j + 1 as int, *table);
            }
            acc = acc + aw;
            j = j + 1;
        }
        proof {
            assert(es@.take(es@.len() as int) =~= es@);
            lemma_ledger_weight_nonneg(es@, *table);
        }
        acc as u64
    }
}

} // verus!
