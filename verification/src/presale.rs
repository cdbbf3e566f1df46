//! A launchpad for presales: contributions up to a hard cap, a platform fee split three ways,
//! refunds with a grace period, and distribution of the sold token by share of what was
//! raised, optionally vested.
//!
//! The balances belong to the assets pallet. Each call first names the asset operations it
//! needs (`*_ops`); the same call then records its effect, told whether those operations went
//! through. A call whose operations failed changes nothing, as a failed dispatch does.
use vstd::prelude::*;
use vstd::hash_map::HashMapWithView;
use crate::arith::{
    min, min_u128, mul_div_floor, multiply_by_rational_down, percent, percent_of, sat_add,
    sat_add_u32, sat_sub,
};
use crate::scale::le_bytes;

verus! {

pub type PresaleId = u32;

/// Where a presale is in its life.
#[derive(Clone, Copy, PartialEq, Eq, Debug, Structural)]
pub enum PresaleStatus {
    Pending,
    Active,
    Paused,
    Successful,
    Failed,
    Cancelled,
    Finalized,
}

/// Who may contribute.
#[derive(Clone, Copy, PartialEq, Eq, Debug, Structural)]
pub enum AccessControl {
    Public,
    Whitelist,
}

/// A bonus for contributions of at least `min_contribution`.
#[derive(Clone, Copy, PartialEq, Eq, Debug, Structural)]
pub struct BonusTier {
    pub min_contribution: u128,
    pub bonus_percentage: u8,
}

/// How the sold token is released after the presale.
#[derive(Clone, Copy, PartialEq, Eq, Debug, Structural)]
pub struct VestingSchedule {
    pub immediate_release_percent: u8,
    pub vesting_duration_blocks: u64,
    pub cliff_blocks: u64,
}

/// Per-wallet limits and the presale's targets.
#[derive(Clone, Copy, PartialEq, Eq, Debug, Structural)]
pub struct ContributionLimits {
    pub min_contribution: u128,
    pub max_contribution: u128,
    pub soft_cap: u128,
    pub hard_cap: u128,
}

/// What a refund costs, inside and outside the grace period.
#[derive(Clone, Copy, PartialEq, Eq, Debug, Structural)]
pub struct RefundConfig {
    pub grace_period_blocks: u64,
    pub refund_fee_percent: u8,
    pub grace_refund_fee_percent: u8,
}

/// What a presale is created with.
#[derive(Clone, Copy, PartialEq, Eq, Debug, Structural)]
pub struct PresaleCreationParams {
    pub tokens_for_sale: u128,
    pub duration: u64,
    pub is_whitelist: bool,
    pub limits: ContributionLimits,
    pub vesting: Option<VestingSchedule>,
    pub refund_config: RefundConfig,
}

/// One account's contribution to one presale.
#[derive(Clone, Copy, PartialEq, Eq, Debug, Structural)]
pub struct ContributionInfo {
    pub amount: u128,
    pub contributed_at: u64,
    pub refunded: bool,
    pub refunded_at: Option<u64>,
    pub refund_fee_paid: u128,
}

/// A presale's configuration. Its bonus tiers are kept beside it, in `Pezpallet::bonus_tiers`.
#[derive(Clone, Copy, PartialEq, Eq, Debug, Structural)]
pub struct PresaleConfig {
    pub owner: u64,
    pub payment_asset: u32,
    pub reward_asset: u32,
    pub tokens_for_sale: u128,
    pub start_block: u64,
    pub duration: u64,
    pub status: PresaleStatus,
    pub access_control: AccessControl,
    pub limits: ContributionLimits,
    pub vesting: Option<VestingSchedule>,
    pub grace_period_blocks: u64,
    pub refund_fee_percent: u8,
    pub grace_refund_fee_percent: u8,
}

/// Why a presale call was refused.
#[derive(Clone, Copy, PartialEq, Eq, Debug, Structural)]
pub enum Error {
    PresaleNotFound,
    PresaleNotActive,
    PresaleEnded,
    PresaleNotEnded,
    AlreadyFinalized,
    ZeroContribution,
    BelowMinContribution,
    AboveMaxContribution,
    HardCapReached,
    NotWhitelisted,
    TooManyContributors,
    ArithmeticOverflow,
    InvalidTokensForSale,
    InvalidFeePercent,
    NoContribution,
    RefundNotAllowed,
    SoftCapReached,
    InsufficientBalance,
    VestingNotEnabled,
    NothingToClaim,
    NotPresaleOwner,
    TooManyBonusTiers,
    PresaleNotFailed,
    PresaleNotSuccessful,
    SoftCapNotReached,
    InvalidSoftCap,
    /// The assets pallet refused one of the operations the call needed.
    AssetOperationFailed,
}

/// An operation on the assets pallet that a call needs made.
#[derive(Clone, Copy, PartialEq, Eq, Debug, Structural)]
pub enum AssetOp {
    /// Move `amount` of `asset`; `keep_alive` is `Preservation::Preserve`, otherwise
    /// `Preservation::Expendable`.
    Transfer { asset: u32, from: u64, to: u64, amount: u128, keep_alive: bool },
    /// Burn up to `amount` of `asset` from `from`, best effort.
    Burn { asset: u32, from: u64, amount: u128 },
}

/// What a successful call reports.
#[derive(Clone, Copy, PartialEq, Eq, Debug, Structural)]
pub enum Event {
    PresaleCreated { presale_id: u32, owner: u64, payment_asset: u32, reward_asset: u32 },
    Contributed { presale_id: u32, who: u64, amount: u128, bonus_amount: u128 },
    PresaleFinalized { presale_id: u32, total_raised: u128 },
    Distributed { presale_id: u32, who: u64, amount: u128 },
    Refunded { presale_id: u32, who: u64, amount: u128, fee: u128 },
    PresaleCancelled { presale_id: u32 },
    PlatformFeeDistributed { treasury_share: u128, burn_share: u128, staker_share: u128 },
    AccountWhitelisted { presale_id: u32, account: u64 },
    VestingClaimed { presale_id: u32, who: u64, amount: u128 },
    PresaleSuccessful { presale_id: u32, total_raised: u128, soft_cap: u128 },
    PresaleFailed { presale_id: u32, total_raised: u128, soft_cap: u128 },
    BatchRefundCompleted { presale_id: u32, refunded_count: u32, total_refunded: u128 },
    PresaleExtended { presale_id: u32, additional_blocks: u64, new_end_block: u64 },
    BatchDistributionCompleted { presale_id: u32, distributed_count: u32, total_distributed: u128 },
}

/// The platform's parameters.
#[derive(Clone, Copy, PartialEq, Eq, Debug)]
pub struct Config {
    pub pallet_id: [u8; 8],
    pub platform_treasury: u64,
    pub staking_reward_pool: u64,
    pub platform_fee_percent: u8,
    pub max_contributors: u32,
}

/// The presale platform's storage.
pub struct Pezpallet {
    pub config: Config,
    pub next_presale_id: u32,
    pub presales: HashMapWithView<u32, PresaleConfig>,
    pub bonus_tiers: HashMapWithView<u32, Vec<BonusTier>>,
    /// Keyed by `pair_key(presale, account)`.
    pub contributions: HashMapWithView<u128, ContributionInfo>,
    pub contributors: HashMapWithView<u32, Vec<u64>>,
    pub total_raised: HashMapWithView<u32, u128>,
    /// Keyed by `pair_key(presale, account)`.
    pub whitelisted_accounts: HashMapWithView<u128, bool>,
    /// Keyed by `pair_key(presale, account)`.
    pub vesting_claimed: HashMapWithView<u128, u128>,
    pub total_platform_volume: u128,
    pub total_platform_fees: u128,
    pub successful_presales: u32,
    /// What the calls so far have reported, oldest first.
    pub events: Vec<Event>,
}

/// Every raised total belongs to a presale, every presale is numbered below `next`, and none
/// has raised more than its hard cap.
pub open spec fn caps_hold(presales: Map<u32, PresaleConfig>, raised: Map<u32, u128>, next: u32) -> bool {
    &&& forall|id: u32| #[trigger] raised.contains_key(id) ==> presales.contains_key(id)
    &&& forall|id: u32| #[trigger] presales.contains_key(id) ==> id < next && (raised.contains_key(id)
        ==> raised[id] <= presales[id].limits.hard_cap)
}

/// What `who` has in presale `id`: the amount of their contribution, unless it was refunded.
pub open spec fn standing(contributions: Map<u128, ContributionInfo>, id: u32, who: u64) -> nat {
    let k = pair_key(id, who);
    if contributions.contains_key(k) && !contributions[k].refunded {
        contributions[k].amount as nat
    } else {
        0
    }
}

/// What the contributors in `l` have in presale `id`, together.
pub open spec fn standing_sum(l: Seq<u64>, id: u32, contributions: Map<u128, ContributionInfo>) -> nat
    decreases l.len(),
{
    if l.len() == 0 {
        0
    } else {
        standing_sum(l.drop_last(), id, contributions) + standing(contributions, id, l.last())
    }
}

/// The sum depends only on what the listed contributors have in.
proof fn lemma_standing_sum_congruent(
    l: Seq<u64>,
    id: u32,
    m1: Map<u128, ContributionInfo>,
    m2: Map<u128, ContributionInfo>,
)
    requires
        forall|i: int| 0 <= i < l.len() ==> standing(m1, id, #[trigger] l[i]) == standing(m2, id, l[i]),
    ensures
        standing_sum(l, id, m1) == standing_sum(l, id, m2),
    decreases l.len(),
{
    if l.len() > 0 {
        assert forall|i: int| 0 <= i < l.drop_last().len() implies standing(m1, id, #[trigger] l.drop_last()[i])
            == standing(m2, id, l.drop_last()[i]) by {
            assert(l.drop_last()[i] == l[i]);
        }
        lemma_standing_sum_congruent(l.drop_last(), id, m1, m2);
        assert(standing(m1, id, l[l.len() - 1]) == standing(m2, id, l[l.len() - 1]));
    }
}

/// Changing what one listed contributor has in changes the sum by as much.
proof fn lemma_standing_sum_update(
    l: Seq<u64>,
    id: u32,
    who: u64,
    m1: Map<u128, ContributionInfo>,
    m2: Map<u128, ContributionInfo>,
)
    requires
        l.no_duplicates(),
        l.contains(who),
        forall|w: u64| w != who ==> #[trigger] standing(m1, id, w) == standing(m2, id, w),
    ensures
        standing_sum(l, id, m2) + standing(m1, id, who) == standing_sum(l, id, m1) + standing(m2, id, who),
        standing(m1, id, who) <= standing_sum(l, id, m1),
    decreases l.len(),
{
    let init = l.drop_last();
    if l.last() == who {
        assert(!init.contains(who)) by {
            if init.contains(who) {
                let j = choose|j: int| 0 <= j < init.len() && init[j] == who;
                assert(l[j] == l[l.len() - 1]);
            }
        }
        assert forall|i: int| 0 <= i < init.len() implies standing(m1, id, #[trigger] init[i]) == standing(m2, id, init[i]) by {
            assert(init[i] != who);
        }
        lemma_standing_sum_congruent(init, id, m1, m2);
    } else {
        assert(init.contains(who)) by {
            let j = choose|j: int| 0 <= j < l.len() && l[j] == who;
            assert(j != l.len() - 1);
            assert(init[j] == who);
        }
        assert(init.no_duplicates()) by {
            assert forall|a: int, b: int| 0 <= a < init.len() && 0 <= b < init.len() && a != b implies init[a] != init[b] by {
                assert(init[a] == l[a] && init[b] == l[b]);
            }
        }
        lemma_standing_sum_update(init, id, who, m1, m2);
    }
}

/// Different presales or accounts have different keys.
proof fn lemma_pair_key_injective(id1: u32, w1: u64, id2: u32, w2: u64)
    ensures
        pair_key(id1, w1) == pair_key(id2, w2) ==> id1 == id2 && w1 == w2,
{
}

/// The key of a per-presale, per-account entry.
pub open spec fn pair_key(id: u32, who: u64) -> u128 {
    (id as int * 0x1_0000_0000_0000_0000 + who as int) as u128
}

/// The key of a per-presale, per-account entry.
pub fn make_pair_key(id: u32, who: u64) -> (r: u128)
    ensures
        r == pair_key(id, who),
{
    (id as u128) * 0x1_0000_0000_0000_0000u128 + (who as u128)
}

/// The bonus percentage the tiers give a contribution: the last tier it reaches.
pub open spec fn applicable_bonus(tiers: Seq<BonusTier>, contribution: u128) -> u8
    decreases tiers.len(),
{
    if tiers.len() == 0 {
        0
    } else if contribution >= tiers.last().min_contribution {
        tiers.last().bonus_percentage
    } else {
        applicable_bonus(tiers.drop_last(), contribution)
    }
}

/// The bonus a contribution gets is that of the last tier in the list whose minimum it
/// reaches, so with tiers in ascending order a contribution reaching several gets the highest;
/// a contribution reaching no tier gets none.
pub proof fn lemma_bonus_is_the_last_tier_reached(tiers: Seq<BonusTier>, contribution: u128)
    ensures
        (forall|j: int| 0 <= j < tiers.len() ==> contribution < #[trigger] tiers[j].min_contribution)
            ==> applicable_bonus(tiers, contribution) == 0,
        forall|i: int|
            0 <= i < tiers.len() && contribution >= tiers[i].min_contribution && (forall|j: int|
                i < j < tiers.len() ==> contribution < #[trigger] tiers[j].min_contribution)
                ==> applicable_bonus(tiers, contribution) == #[trigger] tiers[i].bonus_percentage,
    decreases tiers.len(),
{
    if tiers.len() > 0 {
        let init = tiers.drop_last();
        lemma_bonus_is_the_last_tier_reached(init, contribution);
        let n = tiers.len() - 1;
        assert forall|j: int| 0 <= j < init.len() implies #[trigger] init[j] == tiers[j] by {}
        if forall|j: int| 0 <= j < tiers.len() ==> contribution < #[trigger] tiers[j].min_contribution {
            assert(contribution < tiers[n].min_contribution);
            assert forall|j: int| 0 <= j < init.len() implies contribution < #[trigger] init[j].min_contribution by {
                assert(init[j] == tiers[j]);
            }
        }
        assert forall|i: int|
            0 <= i < tiers.len() && contribution >= tiers[i].min_contribution && (forall|j: int|
                i < j < tiers.len() ==> contribution < #[trigger] tiers[j].min_contribution)
            implies applicable_bonus(tiers, contribution) == #[trigger] tiers[i].bonus_percentage by {
            if i < n {
                assert(contribution < tiers[n].min_contribution);
                assert(init[i] == tiers[i]);
                assert forall|j: int| i < j < init.len() implies contribution < #[trigger] init[j].min_contribution by {
                    assert(init[j] == tiers[j]);
                }
            }
        }
    }
}

/// The bonus on a reward: its tier's percentage of the reward.
pub open spec fn spec_bonus(tiers: Seq<BonusTier>, contribution: u128, user_reward: u128) -> u128 {
    let b = applicable_bonus(tiers, contribution);
    if b == 0 {
        0
    } else {
        percent_of(user_reward, b as u128)
    }
}

/// A contributor's share of the tokens for sale: `contribution * tokens / raised`, rounded
/// down, or an error when nothing was raised or the share does not fit.
pub open spec fn spec_reward(contribution: u128, raised: u128, tokens_for_sale: u128) -> Result<
    u128,
    Error,
> {
    if raised == 0 {
        Err(Error::ArithmeticOverflow)
    } else {
        match mul_div_floor(contribution, tokens_for_sale, raised) {
            Some(v) => Ok(v),
            None => Err(Error::ArithmeticOverflow),
        }
    }
}

/// The hash of some bytes under Blake2b-256.
pub uninterp spec fn blake2_256(data: Seq<u8>) -> Seq<u8>;

/// `BlakeTwo256::hash` from `pezsp_runtime`: the 32-byte Blake2b-256 digest of `data`.
///
/// Claims only that the digest is a function of the bytes hashed and is 32 bytes long.
#[verifier::external_body]
fn blake2_256_hash(data: &Vec<u8>) -> (r: [u8; 32])
    ensures
        r@ == blake2_256(data@),
        r@.len() == 32,
{
    <pezsp_runtime::traits::BlakeTwo256 as pezsp_runtime::traits::Hash>::hash(data.as_slice()).to_fixed_bytes()
}

/// The little-endian number in the first eight bytes of `b`.
pub open spec fn decode_u64(b: Seq<u8>) -> u64 {
    (b[0] as int + 0x100 * b[1] as int + 0x1_0000 * b[2] as int + 0x100_0000 * b[3] as int
        + 0x1_0000_0000 * b[4] as int + 0x100_0000_0000 * b[5] as int + 0x1_0000_0000_0000
        * b[6] as int + 0x100_0000_0000_0000 * b[7] as int) as u64
}

/// The account that holds a presale's funds: the hash of the platform's identity and the
/// presale's number, read as an account.
pub open spec fn spec_presale_account(pallet_id: [u8; 8], id: u32) -> u64 {
    decode_u64(blake2_256(pallet_id@ + le_bytes(id as nat, 4)))
}

/// The operations that split a platform fee: half to the platform treasury, a quarter burnt,
/// a quarter to the staking pool, each share rounded down.
pub open spec fn fee_ops(cfg: Config, asset: u32, from: u64, fee: u128) -> Seq<AssetOp> {
    seq![
        AssetOp::Transfer {
            asset,
            from,
            to: cfg.platform_treasury,
            amount: percent_of(fee, 50),
            keep_alive: false,
        },
        AssetOp::Burn { asset, from, amount: percent_of(fee, 25) },
        AssetOp::Transfer {
            asset,
            from,
            to: cfg.staking_reward_pool,
            amount: percent_of(fee, 25),
            keep_alive: false,
        },
    ]
}

/// The report of a platform fee split: the three shares `fee_ops` moves.
pub open spec fn fee_event(fee: u128) -> Event {
    Event::PlatformFeeDistributed {
        treasury_share: percent_of(fee, 50),
        burn_share: percent_of(fee, 25),
        staker_share: percent_of(fee, 25),
    }
}

/// Whether `op` is a transfer to `who`.
pub open spec fn pays(op: AssetOp, who: u64) -> bool {
    match op {
        AssetOp::Transfer { to, .. } => to == who,
        AssetOp::Burn { .. } => false,
    }
}

/// The smaller of two indices.
pub open spec fn spec_min_u32(x: u32, y: u32) -> u32 {
    if x <= y { x } else { y }
}

/// The smaller of two indices.
fn min_u32(x: u32, y: u32) -> (r: u32)
    ensures
        r == spec_min_u32(x, y),
{
    if x <= y {
        x
    } else {
        y
    }
}

/// The block a presale stops taking contributions.
pub open spec fn end_block(p: PresaleConfig) -> int {
    p.start_block + p.duration
}

impl Pezpallet {
    /// Storage that the pallet keeps consistent: the contributor lists have no repeats, name
    /// only accounts with a contribution, and stay within the configured limit.
    pub open spec fn wf(&self) -> bool {
        forall|id: u32| #[trigger]
            self.contributors@.contains_key(id) ==> {
                let l = self.contributors@[id]@;
                &&& l.len() <= self.config.max_contributors
                &&& (forall|i: int|
                    0 <= i < l.len() ==> #[trigger] self.contributions@.contains_key(
                        pair_key(id, l[i]),
                    ))
                &&& (forall|i: int, j: int| 0 <= i < j < l.len() ==> l[i] != l[j])
            }
    }

    /// No presale has raised more than its hard cap: a raised total is kept only for a presale
    /// that exists, and every presale is numbered below the next one.
    pub open spec fn within_caps(&self) -> bool {
        caps_hold(self.presales@, self.total_raised@, self.next_presale_id)
    }

    /// What every open presale has raised is what its contributors have in: the amounts of
    /// the contributions not refunded. (Failed and cancelled presales refund in batches, which
    /// leave the raised total as it was.) Only existing presales have contributors, and every
    /// contribution is from a listed contributor. Every call keeps this but one: contributing
    /// again after a refund adds to the refunded record's amount while the raised total gains
    /// only the new money.
    pub open spec fn raised_matches(&self) -> bool {
        &&& forall|id: u32| #![trigger self.contributor_list(id)]
            !self.presales@.contains_key(id) ==> self.contributor_list(id).len() == 0
        &&& forall|id: u32, w: u64| #[trigger] self.contributions@.contains_key(pair_key(id, w))
            ==> self.contributor_list(id).contains(w)
        &&& forall|id: u32| #[trigger] self.presales@.contains_key(id)
            && self.presales@[id].status != PresaleStatus::Failed
            && self.presales@[id].status != PresaleStatus::Cancelled
            ==> self.raised(id) as nat == standing_sum(self.contributor_list(id), id, self.contributions@)
    }

    /// The raised totals still match when the contributions, the lists and the totals are as
    /// they were, no presale went away, and every open presale was open before or had neither
    /// contributors nor a raised total.
    proof fn lemma_raised_matches_kept(&self, after: &Self)
        requires
            self.raised_matches(),
            after.contributions@ == self.contributions@,
            after.contributors@ == self.contributors@,
            after.total_raised@ == self.total_raised@,
            forall|id: u32| #[trigger] self.presales@.contains_key(id) ==> after.presales@.contains_key(id),
            forall|id: u32| #[trigger] after.presales@.contains_key(id)
                && after.presales@[id].status != PresaleStatus::Failed
                && after.presales@[id].status != PresaleStatus::Cancelled ==> {
                ||| self.presales@.contains_key(id)
                    && self.presales@[id].status != PresaleStatus::Failed
                    && self.presales@[id].status != PresaleStatus::Cancelled
                ||| self.raised(id) == 0 && self.contributor_list(id).len() == 0
            },
        ensures
            after.raised_matches(),
    {
        assert forall|id: u32| #![trigger after.contributor_list(id)]
            !after.presales@.contains_key(id) implies after.contributor_list(id).len() == 0 by {
            assert(self.contributor_list(id) == after.contributor_list(id));
        }
        assert forall|id: u32, w: u64| #[trigger] after.contributions@.contains_key(pair_key(id, w))
            implies after.contributor_list(id).contains(w) by {
            assert(self.contributions@.contains_key(pair_key(id, w)));
            assert(self.contributor_list(id) == after.contributor_list(id));
        }
        assert forall|id: u32| #[trigger] after.presales@.contains_key(id)
            && after.presales@[id].status != PresaleStatus::Failed
            && after.presales@[id].status != PresaleStatus::Cancelled
            implies after.raised(id) as nat == standing_sum(after.contributor_list(id), id, after.contributions@) by {
            assert(self.contributor_list(id) == after.contributor_list(id));
            assert(self.raised(id) == after.raised(id));
            if self.contributor_list(id).len() == 0 {
                assert(standing_sum(after.contributor_list(id), id, after.contributions@) == 0);
            }
        }
    }

    /// A contributor list has no repeats.
    proof fn lemma_list_distinct(&self, id: u32)
        requires
            self.wf(),
        ensures
            self.contributor_list(id).no_duplicates(),
    {
        let l = self.contributor_list(id);
        assert forall|i: int, j: int| 0 <= i < l.len() && 0 <= j < l.len() && i != j implies l[i] != l[j] by {
            if i < j {
                assert(l[i] != l[j]);
            } else {
                assert(l[j] != l[i]);
            }
        }
    }

    /// Every contribution but `who`'s to presale `id` is as in `other`.
    pub open spec fn others_unchanged(&self, other: &Self, id: u32, who: u64) -> bool {
        forall|id2: u32, w: u64| (id2, w) != (id, who) ==> #[trigger] standing(self.contributions@, id2, w)
            == standing(other.contributions@, id2, w)
    }

    /// A contribution that changes only `who`'s record in presale `id` leaves every other
    /// presale's sum as it was.
    proof fn lemma_other_sums_kept(&self, after: &Self, id: u32, who: u64, id2: u32)
        requires
            id2 != id,
            after.contributions@ == self.contributions@.insert(pair_key(id, who), after.contributions@[pair_key(id, who)]),
            after.contributor_list(id2) == self.contributor_list(id2),
        ensures
            standing_sum(after.contributor_list(id2), id2, after.contributions@)
                == standing_sum(self.contributor_list(id2), id2, self.contributions@),
    {
        let l = self.contributor_list(id2);
        assert forall|i: int| 0 <= i < l.len() implies standing(self.contributions@, id2, #[trigger] l[i])
            == standing(after.contributions@, id2, l[i]) by {
            lemma_pair_key_injective(id2, l[i], id, who);
        }
        lemma_standing_sum_congruent(l, id2, self.contributions@, after.contributions@);
    }

    /// A refund keeps the raised totals matching: it takes the refunded amount out of both.
    proof fn lemma_refund_keeps_raised(&self, after: &Self, id: u32, who: u64)
        requires
            self.wf(),
            self.raised_matches(),
            self.presales@.contains_key(id),
            self.presales@[id].status == PresaleStatus::Active,
            self.contributions@.contains_key(pair_key(id, who)),
            !self.contributions@[pair_key(id, who)].refunded,
            after.contributions@ == self.contributions@.insert(pair_key(id, who), after.contributions@[pair_key(id, who)]),
            after.contributions@[pair_key(id, who)].refunded,
            after.total_raised@ == self.total_raised@.insert(
                id,
                sat_sub(self.raised(id), self.contributions@[pair_key(id, who)].amount),
            ),
            after.presales@ == self.presales@,
            after.contributors@ == self.contributors@,
        ensures
            after.raised_matches(),
    {
        let k = pair_key(id, who);
        assert(after.contributions@.dom() =~= self.contributions@.dom());
        assert forall|id2: u32| #![trigger after.contributor_list(id2)]
            !after.presales@.contains_key(id2) implies after.contributor_list(id2).len() == 0 by {
            assert(self.contributor_list(id2) == after.contributor_list(id2));
        }
        assert forall|id2: u32, w: u64| #[trigger] after.contributions@.contains_key(pair_key(id2, w))
            implies after.contributor_list(id2).contains(w) by {
            assert(self.contributions@.contains_key(pair_key(id2, w)));
            assert(self.contributor_list(id2) == after.contributor_list(id2));
        }
        assert forall|id2: u32| #[trigger] after.presales@.contains_key(id2)
            && after.presales@[id2].status != PresaleStatus::Failed
            && after.presales@[id2].status != PresaleStatus::Cancelled
            implies after.raised(id2) as nat == standing_sum(after.contributor_list(id2), id2, after.contributions@) by {
            assert(self.contributor_list(id2) == after.contributor_list(id2));
            if id2 == id {
                let l = self.contributor_list(id);
                assert(l.contains(who));
                self.lemma_list_distinct(id);
                assert forall|w: u64| w != who implies #[trigger] standing(self.contributions@, id, w)
                    == standing(after.contributions@, id, w) by {
                    lemma_pair_key_injective(id, w, id, who);
                }
                lemma_standing_sum_update(l, id, who, self.contributions@, after.contributions@);
            } else {
                self.lemma_other_sums_kept(after, id, who, id2);
            }
        }
    }

    /// Whether `who` has a refunded contribution to presale `id` on record.
    pub open spec fn refunded_earlier(&self, id: u32, who: u64) -> bool {
        self.contributions@.contains_key(pair_key(id, who)) && self.contributions@[pair_key(id, who)].refunded
    }

    /// A contribution keeps the raised totals matching: it adds what was taken to both.
    proof fn lemma_contribution_keeps_raised(&self, after: &Self, id: u32, who: u64, accepted: u128, now: u64)
        requires
            self.wf(),
            self.within_caps(),
            self.raised_matches(),
            self.presales@.contains_key(id),
            self.presales@[id].status == PresaleStatus::Active,
            self.raised(id) + accepted <= self.presales@[id].limits.hard_cap,
            !self.refunded_earlier(id, who),
            after.contributions@ == self.contributions@.insert(
                pair_key(id, who),
                self.contributed_info(id, who, accepted, now),
            ),
            after.contributor_list(id) == if !self.contributions@.contains_key(pair_key(id, who)) {
                self.contributor_list(id).push(who)
            } else {
                self.contributor_list(id)
            },
            forall|other: u32| other != id ==> after.contributor_list(other) == self.contributor_list(other),
            after.total_raised@ == self.total_raised@.insert(id, sat_add(self.raised(id), accepted)),
            after.presales@ == self.presales@,
        ensures
            after.raised_matches(),
    {
        let k = pair_key(id, who);
        let l = self.contributor_list(id);
        let first = !self.contributions@.contains_key(k);
        assert(standing(self.contributions@, id, who) == self.contributed(id, who));
        assert forall|id2: u32| #![trigger after.contributor_list(id2)]
            !after.presales@.contains_key(id2) implies after.contributor_list(id2).len() == 0 by {
            assert(self.contributor_list(id2) == after.contributor_list(id2));
        }
        assert forall|id2: u32, w: u64| #[trigger] after.contributions@.contains_key(pair_key(id2, w))
            implies after.contributor_list(id2).contains(w) by {
            lemma_pair_key_injective(id2, w, id, who);
            if pair_key(id2, w) == k {
                if first {
                    assert(after.contributor_list(id)[l.len() as int] == who);
                }
            } else {
                assert(self.contributions@.contains_key(pair_key(id2, w)));
                assert(self.contributor_list(id2).contains(w));
                if id2 == id && first {
                    let j = choose|j: int| 0 <= j < l.len() && l[j] == w;
                    assert(after.contributor_list(id)[j] == w);
                }
            }
        }
        assert forall|id2: u32| #[trigger] after.presales@.contains_key(id2)
            && after.presales@[id2].status != PresaleStatus::Failed
            && after.presales@[id2].status != PresaleStatus::Cancelled
            implies after.raised(id2) as nat == standing_sum(after.contributor_list(id2), id2, after.contributions@) by {
            if id2 == id {
                assert forall|w: u64| w != who implies #[trigger] standing(self.contributions@, id, w)
                    == standing(after.contributions@, id, w) by {
                    lemma_pair_key_injective(id, w, id, who);
                }
                if first {
                    assert(!l.contains(who)) by {
                        if l.contains(who) {
                            let j = choose|j: int| 0 <= j < l.len() && l[j] == who;
                            assert(self.contributors@.contains_key(id));
                            assert(self.contributions@.contains_key(pair_key(id, l[j])));
                        }
                    }
                    assert forall|i: int| 0 <= i < l.len() implies standing(self.contributions@, id, #[trigger] l[i])
                        == standing(after.contributions@, id, l[i]) by {
                        assert(l[i] != who);
                    }
                    lemma_standing_sum_congruent(l, id, self.contributions@, after.contributions@);
                    assert(l.push(who).drop_last() =~= l);
                } else {
                    assert(l.contains(who));
                    self.lemma_list_distinct(id);
                    lemma_standing_sum_update(l, id, who, self.contributions@, after.contributions@);
                }
            } else {
                self.lemma_other_sums_kept(after, id, who, id2);
            }
        }
    }

    /// Everything a call can change, unchanged.
    pub open spec fn unchanged(&self, other: &Self) -> bool {
        &&& self.config == other.config
        &&& self.next_presale_id == other.next_presale_id
        &&& self.presales@ == other.presales@
        &&& self.bonus_tiers@ == other.bonus_tiers@
        &&& self.contributions@ == other.contributions@
        &&& self.contributors@ == other.contributors@
        &&& self.total_raised@ == other.total_raised@
        &&& self.whitelisted_accounts@ == other.whitelisted_accounts@
        &&& self.vesting_claimed@ == other.vesting_claimed@
        &&& self.total_platform_volume == other.total_platform_volume
        &&& self.total_platform_fees == other.total_platform_fees
        &&& self.successful_presales == other.successful_presales
        &&& self.events@ == other.events@
    }

    /// The settings and the platform-wide counters are as in `other`.
    pub open spec fn same_counters(&self, other: &Self) -> bool {
        &&& self.config == other.config
        &&& self.next_presale_id == other.next_presale_id
        &&& self.bonus_tiers@ == other.bonus_tiers@
        &&& self.total_platform_volume == other.total_platform_volume
        &&& self.total_platform_fees == other.total_platform_fees
        &&& self.successful_presales == other.successful_presales
    }

    /// What a presale has raised; nothing if it has no entry.
    pub open spec fn raised(&self, id: u32) -> u128 {
        if self.total_raised@.contains_key(id) {
            self.total_raised@[id]
        } else {
            0
        }
    }

    /// The contributors of a presale, in the order they first contributed.
    pub open spec fn contributor_list(&self, id: u32) -> Seq<u64> {
        if self.contributors@.contains_key(id) {
            self.contributors@[id]@
        } else {
            Seq::empty()
        }
    }

    /// The bonus tiers of a presale.
    pub open spec fn tiers(&self, id: u32) -> Seq<BonusTier> {
        if self.bonus_tiers@.contains_key(id) {
            self.bonus_tiers@[id]@
        } else {
            Seq::empty()
        }
    }

    /// Whether an account may contribute to a whitelisted presale.
    pub open spec fn is_whitelisted(&self, id: u32, who: u64) -> bool {
        self.whitelisted_accounts@.contains_key(pair_key(id, who))
            && self.whitelisted_accounts@[pair_key(id, who)]
    }

    /// What an account has claimed of a presale's tokens; nothing if it has no entry.
    pub open spec fn claimed(&self, id: u32, who: u64) -> u128 {
        if self.vesting_claimed@.contains_key(pair_key(id, who)) {
            self.vesting_claimed@[pair_key(id, who)]
        } else {
            0
        }
    }

    /// An empty platform.
    pub fn new(config: Config) -> (r: Self)
        ensures
            r.within_caps(),
            r.raised_matches(),
            r.wf(),
            r.config == config,
            r.next_presale_id == 0,
            r.presales@ == Map::<u32, PresaleConfig>::empty(),
            r.contributions@ == Map::<u128, ContributionInfo>::empty(),
            r.contributors@ == Map::<u32, Vec<u64>>::empty(),
            r.total_raised@ == Map::<u32, u128>::empty(),
            r.whitelisted_accounts@ == Map::<u128, bool>::empty(),
            r.vesting_claimed@ == Map::<u128, u128>::empty(),
            r.bonus_tiers@ == Map::<u32, Vec<BonusTier>>::empty(),
            r.total_platform_volume == 0,
            r.total_platform_fees == 0,
            r.successful_presales == 0,
            r.events@ == Seq::<Event>::empty(),
    {
        proof {
            broadcast use vstd::std_specs::hash::axiom_u32_obeys_hash_table_key_model;
            broadcast use vstd::std_specs::hash::axiom_u128_obeys_hash_table_key_model;
        }
        Pezpallet {
            config,
            next_presale_id: 0,
            presales: HashMapWithView::new(),
            bonus_tiers: HashMapWithView::new(),
            contributions: HashMapWithView::new(),
            contributors: HashMapWithView::new(),
            total_raised: HashMapWithView::new(),
            whitelisted_accounts: HashMapWithView::new(),
            vesting_claimed: HashMapWithView::new(),
            total_platform_volume: 0,
            total_platform_fees: 0,
            successful_presales: 0,
            events: Vec::new(),
        }
    }

    /// The account that holds a presale's funds.
    pub fn presale_account_id(&self, id: u32) -> (r: u64)
        ensures
            r == spec_presale_account(self.config.pallet_id, id),
    {
        let mut buf: Vec<u8> = Vec::new();
        let mut i: usize = 0;
        while i < 8
            invariant
                0 <= i <= 8,
                buf@ == self.config.pallet_id@.subrange(0, i as int),
            decreases 8 - i,
        {
            buf.push(self.config.pallet_id[i]);
            i = i + 1;
        }
        buf.push((id % 256) as u8);
        buf.push(((id / 256) % 256) as u8);
        buf.push(((id / 65536) % 256) as u8);
        buf.push((id / 16777216) as u8);
        proof {
            reveal_with_fuel(le_bytes, 5);
            assert(buf@ =~= self.config.pallet_id@ + le_bytes(id as nat, 4));
        }
        let h = blake2_256_hash(&buf);
        let r = h[0] as u64 + 0x100 * (h[1] as u64) + 0x1_0000 * (h[2] as u64) + 0x100_0000 * (
        h[3] as u64) + 0x1_0000_0000 * (h[4] as u64) + 0x100_0000_0000 * (h[5] as u64)
            + 0x1_0000_0000_0000 * (h[6] as u64) + 0x100_0000_0000_0000 * (h[7] as u64);
        r
    }

    /// Why a presale with these parameters would be refused, if it would be.
    pub open spec fn creation_error(params: PresaleCreationParams) -> Option<Error> {
        if params.tokens_for_sale == 0 {
            Some(Error::InvalidTokensForSale)
        } else if params.limits.soft_cap == 0 {
            Some(Error::InvalidTokensForSale)
        } else if params.limits.soft_cap > params.limits.hard_cap {
            Some(Error::InvalidTokensForSale)
        } else if params.refund_config.refund_fee_percent > 100 {
            Some(Error::InvalidFeePercent)
        } else if params.refund_config.grace_refund_fee_percent > 100 {
            Some(Error::InvalidFeePercent)
        } else {
            None
        }
    }

    /// The configuration a new presale starts with.
    pub open spec fn created_config(
        owner: u64,
        payment_asset: u32,
        reward_asset: u32,
        params: PresaleCreationParams,
        now: u64,
    ) -> PresaleConfig {
        PresaleConfig {
            owner,
            payment_asset,
            reward_asset,
            tokens_for_sale: params.tokens_for_sale,
            start_block: now,
            duration: params.duration,
            status: PresaleStatus::Active,
            access_control: if params.is_whitelist {
                AccessControl::Whitelist
            } else {
                AccessControl::Public
            },
            limits: params.limits,
            vesting: params.vesting,
            grace_period_blocks: params.refund_config.grace_period_blocks,
            refund_fee_percent: params.refund_config.refund_fee_percent,
            grace_refund_fee_percent: params.refund_config.grace_refund_fee_percent,
        }
    }

    /// Create a presale, active from `now`, under the next free number.
    pub fn create_presale(
        &mut self,
        owner: u64,
        payment_asset: u32,
        reward_asset: u32,
        params: PresaleCreationParams,
        now: u64,
    ) -> (r: Result<(), Error>)
        requires
            old(self).wf(),
        ensures
            old(self).within_caps() && old(self).next_presale_id < u32::MAX ==> final(self).within_caps(),
            old(self).within_caps() && old(self).raised_matches() ==> final(self).raised_matches(),
            final(self).wf(),
            match Self::creation_error(params) {
                Some(e) => r == Err::<(), Error>(e) && final(self).unchanged(old(self)),
                None => {
                    &&& r == Ok::<(), Error>(())
                    &&& final(self).presales@ == old(self).presales@.insert(
                        old(self).next_presale_id,
                        Self::created_config(owner, payment_asset, reward_asset, params, now),
                    )
                    &&& final(self).next_presale_id == sat_add_u32(old(self).next_presale_id, 1)
                    &&& final(self).config == old(self).config
                    &&& final(self).bonus_tiers@ == old(self).bonus_tiers@
                    &&& final(self).contributions@ == old(self).contributions@
                    &&& final(self).contributors@ == old(self).contributors@
                    &&& final(self).total_raised@ == old(self).total_raised@
                    &&& final(self).whitelisted_accounts@ == old(self).whitelisted_accounts@
                    &&& final(self).vesting_claimed@ == old(self).vesting_claimed@
                    &&& final(self).total_platform_volume == old(self).total_platform_volume
                    &&& final(self).total_platform_fees == old(self).total_platform_fees
                    &&& final(self).successful_presales == old(self).successful_presales
                    &&& final(self).events@ == old(self).events@.push(
                        Event::PresaleCreated {
                            presale_id: old(self).next_presale_id,
                            owner,
                            payment_asset,
                            reward_asset,
                        },
                    )
                },
            },
    {
        if params.tokens_for_sale == 0 {
            return Err(Error::InvalidTokensForSale);
        }
        if params.limits.soft_cap == 0 {
            return Err(Error::InvalidTokensForSale);
        }
        if params.limits.soft_cap > params.limits.hard_cap {
            return Err(Error::InvalidTokensForSale);
        }
        if params.refund_config.refund_fee_percent > 100 {
            return Err(Error::InvalidFeePercent);
        }
        if params.refund_config.grace_refund_fee_percent > 100 {
            return Err(Error::InvalidFeePercent);
        }
        let presale_id = self.next_presale_id;
        let access_control = if params.is_whitelist {
            AccessControl::Whitelist
        } else {
            AccessControl::Public
        };
        let config = PresaleConfig {
            owner,
            payment_asset,
            reward_asset,
            tokens_for_sale: params.tokens_for_sale,
            start_block: now,
            duration: params.duration,
            status: PresaleStatus::Active,
            access_control,
            limits: params.limits,
            vesting: params.vesting,
            grace_period_blocks: params.refund_config.grace_period_blocks,
            refund_fee_percent: params.refund_config.refund_fee_percent,
            grace_refund_fee_percent: params.refund_config.grace_refund_fee_percent,
        };
        self.presales.insert(presale_id, config);
        self.next_presale_id = presale_id.saturating_add(1);
        self.events.push(Event::PresaleCreated { presale_id, owner, payment_asset, reward_asset });
        proof {
            if old(self).within_caps() && old(self).raised_matches() {
                old(self).lemma_raised_matches_kept(self);
            }
        }
        Ok(())
    }

    /// The presale's owner lets `account` contribute.
    pub fn add_to_whitelist(&mut self, who: u64, presale_id: u32, account: u64) -> (r: Result<
        (),
        Error,
    >)
        requires
            old(self).wf(),
        ensures
            old(self).within_caps() ==> final(self).within_caps(),
            old(self).within_caps() && old(self).raised_matches() ==> final(self).raised_matches(),
            final(self).wf(),
            !old(self).presales@.contains_key(presale_id) ==> r == Err::<(), Error>(
                Error::PresaleNotFound,
            ) && final(self).unchanged(old(self)),
            old(self).presales@.contains_key(presale_id) && who != old(self).presales@[presale_id].owner ==> r == Err::<(), Error>(Error::NotPresaleOwner)
                && final(self).unchanged(old(self)),
            old(self).presales@.contains_key(presale_id) && who == old(self).presales@[presale_id].owner ==> r == Ok::<(), Error>(()) && final(self).whitelisted_accounts@ == old(self).whitelisted_accounts@.insert(
                pair_key(presale_id, account),
                true,
            ) && final(self).presales@ == old(self).presales@ && final(self).contributions@ == old(self).contributions@ && final(self).contributors@ == old(self).contributors@ && final(self).total_raised@ == old(self).total_raised@ && final(self).vesting_claimed@ == old(self).vesting_claimed@
                && final(self).events@ == old(self).events@.push(Event::AccountWhitelisted { presale_id, account })
                && final(self).same_counters(old(self)),
    {
        let owner = match self.presales.get(&presale_id) {
            Some(p) => p.owner,
            None => return Err(Error::PresaleNotFound),
        };
        if who != owner {
            return Err(Error::NotPresaleOwner);
        }
        let k = make_pair_key(presale_id, account);
        self.whitelisted_accounts.insert(k, true);
        self.events.push(Event::AccountWhitelisted { presale_id, account });
        proof {
            if old(self).within_caps() && old(self).raised_matches() {
                old(self).lemma_raised_matches_kept(self);
            }
        }
        Ok(())
    }

    /// Cancel a presale that is still running or has succeeded but not been distributed.
    pub fn cancel_presale(&mut self, presale_id: u32) -> (r: Result<(), Error>)
        requires
            old(self).wf(),
        ensures
            old(self).within_caps() ==> final(self).within_caps(),
            old(self).within_caps() && old(self).raised_matches() ==> final(self).raised_matches(),
            final(self).wf(),
            !old(self).presales@.contains_key(presale_id) ==> r == Err::<(), Error>(
                Error::PresaleNotFound,
            ) && final(self).unchanged(old(self)),
            old(self).presales@.contains_key(presale_id) ==> {
                let p = old(self).presales@[presale_id];
                let cancellable = p.status == PresaleStatus::Active || p.status
                    == PresaleStatus::Pending || p.status == PresaleStatus::Paused || p.status
                    == PresaleStatus::Successful;
                &&& !cancellable ==> r == Err::<(), Error>(Error::AlreadyFinalized) && final(self).unchanged(old(self))
                &&& cancellable ==> r == Ok::<(), Error>(()) && final(self).presales@ == old(self).presales@.insert(presale_id, PresaleConfig { status: PresaleStatus::Cancelled, ..p })
                    && final(self).contributions@ == old(self).contributions@ && final(self).contributors@ == old(self).contributors@ && final(self).total_raised@ == old(self).total_raised@
                    && final(self).events@ == old(self).events@.push(Event::PresaleCancelled { presale_id })
                    && final(self).same_counters(old(self))
                    && final(self).whitelisted_accounts@ == old(self).whitelisted_accounts@
                    && final(self).vesting_claimed@ == old(self).vesting_claimed@
            },
    {
        let mut presale = match self.presales.get(&presale_id) {
            Some(p) => *p,
            None => return Err(Error::PresaleNotFound),
        };
        match presale.status {
            PresaleStatus::Active
            | PresaleStatus::Pending
            | PresaleStatus::Paused
            | PresaleStatus::Successful => {},
            _ => return Err(Error::AlreadyFinalized),
        }
        presale.status = PresaleStatus::Cancelled;
        self.presales.insert(presale_id, presale);
        self.events.push(Event::PresaleCancelled { presale_id });
        proof {
            if old(self).within_caps() && old(self).raised_matches() {
                old(self).lemma_raised_matches_kept(self);
            }
        }
        Ok(())
    }

    /// Close a presale once its time is up: successful if it reached its soft cap, failed
    /// otherwise.
    pub fn finalize_presale(&mut self, presale_id: u32, now: u64) -> (r: Result<(), Error>)
        requires
            old(self).wf(),
            old(self).presales@.contains_key(presale_id) ==> end_block(
                old(self).presales@[presale_id],
            ) <= u64::MAX,
        ensures
            old(self).within_caps() ==> final(self).within_caps(),
            old(self).within_caps() && old(self).raised_matches() ==> final(self).raised_matches(),
            final(self).wf(),
            !old(self).presales@.contains_key(presale_id) ==> r == Err::<(), Error>(
                Error::PresaleNotFound,
            ) && final(self).unchanged(old(self)),
            old(self).presales@.contains_key(presale_id) ==> {
                let p = old(self).presales@[presale_id];
                let raised = old(self).raised(presale_id);
                &&& p.status != PresaleStatus::Active ==> r == Err::<(), Error>(
                    Error::PresaleNotActive,
                ) && final(self).unchanged(old(self))
                &&& p.status == PresaleStatus::Active && now < end_block(p) ==> r == Err::<
                    (),
                    Error,
                >(Error::PresaleNotEnded) && final(self).unchanged(old(self))
                &&& p.status == PresaleStatus::Active && now >= end_block(p) ==> {
                    &&& r == Ok::<(), Error>(())
                    &&& final(self).presales@ == old(self).presales@.insert(
                        presale_id,
                        PresaleConfig {
                            status: if raised >= p.limits.soft_cap {
                                PresaleStatus::Successful
                            } else {
                                PresaleStatus::Failed
                            },
                            ..p
                        },
                    )
                    &&& final(self).successful_presales == if raised >= p.limits.soft_cap {
                        sat_add_u32(old(self).successful_presales, 1)
                    } else {
                        old(self).successful_presales
                    }
                    &&& final(self).contributions@ == old(self).contributions@
                    &&& final(self).contributors@ == old(self).contributors@
                    &&& final(self).total_raised@ == old(self).total_raised@
                    &&& final(self).vesting_claimed@ == old(self).vesting_claimed@
                    &&& final(self).whitelisted_accounts@ == old(self).whitelisted_accounts@
                    &&& final(self).config == old(self).config
                    &&& final(self).next_presale_id == old(self).next_presale_id
                    &&& final(self).bonus_tiers@ == old(self).bonus_tiers@
                    &&& final(self).total_platform_volume == old(self).total_platform_volume
                    &&& final(self).total_platform_fees == old(self).total_platform_fees
                    &&& final(self).events@ == old(self).events@ + if raised >= p.limits.soft_cap {
                        seq![
                            Event::PresaleSuccessful {
                                presale_id,
                                total_raised: raised,
                                soft_cap: p.limits.soft_cap,
                            },
                            Event::PresaleFinalized { presale_id, total_raised: raised },
                        ]
                    } else {
                        seq![
                            Event::PresaleFailed {
                                presale_id,
                                total_raised: raised,
                                soft_cap: p.limits.soft_cap,
                            },
                        ]
                    }
                }
            },
    {
        let mut presale = match self.presales.get(&presale_id) {
            Some(p) => *p,
            None => return Err(Error::PresaleNotFound),
        };
        if presale.status != PresaleStatus::Active {
            return Err(Error::PresaleNotActive);
        }
        let end_block = presale.start_block + presale.duration;
        if now < end_block {
            return Err(Error::PresaleNotEnded);
        }
        let total_raised = self.get_total_raised(presale_id);
        if total_raised >= presale.limits.soft_cap {
            presale.status = PresaleStatus::Successful;
            self.presales.insert(presale_id, presale);
            self.successful_presales = self.successful_presales.saturating_add(1);
            let soft_cap = presale.limits.soft_cap;
            self.events.push(Event::PresaleSuccessful { presale_id, total_raised, soft_cap });
            self.events.push(Event::PresaleFinalized { presale_id, total_raised });
        } else {
            presale.status = PresaleStatus::Failed;
            self.presales.insert(presale_id, presale);
            let soft_cap = presale.limits.soft_cap;
            self.events.push(Event::PresaleFailed { presale_id, total_raised, soft_cap });
        }
        proof {
            if old(self).within_caps() && old(self).raised_matches() {
                old(self).lemma_raised_matches_kept(self);
            }
        }
        Ok(())
    }

    /// What a presale has raised.
    pub fn get_total_raised(&self, presale_id: u32) -> (r: u128)
        ensures
            r == self.raised(presale_id),
    {
        match self.total_raised.get(&presale_id) {
            Some(v) => *v,
            None => 0,
        }
    }

    /// The bonus on `user_reward` for a contribution of `contribution` under the presale's
    /// tiers.
    pub fn calculate_bonus(&self, presale_id: u32, contribution: u128, user_reward: u128) -> (r:
        u128)
        ensures
            r == spec_bonus(self.tiers(presale_id), contribution, user_reward),
    {
        let empty: Vec<BonusTier> = Vec::new();
        let tiers = match self.bonus_tiers.get(&presale_id) {
            Some(t) => t,
            None => &empty,
        };
        let mut bonus_pct: u8 = 0;
        let mut i: usize = 0;
        while i < tiers.len()
            invariant
                0 <= i <= tiers@.len(),
                tiers@ == self.tiers(presale_id),
                bonus_pct == applicable_bonus(tiers@.subrange(0, i as int), contribution),
            decreases tiers@.len() - i,
        {
            let tier = tiers[i];
            if contribution >= tier.min_contribution {
                bonus_pct = tier.bonus_percentage;
            }
            proof {
                assert(tiers@.subrange(0, i + 1).drop_last() =~= tiers@.subrange(0, i as int));
            }
            i = i + 1;
        }
        proof {
            assert(tiers@.subrange(0, tiers@.len() as int) =~= tiers@);
        }
        if bonus_pct == 0 {
            return 0;
        }
        percent(user_reward, bonus_pct as u128)
    }

    /// A contributor's share of the tokens for sale.
    pub fn calculate_reward_dynamic(
        user_contribution: u128,
        total_raised: u128,
        tokens_for_sale: u128,
    ) -> (r: Result<u128, Error>)
        ensures
            r == spec_reward(user_contribution, total_raised, tokens_for_sale),
    {
        if total_raised == 0 {
            return Err(Error::ArithmeticOverflow);
        }
        match multiply_by_rational_down(user_contribution, tokens_for_sale, total_raised) {
            Some(v) => Ok(v),
            None => Err(Error::ArithmeticOverflow),
        }
    }

    /// Split a platform fee taken from `from`: the operations it needs.
    pub fn distribute_platform_fee(&self, asset: u32, from: u64, total_fee: u128) -> (r: Vec<
        AssetOp,
    >)
        ensures
            r@ == fee_ops(self.config, asset, from, total_fee),
    {
        let to_treasury = percent(total_fee, 50);
        let to_burn = percent(total_fee, 25);
        let to_stakers = percent(total_fee, 25);
        let mut ops: Vec<AssetOp> = Vec::new();
        ops.push(
            AssetOp::Transfer {
                asset,
                from,
                to: self.config.platform_treasury,
                amount: to_treasury,
                keep_alive: false,
            },
        );
        ops.push(AssetOp::Burn { asset, from, amount: to_burn });
        ops.push(
            AssetOp::Transfer {
                asset,
                from,
                to: self.config.staking_reward_pool,
                amount: to_stakers,
                keep_alive: false,
            },
        );
        proof {
            assert(ops@ =~= fee_ops(self.config, asset, from, total_fee));
        }
        ops
    }

    /// What an account has contributed to a presale so far.
    pub open spec fn contributed(&self, id: u32, who: u64) -> u128 {
        if self.contributions@.contains_key(pair_key(id, who)) {
            self.contributions@[pair_key(id, who)].amount
        } else {
            0
        }
    }

    /// Whether a contribution would be taken, and if so how much of it (what fits under the
    /// hard cap) and the platform's fee on that.
    pub open spec fn contribute_check(&self, who: u64, id: u32, amount: u128, now: u64) -> Result<
        (u128, u128),
        Error,
    > {
        if !self.presales@.contains_key(id) {
            Err(Error::PresaleNotFound)
        } else {
            let p = self.presales@[id];
            let new_total = sat_add(self.contributed(id, who), amount);
            let accepted = min_u128(amount, sat_sub(p.limits.hard_cap, self.raised(id)));
            if p.status != PresaleStatus::Active {
                Err(Error::PresaleNotActive)
            } else if amount == 0 {
                Err(Error::ZeroContribution)
            } else if now >= end_block(p) {
                Err(Error::PresaleEnded)
            } else if p.access_control == AccessControl::Whitelist && !self.is_whitelisted(id, who) {
                Err(Error::NotWhitelisted)
            } else if new_total < p.limits.min_contribution {
                Err(Error::BelowMinContribution)
            } else if new_total > p.limits.max_contribution {
                Err(Error::AboveMaxContribution)
            } else if accepted == 0 {
                Err(Error::HardCapReached)
            } else if !self.contributions@.contains_key(pair_key(id, who))
                && self.contributor_list(id).len() >= self.config.max_contributors {
                Err(Error::TooManyContributors)
            } else {
                Ok((accepted, percent_of(accepted, self.config.platform_fee_percent as u128)))
            }
        }
    }

    /// The operations a contribution needs: the net amount into the presale's account, then
    /// the platform fee split from the contributor.
    pub open spec fn contribute_ops_spec(&self, who: u64, id: u32, accepted: u128, fee: u128) -> Seq<
        AssetOp,
    > {
        let asset = self.presales@[id].payment_asset;
        seq![
            AssetOp::Transfer {
                asset,
                from: who,
                to: spec_presale_account(self.config.pallet_id, id),
                amount: sat_sub(accepted, fee),
                keep_alive: false,
            },
        ] + fee_ops(self.config, asset, who, fee)
    }

    /// The operations a contribution of `amount` at `now` needs, or why it is refused.
    pub fn contribute_ops(&self, who: u64, presale_id: u32, amount: u128, now: u64) -> (r: Result<
        Vec<AssetOp>,
        Error,
    >)
        requires
            self.presales@.contains_key(presale_id) ==> end_block(self.presales@[presale_id])
                <= u64::MAX,
        ensures
            match self.contribute_check(who, presale_id, amount, now) {
                Err(e) => r == Err::<Vec<AssetOp>, Error>(e),
                Ok((accepted, fee)) => r is Ok && r->Ok_0@ == self.contribute_ops_spec(
                    who,
                    presale_id,
                    accepted,
                    fee,
                ),
            },
    {
        let (accepted, fee, asset) = self.check_contribution(who, presale_id, amount, now)?;
        let treasury = self.presale_account_id(presale_id);
        let mut ops: Vec<AssetOp> = Vec::new();
        ops.push(
            AssetOp::Transfer {
                asset,
                from: who,
                to: treasury,
                amount: accepted.saturating_sub(fee),
                keep_alive: false,
            },
        );
        let mut fee_ops = self.distribute_platform_fee(asset, who, fee);
        ops.append(&mut fee_ops);
        Ok(ops)
    }

    /// The checks a contribution goes through, in order.
    fn check_contribution(&self, who: u64, presale_id: u32, amount: u128, now: u64) -> (r: Result<
        (u128, u128, u32),
        Error,
    >)
        requires
            self.presales@.contains_key(presale_id) ==> end_block(self.presales@[presale_id])
                <= u64::MAX,
        ensures
            match self.contribute_check(who, presale_id, amount, now) {
                Err(e) => r == Err::<(u128, u128, u32), Error>(e),
                Ok((accepted, fee)) => r == Ok::<(u128, u128, u32), Error>(
                    (accepted, fee, self.presales@[presale_id].payment_asset),
                ),
            },
    {
        let presale = match self.presales.get(&presale_id) {
            Some(p) => *p,
            None => return Err(Error::PresaleNotFound),
        };
        if presale.status != PresaleStatus::Active {
            return Err(Error::PresaleNotActive);
        }
        if amount == 0 {
            return Err(Error::ZeroContribution);
        }
        let end_block = presale.start_block + presale.duration;
        if now >= end_block {
            return Err(Error::PresaleEnded);
        }
        if presale.access_control == AccessControl::Whitelist {
            let k = make_pair_key(presale_id, who);
            let ok = match self.whitelisted_accounts.get(&k) {
                Some(b) => *b,
                None => false,
            };
            if !ok {
                return Err(Error::NotWhitelisted);
            }
        }
        let k = make_pair_key(presale_id, who);
        let current_amount = match self.contributions.get(&k) {
            Some(c) => c.amount,
            None => 0,
        };
        let new_total = current_amount.saturating_add(amount);
        if new_total < presale.limits.min_contribution {
            return Err(Error::BelowMinContribution);
        }
        if new_total > presale.limits.max_contribution {
            return Err(Error::AboveMaxContribution);
        }
        let total_raised = self.get_total_raised(presale_id);
        let remaining_capacity = presale.limits.hard_cap.saturating_sub(total_raised);
        let accepted = min(amount, remaining_capacity);
        if accepted == 0 {
            return Err(Error::HardCapReached);
        }
        if !self.contributions.contains_key(&k) {
            let listed = match self.contributors.get(&presale_id) {
                Some(l) => l.len(),
                None => 0,
            };
            if listed as u64 >= self.config.max_contributors as u64 {
                return Err(Error::TooManyContributors);
            }
        }
        let fee = percent(accepted, self.config.platform_fee_percent as u128);
        Ok((accepted, fee, presale.payment_asset))
    }

    /// The contribution record after contributing `accepted` at `now`: a first contribution
    /// is dated now; a later one adds to the recorded amount, a refunded one included, keeps
    /// the first date, and clears the refund.
    pub open spec fn contributed_info(&self, id: u32, who: u64, accepted: u128, now: u64) -> ContributionInfo {
        if self.contributions@.contains_key(pair_key(id, who)) {
            let e = self.contributions@[pair_key(id, who)];
            ContributionInfo {
                amount: sat_add(e.amount, accepted),
                contributed_at: e.contributed_at,
                refunded: false,
                refunded_at: None,
                refund_fee_paid: 0,
            }
        } else {
            ContributionInfo {
                amount: accepted,
                contributed_at: now,
                refunded: false,
                refunded_at: None,
                refund_fee_paid: 0,
            }
        }
    }

    /// Contribute `amount` to a presale at `now`. Only what fits under the hard cap is taken.
    /// `ops_made` says whether the operations `contribute_ops` named went through.
    pub fn contribute(&mut self, who: u64, presale_id: u32, amount: u128, now: u64, ops_made: bool) -> (r:
        Result<(), Error>)
        requires
            old(self).wf(),
            old(self).presales@.contains_key(presale_id) ==> end_block(
                old(self).presales@[presale_id],
            ) <= u64::MAX,
        ensures
            old(self).within_caps() ==> final(self).within_caps(),
            old(self).within_caps() && old(self).raised_matches() && !old(self).refunded_earlier(presale_id, who)
                ==> final(self).raised_matches(),
            final(self).wf(),
            match old(self).contribute_check(who, presale_id, amount, now) {
                Err(e) => r == Err::<(), Error>(e) && final(self).unchanged(old(self)),
                Ok((accepted, fee)) => {
                    let k = pair_key(presale_id, who);
                    let first = !old(self).contributions@.contains_key(k);
                    if !ops_made {
                        r == Err::<(), Error>(Error::AssetOperationFailed) && final(self).unchanged(
                            old(self),
                        )
                    } else {
                        &&& r == Ok::<(), Error>(())
                        &&& final(self).contributions@ == old(self).contributions@.insert(
                            k,
                            old(self).contributed_info(presale_id, who, accepted, now),
                        )
                        &&& final(self).contributor_list(presale_id) == if first {
                            old(self).contributor_list(presale_id).push(who)
                        } else {
                            old(self).contributor_list(presale_id)
                        }
                        &&& forall|other: u32|
                            other != presale_id ==> final(self).contributor_list(other) == old(self).contributor_list(other)
                        &&& final(self).total_raised@ == old(self).total_raised@.insert(
                            presale_id,
                            sat_add(old(self).raised(presale_id), accepted),
                        )
                        &&& final(self).total_platform_volume == sat_add(
                            old(self).total_platform_volume,
                            accepted,
                        )
                        &&& final(self).total_platform_fees == sat_add(
                            old(self).total_platform_fees,
                            fee,
                        )
                        &&& final(self).presales@ == old(self).presales@
                        &&& final(self).whitelisted_accounts@ == old(self).whitelisted_accounts@
                        &&& final(self).vesting_claimed@ == old(self).vesting_claimed@
                        &&& final(self).next_presale_id == old(self).next_presale_id
                        &&& final(self).successful_presales == old(self).successful_presales
                        &&& final(self).config == old(self).config
                        &&& final(self).bonus_tiers@ == old(self).bonus_tiers@
                        &&& final(self).events@ == old(self).events@.push(fee_event(fee)).push(
                            Event::Contributed { presale_id, who, amount: accepted, bonus_amount: 0 },
                        )
                    }
                },
            },
    {
        let (accepted, fee, _asset) = self.check_contribution(who, presale_id, amount, now)?;
        if !ops_made {
            return Err(Error::AssetOperationFailed);
        }
        let k = make_pair_key(presale_id, who);
        let ghost old_self = *self;
        let info = match self.contributions.get(&k) {
            Some(existing) => ContributionInfo {
                amount: existing.amount.saturating_add(accepted),
                contributed_at: existing.contributed_at,
                refunded: false,
                refunded_at: None,
                refund_fee_paid: 0,
            },
            None => {
                let mut list = match self.contributors.remove(&presale_id) {
                    Some(l) => l,
                    None => Vec::new(),
                };
                list.push(who);
                self.contributors.insert(presale_id, list);
                ContributionInfo {
                    amount: accepted,
                    contributed_at: now,
                    refunded: false,
                    refunded_at: None,
                    refund_fee_paid: 0,
                }
            },
        };
        let ghost mid = *self;
        self.contributions.insert(k, info);
        let total_raised = self.get_total_raised(presale_id);
        self.total_raised.insert(presale_id, total_raised.saturating_add(accepted));
        self.total_platform_volume = self.total_platform_volume.saturating_add(accepted);
        self.total_platform_fees = self.total_platform_fees.saturating_add(fee);
        self.events.push(Event::PlatformFeeDistributed {
            treasury_share: percent(fee, 50),
            burn_share: percent(fee, 25),
            staker_share: percent(fee, 25),
        });
        self.events.push(Event::Contributed { presale_id, who, amount: accepted, bonus_amount: 0 });
        proof {
            assert forall|id: u32| #[trigger] self.contributors@.contains_key(id) implies {
                let l = self.contributors@[id]@;
                &&& l.len() <= self.config.max_contributors
                &&& (forall|i: int|
                    0 <= i < l.len() ==> #[trigger] self.contributions@.contains_key(
                        pair_key(id, l[i]),
                    ))
                &&& (forall|i: int, j: int| 0 <= i < j < l.len() ==> l[i] != l[j])
            } by {
                let l = self.contributors@[id]@;
                if id == presale_id && !old_self.contributions@.contains_key(k) {
                    let ol = old_self.contributor_list(presale_id);
                    assert(l == ol.push(who));
                    assert forall|i: int| 0 <= i < ol.len() implies ol[i] != who by {
                        if old_self.contributors@.contains_key(presale_id) {
                            assert(old_self.contributions@.contains_key(pair_key(presale_id, ol[i])));
                        }
                    }
                    assert forall|i: int| 0 <= i < l.len() implies #[trigger] self.contributions@.contains_key(
                        pair_key(id, l[i])) by {
                        if i < ol.len() {
                            assert(old_self.contributors@.contains_key(presale_id));
                            assert(old_self.contributions@.contains_key(pair_key(presale_id, ol[i])));
                        }
                    }
                } else {
                    assert(old_self.contributors@.contains_key(id));
                    assert(l == old_self.contributors@[id]@);
                    assert forall|i: int| 0 <= i < l.len() implies #[trigger] self.contributions@.contains_key(
                        pair_key(id, l[i])) by {
                        assert(old_self.contributions@.contains_key(pair_key(id, l[i])));
                    }
                }
            }
        }
        proof {
            if old_self.within_caps() && old_self.raised_matches() && !old_self.refunded_earlier(presale_id, who) {
                old_self.lemma_contribution_keeps_raised(self, presale_id, who, accepted, now);
            }
        }
        Ok(())
    }

    /// Whether a refund before the presale ends would be made, and if so what is paid back
    /// and what the refund fee is. The fee is taken on what reached the presale account, and
    /// is the grace-period rate until the grace period after the first contribution ends.
    pub open spec fn refund_check(&self, who: u64, id: u32, now: u64) -> Result<(u128, u128), Error> {
        if !self.presales@.contains_key(id) {
            Err(Error::PresaleNotFound)
        } else {
            let p = self.presales@[id];
            let k = pair_key(id, who);
            if p.status != PresaleStatus::Active {
                Err(Error::RefundNotAllowed)
            } else if now >= end_block(p) {
                Err(Error::RefundNotAllowed)
            } else if !self.contributions@.contains_key(k) {
                Err(Error::NoContribution)
            } else if self.contributions@[k].refunded {
                Err(Error::RefundNotAllowed)
            } else if self.contributions@[k].amount == 0 {
                Err(Error::NoContribution)
            } else {
                let c = self.contributions@[k];
                let grace_end = crate::arith::sat_add_u64(c.contributed_at, p.grace_period_blocks);
                let fee_percent = if now <= grace_end {
                    p.grace_refund_fee_percent
                } else {
                    p.refund_fee_percent
                };
                let platform_fee = percent_of(c.amount, self.config.platform_fee_percent as u128);
                let net = sat_sub(c.amount, platform_fee);
                let fee = percent_of(net, fee_percent as u128);
                Ok((sat_sub(net, fee), fee))
            }
        }
    }

    /// The operations a refund needs: the refund out of the presale account, then, if there
    /// is a fee, its split from the presale account.
    pub open spec fn refund_ops_spec(&self, who: u64, id: u32, refund: u128, fee: u128) -> Seq<AssetOp> {
        let asset = self.presales@[id].payment_asset;
        let treasury = spec_presale_account(self.config.pallet_id, id);
        seq![AssetOp::Transfer { asset, from: treasury, to: who, amount: refund, keep_alive: false }]
            + if fee > 0 {
            fee_ops(self.config, asset, treasury, fee)
        } else {
            Seq::empty()
        }
    }

    fn check_refund(&self, who: u64, presale_id: u32, now: u64) -> (r: Result<(u128, u128, u32), Error>)
        requires
            self.presales@.contains_key(presale_id) ==> end_block(self.presales@[presale_id])
                <= u64::MAX,
        ensures
            match self.refund_check(who, presale_id, now) {
                Err(e) => r == Err::<(u128, u128, u32), Error>(e),
                Ok((refund, fee)) => r == Ok::<(u128, u128, u32), Error>(
                    (refund, fee, self.presales@[presale_id].payment_asset),
                ),
            },
    {
        let presale = match self.presales.get(&presale_id) {
            Some(p) => *p,
            None => return Err(Error::PresaleNotFound),
        };
        if presale.status != PresaleStatus::Active {
            return Err(Error::RefundNotAllowed);
        }
        let end_block = presale.start_block + presale.duration;
        if now >= end_block {
            return Err(Error::RefundNotAllowed);
        }
        let k = make_pair_key(presale_id, who);
        let c = match self.contributions.get(&k) {
            Some(c) => *c,
            None => return Err(Error::NoContribution),
        };
        if c.refunded {
            return Err(Error::RefundNotAllowed);
        }
        if c.amount == 0 {
            return Err(Error::NoContribution);
        }
        let grace_end = c.contributed_at.saturating_add(presale.grace_period_blocks);
        let fee_percent = if now <= grace_end {
            presale.grace_refund_fee_percent
        } else {
            presale.refund_fee_percent
        };
        let platform_fee = percent(c.amount, self.config.platform_fee_percent as u128);
        let net = c.amount.saturating_sub(platform_fee);
        let fee = percent(net, fee_percent as u128);
        Ok((net.saturating_sub(fee), fee, presale.payment_asset))
    }

    /// The operations a refund at `now` needs, or why it is refused.
    pub fn refund_ops(&self, who: u64, presale_id: u32, now: u64) -> (r: Result<Vec<AssetOp>, Error>)
        requires
            self.presales@.contains_key(presale_id) ==> end_block(self.presales@[presale_id])
                <= u64::MAX,
        ensures
            match self.refund_check(who, presale_id, now) {
                Err(e) => r == Err::<Vec<AssetOp>, Error>(e),
                Ok((refund, fee)) => r is Ok && r->Ok_0@ == self.refund_ops_spec(who, presale_id, refund, fee),
            },
    {
        let (refund_amount, fee, asset) = self.check_refund(who, presale_id, now)?;
        let treasury = self.presale_account_id(presale_id);
        let mut ops: Vec<AssetOp> = Vec::new();
        ops.push(AssetOp::Transfer { asset, from: treasury, to: who, amount: refund_amount, keep_alive: false });
        if fee > 0 {
            let mut fee_ops = self.distribute_platform_fee(asset, treasury, fee);
            ops.append(&mut fee_ops);
        }
        proof {
            assert(ops@ =~= self.refund_ops_spec(who, presale_id, refund_amount, fee));
        }
        Ok(ops)
    }

    /// Take a contribution back while the presale is still running. `ops_made` says whether
    /// the operations `refund_ops` named went through. The contribution is marked refunded,
    /// not removed, and leaves what the presale has raised.
    pub fn refund(&mut self, who: u64, presale_id: u32, now: u64, ops_made: bool) -> (r: Result<(), Error>)
        requires
            old(self).wf(),
            old(self).presales@.contains_key(presale_id) ==> end_block(
                old(self).presales@[presale_id],
            ) <= u64::MAX,
        ensures
            old(self).within_caps() ==> final(self).within_caps(),
            old(self).within_caps() && old(self).raised_matches() ==> final(self).raised_matches(),
            final(self).wf(),
            match old(self).refund_check(who, presale_id, now) {
                Err(e) => r == Err::<(), Error>(e) && final(self).unchanged(old(self)),
                Ok((refund, fee)) => if !ops_made {
                    r == Err::<(), Error>(Error::AssetOperationFailed) && final(self).unchanged(old(self))
                } else {
                    let k = pair_key(presale_id, who);
                    let c = old(self).contributions@[k];
                    &&& r == Ok::<(), Error>(())
                    &&& final(self).contributions@ == old(self).contributions@.insert(
                        k,
                        ContributionInfo {
                            refunded: true,
                            refunded_at: Some(now),
                            refund_fee_paid: fee,
                            ..c
                        },
                    )
                    &&& final(self).total_raised@ == old(self).total_raised@.insert(
                        presale_id,
                        sat_sub(old(self).raised(presale_id), c.amount),
                    )
                    &&& final(self).presales@ == old(self).presales@
                    &&& final(self).contributors@ == old(self).contributors@
                    &&& final(self).vesting_claimed@ == old(self).vesting_claimed@
                    &&& final(self).whitelisted_accounts@ == old(self).whitelisted_accounts@
                    &&& final(self).total_platform_volume == old(self).total_platform_volume
                    &&& final(self).total_platform_fees == old(self).total_platform_fees
                    &&& final(self).events@ == old(self).events@ + if fee > 0 {
                        seq![fee_event(fee)]
                    } else {
                        Seq::empty()
                    } + seq![Event::Refunded { presale_id, who, amount: refund, fee }]
                    &&& final(self).same_counters(old(self))
                },
            },
    {
        let (refund_amount, fee, _asset) = self.check_refund(who, presale_id, now)?;
        if !ops_made {
            return Err(Error::AssetOperationFailed);
        }
        let ghost old_self = *self;
        let k = make_pair_key(presale_id, who);
        let mut c = *self.contributions.get(&k).unwrap();
        c.refunded = true;
        c.refunded_at = Some(now);
        c.refund_fee_paid = fee;
        self.contributions.insert(k, c);
        let raised = self.get_total_raised(presale_id);
        self.total_raised.insert(presale_id, raised.saturating_sub(c.amount));
        let ghost before = self.events@;
        if fee > 0 {
            self.events.push(Event::PlatformFeeDistributed {
                treasury_share: percent(fee, 50),
                burn_share: percent(fee, 25),
                staker_share: percent(fee, 25),
            });
        }
        self.events.push(Event::Refunded { presale_id, who, amount: refund_amount, fee });
        proof {
            if fee > 0 {
                assert(self.events@ =~= before + seq![fee_event(fee)] + seq![Event::Refunded { presale_id, who, amount: refund_amount, fee }]);
            } else {
                assert(self.events@ =~= before + Seq::<Event>::empty() + seq![Event::Refunded { presale_id, who, amount: refund_amount, fee }]);
            }
        }
        proof {
            assert forall|id: u32| #[trigger] self.contributors@.contains_key(id) implies {
                let l = self.contributors@[id]@;
                &&& l.len() <= self.config.max_contributors
                &&& (forall|i: int|
                    0 <= i < l.len() ==> #[trigger] self.contributions@.contains_key(
                        pair_key(id, l[i]),
                    ))
                &&& (forall|i: int, j: int| 0 <= i < j < l.len() ==> l[i] != l[j])
            } by {
                let l = self.contributors@[id]@;
                assert forall|i: int| 0 <= i < l.len() implies #[trigger] self.contributions@.contains_key(
                    pair_key(id, l[i])) by {
                    assert(old_self.contributions@.contains_key(pair_key(id, l[i])));
                }
            }
        }
        proof {
            if old_self.within_caps() && old_self.raised_matches() {
                old_self.lemma_refund_keeps_raised(self, presale_id, who);
            }
        }
        Ok(())
    }

    /// Nothing vests during the cliff: before the presale's end plus the cliff, every claim is
    /// refused, and for a contributor who could otherwise claim the answer is that there is
    /// nothing to claim. At the first block after the cliff, what has been claimed in all is at
    /// most the part released at once: the vesting of the rest is measured from the end of the
    /// cliff.
    pub proof fn lemma_nothing_vests_during_the_cliff(&self, who: u64, id: u32, now: u64)
        requires
            self.presales@.contains_key(id),
            self.presales@[id].vesting is Some,
        ensures
            ({
                let p = self.presales@[id];
                let v = p.vesting->Some_0;
                let k = pair_key(id, who);
                &&& now < end_block(p) + v.cliff_blocks ==> self.claim_check(who, id, now) is Err
                &&& now < end_block(p) + v.cliff_blocks && p.status == PresaleStatus::Finalized
                    && self.contributions@.contains_key(k) && self.contributions@[k].amount > 0
                    && !self.contributions@[k].refunded
                    ==> self.claim_check(who, id, now) == Err::<u128, Error>(Error::NothingToClaim)
                &&& now == end_block(p) + v.cliff_blocks && v.vesting_duration_blocks > 0
                    && self.claim_check(who, id, now) is Ok
                    && self.distribute_total(id, who) is Ok
                    ==> self.claimed(id, who) + self.claim_check(who, id, now)->Ok_0 <= percent_of(
                    self.distribute_total(id, who)->Ok_0,
                    v.immediate_release_percent as u128,
                )
            }),
    {
        let p = self.presales@[id];
        let v = p.vesting->Some_0;
        if now == end_block(p) + v.cliff_blocks && v.vesting_duration_blocks > 0 && self.claim_check(who, id, now) is Ok {
            let total = self.distribute_total(id, who)->Ok_0;
            assert(crate::arith::sat_mul(0u128, 100) == 0);
            assert(crate::arith::sat_mul(crate::arith::sat_mul(total, sat_sub(100, v.immediate_release_percent as u128)), 0) == 0);
        }
    }

    /// A vesting claim cannot be repeated at the same block: once what was claimable at `now`
    /// has been recorded as claimed, another claim at `now` finds nothing to claim.
    pub proof fn lemma_claim_once_per_block(&self, after: &Self, who: u64, id: u32, now: u64)
        requires
            self.claim_check(who, id, now) is Ok,
            after.vesting_claimed@ == self.vesting_claimed@.insert(
                pair_key(id, who),
                sat_add(self.claimed(id, who), self.claim_check(who, id, now)->Ok_0),
            ),
            after.presales@ == self.presales@,
            after.contributions@ == self.contributions@,
            after.total_raised@ == self.total_raised@,
            after.bonus_tiers@ == self.bonus_tiers@,
        ensures
            after.claim_check(who, id, now) == Err::<u128, Error>(Error::NothingToClaim),
    {
        assert(after.tiers(id) == self.tiers(id));
        assert(after.raised(id) == self.raised(id));
    }

    /// What a contributor can claim of their vested tokens at `now`, or why nothing: once the
    /// vesting has run its course, whatever of their total they have not claimed; before that,
    /// the immediate part and the share of the rest vested so far, at most the total, less
    /// what they have claimed already.
    pub open spec fn claim_check(&self, who: u64, id: u32, now: u64) -> Result<u128, Error> {
        if !self.presales@.contains_key(id) {
            Err(Error::PresaleNotFound)
        } else {
            let p = self.presales@[id];
            let k = pair_key(id, who);
            match p.vesting {
                None => Err(Error::VestingNotEnabled),
                Some(v) => if p.status != PresaleStatus::Finalized {
                    Err(Error::PresaleNotActive)
                } else if !self.contributions@.contains_key(k) {
                    Err(Error::NoContribution)
                } else if self.contributions@[k].amount == 0 {
                    Err(Error::NoContribution)
                } else if self.contributions@[k].refunded {
                    Err(Error::NoContribution)
                } else if now < end_block(p) + v.cliff_blocks {
                    Err(Error::NothingToClaim)
                } else {
                    let c = self.contributions@[k];
                    match spec_reward(c.amount, self.raised(id), p.tokens_for_sale) {
                        Err(e) => Err(e),
                        Ok(reward) => {
                            let total = sat_add(
                                reward,
                                spec_bonus(self.tiers(id), c.amount, reward),
                            );
                            let already = self.claimed(id, who);
                            let vesting_start = end_block(p) + v.cliff_blocks;
                            let claimable = if now >= vesting_start + v.vesting_duration_blocks {
                                sat_sub(total, already)
                            } else {
                                let vested_percent = crate::arith::sat_mul(
                                    (now - vesting_start) as u128,
                                    100,
                                ) / (v.vesting_duration_blocks as u128);
                                let vesting_percent = sat_sub(100, v.immediate_release_percent as u128);
                                let vested = crate::arith::sat_mul(
                                    crate::arith::sat_mul(total, vesting_percent),
                                    vested_percent,
                                ) / 10000;
                                let immediate = percent_of(total, v.immediate_release_percent as u128);
                                sat_sub(min_u128(sat_add(immediate, vested), total), already)
                            };
                            if claimable == 0 {
                                Err(Error::NothingToClaim)
                            } else {
                                Ok(claimable)
                            }
                        },
                    }
                },
            }
        }
    }

    /// A presale's vesting schedule fits in a block number.
    pub open spec fn vesting_fits(&self, id: u32) -> bool {
        self.presales@.contains_key(id) ==> end_block(self.presales@[id]) <= u64::MAX && match self.presales@[id].vesting {
            Some(v) => end_block(self.presales@[id]) + v.cliff_blocks + v.vesting_duration_blocks <= u64::MAX,
            None => true,
        }
    }

    fn check_claim(&self, who: u64, presale_id: u32, now: u64) -> (r: Result<(u128, u32), Error>)
        requires
            self.vesting_fits(presale_id),
        ensures
            match self.claim_check(who, presale_id, now) {
                Err(e) => r == Err::<(u128, u32), Error>(e),
                Ok(c) => r == Ok::<(u128, u32), Error>((c, self.presales@[presale_id].reward_asset)),
            },
    {
        let presale = match self.presales.get(&presale_id) {
            Some(p) => *p,
            None => return Err(Error::PresaleNotFound),
        };
        let vesting = match presale.vesting {
            Some(v) => v,
            None => return Err(Error::VestingNotEnabled),
        };
        if presale.status != PresaleStatus::Finalized {
            return Err(Error::PresaleNotActive);
        }
        let k = make_pair_key(presale_id, who);
        let c = match self.contributions.get(&k) {
            Some(c) => *c,
            None => return Err(Error::NoContribution),
        };
        if c.amount == 0 {
            return Err(Error::NoContribution);
        }
        if c.refunded {
            return Err(Error::NoContribution);
        }
        let end_block = presale.start_block + presale.duration;
        let vesting_start = end_block + vesting.cliff_blocks;
        if now < vesting_start {
            return Err(Error::NothingToClaim);
        }
        let total_raised = self.get_total_raised(presale_id);
        let total_reward = Self::calculate_reward_dynamic(c.amount, total_raised, presale.tokens_for_sale)?;
        let bonus = self.calculate_bonus(presale_id, c.amount, total_reward);
        let total_with_bonus = total_reward.saturating_add(bonus);
        let already_claimed = match self.vesting_claimed.get(&k) {
            Some(v) => *v,
            None => 0,
        };
        let vesting_end = vesting_start + vesting.vesting_duration_blocks;
        let claimable = if now >= vesting_end {
            total_with_bonus.saturating_sub(already_claimed)
        } else {
            let elapsed = (now - vesting_start) as u128;
            let duration = vesting.vesting_duration_blocks as u128;
            let vested_percent = crate::arith::saturating_mul(elapsed, 100) / duration;
            let immediate_percent = vesting.immediate_release_percent as u128;
            let vesting_percent = 100u128.saturating_sub(immediate_percent);
            let vested_amount = crate::arith::saturating_mul(
                crate::arith::saturating_mul(total_with_bonus, vesting_percent),
                vested_percent,
            ) / 10000;
            let immediate = percent(total_with_bonus, immediate_percent);
            let total_unlocked = min(immediate.saturating_add(vested_amount), total_with_bonus);
            total_unlocked.saturating_sub(already_claimed)
        };
        if claimable == 0 {
            return Err(Error::NothingToClaim);
        }
        Ok((claimable, presale.reward_asset))
    }

    /// The operation a vesting claim at `now` needs, or why it is refused.
    pub fn claim_vested_ops(&self, who: u64, presale_id: u32, now: u64) -> (r: Result<Vec<AssetOp>, Error>)
        requires
            self.vesting_fits(presale_id),
        ensures
            match self.claim_check(who, presale_id, now) {
                Err(e) => r == Err::<Vec<AssetOp>, Error>(e),
                Ok(c) => r is Ok && r->Ok_0@ == seq![
                    AssetOp::Transfer {
                        asset: self.presales@[presale_id].reward_asset,
                        from: spec_presale_account(self.config.pallet_id, presale_id),
                        to: who,
                        amount: c,
                        keep_alive: true,
                    },
                ],
            },
    {
        let (claimable, asset) = self.check_claim(who, presale_id, now)?;
        let treasury = self.presale_account_id(presale_id);
        let mut ops: Vec<AssetOp> = Vec::new();
        ops.push(AssetOp::Transfer { asset, from: treasury, to: who, amount: claimable, keep_alive: true });
        proof {
            assert(ops@ =~= seq![AssetOp::Transfer { asset, from: treasury, to: who, amount: claimable, keep_alive: true }]);
        }
        Ok(ops)
    }

    /// Claim what has vested. `ops_made` says whether the transfer `claim_vested_ops` named
    /// went through.
    pub fn claim_vested(&mut self, who: u64, presale_id: u32, now: u64, ops_made: bool) -> (r: Result<(), Error>)
        requires
            old(self).wf(),
            old(self).vesting_fits(presale_id),
        ensures
            old(self).within_caps() ==> final(self).within_caps(),
            old(self).within_caps() && old(self).raised_matches() ==> final(self).raised_matches(),
            final(self).wf(),
            match old(self).claim_check(who, presale_id, now) {
                Err(e) => r == Err::<(), Error>(e) && final(self).unchanged(old(self)),
                Ok(c) => if !ops_made {
                    r == Err::<(), Error>(Error::AssetOperationFailed) && final(self).unchanged(old(self))
                } else {
                    &&& r == Ok::<(), Error>(())
                    &&& final(self).vesting_claimed@ == old(self).vesting_claimed@.insert(
                        pair_key(presale_id, who),
                        sat_add(old(self).claimed(presale_id, who), c),
                    )
                    &&& final(self).presales@ == old(self).presales@
                    &&& final(self).contributions@ == old(self).contributions@
                    &&& final(self).contributors@ == old(self).contributors@
                    &&& final(self).total_raised@ == old(self).total_raised@
                    &&& final(self).events@ == old(self).events@.push(
                        Event::VestingClaimed { presale_id, who, amount: c },
                    )
                    &&& old(self).distribute_total(presale_id, who) is Ok
                    &&& old(self).claimed(presale_id, who) + c <= old(self).distribute_total(presale_id, who)->Ok_0
                    &&& final(self).same_counters(old(self))
                    &&& final(self).whitelisted_accounts@ == old(self).whitelisted_accounts@
                },
            },
    {
        let (claimable, _asset) = self.check_claim(who, presale_id, now)?;
        if !ops_made {
            return Err(Error::AssetOperationFailed);
        }
        let k = make_pair_key(presale_id, who);
        let already = match self.vesting_claimed.get(&k) {
            Some(v) => *v,
            None => 0,
        };
        self.vesting_claimed.insert(k, already.saturating_add(claimable));
        self.events.push(Event::VestingClaimed { presale_id, who, amount: claimable });
        proof {
            if old(self).within_caps() && old(self).raised_matches() {
                old(self).lemma_raised_matches_kept(self);
            }
        }
        Ok(())
    }

    /// Where a batch starting at `start` of up to `batch_size` contributors stops.
    pub open spec fn batch_end(&self, id: u32, start: u32, batch_size: u32) -> int {
        let len = self.contributor_list(id).len() as int;
        let e = sat_add_u32(start, batch_size) as int;
        if e <= len {
            e
        } else {
            len
        }
    }

    /// Whether a contributor still has a contribution to give back.
    pub open spec fn refundable(&self, id: u32, who: u64) -> bool {
        let k = pair_key(id, who);
        self.contributions@.contains_key(k) && !self.contributions@[k].refunded
            && self.contributions@[k].amount > 0
    }

    /// What reached the presale account from a contribution: the amount less the platform fee.
    pub open spec fn net_contribution(&self, amount: u128) -> u128 {
        sat_sub(amount, percent_of(amount, self.config.platform_fee_percent as u128))
    }

    /// The refunds of contributors `lo .. hi` of a presale's list.
    pub open spec fn batch_refund_ops_spec(&self, id: u32, lo: int, hi: int) -> Seq<AssetOp>
        decreases hi - lo,
    {
        if hi <= lo {
            Seq::empty()
        } else {
            let who = self.contributor_list(id)[hi - 1];
            self.batch_refund_ops_spec(id, lo, hi - 1) + if self.refundable(id, who) {
                seq![
                    AssetOp::Transfer {
                        asset: self.presales@[id].payment_asset,
                        from: spec_presale_account(self.config.pallet_id, id),
                        to: who,
                        amount: self.net_contribution(self.contributions@[pair_key(id, who)].amount),
                        keep_alive: true,
                    },
                ]
            } else {
                Seq::empty()
            }
        }
    }

    /// The refunds reported for contributors `lo .. hi`: each one refunded, with what they
    /// had contributed and no fee.
    pub open spec fn batch_refund_events(&self, id: u32, lo: int, hi: int) -> Seq<Event>
        decreases hi - lo,
    {
        if hi <= lo {
            Seq::empty()
        } else {
            let who = self.contributor_list(id)[hi - 1];
            self.batch_refund_events(id, lo, hi - 1) + if self.refundable(id, who) {
                seq![
                    Event::Refunded {
                        presale_id: id,
                        who,
                        amount: self.contributions@[pair_key(id, who)].amount,
                        fee: 0,
                    },
                ]
            } else {
                Seq::empty()
            }
        }
    }

    /// How many of contributors `lo .. hi` a batch refund reaches.
    pub open spec fn batch_refund_count(&self, id: u32, lo: int, hi: int) -> nat
        decreases hi - lo,
    {
        if hi <= lo {
            0
        } else {
            self.batch_refund_count(id, lo, hi - 1) + if self.refundable(
                id,
                self.contributor_list(id)[hi - 1],
            ) {
                1nat
            } else {
                0nat
            }
        }
    }

    /// What the contributors `lo .. hi` that a batch refund reaches had contributed, summed
    /// with saturation.
    pub open spec fn batch_refund_total(&self, id: u32, lo: int, hi: int) -> u128
        decreases hi - lo,
    {
        if hi <= lo {
            0
        } else {
            let who = self.contributor_list(id)[hi - 1];
            if self.refundable(id, who) {
                sat_add(
                    self.batch_refund_total(id, lo, hi - 1),
                    self.contributions@[pair_key(id, who)].amount,
                )
            } else {
                self.batch_refund_total(id, lo, hi - 1)
            }
        }
    }

    /// What a batch refund of contributors `lo .. hi` reports: each refund, then the count
    /// and the total.
    pub open spec fn batch_refund_report(&self, id: u32, lo: int, hi: int) -> Seq<Event> {
        self.batch_refund_events(id, lo, hi) + seq![
            Event::BatchRefundCompleted {
                presale_id: id,
                refunded_count: self.batch_refund_count(id, lo, hi) as u32,
                total_refunded: self.batch_refund_total(id, lo, hi),
            },
        ]
    }

    /// Why a batch refund of a presale in this state is refused, if it is: `cancelled` is
    /// the refund of a cancelled presale, otherwise of a failed one.
    pub open spec fn batch_refund_error(&self, id: u32, cancelled: bool) -> Option<Error> {
        if !self.presales@.contains_key(id) {
            Some(Error::PresaleNotFound)
        } else if cancelled && self.presales@[id].status != PresaleStatus::Cancelled {
            Some(Error::PresaleNotFound)
        } else if !cancelled && self.presales@[id].status != PresaleStatus::Failed {
            Some(Error::PresaleNotFailed)
        } else {
            None
        }
    }

    fn batch_refund_ops(&self, presale_id: u32, start_index: u32, batch_size: u32, cancelled: bool) -> (r: Result<
        Vec<AssetOp>,
        Error,
    >)
        requires
            self.wf(),
        ensures
            match self.batch_refund_error(presale_id, cancelled) {
                Some(e) => r == Err::<Vec<AssetOp>, Error>(e),
                None => r is Ok && r->Ok_0@ == self.batch_refund_ops_spec(
                    presale_id,
                    start_index as int,
                    self.batch_end(presale_id, start_index, batch_size),
                ),
            },
    {
        let presale = match self.presales.get(&presale_id) {
            Some(p) => *p,
            None => return Err(Error::PresaleNotFound),
        };
        if cancelled {
            if presale.status != PresaleStatus::Cancelled {
                return Err(Error::PresaleNotFound);
            }
        } else if presale.status != PresaleStatus::Failed {
            return Err(Error::PresaleNotFailed);
        }
        let treasury = self.presale_account_id(presale_id);
        let empty: Vec<u64> = Vec::new();
        let contributors = match self.contributors.get(&presale_id) {
            Some(l) => l,
            None => &empty,
        };
        let end_index = min_u32(start_index.saturating_add(batch_size), contributors.len() as u32);
        let mut ops: Vec<AssetOp> = Vec::new();
        let mut i = start_index;
        while i < end_index
            invariant
                i == start_index || start_index < i <= end_index,
                contributors@ == self.contributor_list(presale_id),
                end_index as int == self.batch_end(presale_id, start_index, batch_size),
                end_index <= contributors@.len(),
                i >= start_index,
                treasury == spec_presale_account(self.config.pallet_id, presale_id),
                presale == self.presales@[presale_id],
                ops@ == self.batch_refund_ops_spec(presale_id, start_index as int, i as int),
            decreases end_index - i,
        {
            let who = contributors[i as usize];
            let k = make_pair_key(presale_id, who);
            match self.contributions.get(&k) {
                Some(c) => {
                    if !c.refunded && c.amount > 0 {
                        let platform_fee = percent(c.amount, self.config.platform_fee_percent as u128);
                        let net = c.amount.saturating_sub(platform_fee);
                        ops.push(AssetOp::Transfer {
                            asset: presale.payment_asset,
                            from: treasury,
                            to: who,
                            amount: net,
                            keep_alive: true,
                        });
                    }
                },
                None => {},
            }
            i = i + 1;
        }
        Ok(ops)
    }

    /// The contribution record of a contributor refunded in a batch: marked refunded now, with
    /// the platform fee as the refund fee when the presale was cancelled and none when it
    /// failed.
    pub open spec fn batch_refunded(&self, c: ContributionInfo, now: u64, cancelled: bool) -> ContributionInfo {
        ContributionInfo {
            refunded: true,
            refunded_at: Some(now),
            refund_fee_paid: if cancelled {
                percent_of(c.amount, self.config.platform_fee_percent as u128)
            } else {
                0
            },
            ..c
        }
    }

    /// The contributions after refunding contributors `lo .. hi`.
    pub open spec fn batch_refunded_contributions(
        &self,
        id: u32,
        lo: int,
        hi: int,
        now: u64,
        cancelled: bool,
        result: Map<u128, ContributionInfo>,
    ) -> bool {
        let l = self.contributor_list(id);
        &&& result.dom() == self.contributions@.dom()
        &&& forall|i: int|
            lo <= i < hi ==> #[trigger] result[pair_key(id, l[i])] == if self.refundable(id, l[i]) {
                self.batch_refunded(self.contributions@[pair_key(id, l[i])], now, cancelled)
            } else {
                self.contributions@[pair_key(id, l[i])]
            }
        &&& forall|k: u128|
            #![trigger result[k]]
            (forall|i: int| lo <= i < hi ==> k != pair_key(id, l[i])) ==> result[k]
                == self.contributions@[k]
    }

    fn batch_refund(
        &mut self,
        presale_id: u32,
        start_index: u32,
        batch_size: u32,
        now: u64,
        ops_made: bool,
        cancelled: bool,
    ) -> (r: Result<(), Error>)
        requires
            old(self).wf(),
        ensures
            old(self).within_caps() ==> final(self).within_caps(),
            old(self).within_caps() && old(self).raised_matches() ==> final(self).raised_matches(),
            final(self).wf(),
            match old(self).batch_refund_error(presale_id, cancelled) {
                Some(e) => r == Err::<(), Error>(e) && final(self).unchanged(old(self)),
                None => if !ops_made {
                    r == Err::<(), Error>(Error::AssetOperationFailed) && final(self).unchanged(old(self))
                } else {
                    &&& r == Ok::<(), Error>(())
                    &&& old(self).batch_refunded_contributions(
                        presale_id,
                        start_index as int,
                        old(self).batch_end(presale_id, start_index, batch_size),
                        now,
                        cancelled,
                        final(self).contributions@,
                    )
                    &&& final(self).presales@ == old(self).presales@
                    &&& final(self).contributors@ == old(self).contributors@
                    &&& final(self).total_raised@ == old(self).total_raised@
                    &&& final(self).vesting_claimed@ == old(self).vesting_claimed@
                    &&& final(self).events@ == old(self).events@ + old(self).batch_refund_report(
                        presale_id,
                        start_index as int,
                        old(self).batch_end(presale_id, start_index, batch_size),
                    )
                    &&& final(self).same_counters(old(self))
                    &&& final(self).whitelisted_accounts@ == old(self).whitelisted_accounts@
                    &&& final(self).whitelisted_accounts@ == old(self).whitelisted_accounts@
                    &&& final(self).total_platform_volume == old(self).total_platform_volume
                    &&& final(self).total_platform_fees == old(self).total_platform_fees
                },
            },
    {
        let presale = match self.presales.get(&presale_id) {
            Some(p) => *p,
            None => return Err(Error::PresaleNotFound),
        };
        if cancelled {
            if presale.status != PresaleStatus::Cancelled {
                return Err(Error::PresaleNotFound);
            }
        } else if presale.status != PresaleStatus::Failed {
            return Err(Error::PresaleNotFailed);
        }
        if !ops_made {
            return Err(Error::AssetOperationFailed);
        }
        let ghost old_self = *self;
        let had_list = self.contributors.contains_key(&presale_id);
        let contributors = match self.contributors.remove(&presale_id) {
            Some(l) => l,
            None => Vec::new(),
        };
        assert(contributors@ == old_self.contributor_list(presale_id));
        let end_index = min_u32(start_index.saturating_add(batch_size), contributors.len() as u32);
        let mut refunded_count: u32 = 0;
        let mut total_refunded: u128 = 0;
        let mut i = start_index;
        while i < end_index
            invariant
                i == start_index || start_index < i <= end_index,
                i >= start_index,
                old_self.wf(),
                refunded_count <= i - start_index,
                refunded_count as nat == old_self.batch_refund_count(presale_id, start_index as int, i as int),
                total_refunded == old_self.batch_refund_total(presale_id, start_index as int, i as int),
                self.events@ == old_self.events@ + old_self.batch_refund_events(presale_id, start_index as int, i as int),
                contributors@ == old_self.contributor_list(presale_id),
                end_index as int == old_self.batch_end(presale_id, start_index, batch_size),
                end_index <= contributors@.len(),
                self.config == old_self.config,
                old_self.batch_refunded_contributions(
                    presale_id,
                    start_index as int,
                    i as int,
                    now,
                    cancelled,
                    self.contributions@,
                ),
                self.presales@ == old_self.presales@,
                self.next_presale_id == old_self.next_presale_id,
                self.contributors@ == old_self.contributors@.remove(presale_id),
                self.total_raised@ == old_self.total_raised@,
                self.vesting_claimed@ == old_self.vesting_claimed@,
                self.whitelisted_accounts@ == old_self.whitelisted_accounts@,
                self.total_platform_volume == old_self.total_platform_volume,
                self.total_platform_fees == old_self.total_platform_fees,
                self.bonus_tiers@ == old_self.bonus_tiers@,
                self.successful_presales == old_self.successful_presales,
            decreases end_index - i,
        {
            let who = contributors[i as usize];
            let k = make_pair_key(presale_id, who);
            let ghost l = contributors@;
            proof {
                assert(old_self.contributors@.contains_key(presale_id));
                assert forall|j: int| start_index <= j < i implies k != pair_key(presale_id, #[trigger] l[j]) by {
                    assert(old_self.contributors@.contains_key(presale_id));
                }
                assert(self.contributions@[k] == old_self.contributions@[k]);
                if old_self.contributors@.contains_key(presale_id) {
                    assert(old_self.contributions@.contains_key(pair_key(presale_id, l[i as int])));
                }
            }
            let current = *self.contributions.get(&k).unwrap();
            if !current.refunded && current.amount > 0 {
                let platform_fee = percent(current.amount, self.config.platform_fee_percent as u128);
                let updated = ContributionInfo {
                    refunded: true,
                    refunded_at: Some(now),
                    refund_fee_paid: if cancelled {
                        platform_fee
                    } else {
                        0
                    },
                    ..current
                };
                self.contributions.insert(k, updated);
                refunded_count = refunded_count + 1;
                total_refunded = total_refunded.saturating_add(current.amount);
                self.events.push(Event::Refunded { presale_id, who, amount: current.amount, fee: 0 });
            }
            proof {
                let l0 = old_self.contributor_list(presale_id);
                assert(l0[i as int] == who);
                assert(old_self.batch_refund_events(presale_id, start_index as int, i + 1)
                    == old_self.batch_refund_events(presale_id, start_index as int, i as int) + if old_self.refundable(presale_id, who) {
                    seq![Event::Refunded { presale_id, who, amount: old_self.contributions@[k].amount, fee: 0 }]
                } else {
                    Seq::<Event>::empty()
                });
                assert(self.events@ =~= old_self.events@ + old_self.batch_refund_events(presale_id, start_index as int, i + 1));
            }
            proof {
                let hi = i + 1;
                assert(self.contributions@.dom() =~= old_self.contributions@.dom());
                assert forall|kk: u128|
                    (forall|j: int| start_index <= j < hi ==> kk != pair_key(presale_id, l[j])) implies #[trigger] self.contributions@[kk]
                        == old_self.contributions@[kk] by {
                    assert(kk != pair_key(presale_id, l[i as int]));
                }
                assert forall|j: int| start_index <= j < hi implies #[trigger] self.contributions@[pair_key(presale_id, l[j])] == if old_self.refundable(presale_id, l[j]) {
                    old_self.batch_refunded(old_self.contributions@[pair_key(presale_id, l[j])], now, cancelled)
                } else {
                    old_self.contributions@[pair_key(presale_id, l[j])]
                } by {
                    if j < i {
                        assert(old_self.contributors@.contains_key(presale_id));
                        assert(l[j] != l[i as int]);
                    }
                }
            }
            i = i + 1;
        }
        if had_list {
            self.contributors.insert(presale_id, contributors);
        }
        self.events.push(Event::BatchRefundCompleted { presale_id, refunded_count, total_refunded });
        proof {
            assert(self.events@ =~= old_self.events@ + old_self.batch_refund_report(presale_id, start_index as int, end_index as int));
            assert(self.contributors@ =~= old_self.contributors@);
            assert forall|id: u32| #[trigger] self.contributors@.contains_key(id) implies {
                let l = self.contributors@[id]@;
                &&& l.len() <= self.config.max_contributors
                &&& (forall|i: int|
                    0 <= i < l.len() ==> #[trigger] self.contributions@.contains_key(
                        pair_key(id, l[i]),
                    ))
                &&& (forall|i: int, j: int| 0 <= i < j < l.len() ==> l[i] != l[j])
            } by {
                let l = self.contributors@[id]@;
                assert forall|i: int| 0 <= i < l.len() implies #[trigger] self.contributions@.contains_key(
                    pair_key(id, l[i])) by {
                    assert(old_self.contributions@.contains_key(pair_key(id, l[i])));
                }
            }
        }
        proof {
            if old_self.raised_matches() {
                let l = old_self.contributor_list(presale_id);
                assert forall|id2: u32, w: u64| #[trigger] self.contributions@.contains_key(pair_key(id2, w))
                    implies self.contributor_list(id2).contains(w) by {
                    assert(old_self.contributions@.contains_key(pair_key(id2, w)));
                    assert(self.contributor_list(id2) == old_self.contributor_list(id2));
                }
                assert forall|id2: u32| #![trigger self.contributor_list(id2)]
                    !self.presales@.contains_key(id2) implies self.contributor_list(id2).len() == 0 by {
                    assert(self.contributor_list(id2) == old_self.contributor_list(id2));
                }
                assert forall|id2: u32| #[trigger] self.presales@.contains_key(id2)
                    && self.presales@[id2].status != PresaleStatus::Failed
                    && self.presales@[id2].status != PresaleStatus::Cancelled
                    implies self.raised(id2) as nat == standing_sum(self.contributor_list(id2), id2, self.contributions@) by {
                    assert(id2 != presale_id);
                    let l2 = old_self.contributor_list(id2);
                    assert(self.contributor_list(id2) == l2);
                    assert forall|i: int| 0 <= i < l2.len() implies standing(old_self.contributions@, id2, #[trigger] l2[i])
                        == standing(self.contributions@, id2, l2[i]) by {
                        let k = pair_key(id2, l2[i]);
                        assert forall|j: int| start_index <= j < end_index implies k != pair_key(presale_id, l[j]) by {}
                        assert(self.contributions@[k] == old_self.contributions@[k]);
                        assert(self.contributions@.dom().contains(k) == old_self.contributions@.dom().contains(k));
                    }
                    lemma_standing_sum_congruent(l2, id2, old_self.contributions@, self.contributions@);
                }
            }
        }
        Ok(())
    }

    /// The refunds a batch of a cancelled presale's contributors need, or why it is refused.
    pub fn refund_cancelled_presale_ops(&self, presale_id: u32, start_index: u32, batch_size: u32) -> (r: Result<
        Vec<AssetOp>,
        Error,
    >)
        requires
            self.wf(),
        ensures
            match self.batch_refund_error(presale_id, true) {
                Some(e) => r == Err::<Vec<AssetOp>, Error>(e),
                None => r is Ok && r->Ok_0@ == self.batch_refund_ops_spec(
                    presale_id,
                    start_index as int,
                    self.batch_end(presale_id, start_index, batch_size),
                ),
            },
    {
        self.batch_refund_ops(presale_id, start_index, batch_size, true)
    }

    /// Refund a batch of a cancelled presale's contributors in full, less the platform fee
    /// they already paid. `ops_made` says whether the refunds went through.
    pub fn refund_cancelled_presale(
        &mut self,
        presale_id: u32,
        start_index: u32,
        batch_size: u32,
        now: u64,
        ops_made: bool,
    ) -> (r: Result<(), Error>)
        requires
            old(self).wf(),
        ensures
            old(self).within_caps() ==> final(self).within_caps(),
            old(self).within_caps() && old(self).raised_matches() ==> final(self).raised_matches(),
            final(self).wf(),
            match old(self).batch_refund_error(presale_id, true) {
                Some(e) => r == Err::<(), Error>(e) && final(self).unchanged(old(self)),
                None => if !ops_made {
                    r == Err::<(), Error>(Error::AssetOperationFailed) && final(self).unchanged(old(self))
                } else {
                    &&& r == Ok::<(), Error>(())
                    &&& old(self).batch_refunded_contributions(
                        presale_id,
                        start_index as int,
                        old(self).batch_end(presale_id, start_index, batch_size),
                        now,
                        true,
                        final(self).contributions@,
                    )
                    &&& final(self).presales@ == old(self).presales@
                    &&& final(self).contributors@ == old(self).contributors@
                    &&& final(self).total_raised@ == old(self).total_raised@
                    &&& final(self).vesting_claimed@ == old(self).vesting_claimed@
                    &&& final(self).events@ == old(self).events@ + old(self).batch_refund_report(
                        presale_id,
                        start_index as int,
                        old(self).batch_end(presale_id, start_index, batch_size),
                    )
                    &&& final(self).same_counters(old(self))
                    &&& final(self).whitelisted_accounts@ == old(self).whitelisted_accounts@
                },
            },
    {
        self.batch_refund(presale_id, start_index, batch_size, now, ops_made, true)
    }

    /// The refunds a batch of a failed presale's contributors need, or why it is refused.
    pub fn batch_refund_failed_presale_ops(&self, presale_id: u32, start_index: u32, batch_size: u32) -> (r: Result<
        Vec<AssetOp>,
        Error,
    >)
        requires
            self.wf(),
        ensures
            match self.batch_refund_error(presale_id, false) {
                Some(e) => r == Err::<Vec<AssetOp>, Error>(e),
                None => r is Ok && r->Ok_0@ == self.batch_refund_ops_spec(
                    presale_id,
                    start_index as int,
                    self.batch_end(presale_id, start_index, batch_size),
                ),
            },
    {
        self.batch_refund_ops(presale_id, start_index, batch_size, false)
    }

    /// Refund a batch of a failed presale's contributors, with no refund fee. `ops_made` says
    /// whether the refunds went through.
    pub fn batch_refund_failed_presale(
        &mut self,
        presale_id: u32,
        start_index: u32,
        batch_size: u32,
        now: u64,
        ops_made: bool,
    ) -> (r: Result<(), Error>)
        requires
            old(self).wf(),
        ensures
            old(self).within_caps() ==> final(self).within_caps(),
            old(self).within_caps() && old(self).raised_matches() ==> final(self).raised_matches(),
            final(self).wf(),
            match old(self).batch_refund_error(presale_id, false) {
                Some(e) => r == Err::<(), Error>(e) && final(self).unchanged(old(self)),
                None => if !ops_made {
                    r == Err::<(), Error>(Error::AssetOperationFailed) && final(self).unchanged(old(self))
                } else {
                    &&& r == Ok::<(), Error>(())
                    &&& old(self).batch_refunded_contributions(
                        presale_id,
                        start_index as int,
                        old(self).batch_end(presale_id, start_index, batch_size),
                        now,
                        false,
                        final(self).contributions@,
                    )
                    &&& final(self).presales@ == old(self).presales@
                    &&& final(self).contributors@ == old(self).contributors@
                    &&& final(self).total_raised@ == old(self).total_raised@
                    &&& final(self).vesting_claimed@ == old(self).vesting_claimed@
                    &&& final(self).events@ == old(self).events@ + old(self).batch_refund_report(
                        presale_id,
                        start_index as int,
                        old(self).batch_end(presale_id, start_index, batch_size),
                    )
                    &&& final(self).same_counters(old(self))
                    &&& final(self).whitelisted_accounts@ == old(self).whitelisted_accounts@
                },
            },
    {
        self.batch_refund(presale_id, start_index, batch_size, now, ops_made, false)
    }

    /// Whether a contributor is passed over by distribution: no contribution, refunded,
    /// nothing contributed, or already distributed to.
    pub open spec fn distribute_skip(&self, id: u32, who: u64) -> bool {
        let k = pair_key(id, who);
        !self.contributions@.contains_key(k) || self.contributions@[k].refunded
            || self.contributions@[k].amount == 0 || self.vesting_claimed@.contains_key(k)
    }

    /// What a contributor receives in all: their share of the tokens plus their bonus.
    pub open spec fn distribute_total(&self, id: u32, who: u64) -> Result<u128, Error> {
        let c = self.contributions@[pair_key(id, who)];
        match spec_reward(c.amount, self.raised(id), self.presales@[id].tokens_for_sale) {
            Err(e) => Err(e),
            Ok(r) => Ok(sat_add(r, spec_bonus(self.tiers(id), c.amount, r))),
        }
    }

    /// What distribution records as claimed: the immediate part under vesting, else all.
    pub open spec fn distribute_recorded(&self, id: u32, total: u128) -> u128 {
        match self.presales@[id].vesting {
            Some(v) => percent_of(total, v.immediate_release_percent as u128),
            None => total,
        }
    }

    /// The transfer distribution makes to one contributor.
    pub open spec fn distribute_entry_ops(&self, id: u32, who: u64, total: u128) -> Seq<AssetOp> {
        let p = self.presales@[id];
        let op = AssetOp::Transfer {
            asset: p.reward_asset,
            from: spec_presale_account(self.config.pallet_id, id),
            to: who,
            amount: self.distribute_recorded(id, total),
            keep_alive: false,
        };
        match p.vesting {
            Some(v) => if self.distribute_recorded(id, total) > 0 {
                seq![op]
            } else {
                Seq::empty()
            },
            None => seq![op],
        }
    }

    /// The transfers distribution makes to contributors `lo .. hi`, or the first error.
    pub open spec fn distribute_fold(&self, id: u32, lo: int, hi: int) -> Result<Seq<AssetOp>, Error>
        decreases hi - lo,
    {
        if hi <= lo {
            Ok(Seq::empty())
        } else {
            match self.distribute_fold(id, lo, hi - 1) {
                Err(e) => Err(e),
                Ok(ops) => {
                    let who = self.contributor_list(id)[hi - 1];
                    if self.distribute_skip(id, who) {
                        Ok(ops)
                    } else {
                        match self.distribute_total(id, who) {
                            Err(e) => Err(e),
                            Ok(t) => Ok(ops + self.distribute_entry_ops(id, who, t)),
                        }
                    }
                },
            }
        }
    }

    /// The distributions reported for contributors `lo .. hi`: each one reached, with their
    /// total.
    pub open spec fn distribute_events(&self, id: u32, lo: int, hi: int) -> Seq<Event>
        decreases hi - lo,
    {
        if hi <= lo {
            Seq::empty()
        } else {
            let who = self.contributor_list(id)[hi - 1];
            self.distribute_events(id, lo, hi - 1) + if self.distribute_skip(id, who) {
                Seq::empty()
            } else {
                seq![
                    Event::Distributed {
                        presale_id: id,
                        who,
                        amount: self.distribute_total(id, who)->Ok_0,
                    },
                ]
            }
        }
    }

    /// How many of contributors `lo .. hi` distribution reaches.
    pub open spec fn distribute_count(&self, id: u32, lo: int, hi: int) -> nat
        decreases hi - lo,
    {
        if hi <= lo {
            0
        } else {
            self.distribute_count(id, lo, hi - 1) + if self.distribute_skip(
                id,
                self.contributor_list(id)[hi - 1],
            ) {
                0nat
            } else {
                1nat
            }
        }
    }

    /// The totals of the contributors `lo .. hi` that distribution reaches, summed with
    /// saturation.
    pub open spec fn distribute_sum(&self, id: u32, lo: int, hi: int) -> u128
        decreases hi - lo,
    {
        if hi <= lo {
            0
        } else {
            let who = self.contributor_list(id)[hi - 1];
            if self.distribute_skip(id, who) {
                self.distribute_sum(id, lo, hi - 1)
            } else {
                sat_add(self.distribute_sum(id, lo, hi - 1), self.distribute_total(id, who)->Ok_0)
            }
        }
    }

    /// Whether every contributor on a presale's list has been paid or is passed over: nobody
    /// eligible is left unpaid.
    pub open spec fn all_distributed(&self, id: u32) -> bool {
        forall|i: int|
            0 <= i < self.contributor_list(id).len() ==> self.distribute_skip(
                id,
                #[trigger] self.contributor_list(id)[i],
            )
    }

    /// Whether anybody on a presale's list is still owed their distribution.
    fn all_paid(&self, id: u32) -> (r: bool)
        ensures
            r == self.all_distributed(id),
    {
        let empty: Vec<u64> = Vec::new();
        let list = match self.contributors.get(&id) {
            Some(l) => l,
            None => &empty,
        };
        let mut i: usize = 0;
        while i < list.len()
            invariant
                0 <= i <= list@.len(),
                list@ == self.contributor_list(id),
                forall|j: int| 0 <= j < i ==> self.distribute_skip(id, #[trigger] list@[j]),
            decreases list@.len() - i,
        {
            let who = list[i];
            let k = make_pair_key(id, who);
            let skip = match self.contributions.get(&k) {
                Some(c) => c.refunded || c.amount == 0 || self.vesting_claimed.contains_key(&k),
                None => true,
            };
            if !skip {
                return false;
            }
            i = i + 1;
        }
        true
    }

    /// What distributing to contributors `lo .. hi` reports: each distribution, the
    /// finalization when it left nobody unpaid (`finalized`), then the count and the total.
    pub open spec fn distribute_report(&self, id: u32, lo: int, hi: int, finalized: bool) -> Seq<Event> {
        self.distribute_events(id, lo, hi) + if finalized {
            seq![Event::PresaleFinalized { presale_id: id, total_raised: self.raised(id) }]
        } else {
            Seq::empty()
        } + seq![
            Event::BatchDistributionCompleted {
                presale_id: id,
                distributed_count: self.distribute_count(id, lo, hi) as u32,
                total_distributed: self.distribute_sum(id, lo, hi),
            },
        ]
    }

    /// Why distribution of a presale in this state is refused, if it is.
    pub open spec fn distribute_error(&self, id: u32) -> Option<Error> {
        if !self.presales@.contains_key(id) {
            Some(Error::PresaleNotFound)
        } else if self.presales@[id].status != PresaleStatus::Successful {
            Some(Error::PresaleNotSuccessful)
        } else {
            None
        }
    }

    /// The transfers a batch of a successful presale's distribution makes, or why it is
    /// refused.
    pub fn batch_distribute_ops(&self, presale_id: u32, start_index: u32, batch_size: u32) -> (r: Result<
        Vec<AssetOp>,
        Error,
    >)
        requires
            self.wf(),
        ensures
            match self.distribute_error(presale_id) {
                Some(e) => r == Err::<Vec<AssetOp>, Error>(e),
                None => match self.distribute_fold(
                    presale_id,
                    start_index as int,
                    self.batch_end(presale_id, start_index, batch_size),
                ) {
                    Err(e) => r == Err::<Vec<AssetOp>, Error>(e),
                    Ok(ops) => r is Ok && r->Ok_0@ == ops,
                },
            },
    {
        let presale = match self.presales.get(&presale_id) {
            Some(p) => *p,
            None => return Err(Error::PresaleNotFound),
        };
        if presale.status != PresaleStatus::Successful {
            return Err(Error::PresaleNotSuccessful);
        }
        let total_raised = self.get_total_raised(presale_id);
        let treasury = self.presale_account_id(presale_id);
        let empty: Vec<u64> = Vec::new();
        let contributors = match self.contributors.get(&presale_id) {
            Some(l) => l,
            None => &empty,
        };
        let end_index = min_u32(start_index.saturating_add(batch_size), contributors.len() as u32);
        let mut ops: Vec<AssetOp> = Vec::new();
        let mut i = start_index;
        while i < end_index
            invariant
                i == start_index || start_index < i <= end_index,
                contributors@ == self.contributor_list(presale_id),
                end_index as int == self.batch_end(presale_id, start_index, batch_size),
                end_index <= contributors@.len(),
                treasury == spec_presale_account(self.config.pallet_id, presale_id),
                self.presales@.contains_key(presale_id),
                presale == self.presales@[presale_id],
                presale.status == PresaleStatus::Successful,
                total_raised == self.raised(presale_id),
                self.distribute_fold(presale_id, start_index as int, i as int) is Ok,
                ops@ == self.distribute_fold(presale_id, start_index as int, i as int)->Ok_0,
            decreases end_index - i,
        {
            let who = contributors[i as usize];
            let k = make_pair_key(presale_id, who);
            let c = match self.contributions.get(&k) {
                Some(c) => *c,
                None => {
                    i = i + 1;
                    continue;
                },
            };
            if c.refunded || c.amount == 0 || self.vesting_claimed.contains_key(&k) {
                i = i + 1;
                continue;
            }
            let reward_amount = match Self::calculate_reward_dynamic(c.amount, total_raised, presale.tokens_for_sale) {
                Ok(v) => v,
                Err(e) => {
                    proof {
                        assert(who == self.contributor_list(presale_id)[i as int]);
                        assert(!self.distribute_skip(presale_id, who));
                        assert(self.distribute_total(presale_id, who) == Err::<u128, Error>(e));
                        assert(self.distribute_fold(presale_id, start_index as int, i as int + 1) == Err::<Seq<AssetOp>, Error>(e));
                        self.lemma_distribute_error_stays(presale_id, start_index as int, i as int + 1, end_index as int, e);
                        assert(self.distribute_error(presale_id) is None);
                        assert(self.distribute_fold(presale_id, start_index as int, self.batch_end(presale_id, start_index, batch_size)) == Err::<Seq<AssetOp>, Error>(e));
                    }
                    return Err(e);
                },
            };
            let bonus = self.calculate_bonus(presale_id, c.amount, reward_amount);
            let total_reward = reward_amount.saturating_add(bonus);
            match presale.vesting {
                Some(v) => {
                    let immediate = percent(total_reward, v.immediate_release_percent as u128);
                    if immediate > 0 {
                        ops.push(AssetOp::Transfer {
                            asset: presale.reward_asset,
                            from: treasury,
                            to: who,
                            amount: immediate,
                            keep_alive: false,
                        });
                    }
                },
                None => {
                    ops.push(AssetOp::Transfer {
                        asset: presale.reward_asset,
                        from: treasury,
                        to: who,
                        amount: total_reward,
                        keep_alive: false,
                    });
                },
            }
            proof {
                assert(ops@ =~= self.distribute_fold(presale_id, start_index as int, i as int + 1)->Ok_0);
            }
            i = i + 1;
        }
        Ok(ops)
    }

    /// Once distribution has hit an error, later contributors do not change it.
    proof fn lemma_distribute_error_stays(&self, id: u32, lo: int, mid: int, hi: int, e: Error)
        requires
            self.distribute_fold(id, lo, mid) == Err::<Seq<AssetOp>, Error>(e),
            lo < mid <= hi,
        ensures
            self.distribute_fold(id, lo, hi) == Err::<Seq<AssetOp>, Error>(e),
        decreases hi - mid,
    {
        if mid < hi {
            self.lemma_distribute_error_stays(id, lo, mid, hi - 1, e);
        }
    }

    /// When distribution succeeds, every contributor it reaches has a computable total.
    proof fn lemma_distribute_ok_entry(&self, id: u32, lo: int, hi: int, j: int)
        requires
            self.distribute_fold(id, lo, hi) is Ok,
            lo <= j < hi,
            !self.distribute_skip(id, self.contributor_list(id)[j]),
        ensures
            self.distribute_total(id, self.contributor_list(id)[j]) is Ok,
        decreases hi - lo,
    {
        if j < hi - 1 {
            self.lemma_distribute_ok_entry(id, lo, hi - 1, j);
        }
    }

    /// The vesting records after distributing to contributors `lo .. hi`.
    pub open spec fn distributed_claims(&self, id: u32, lo: int, hi: int, result: Map<u128, u128>) -> bool {
        let l = self.contributor_list(id);
        &&& forall|i: int|
            lo <= i < hi ==> {
                let k = pair_key(id, #[trigger] l[i]);
                if self.distribute_skip(id, l[i]) {
                    result.contains_key(k) == self.vesting_claimed@.contains_key(k) && result[k]
                        == self.vesting_claimed@[k]
                } else {
                    result.contains_key(k) && result[k] == self.distribute_recorded(
                        id,
                        self.distribute_total(id, l[i])->Ok_0,
                    )
                }
            }
        &&& forall|k: u128|
            #![trigger result[k]]
            #![trigger result.contains_key(k)]
            (forall|i: int| lo <= i < hi ==> k != pair_key(id, l[i])) ==> result.contains_key(k)
                == self.vesting_claimed@.contains_key(k) && result[k] == self.vesting_claimed@[k]
    }

    /// Distribution pays only those it owes: every transfer a distribution of contributors
    /// `lo .. hi` makes goes to one of them whom it does not pass over, so a contributor with
    /// no contribution, a refunded or empty one, or one already paid receives nothing.
    pub proof fn lemma_distribution_pays_only_those_owed(&self, id: u32, lo: int, hi: int)
        requires
            self.distribute_fold(id, lo, hi) is Ok,
        ensures
            forall|n: int| 0 <= n < self.distribute_fold(id, lo, hi)->Ok_0.len() ==> {
                let op = #[trigger] self.distribute_fold(id, lo, hi)->Ok_0[n];
                exists|i: int| lo <= i < hi && !self.distribute_skip(id, self.contributor_list(id)[i])
                    && pays(op, self.contributor_list(id)[i])
            },
        decreases hi - lo,
    {
        if hi > lo {
            self.lemma_distribution_pays_only_those_owed(id, lo, hi - 1);
            let prev = self.distribute_fold(id, lo, hi - 1)->Ok_0;
            let ops = self.distribute_fold(id, lo, hi)->Ok_0;
            let l = self.contributor_list(id);
            let who = l[hi - 1];
            assert forall|n: int| 0 <= n < ops.len() implies {
                let op = #[trigger] ops[n];
                exists|i: int| lo <= i < hi && !self.distribute_skip(id, l[i])
                    && pays(op, l[i])
            } by {
                if n < prev.len() {
                    assert(ops[n] == prev[n]);
                    let op = prev[n];
                    let i = choose|i: int| lo <= i < hi - 1 && !self.distribute_skip(id, l[i])
                        && pays(op, l[i]);
                    assert(lo <= i < hi);
                } else {
                    assert(!self.distribute_skip(id, who));
                    let t = self.distribute_total(id, who)->Ok_0;
                    assert(ops == prev + self.distribute_entry_ops(id, who, t));
                    assert(ops[n] == self.distribute_entry_ops(id, who, t)[n - prev.len()]);
                    assert(lo <= hi - 1 < hi);
                }
            }
        }
    }

    /// Distribution over contributors `lo .. hi` who are all passed over moves nothing.
    proof fn lemma_all_passed_over(&self, id: u32, lo: int, hi: int)
        requires
            forall|i: int| lo <= i < hi ==> self.distribute_skip(id, #[trigger] self.contributor_list(id)[i]),
        ensures
            self.distribute_fold(id, lo, hi) == Ok::<Seq<AssetOp>, Error>(Seq::empty()),
            self.distribute_events(id, lo, hi) == Seq::<Event>::empty(),
            self.distribute_count(id, lo, hi) == 0,
        decreases hi - lo,
    {
        if hi > lo {
            self.lemma_all_passed_over(id, lo, hi - 1);
            assert(self.distribute_skip(id, self.contributor_list(id)[hi - 1]));
            assert(self.distribute_events(id, lo, hi) =~= self.distribute_events(id, lo, hi - 1));
        }
    }

    /// Distribution pays each contributor once: once a batch has been distributed, leaving the
    /// contributions and the contributor list as they were, distributing the same batch again
    /// moves nothing and reports nobody.
    pub proof fn lemma_distribution_pays_once(&self, after: &Self, id: u32, lo: int, hi: int)
        requires
            self.distributed_claims(id, lo, hi, after.vesting_claimed@),
            after.contributions@ == self.contributions@,
            after.contributors@ == self.contributors@,
        ensures
            after.distribute_fold(id, lo, hi) == Ok::<Seq<AssetOp>, Error>(Seq::empty()),
            after.distribute_events(id, lo, hi) == Seq::<Event>::empty(),
            after.distribute_count(id, lo, hi) == 0,
    {
        let l = self.contributor_list(id);
        assert(after.contributor_list(id) == l);
        assert forall|i: int| lo <= i < hi implies after.distribute_skip(id, #[trigger] l[i]) by {
            let k = pair_key(id, l[i]);
            if !self.distribute_skip(id, l[i]) {
                assert(after.vesting_claimed@.contains_key(k));
            }
        }
        after.lemma_all_passed_over(id, lo, hi);
    }

    /// A batch refund over contributors `lo .. hi` none of whom is refundable moves nothing.
    proof fn lemma_none_refundable(&self, id: u32, lo: int, hi: int)
        requires
            forall|i: int| lo <= i < hi ==> !self.refundable(id, #[trigger] self.contributor_list(id)[i]),
        ensures
            self.batch_refund_ops_spec(id, lo, hi) == Seq::<AssetOp>::empty(),
            self.batch_refund_events(id, lo, hi) == Seq::<Event>::empty(),
            self.batch_refund_count(id, lo, hi) == 0,
            self.batch_refund_total(id, lo, hi) == 0,
        decreases hi - lo,
    {
        if hi > lo {
            self.lemma_none_refundable(id, lo, hi - 1);
            assert(!self.refundable(id, self.contributor_list(id)[hi - 1]));
            assert(self.batch_refund_ops_spec(id, lo, hi) =~= self.batch_refund_ops_spec(id, lo, hi - 1));
            assert(self.batch_refund_events(id, lo, hi) =~= self.batch_refund_events(id, lo, hi - 1));
        }
    }

    /// A batch refund reaches each contributor once: once a batch has been refunded, leaving
    /// the contributor list as it was, refunding the same batch again moves nothing and reports
    /// nobody.
    pub proof fn lemma_batch_refund_refunds_once(
        &self,
        after: &Self,
        id: u32,
        lo: int,
        hi: int,
        now: u64,
        cancelled: bool,
    )
        requires
            self.batch_refunded_contributions(id, lo, hi, now, cancelled, after.contributions@),
            after.contributors@ == self.contributors@,
        ensures
            after.batch_refund_ops_spec(id, lo, hi) == Seq::<AssetOp>::empty(),
            after.batch_refund_events(id, lo, hi) == Seq::<Event>::empty(),
            after.batch_refund_count(id, lo, hi) == 0,
            after.batch_refund_total(id, lo, hi) == 0,
    {
        let l = self.contributor_list(id);
        assert(after.contributor_list(id) == l);
        assert forall|i: int| lo <= i < hi implies !after.refundable(id, #[trigger] l[i]) by {
            let k = pair_key(id, l[i]);
            assert(after.contributions@[k] == if self.refundable(id, l[i]) {
                self.batch_refunded(self.contributions@[k], now, cancelled)
            } else {
                self.contributions@[k]
            });
            assert(after.contributions@.dom().contains(k) == self.contributions@.dom().contains(k));
        }
        after.lemma_none_refundable(id, lo, hi);
    }

    /// Distribute the sold token to a batch of a successful presale's contributors: each gets
    /// their share of the tokens for sale plus bonus, all at once or, under vesting, the
    /// immediate part now. Once the batch reaches the end of the list the presale is
    /// finalized. `ops_made` says whether the transfers `batch_distribute_ops` named went
    /// through.
    pub fn batch_distribute(
        &mut self,
        presale_id: u32,
        start_index: u32,
        batch_size: u32,
        ops_made: bool,
    ) -> (r: Result<(), Error>)
        requires
            old(self).wf(),
        ensures
            old(self).within_caps() ==> final(self).within_caps(),
            old(self).within_caps() && old(self).raised_matches() ==> final(self).raised_matches(),
            final(self).wf(),
            match old(self).distribute_error(presale_id) {
                Some(e) => r == Err::<(), Error>(e) && final(self).unchanged(old(self)),
                None => {
                    let end = old(self).batch_end(presale_id, start_index, batch_size);
                    match old(self).distribute_fold(presale_id, start_index as int, end) {
                        Err(e) => r == Err::<(), Error>(e) && final(self).unchanged(old(self)),
                        Ok(_) => if !ops_made {
                            r == Err::<(), Error>(Error::AssetOperationFailed) && final(self).unchanged(
                                old(self),
                            )
                        } else {
                            &&& r == Ok::<(), Error>(())
                            &&& old(self).distributed_claims(
                                presale_id,
                                start_index as int,
                                end,
                                final(self).vesting_claimed@,
                            )
                            &&& final(self).presales@ == if final(self).all_distributed(presale_id) {
                                old(self).presales@.insert(
                                    presale_id,
                                    PresaleConfig {
                                        status: PresaleStatus::Finalized,
                                        ..old(self).presales@[presale_id]
                                    },
                                )
                            } else {
                                old(self).presales@
                            }
                            &&& final(self).contributions@ == old(self).contributions@
                            &&& final(self).contributors@ == old(self).contributors@
                            &&& final(self).total_raised@ == old(self).total_raised@
                            &&& final(self).events@ == old(self).events@ + old(self).distribute_report(
                                presale_id,
                                start_index as int,
                                end,
                                final(self).all_distributed(presale_id),
                            )
                            &&& final(self).same_counters(old(self))
                            &&& final(self).whitelisted_accounts@ == old(self).whitelisted_accounts@
                        },
                    }
                },
            },
    {
        let _ = self.batch_distribute_ops(presale_id, start_index, batch_size)?;
        if !ops_made {
            return Err(Error::AssetOperationFailed);
        }
        let ghost old_self = *self;
        let mut presale = *self.presales.get(&presale_id).unwrap();
        let total_raised = self.get_total_raised(presale_id);
        let had_list = self.contributors.contains_key(&presale_id);
        let contributors = match self.contributors.remove(&presale_id) {
            Some(l) => l,
            None => Vec::new(),
        };
        let ghost l = contributors@;
        let list_len = contributors.len() as u32;
        let end_index = min_u32(start_index.saturating_add(batch_size), list_len);
        let mut distributed_count: u32 = 0;
        let mut total_distributed: u128 = 0;
        let mut i = start_index;
        while i < end_index
            invariant
                i == start_index || start_index < i <= end_index,
                old_self.wf(),
                distributed_count <= i - start_index,
                distributed_count as nat == old_self.distribute_count(presale_id, start_index as int, i as int),
                total_distributed == old_self.distribute_sum(presale_id, start_index as int, i as int),
                self.events@ == old_self.events@ + old_self.distribute_events(presale_id, start_index as int, i as int),
                list_len == l.len(),
                old_self.distribute_error(presale_id) is None,
                old_self.distribute_fold(presale_id, start_index as int, end_index as int) is Ok,
                contributors@ == l,
                l == old_self.contributor_list(presale_id),
                end_index as int == old_self.batch_end(presale_id, start_index, batch_size),
                end_index <= l.len(),
                presale == old_self.presales@[presale_id],
                total_raised == old_self.raised(presale_id),
                self.config == old_self.config,
                old_self.distributed_claims(presale_id, start_index as int, i as int, self.vesting_claimed@),
                self.presales@ == old_self.presales@,
                self.contributors@ == old_self.contributors@.remove(presale_id),
                self.contributions@ == old_self.contributions@,
                self.total_raised@ == old_self.total_raised@,
                self.bonus_tiers@ == old_self.bonus_tiers@,
                self.whitelisted_accounts@ == old_self.whitelisted_accounts@,
                self.total_platform_volume == old_self.total_platform_volume,
                self.total_platform_fees == old_self.total_platform_fees,
                self.next_presale_id == old_self.next_presale_id,
                self.successful_presales == old_self.successful_presales,
            decreases end_index - i,
        {
            let who = contributors[i as usize];
            let k = make_pair_key(presale_id, who);
            proof {
                assert(old_self.contributors@.contains_key(presale_id));
                assert forall|j: int| start_index <= j < i implies k != pair_key(presale_id, #[trigger] l[j]) by {
                    assert(l[j] != l[i as int]);
                }
                assert(self.vesting_claimed@.contains_key(k) == old_self.vesting_claimed@.contains_key(k));
            }
            let c = *self.contributions.get(&k).unwrap();
            if !(c.refunded || c.amount == 0 || self.vesting_claimed.contains_key(&k)) {
                proof {
                    old_self.lemma_distribute_ok_entry(presale_id, start_index as int, end_index as int, i as int);
                }
                let reward_amount = match Self::calculate_reward_dynamic(c.amount, total_raised, presale.tokens_for_sale) {
                    Ok(v) => v,
                    Err(e) => {
                        assert(false);
                        return Err(e);
                    },
                };
                let bonus = self.calculate_bonus(presale_id, c.amount, reward_amount);
                let total_reward = reward_amount.saturating_add(bonus);
                let recorded = match presale.vesting {
                    Some(v) => percent(total_reward, v.immediate_release_percent as u128),
                    None => total_reward,
                };
                self.vesting_claimed.insert(k, recorded);
                distributed_count = distributed_count + 1;
                total_distributed = total_distributed.saturating_add(total_reward);
                self.events.push(Event::Distributed { presale_id, who, amount: total_reward });
            }
            proof {
                assert(l[i as int] == who);
                assert(self.events@ =~= old_self.events@ + old_self.distribute_events(presale_id, start_index as int, i + 1));
            }
            proof {
                let hi = i + 1;
                assert forall|kk: u128|
                    (forall|j: int| start_index <= j < hi ==> kk != pair_key(presale_id, l[j])) implies self.vesting_claimed@.contains_key(kk)
                        == old_self.vesting_claimed@.contains_key(kk) && #[trigger] self.vesting_claimed@[kk] == old_self.vesting_claimed@[kk] by {
                    assert(kk != pair_key(presale_id, l[i as int]));
                }
                assert forall|j: int| start_index <= j < hi implies {
                    let kj = pair_key(presale_id, #[trigger] l[j]);
                    if old_self.distribute_skip(presale_id, l[j]) {
                        self.vesting_claimed@.contains_key(kj) == old_self.vesting_claimed@.contains_key(kj) && self.vesting_claimed@[kj]
                            == old_self.vesting_claimed@[kj]
                    } else {
                        self.vesting_claimed@.contains_key(kj) && self.vesting_claimed@[kj] == old_self.distribute_recorded(
                            presale_id,
                            old_self.distribute_total(presale_id, l[j])->Ok_0,
                        )
                    }
                } by {
                    if j < i {
                        assert(l[j] != l[i as int]);
                    }
                }
            }
            i = i + 1;
        }
        if had_list {
            self.contributors.insert(presale_id, contributors);
        }
        proof {
            assert(self.contributors@ =~= old_self.contributors@);
        }
        let finalized = self.all_paid(presale_id);
        let ghost mid = *self;
        if finalized {
            presale.status = PresaleStatus::Finalized;
            self.presales.insert(presale_id, presale);
            self.events.push(Event::PresaleFinalized { presale_id, total_raised });
        }
        self.events.push(Event::BatchDistributionCompleted { presale_id, distributed_count, total_distributed });
        proof {
            assert(self.contributor_list(presale_id) == mid.contributor_list(presale_id));
            assert forall|i: int| 0 <= i < self.contributor_list(presale_id).len() implies self.distribute_skip(
                presale_id,
                #[trigger] self.contributor_list(presale_id)[i],
            ) == mid.distribute_skip(presale_id, mid.contributor_list(presale_id)[i]) by {}
            assert(self.all_distributed(presale_id) == finalized);
            if finalized {
                assert(self.presales@ == old_self.presales@.insert(presale_id, PresaleConfig { status: PresaleStatus::Finalized, ..old_self.presales@[presale_id] }));
            } else {
                assert(self.presales@ == old_self.presales@);
            }
        }
        proof {
            assert(self.events@ =~= old_self.events@ + old_self.distribute_report(presale_id, start_index as int, end_index as int, finalized));
        }
        proof {
            assert forall|id: u32| #[trigger] self.contributors@.contains_key(id) implies {
                let l2 = self.contributors@[id]@;
                &&& l2.len() <= self.config.max_contributors
                &&& (forall|i: int|
                    0 <= i < l2.len() ==> #[trigger] self.contributions@.contains_key(
                        pair_key(id, l2[i]),
                    ))
                &&& (forall|i: int, j: int| 0 <= i < j < l2.len() ==> l2[i] != l2[j])
            } by {
                assert(old_self.contributors@.contains_key(id));
            }
        }
        proof {
            if old(self).within_caps() && old(self).raised_matches() {
                old(self).lemma_raised_matches_kept(self);
            }
        }
        Ok(())
    }
}

} // verus!
