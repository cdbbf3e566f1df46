//! The monthly payroll: what each citizen is owed out of the incentive pot by trust score, and
//! what each parliamentary seat is owed, against a local ledger of what the pot was given and
//! what has been drawn on it.
//!
//! The trust roll and the parliament roll are other pallets: what they answer is passed in.
//! Payments go to the chain holding the pot as encoded calls; a claim is recorded only if its
//! call could be sent.
use vstd::prelude::*;
use vstd::hash_map::HashMapWithView;
use crate::arith::{percent_of, sat_add, sat_add_u32, sat_add_u64, sat_mul, sat_sub, sat_sub_u64};
use crate::scale;

verus! {

/// One month at ten blocks a minute.
pub const BLOCKS_PER_EPOCH: u32 = 432_000;

/// One week to claim.
pub const CLAIM_PERIOD_BLOCKS: u32 = 100_800;

/// Seats in the house: the divisor of the parliamentary share.
pub const PARLIAMENT_SIZE: u32 = 201;

/// Parliament's share of an epoch, as a percentage.
pub const PARLIAMENTARY_REWARD_PERCENT: u128 = 10;

/// `pay_from_incentive_pot` in the treasury pallet on the chain that holds the pot.
pub const PAY_FROM_INCENTIVE_POT_CALL_INDEX: u8 = 3;

/// Where the epoch clock is.
#[derive(Clone, Copy, PartialEq, Eq, Debug, Structural)]
pub struct EpochData {
    pub current_epoch: u32,
    pub epoch_start_block: u64,
    pub total_epochs_completed: u32,
}

/// What a finalised epoch pays, per trust point and per seat.
#[derive(Clone, Copy, PartialEq, Eq, Debug, Structural)]
pub struct EpochRewardPool {
    pub epoch_index: u32,
    pub reward_per_trust_point: u128,
    pub seat_share: u128,
    pub finalized_at: u64,
    pub claim_deadline: u64,
}

/// Open, being claimed against, or done.
#[derive(Clone, Copy, PartialEq, Eq, Debug, Structural)]
pub enum EpochState {
    Open,
    ClaimPeriod,
    Closed,
}

/// The pinned index of an epoch state, as it is stored.
pub open spec fn epoch_state_index(e: EpochState) -> u8 {
    match e {
        EpochState::Open => 0,
        EpochState::ClaimPeriod => 1,
        EpochState::Closed => 2,
    }
}

impl EpochState {
    /// The SCALE encoding of an epoch state: its pinned index as one byte.
    pub fn encode(&self) -> (r: Vec<u8>)
        ensures
            r@ == seq![epoch_state_index(*self)],
    {
        let b: u8 = match self {
            EpochState::Open => 0,
            EpochState::ClaimPeriod => 1,
            EpochState::Closed => 2,
        };
        let mut v: Vec<u8> = Vec::new();
        v.push(b);
        proof {
            assert(v@ =~= seq![epoch_state_index(*self)]);
        }
        v
    }
}

/// What the payroll reports having done.
#[derive(Clone, Copy, PartialEq, Eq, Debug, Structural)]
pub enum Event {
    NewEpochStarted { epoch_index: u32, start_block: u64 },
    EpochFinalized {
        epoch_index: u32,
        available: u128,
        reward_per_trust_point: u128,
        seat_share: u128,
        claim_deadline: u64,
    },
    RewardClaimed { who: u64, epoch_index: u32, amount: u128 },
    EpochClosed { epoch_index: u32 },
    IncentiveFundingNoted { total: u128 },
}

/// Why a payroll call was refused.
#[derive(Clone, Copy, PartialEq, Eq, Debug, Structural)]
pub enum Error {
    RewardsNotInitialized,
    AlreadyInitialized,
    RewardPoolNotCalculated,
    NotInClaimPeriod,
    ClaimPeriodExpired,
    RewardAlreadyClaimed,
    NoRewardToClaim,
    FundingReportWentBackwards,
    CouldNotReachTreasury,
}

/// The payroll's parameters.
#[derive(Clone, Copy, PartialEq, Eq, Debug, Structural)]
pub struct Config {
    /// The treasury pallet's index on the chain that holds the pot.
    pub treasury_pallet_index: u8,
}

/// What the parliament roll says of a claimant.
#[derive(Clone, Copy, PartialEq, Eq, Debug, Structural)]
pub struct Seat {
    /// Whether they hold a parliamentary seat now.
    pub holds_seat: bool,
    /// When the current house's roll says they were seated, if it names them.
    pub seated_at: Option<u64>,
}

/// The trust roll: what each citizen is worth, the total, and freezing it while a month is
/// being paid.
pub trait TrustRoll<AccountId, BlockNumber> {
    /// What `who` is worth on the roll right now.
    fn score_of(&self, who: &AccountId) -> u128;

    /// The sum of every citizen's score.
    fn total_score(&self) -> u128;

    /// Stop recalculating scores until `until`.
    fn freeze_until(&mut self, until: BlockNumber);
}

/// Who sits in Parliament, and who actually holds the seat.
pub trait ParliamentRoll<AccountId, BlockNumber> {
    /// When `who` was seated, if the current house's roll names them.
    fn seated_at(&self, who: &AccountId) -> Option<BlockNumber>;

    /// Whether `who` holds a parliamentary seat at this moment.
    fn holds_seat(&self, who: &AccountId) -> bool;
}

/// The payroll at genesis: whether its clock starts at block zero.
#[derive(Clone, Copy, PartialEq, Eq, Debug, Structural)]
pub struct GenesisConfig {
    pub start_rewards_system: bool,
}

impl GenesisConfig {
    /// The payroll at genesis, with its clock started at block zero if asked.
    pub fn build(&self, config: Config) -> (r: Pezpallet)
        ensures
            r.wf(),
            r.claims_consistent(),
            r.one_window(),
            r.config == config,
            r.epoch_info == if self.start_rewards_system {
                Some(EpochData { current_epoch: 0, epoch_start_block: 0, total_epochs_completed: 0 })
            } else {
                None::<EpochData>
            },
            r.epoch_reward_pools@ == Map::<u32, EpochRewardPool>::empty(),
            r.claimed_rewards@ == Map::<u128, u128>::empty(),
            r.epoch_status@ == if self.start_rewards_system {
                Map::<u32, EpochState>::empty().insert(0, EpochState::Open)
            } else {
                Map::<u32, EpochState>::empty()
            },
            r.epoch_in_claim is None,
            r.reported_incentive_total == 0,
            r.paid_out_total == 0,
    {
        let mut r = Pezpallet::new(config);
        if self.start_rewards_system {
            let _ = r.do_initialize_rewards_system(0);
        }
        r
    }
}

/// A way the payroll's records can disagree with one another.
#[derive(Clone, Copy, PartialEq, Eq, Debug, Structural)]
pub enum InvariantViolation {
    /// More has been paid out than the pot was ever given.
    PaidOverReported,
    /// A reward was paid for an epoch that is still collecting.
    ClaimOnOpenEpoch,
    /// A reward was paid for an epoch that was never finalised.
    ClaimWithoutPool,
    /// The claims recorded do not add up to what was paid out.
    ClaimsMismatch,
    /// Two epochs are open to claims at once.
    TwoWindows,
    /// The epoch marked as open to claims is not the one being claimed against.
    WindowMismatch,
    /// The current epoch is not collecting.
    CurrentNotOpen,
}

/// What a disagreement is called, in words.
#[verifier::opaque]
pub open spec fn violation_message(v: InvariantViolation) -> Seq<char> {
    match v {
        InvariantViolation::PaidOverReported => "more has been paid out than the pot was ever given"@,
        InvariantViolation::ClaimOnOpenEpoch => "a reward was paid for an epoch that is still collecting"@,
        InvariantViolation::ClaimWithoutPool => "a reward was paid for an epoch that was never finalised"@,
        InvariantViolation::ClaimsMismatch => "the claims recorded do not add up to what was paid out"@,
        InvariantViolation::TwoWindows => "two epochs are open to claims at once"@,
        InvariantViolation::WindowMismatch => "the epoch marked as open to claims is not the one being claimed against"@,
        InvariantViolation::CurrentNotOpen => "the current epoch is not collecting"@,
    }
}

impl InvariantViolation {
    /// What went wrong, in words.
    pub fn message(&self) -> (r: &'static str)
        ensures
            r@ == violation_message(*self),
    {
        proof {
            reveal(violation_message);
        }
        match self {
            InvariantViolation::PaidOverReported => "more has been paid out than the pot was ever given",
            InvariantViolation::ClaimOnOpenEpoch => "a reward was paid for an epoch that is still collecting",
            InvariantViolation::ClaimWithoutPool => "a reward was paid for an epoch that was never finalised",
            InvariantViolation::ClaimsMismatch => "the claims recorded do not add up to what was paid out",
            InvariantViolation::TwoWindows => "two epochs are open to claims at once",
            InvariantViolation::WindowMismatch => "the epoch marked as open to claims is not the one being claimed against",
            InvariantViolation::CurrentNotOpen => "the current epoch is not collecting",
        }
    }
}

/// What the claims in `log` were paid, by the amounts recorded under their keys.
pub open spec fn claimed_total(log: Seq<(u32, u64)>, amounts: Map<u128, u128>) -> nat
    decreases log.len(),
{
    if log.len() == 0 {
        0
    } else {
        claimed_total(log.drop_last(), amounts) + amounts[crate::presale::pair_key(log.last().0, log.last().1)] as nat
    }
}

/// A key no logged claim has does not change what the logged claims were paid.
proof fn lemma_claimed_total_new_key(log: Seq<(u32, u64)>, amounts: Map<u128, u128>, k: u128, v: u128)
    requires
        forall|i: int| 0 <= i < log.len() ==> crate::presale::pair_key(#[trigger] log[i].0, log[i].1) != k,
    ensures
        claimed_total(log, amounts.insert(k, v)) == claimed_total(log, amounts),
    decreases log.len(),
{
    if log.len() > 0 {
        let init = log.drop_last();
        assert forall|i: int| 0 <= i < init.len() implies crate::presale::pair_key(#[trigger] init[i].0, init[i].1) != k by {
            assert(init[i] == log[i]);
        }
        lemma_claimed_total_new_key(init, amounts, k, v);
        assert(crate::presale::pair_key(log[log.len() - 1].0, log[log.len() - 1].1) != k);
    }
}

/// `x`, or `u128::MAX` if it is larger.
pub open spec fn saturated_u128(x: nat) -> u128 {
    if x > u128::MAX {
        u128::MAX
    } else {
        x as u128
    }
}

/// Whether a claim under key `k` is in the log.
pub open spec fn logged(log: Seq<(u32, u64)>, k: u128) -> bool {
    exists|i: int| 0 <= i < log.len() && crate::presale::pair_key(#[trigger] log[i].0, log[i].1) == k
}

/// The payroll's storage.
pub struct Pezpallet {
    pub config: Config,
    pub epoch_info: Option<EpochData>,
    pub epoch_reward_pools: HashMapWithView<u32, EpochRewardPool>,
    /// Keyed by `crate::presale::pair_key(epoch, account)`.
    pub claimed_rewards: HashMapWithView<u128, u128>,
    pub epoch_status: HashMapWithView<u32, EpochState>,
    pub epoch_in_claim: Option<u32>,
    pub reported_incentive_total: u128,
    pub paid_out_total: u128,
    /// Every claim, as the epoch and the claimant, in the order the claims were made.
    pub claim_log: Vec<(u32, u64)>,
    pub events: Vec<Event>,
}

/// The epoch clock before it has started.
pub open spec fn default_epoch() -> EpochData {
    EpochData { current_epoch: 0, epoch_start_block: 0, total_epochs_completed: 0 }
}

/// The rate and seat share of an epoch with `available` in the pot and `total_score` on the
/// roll: a tenth to Parliament split over every seat, the rest per trust point, all rounded
/// down; nothing at all when the pot is empty.
pub open spec fn epoch_rates(available: u128, total_score: u128) -> (u128, u128) {
    if available == 0 {
        (0, 0)
    } else {
        let seat_pool = percent_of(available, PARLIAMENTARY_REWARD_PERCENT);
        let seat_share = seat_pool / (PARLIAMENT_SIZE as u128);
        let citizen_pool = sat_sub(available, seat_pool);
        let rate = if total_score == 0 {
            0
        } else {
            citizen_pool / total_score
        };
        (rate, seat_share)
    }
}

impl Pezpallet {
    /// An epoch's state; `Open` if none was recorded.
    pub open spec fn status_of(&self, epoch: u32) -> EpochState {
        if self.epoch_status@.contains_key(epoch) {
            self.epoch_status@[epoch]
        } else {
            EpochState::Open
        }
    }

    /// Where the epoch clock is; at zero if it has not started.
    pub open spec fn epoch(&self) -> EpochData {
        match self.epoch_info {
            Some(e) => e,
            None => default_epoch(),
        }
    }

    /// What the pot still holds, as far as this chain can tell.
    pub open spec fn spec_available(&self) -> u128 {
        sat_sub(self.reported_incentive_total, self.paid_out_total)
    }

    /// The bookkeeping that lets the records be walked: the claim log lists each claimed
    /// epoch and claimant once, exactly the claims recorded; and no epoch beyond the current
    /// one has a state, nor any epoch before the clock starts.
    pub open spec fn wf(&self) -> bool {
        &&& forall|i: int, j: int| 0 <= i < j < self.claim_log@.len() ==> self.claim_log@[i] != self.claim_log@[j]
        &&& forall|i: int| 0 <= i < self.claim_log@.len() ==> self.claimed_rewards@.contains_key(
            crate::presale::pair_key(#[trigger] self.claim_log@[i].0, self.claim_log@[i].1),
        )
        &&& forall|k: u128| #[trigger] self.claimed_rewards@.contains_key(k) ==> logged(self.claim_log@, k)
        &&& forall|e: u32| #[trigger] self.epoch_status@.contains_key(e) ==> self.epoch_info is Some
            && e <= self.epoch().current_epoch
    }

    /// Nothing changed, not even the event log.
    pub open spec fn unchanged(&self, other: &Self) -> bool {
        &&& self.claim_log@ == other.claim_log@
        &&& self.config == other.config
        &&& self.epoch_info == other.epoch_info
        &&& self.epoch_reward_pools@ == other.epoch_reward_pools@
        &&& self.claimed_rewards@ == other.claimed_rewards@
        &&& self.epoch_status@ == other.epoch_status@
        &&& self.epoch_in_claim == other.epoch_in_claim
        &&& self.reported_incentive_total == other.reported_incentive_total
        &&& self.paid_out_total == other.paid_out_total
        &&& self.events@ == other.events@
    }

    /// A payroll whose clock has not started.
    pub fn new(config: Config) -> (r: Self)
        ensures
            r.wf(),
            r.claims_consistent(),
            r.one_window(),
            r.config == config,
            r.epoch_info is None,
            r.epoch_reward_pools@ == Map::<u32, EpochRewardPool>::empty(),
            r.claimed_rewards@ == Map::<u128, u128>::empty(),
            r.epoch_status@ == Map::<u32, EpochState>::empty(),
            r.epoch_in_claim is None,
            r.reported_incentive_total == 0,
            r.paid_out_total == 0,
            r.events@ == Seq::<Event>::empty(),
    {
        proof {
            broadcast use vstd::std_specs::hash::axiom_u32_obeys_hash_table_key_model;
            broadcast use vstd::std_specs::hash::axiom_u128_obeys_hash_table_key_model;
        }
        Pezpallet {
            config,
            epoch_info: None,
            epoch_reward_pools: HashMapWithView::new(),
            claimed_rewards: HashMapWithView::new(),
            epoch_status: HashMapWithView::new(),
            epoch_in_claim: None,
            reported_incentive_total: 0,
            paid_out_total: 0,
            claim_log: Vec::new(),
            events: Vec::new(),
        }
    }

    /// An epoch's state.
    pub fn epoch_status_of(&self, epoch: u32) -> (r: EpochState)
        ensures
            r == self.status_of(epoch),
    {
        match self.epoch_status.get(&epoch) {
            Some(s) => *s,
            None => EpochState::Open,
        }
    }

    /// Start the epoch clock at `now`, with epoch 0 open.
    pub fn do_initialize_rewards_system(&mut self, now: u64) -> (r: Result<(), Error>)
        ensures
            old(self).wf() ==> final(self).wf(),
            old(self).wf() && old(self).one_window() ==> final(self).one_window(),
            old(self).wf() && old(self).claims_consistent() ==> final(self).claims_consistent(),
            old(self).epoch_info is Some ==> r == Err::<(), Error>(Error::AlreadyInitialized) && final(self).unchanged(old(self)),
            old(self).epoch_info is None ==> {
                &&& r == Ok::<(), Error>(())
                &&& final(self).epoch_info == Some(EpochData { current_epoch: 0, epoch_start_block: now, total_epochs_completed: 0 })
                &&& final(self).epoch_status@ == old(self).epoch_status@.insert(0, EpochState::Open)
                &&& final(self).epoch_reward_pools@ == old(self).epoch_reward_pools@
                &&& final(self).claimed_rewards@ == old(self).claimed_rewards@
                &&& final(self).epoch_in_claim == old(self).epoch_in_claim
                &&& final(self).reported_incentive_total == old(self).reported_incentive_total
                &&& final(self).paid_out_total == old(self).paid_out_total
                &&& final(self).config == old(self).config
                &&& final(self).events@ == old(self).events@.push(Event::NewEpochStarted { epoch_index: 0, start_block: now })
            },
    {
        if self.epoch_info.is_some() {
            return Err(Error::AlreadyInitialized);
        }
        self.epoch_info = Some(EpochData { current_epoch: 0, epoch_start_block: now, total_epochs_completed: 0 });
        self.epoch_status.insert(0, EpochState::Open);
        self.events.push(Event::NewEpochStarted { epoch_index: 0, start_block: now });
        Ok(())
    }

    /// The chain holding the pot reports what it has been given in all. The total only grows.
    pub fn note_incentive_funding(&mut self, total: u128) -> (r: Result<(), Error>)
        ensures
            old(self).wf() ==> final(self).wf(),
            old(self).wf() && old(self).one_window() ==> final(self).one_window(),
            old(self).wf() && old(self).claims_consistent() ==> final(self).claims_consistent(),
            total < old(self).reported_incentive_total ==> r == Err::<(), Error>(Error::FundingReportWentBackwards)
                && final(self).unchanged(old(self)),
            total >= old(self).reported_incentive_total ==> {
                &&& r == Ok::<(), Error>(())
                &&& final(self).reported_incentive_total == total
                &&& final(self).epoch_info == old(self).epoch_info
                &&& final(self).epoch_reward_pools@ == old(self).epoch_reward_pools@
                &&& final(self).claimed_rewards@ == old(self).claimed_rewards@
                &&& final(self).epoch_status@ == old(self).epoch_status@
                &&& final(self).epoch_in_claim == old(self).epoch_in_claim
                &&& final(self).paid_out_total == old(self).paid_out_total
                &&& final(self).config == old(self).config
                &&& final(self).events@ == old(self).events@.push(Event::IncentiveFundingNoted { total })
            },
    {
        if total < self.reported_incentive_total {
            return Err(Error::FundingReportWentBackwards);
        }
        self.reported_incentive_total = total;
        self.events.push(Event::IncentiveFundingNoted { total });
        proof {
            if old(self).one_window() {
                old(self).lemma_one_window_kept(self);
            }
        }
        Ok(())
    }

    /// What the pot still holds, as far as this chain can tell.
    pub fn available_funds(&self) -> (r: u128)
        ensures
            r == self.spec_available(),
    {
        self.reported_incentive_total.saturating_sub(self.paid_out_total)
    }

    /// Whether the current epoch has run its month and is still open.
    pub open spec fn spec_epoch_is_due(&self, now: u64) -> bool {
        self.epoch_info is Some && self.status_of(self.epoch().current_epoch) == EpochState::Open
            && sat_sub_u64(now, self.epoch().epoch_start_block) >= BLOCKS_PER_EPOCH
    }

    /// Whether the current epoch has run its month and is still open.
    pub fn epoch_is_due(&self, now: u64) -> (r: bool)
        ensures
            r == self.spec_epoch_is_due(now),
    {
        let epoch_data = match self.epoch_info {
            Some(e) => e,
            None => return false,
        };
        if self.epoch_status_of(epoch_data.current_epoch) != EpochState::Open {
            return false;
        }
        now.saturating_sub(epoch_data.epoch_start_block) >= BLOCKS_PER_EPOCH as u64
    }

    /// Whether an epoch's claim window is over.
    pub open spec fn spec_window_closed(&self, epoch: u32, now: u64) -> bool {
        self.epoch_reward_pools@.contains_key(epoch) && now > self.epoch_reward_pools@[epoch].claim_deadline
    }

    /// Whether an epoch's claim window is over.
    pub fn claim_window_has_closed(&self, epoch: u32, now: u64) -> (r: bool)
        ensures
            r == self.spec_window_closed(epoch, now),
    {
        match self.epoch_reward_pools.get(&epoch) {
            Some(pool) => now > pool.claim_deadline,
            None => false,
        }
    }

    /// Fix the rate for the epoch that has just ended at `now`, open the next one, and start
    /// the claim window. `total_score` is the trust roll's total. Returns the block until
    /// which the roll is to stay frozen: the end of the claim window.
    pub fn do_finalize_epoch(&mut self, now: u64, total_score: u128) -> (r: u64)
        ensures
            old(self).wf() ==> final(self).wf(),
            old(self).wf() && old(self).claims_consistent() && old(self).epoch().current_epoch < u32::MAX
                ==> final(self).claims_consistent(),
            ({
                let e = old(self).epoch();
                let epoch = e.current_epoch;
                let available = old(self).spec_available();
                let deadline = sat_add_u64(now, CLAIM_PERIOD_BLOCKS as u64);
                let (rate, seat) = epoch_rates(available, total_score);
                let new_epoch = sat_add_u32(epoch, 1);
                &&& r == deadline
                &&& final(self).epoch_reward_pools@ == old(self).epoch_reward_pools@.insert(
                    epoch,
                    EpochRewardPool {
                        epoch_index: epoch,
                        reward_per_trust_point: rate,
                        seat_share: seat,
                        finalized_at: now,
                        claim_deadline: deadline,
                    },
                )
                &&& final(self).epoch_status@ == old(self).epoch_status@.insert(epoch, EpochState::ClaimPeriod).insert(
                    new_epoch,
                    EpochState::Open,
                )
                &&& final(self).epoch_in_claim == Some(epoch)
                &&& final(self).epoch_info == Some(
                    EpochData {
                        current_epoch: new_epoch,
                        epoch_start_block: now,
                        total_epochs_completed: sat_add_u32(e.total_epochs_completed, 1),
                    },
                )
                &&& final(self).claimed_rewards@ == old(self).claimed_rewards@
                &&& final(self).reported_incentive_total == old(self).reported_incentive_total
                &&& final(self).paid_out_total == old(self).paid_out_total
                &&& final(self).config == old(self).config
                &&& final(self).events@ == old(self).events@.push(
                    Event::EpochFinalized {
                        epoch_index: epoch,
                        available,
                        reward_per_trust_point: rate,
                        seat_share: seat,
                        claim_deadline: deadline,
                    },
                ).push(Event::NewEpochStarted { epoch_index: new_epoch, start_block: now })
            }),
    {
        let epoch_data = match self.epoch_info {
            Some(e) => e,
            None => EpochData { current_epoch: 0, epoch_start_block: 0, total_epochs_completed: 0 },
        };
        let epoch = epoch_data.current_epoch;
        let available = self.available_funds();
        let claim_deadline = now.saturating_add(CLAIM_PERIOD_BLOCKS as u64);
        let (reward_per_trust_point, seat_share) = if available == 0 {
            (0u128, 0u128)
        } else {
            let seat_pool = crate::arith::percent(available, PARLIAMENTARY_REWARD_PERCENT);
            let seat_share = seat_pool / (PARLIAMENT_SIZE as u128);
            let citizen_pool = available.saturating_sub(seat_pool);
            let rate = if total_score == 0 {
                0
            } else {
                citizen_pool / total_score
            };
            (rate, seat_share)
        };
        self.epoch_reward_pools.insert(
            epoch,
            EpochRewardPool {
                epoch_index: epoch,
                reward_per_trust_point,
                seat_share,
                finalized_at: now,
                claim_deadline,
            },
        );
        self.epoch_status.insert(epoch, EpochState::ClaimPeriod);
        self.epoch_in_claim = Some(epoch);
        let new_epoch = epoch.saturating_add(1);
        self.epoch_info = Some(
            EpochData {
                current_epoch: new_epoch,
                epoch_start_block: now,
                total_epochs_completed: epoch_data.total_epochs_completed.saturating_add(1),
            },
        );
        self.epoch_status.insert(new_epoch, EpochState::Open);
        self.events.push(
            Event::EpochFinalized {
                epoch_index: epoch,
                available,
                reward_per_trust_point,
                seat_share,
                claim_deadline,
            },
        );
        self.events.push(Event::NewEpochStarted { epoch_index: new_epoch, start_block: now });
        claim_deadline
    }

    /// What a claimant is owed for an epoch: their trust score at the epoch's rate, plus a
    /// seat's share if they held the seat when the roll was measured and still hold it.
    pub open spec fn spec_entitlement(&self, epoch: u32, score: u128, seat: Seat) -> u128 {
        if !self.epoch_reward_pools@.contains_key(epoch) {
            0
        } else {
            let pool = self.epoch_reward_pools@[epoch];
            let base = sat_mul(pool.reward_per_trust_point, score);
            match seat.seated_at {
                Some(at) => if seat.holds_seat && at <= pool.finalized_at {
                    sat_add(base, pool.seat_share)
                } else {
                    base
                },
                None => base,
            }
        }
    }

    /// What a claimant with trust score `score` and seat `seat` is owed for `epoch`.
    pub fn entitlement(&self, epoch: u32, score: u128, seat: Seat) -> (r: u128)
        ensures
            r == self.spec_entitlement(epoch, score, seat),
    {
        let pool = match self.epoch_reward_pools.get(&epoch) {
            Some(p) => *p,
            None => return 0,
        };
        let mut amount = crate::arith::saturating_mul(pool.reward_per_trust_point, score);
        if seat.holds_seat {
            match seat.seated_at {
                Some(at) => {
                    if at <= pool.finalized_at {
                        amount = amount.saturating_add(pool.seat_share);
                    }
                },
                None => {},
            }
        }
        amount
    }

    /// What a claim by `who` for `epoch` at `now` would pay, or why it would be refused.
    pub open spec fn claim_check(&self, who: u64, epoch: u32, now: u64, score: u128, seat: Seat) -> Result<u128, Error> {
        if !self.epoch_reward_pools@.contains_key(epoch) {
            Err(Error::RewardPoolNotCalculated)
        } else if self.status_of(epoch) != EpochState::ClaimPeriod {
            Err(Error::NotInClaimPeriod)
        } else if now > self.epoch_reward_pools@[epoch].claim_deadline {
            Err(Error::ClaimPeriodExpired)
        } else if self.claimed_rewards@.contains_key(crate::presale::pair_key(epoch, who)) {
            Err(Error::RewardAlreadyClaimed)
        } else if self.spec_entitlement(epoch, score, seat) == 0 {
            Err(Error::NoRewardToClaim)
        } else {
            Ok(self.spec_entitlement(epoch, score, seat))
        }
    }

    /// What a claim would pay, or why it would be refused. The payment is sent only once this
    /// says yes.
    pub fn claim_reward_check(&self, who: u64, epoch: u32, now: u64, score: u128, seat: Seat) -> (r: Result<u128, Error>)
        ensures
            r == self.claim_check(who, epoch, now, score, seat),
    {
        let pool = match self.epoch_reward_pools.get(&epoch) {
            Some(p) => *p,
            None => return Err(Error::RewardPoolNotCalculated),
        };
        if self.epoch_status_of(epoch) != EpochState::ClaimPeriod {
            return Err(Error::NotInClaimPeriod);
        }
        if now > pool.claim_deadline {
            return Err(Error::ClaimPeriodExpired);
        }
        let k = crate::presale::make_pair_key(epoch, who);
        if self.claimed_rewards.contains_key(&k) {
            return Err(Error::RewardAlreadyClaimed);
        }
        let amount = self.entitlement(epoch, score, seat);
        if amount == 0 {
            return Err(Error::NoRewardToClaim);
        }
        Ok(amount)
    }

    /// The call asking the chain holding the pot to pay `amount` to `who`:
    /// `pay_from_incentive_pot(who, Compact(amount))` in its treasury pallet.
    pub fn payment_call(&self, who: u64, amount: u128) -> (r: Vec<u8>)
        ensures
            r@ == scale::call_bytes(
                self.config.treasury_pallet_index,
                PAY_FROM_INCENTIVE_POT_CALL_INDEX,
                scale::account_bytes(who) + scale::compact_u128(amount),
            ),
    {
        let mut args = scale::encode_u64(who);
        let mut amount_bytes = scale::encode_compact_u128(amount);
        args.append(&mut amount_bytes);
        scale::frame_call(self.config.treasury_pallet_index, PAY_FROM_INCENTIVE_POT_CALL_INDEX, args)
    }

    /// `who` draws what they are owed for `epoch`. The claim is recorded before the payment
    /// is counted as made; `payment_sent` says whether the payment call reached the chain
    /// holding the pot, and without it nothing is recorded.
    pub fn do_claim_reward(&mut self, who: u64, epoch: u32, now: u64, score: u128, seat: Seat, payment_sent: bool) -> (r: Result<u128, Error>)
        ensures
            old(self).wf() ==> final(self).wf(),
            old(self).wf() && old(self).one_window() ==> final(self).one_window(),
            old(self).wf() && old(self).claims_consistent()
                && old(self).paid_out_total + old(self).spec_entitlement(epoch, score, seat) <= u128::MAX
                ==> final(self).claims_consistent(),
            match old(self).claim_check(who, epoch, now, score, seat) {
                Err(e) => r == Err::<u128, Error>(e) && final(self).unchanged(old(self)),
                Ok(amount) => if !payment_sent {
                    r == Err::<u128, Error>(Error::CouldNotReachTreasury) && final(self).unchanged(old(self))
                } else {
                    &&& r == Ok::<u128, Error>(amount)
                    &&& final(self).claimed_rewards@ == old(self).claimed_rewards@.insert(
                        crate::presale::pair_key(epoch, who),
                        amount,
                    )
                    &&& final(self).paid_out_total == sat_add(old(self).paid_out_total, amount)
                    &&& final(self).epoch_info == old(self).epoch_info
                    &&& final(self).epoch_reward_pools@ == old(self).epoch_reward_pools@
                    &&& final(self).epoch_status@ == old(self).epoch_status@
                    &&& final(self).epoch_in_claim == old(self).epoch_in_claim
                    &&& final(self).reported_incentive_total == old(self).reported_incentive_total
                    &&& final(self).config == old(self).config
                    &&& final(self).events@ == old(self).events@.push(Event::RewardClaimed { who, epoch_index: epoch, amount })
                },
            },
    {
        let amount = self.claim_reward_check(who, epoch, now, score, seat)?;
        if !payment_sent {
            return Err(Error::CouldNotReachTreasury);
        }
        let ghost pre = *self;
        let k = crate::presale::make_pair_key(epoch, who);
        self.claimed_rewards.insert(k, amount);
        self.claim_log.push((epoch, who));
        proof {
            if pre.wf() {
                let n = pre.claim_log@.len() as int;
                assert(self.claim_log@[n] == (epoch, who));
                assert forall|i: int| 0 <= i < n implies #[trigger] pre.claim_log@[i] != (epoch, who) by {
                    assert(pre.claimed_rewards@.contains_key(
                        crate::presale::pair_key(pre.claim_log@[i].0, pre.claim_log@[i].1),
                    ));
                }
                assert forall|i: int, j: int| 0 <= i < j < self.claim_log@.len() implies self.claim_log@[i]
                    != self.claim_log@[j] by {
                    assert(self.claim_log@[i] == pre.claim_log@[i]);
                    if j < n {
                        assert(self.claim_log@[j] == pre.claim_log@[j]);
                    }
                }
                assert forall|i: int| 0 <= i < self.claim_log@.len() implies self.claimed_rewards@.contains_key(
                    crate::presale::pair_key(#[trigger] self.claim_log@[i].0, self.claim_log@[i].1),
                ) by {
                    if i < n {
                        assert(self.claim_log@[i] == pre.claim_log@[i]);
                    }
                }
                assert forall|q: u128| #[trigger] self.claimed_rewards@.contains_key(q) implies logged(self.claim_log@, q) by {
                    if q == k {
                        assert(crate::presale::pair_key(self.claim_log@[n].0, self.claim_log@[n].1) == q);
                    } else {
                        assert(pre.claimed_rewards@.contains_key(q));
                        let i = choose|i: int| 0 <= i < pre.claim_log@.len()
                            && crate::presale::pair_key(#[trigger] pre.claim_log@[i].0, pre.claim_log@[i].1) == q;
                        assert(self.claim_log@[i] == pre.claim_log@[i]);
                        assert(crate::presale::pair_key(self.claim_log@[i].0, self.claim_log@[i].1) == q);
                    }
                }
            }
        }
        self.paid_out_total = self.paid_out_total.saturating_add(amount);
        proof {
            if pre.wf() && pre.claims_consistent() && pre.paid_out_total + amount <= u128::MAX {
                assert forall|i: int| 0 <= i < pre.claim_log@.len() implies crate::presale::pair_key(
                    #[trigger] pre.claim_log@[i].0,
                    pre.claim_log@[i].1,
                ) != k by {
                    assert(pre.claimed_rewards@.contains_key(
                        crate::presale::pair_key(pre.claim_log@[i].0, pre.claim_log@[i].1),
                    ));
                }
                lemma_claimed_total_new_key(pre.claim_log@, pre.claimed_rewards@, k, amount);
                assert(self.claim_log@.drop_last() =~= pre.claim_log@);
                assert forall|i: int| 0 <= i < self.claim_log@.len() implies {
                    &&& self.status_of(#[trigger] self.claim_log@[i].0) != EpochState::Open
                    &&& self.epoch_reward_pools@.contains_key(self.claim_log@[i].0)
                } by {
                    if i < pre.claim_log@.len() {
                        assert(self.claim_log@[i] == pre.claim_log@[i]);
                    }
                }
            }
        }
        self.events.push(Event::RewardClaimed { who, epoch_index: epoch, amount });
        proof {
            if pre.one_window() {
                pre.lemma_one_window_kept(self);
            }
        }
        Ok(amount)
    }

    /// The rewards system is started by the privileged origin at `now`; see
    /// `do_initialize_rewards_system`.
    pub fn initialize_rewards_system(&mut self, now: u64) -> (r: Result<(), Error>)
        ensures
            old(self).wf() ==> final(self).wf(),
            old(self).wf() && old(self).one_window() ==> final(self).one_window(),
            old(self).wf() && old(self).claims_consistent() ==> final(self).claims_consistent(),
            old(self).epoch_info is Some ==> r == Err::<(), Error>(Error::AlreadyInitialized) && final(self).unchanged(old(self)),
            old(self).epoch_info is None ==> {
                &&& r == Ok::<(), Error>(())
                &&& final(self).epoch_info == Some(EpochData { current_epoch: 0, epoch_start_block: now, total_epochs_completed: 0 })
                &&& final(self).epoch_status@ == old(self).epoch_status@.insert(0, EpochState::Open)
                &&& final(self).epoch_reward_pools@ == old(self).epoch_reward_pools@
                &&& final(self).claimed_rewards@ == old(self).claimed_rewards@
                &&& final(self).epoch_in_claim == old(self).epoch_in_claim
                &&& final(self).reported_incentive_total == old(self).reported_incentive_total
                &&& final(self).paid_out_total == old(self).paid_out_total
                &&& final(self).config == old(self).config
                &&& final(self).events@ == old(self).events@.push(Event::NewEpochStarted { epoch_index: 0, start_block: now })
            },
    {
        self.do_initialize_rewards_system(now)
    }

    /// A citizen claims what they are owed for `epoch`; see `do_claim_reward`.
    pub fn claim_reward(&mut self, who: u64, epoch: u32, now: u64, score: u128, seat: Seat, payment_sent: bool) -> (r: Result<u128, Error>)
        ensures
            old(self).wf() ==> final(self).wf(),
            old(self).wf() && old(self).one_window() ==> final(self).one_window(),
            old(self).wf() && old(self).claims_consistent()
                && old(self).paid_out_total + old(self).spec_entitlement(epoch, score, seat) <= u128::MAX
                ==> final(self).claims_consistent(),
            match old(self).claim_check(who, epoch, now, score, seat) {
                Err(e) => r == Err::<u128, Error>(e) && final(self).unchanged(old(self)),
                Ok(amount) => if !payment_sent {
                    r == Err::<u128, Error>(Error::CouldNotReachTreasury) && final(self).unchanged(old(self))
                } else {
                    &&& r == Ok::<u128, Error>(amount)
                    &&& final(self).claimed_rewards@ == old(self).claimed_rewards@.insert(
                        crate::presale::pair_key(epoch, who),
                        amount,
                    )
                    &&& final(self).paid_out_total == sat_add(old(self).paid_out_total, amount)
                    &&& final(self).epoch_info == old(self).epoch_info
                    &&& final(self).epoch_reward_pools@ == old(self).epoch_reward_pools@
                    &&& final(self).epoch_status@ == old(self).epoch_status@
                    &&& final(self).epoch_in_claim == old(self).epoch_in_claim
                    &&& final(self).reported_incentive_total == old(self).reported_incentive_total
                    &&& final(self).config == old(self).config
                    &&& final(self).events@ == old(self).events@.push(Event::RewardClaimed { who, epoch_index: epoch, amount })
                },
            },
    {
        self.do_claim_reward(who, epoch, now, score, seat, payment_sent)
    }

    /// Close an epoch's claim window. Nothing moves: what was not claimed stays in the pot.
    pub fn do_close_epoch(&mut self, epoch: u32) -> (r: Result<(), Error>)
        ensures
            old(self).wf() ==> final(self).wf(),
            old(self).wf() && old(self).one_window() ==> final(self).one_window(),
            old(self).wf() && old(self).claims_consistent() ==> final(self).claims_consistent(),
            old(self).status_of(epoch) != EpochState::ClaimPeriod ==> r == Err::<(), Error>(Error::NotInClaimPeriod)
                && final(self).unchanged(old(self)),
            old(self).status_of(epoch) == EpochState::ClaimPeriod ==> {
                &&& r == Ok::<(), Error>(())
                &&& final(self).epoch_status@ == old(self).epoch_status@.insert(epoch, EpochState::Closed)
                &&& final(self).epoch_in_claim is None
                &&& final(self).epoch_info == old(self).epoch_info
                &&& final(self).epoch_reward_pools@ == old(self).epoch_reward_pools@
                &&& final(self).claimed_rewards@ == old(self).claimed_rewards@
                &&& final(self).reported_incentive_total == old(self).reported_incentive_total
                &&& final(self).paid_out_total == old(self).paid_out_total
                &&& final(self).config == old(self).config
                &&& final(self).events@ == old(self).events@.push(Event::EpochClosed { epoch_index: epoch })
            },
    {
        if self.epoch_status_of(epoch) != EpochState::ClaimPeriod {
            return Err(Error::NotInClaimPeriod);
        }
        self.epoch_status.insert(epoch, EpochState::Closed);
        self.epoch_in_claim = None;
        self.events.push(Event::EpochClosed { epoch_index: epoch });
        proof {
            if old(self).one_window() {
                assert(old(self).status_of(epoch) == EpochState::ClaimPeriod);
                assert(old(self).epoch_in_claim == Some(epoch));
                assert forall|e: u32| #[trigger] self.status_of(e) == EpochState::ClaimPeriod <==> self.epoch_in_claim == Some(e) by {
                    if e != epoch {
                        assert(self.status_of(e) == old(self).status_of(e));
                        assert(old(self).status_of(e) != EpochState::ClaimPeriod);
                    }
                }
            }
        }
        Ok(())
    }

    /// At most one epoch is open to claims, it is the one recorded as such, its window runs
    /// from its finalisation, and it was finalised when the current epoch began.
    pub open spec fn one_window(&self) -> bool {
        &&& forall|e: u32| #[trigger] self.status_of(e) == EpochState::ClaimPeriod <==> self.epoch_in_claim == Some(e)
        &&& self.epoch_in_claim is Some ==> {
            let e = self.epoch_in_claim->Some_0;
            &&& self.epoch_info is Some
            &&& self.epoch_reward_pools@.contains_key(e)
            &&& self.epoch_reward_pools@[e].finalized_at == self.epoch().epoch_start_block
            &&& self.epoch_reward_pools@[e].claim_deadline == sat_add_u64(
                self.epoch_reward_pools@[e].finalized_at,
                CLAIM_PERIOD_BLOCKS as u64,
            )
            &&& e != self.epoch().current_epoch
        }
    }

    /// One window at most survives a change that leaves the epochs, their states, their pools
    /// and the recorded window as they were.
    proof fn lemma_one_window_kept(&self, other: &Self)
        requires
            self.one_window(),
            other.epoch_info == self.epoch_info,
            other.epoch_status@ == self.epoch_status@,
            other.epoch_reward_pools@ == self.epoch_reward_pools@,
            other.epoch_in_claim == self.epoch_in_claim,
        ensures
            other.one_window(),
    {
        assert forall|e: u32| #[trigger] other.status_of(e) == EpochState::ClaimPeriod <==> other.epoch_in_claim == Some(e) by {
            assert(other.status_of(e) == self.status_of(e));
        }
    }

    /// Whether the per-block hook at `now` closes the recorded claim window: it has run out
    /// and is still being claimed against.
    pub open spec fn closes_window(&self, now: u64) -> bool {
        &&& self.epoch_in_claim is Some
        &&& self.spec_window_closed(self.epoch_in_claim->Some_0, now)
        &&& self.status_of(self.epoch_in_claim->Some_0) == EpochState::ClaimPeriod
    }

    /// The epoch states once the run-out window, if any, is closed.
    pub open spec fn status_after_close(&self, now: u64) -> Map<u32, EpochState> {
        if self.closes_window(now) {
            self.epoch_status@.insert(self.epoch_in_claim->Some_0, EpochState::Closed)
        } else {
            self.epoch_status@
        }
    }

    /// The reports once the run-out window, if any, is closed.
    pub open spec fn events_after_close(&self, now: u64) -> Seq<Event> {
        if self.closes_window(now) {
            self.events@.push(Event::EpochClosed { epoch_index: self.epoch_in_claim->Some_0 })
        } else {
            self.events@
        }
    }

    /// The per-block hook: close the claim window that has run out, then finalise the epoch
    /// that is due. `total_score` is the trust roll's total. Returns the block until which the
    /// roll is to stay frozen, when an epoch was finalised.
    pub fn on_initialize(&mut self, now: u64, total_score: u128) -> (r: Option<u64>)
        ensures
            old(self).wf() ==> final(self).wf(),
            old(self).wf() && old(self).claims_consistent() && old(self).epoch().current_epoch < u32::MAX
                ==> final(self).claims_consistent(),
            r is Some <==> old(self).spec_epoch_is_due(now),
            final(self).reported_incentive_total == old(self).reported_incentive_total,
            final(self).paid_out_total == old(self).paid_out_total,
            final(self).claimed_rewards@ == old(self).claimed_rewards@,
            final(self).config == old(self).config,
            r is None ==> {
                &&& final(self).epoch_info == old(self).epoch_info
                &&& final(self).epoch_reward_pools@ == old(self).epoch_reward_pools@
                &&& final(self).epoch_status@ == old(self).status_after_close(now)
                &&& final(self).epoch_in_claim == if old(self).closes_window(now) {
                    None
                } else {
                    old(self).epoch_in_claim
                }
                &&& final(self).events@ == old(self).events_after_close(now)
            },
            r is Some ==> ({
                let e = old(self).epoch();
                let epoch = e.current_epoch;
                let deadline = sat_add_u64(now, CLAIM_PERIOD_BLOCKS as u64);
                let (rate, seat) = epoch_rates(old(self).spec_available(), total_score);
                let new_epoch = sat_add_u32(epoch, 1);
                &&& r == Some(deadline)
                &&& final(self).epoch_reward_pools@ == old(self).epoch_reward_pools@.insert(
                    epoch,
                    EpochRewardPool {
                        epoch_index: epoch,
                        reward_per_trust_point: rate,
                        seat_share: seat,
                        finalized_at: now,
                        claim_deadline: deadline,
                    },
                )
                &&& final(self).epoch_status@ == old(self).status_after_close(now).insert(epoch, EpochState::ClaimPeriod).insert(
                    new_epoch,
                    EpochState::Open,
                )
                &&& final(self).epoch_in_claim == Some(epoch)
                &&& final(self).epoch_info == Some(
                    EpochData {
                        current_epoch: new_epoch,
                        epoch_start_block: now,
                        total_epochs_completed: sat_add_u32(e.total_epochs_completed, 1),
                    },
                )
                &&& final(self).events@ == old(self).events_after_close(now).push(
                    Event::EpochFinalized {
                        epoch_index: epoch,
                        available: old(self).spec_available(),
                        reward_per_trust_point: rate,
                        seat_share: seat,
                        claim_deadline: deadline,
                    },
                ).push(Event::NewEpochStarted { epoch_index: new_epoch, start_block: now })
            }),
            old(self).one_window() && old(self).epoch().current_epoch < u32::MAX
                && now <= u64::MAX - BLOCKS_PER_EPOCH - CLAIM_PERIOD_BLOCKS
                && old(self).epoch().epoch_start_block <= now ==> final(self).one_window(),
    {
        let ghost old_self = *self;
        match self.epoch_in_claim {
            Some(epoch) => {
                if self.claim_window_has_closed(epoch, now) {
                    let _ = self.do_close_epoch(epoch);
                }
            },
            None => {},
        }
        let ghost mid = *self;
        proof {
            assert(mid.events@ == old_self.events_after_close(now));
            assert(mid.spec_epoch_is_due(now) == old_self.spec_epoch_is_due(now));
            assert(mid.epoch_status@ == old_self.status_after_close(now));
            if old_self.one_window() && old_self.epoch().current_epoch < u32::MAX
                && now <= u64::MAX - BLOCKS_PER_EPOCH - CLAIM_PERIOD_BLOCKS
                && old_self.epoch().epoch_start_block <= now {
                assert(mid.epoch() == old_self.epoch());
                if mid.spec_epoch_is_due(now) {
                    assert(mid.epoch_in_claim is None) by {
                        if old_self.epoch_in_claim is Some {
                            let e = old_self.epoch_in_claim->Some_0;
                            assert(old_self.status_of(e) == EpochState::ClaimPeriod);
                            assert(old_self.spec_window_closed(e, now));
                        }
                    }
                }
                assert forall|e: u32| #[trigger] mid.status_of(e) == EpochState::ClaimPeriod <==> mid.epoch_in_claim == Some(e) by {
                    if old_self.epoch_in_claim is Some && old_self.spec_window_closed(old_self.epoch_in_claim->Some_0, now) {
                        assert(old_self.status_of(old_self.epoch_in_claim->Some_0) == EpochState::ClaimPeriod);
                    }
                }
            }
        }
        if self.epoch_is_due(now) {
            let until = self.do_finalize_epoch(now, total_score);
            proof {
                if old_self.one_window() && old_self.epoch().current_epoch < u32::MAX
                    && now <= u64::MAX - BLOCKS_PER_EPOCH - CLAIM_PERIOD_BLOCKS
                    && old_self.epoch().epoch_start_block <= now {
                    let ep = mid.epoch().current_epoch;
                    assert forall|e: u32| #[trigger] self.status_of(e) == EpochState::ClaimPeriod <==> self.epoch_in_claim == Some(e) by {
                        if e != ep && e != ep + 1 {
                            assert(self.status_of(e) == mid.status_of(e));
                        }
                    }
                }
            }
            Some(until)
        } else {
            None
        }
    }
}

impl Pezpallet {
    /// Whether the `i`th claim in the log shows the disagreement `v`.
    pub open spec fn claim_fails(&self, v: InvariantViolation, i: int) -> bool {
        &&& 0 <= i < self.claim_log@.len()
        &&& match v {
            InvariantViolation::ClaimOnOpenEpoch => self.status_of(self.claim_log@[i].0) == EpochState::Open,
            InvariantViolation::ClaimWithoutPool => !self.epoch_reward_pools@.contains_key(self.claim_log@[i].0),
            _ => false,
        }
    }

    /// The first disagreement, in the order the checks run: the pot, each kind of bad claim,
    /// the claims against what was paid, the claim windows, the current epoch.
    pub open spec fn invariant_violation(&self) -> Option<InvariantViolation> {
        if self.paid_out_total > self.reported_incentive_total {
            Some(InvariantViolation::PaidOverReported)
        } else if exists|i: int| #[trigger] self.claim_fails(InvariantViolation::ClaimOnOpenEpoch, i) {
            Some(InvariantViolation::ClaimOnOpenEpoch)
        } else if exists|i: int| #[trigger] self.claim_fails(InvariantViolation::ClaimWithoutPool, i) {
            Some(InvariantViolation::ClaimWithoutPool)
        } else if saturated_u128(claimed_total(self.claim_log@, self.claimed_rewards@)) != self.paid_out_total {
            Some(InvariantViolation::ClaimsMismatch)
        } else if exists|a: u32, b: u32| a != b && #[trigger] self.status_of(a) == EpochState::ClaimPeriod
            && #[trigger] self.status_of(b) == EpochState::ClaimPeriod {
            Some(InvariantViolation::TwoWindows)
        } else if !(forall|e: u32| #[trigger] self.status_of(e) == EpochState::ClaimPeriod <==> self.epoch_in_claim == Some(e)) {
            Some(InvariantViolation::WindowMismatch)
        } else if self.epoch_info is Some && self.status_of(self.epoch().current_epoch) != EpochState::Open {
            Some(InvariantViolation::CurrentNotOpen)
        } else {
            None
        }
    }

    /// Whether any claim in the log shows the disagreement `v`.
    fn any_claim_fails(&self, v: InvariantViolation) -> (r: bool)
        ensures
            r == exists|i: int| #[trigger] self.claim_fails(v, i),
    {
        let mut i: usize = 0;
        while i < self.claim_log.len()
            invariant
                0 <= i <= self.claim_log@.len(),
                forall|j: int| j < i ==> !#[trigger] self.claim_fails(v, j),
            decreases self.claim_log@.len() - i,
        {
            let epoch = self.claim_log[i].0;
            let fails = match v {
                InvariantViolation::ClaimOnOpenEpoch => self.epoch_status_of(epoch) == EpochState::Open,
                InvariantViolation::ClaimWithoutPool => !self.epoch_reward_pools.contains_key(&epoch),
                _ => false,
            };
            if fails {
                assert(self.claim_fails(v, i as int));
                return true;
            }
            i = i + 1;
        }
        false
    }

    /// What the logged claims were paid, saturated at `u128::MAX`.
    fn claims_paid(&self) -> (r: u128)
        requires
            self.wf(),
        ensures
            r == saturated_u128(claimed_total(self.claim_log@, self.claimed_rewards@)),
    {
        let ghost log = self.claim_log@;
        let mut total: u128 = 0;
        let mut i: usize = 0;
        while i < self.claim_log.len()
            invariant
                self.wf(),
                log == self.claim_log@,
                0 <= i <= log.len(),
                total == saturated_u128(claimed_total(log.take(i as int), self.claimed_rewards@)),
            decreases log.len() - i,
        {
            let (epoch, who) = self.claim_log[i];
            proof {
                assert(log.take(i + 1).drop_last() =~= log.take(i as int));
                assert(log.take(i + 1).last() == log[i as int]);
            }
            let k = crate::presale::make_pair_key(epoch, who);
            match self.claimed_rewards.get(&k) {
                Some(amount) => {
                    total = total.saturating_add(*amount);
                },
                None => {},
            }
            i = i + 1;
        }
        proof {
            assert(log.take(log.len() as int) =~= log);
        }
        total
    }

    /// The epoch open to claims, if exactly one is; `Err` if two are.
    fn window_in_claim(&self) -> (r: Result<Option<u32>, ()>)
        requires
            self.wf(),
        ensures
            r is Err <==> exists|a: u32, b: u32| a != b && #[trigger] self.status_of(a) == EpochState::ClaimPeriod
                && #[trigger] self.status_of(b) == EpochState::ClaimPeriod,
            r matches Ok(found) ==> forall|e: u32| #[trigger] self.status_of(e) == EpochState::ClaimPeriod <==> found == Some(e),
    {
        let current: u64 = match self.epoch_info {
            Some(info) => info.current_epoch as u64 + 1,
            None => 0,
        };
        let mut found: Option<u32> = None;
        let mut e: u64 = 0;
        while e < current
            invariant
                self.wf(),
                current == if self.epoch_info is Some { self.epoch().current_epoch as u64 + 1 } else { 0 },
                e <= current,
                found is None ==> forall|x: u32| x < e ==> #[trigger] self.status_of(x) != EpochState::ClaimPeriod,
                found matches Some(y) ==> {
                    &&& y < e
                    &&& self.status_of(y) == EpochState::ClaimPeriod
                    &&& forall|x: u32| x < e && x != y ==> #[trigger] self.status_of(x) != EpochState::ClaimPeriod
                },
            decreases current - e,
        {
            let epoch = e as u32;
            if self.epoch_status_of(epoch) == EpochState::ClaimPeriod {
                match found {
                    Some(y) => {
                        assert(y != epoch && self.status_of(y) == EpochState::ClaimPeriod
                            && self.status_of(epoch) == EpochState::ClaimPeriod);
                        return Err(());
                    },
                    None => {
                        found = Some(epoch);
                    },
                }
            }
            e = e + 1;
        }
        proof {
            assert forall|x: u32| x >= current implies #[trigger] self.status_of(x) != EpochState::ClaimPeriod by {
                assert(!self.epoch_status@.contains_key(x));
            }
        }
        Ok(found)
    }

    /// Every logged claim is against an epoch that was finalised and is no longer collecting,
    /// the claims add up to what was paid out, and the current epoch is collecting.
    pub open spec fn claims_consistent(&self) -> bool {
        &&& forall|i: int| 0 <= i < self.claim_log@.len() ==> {
            &&& self.status_of(#[trigger] self.claim_log@[i].0) != EpochState::Open
            &&& self.epoch_reward_pools@.contains_key(self.claim_log@[i].0)
        }
        &&& claimed_total(self.claim_log@, self.claimed_rewards@) == self.paid_out_total as nat
        &&& self.epoch_info is Some ==> self.status_of(self.epoch().current_epoch) == EpochState::Open
    }

    /// A reward is paid once per epoch: once `who` has been paid for `epoch`, any further claim
    /// of theirs for it is refused, whatever the block, score or seat it comes with. No call
    /// removes a record of payment.
    pub proof fn lemma_paid_once(&self, who: u64, epoch: u32, now: u64, score: u128, seat: Seat)
        requires
            self.claimed_rewards@.contains_key(crate::presale::pair_key(epoch, who)),
        ensures
            self.claim_check(who, epoch, now, score, seat) is Err,
    {
    }

    /// A consistent payroll with one claim window passes every check but the one on the pot:
    /// whether more was paid than the pot was given depends on the trust scores claimed with,
    /// which the trust pallet keeps.
    pub proof fn lemma_consistent_payroll_passes_checks(&self)
        requires
            self.wf(),
            self.claims_consistent(),
            self.one_window(),
        ensures
            self.invariant_violation() is None || self.invariant_violation() == Some(InvariantViolation::PaidOverReported),
    {
        assert forall|i: int| !#[trigger] self.claim_fails(InvariantViolation::ClaimOnOpenEpoch, i) by {
            if 0 <= i < self.claim_log@.len() {
                assert(self.status_of(self.claim_log@[i].0) != EpochState::Open);
            }
        }
        assert forall|i: int| !#[trigger] self.claim_fails(InvariantViolation::ClaimWithoutPool, i) by {
            if 0 <= i < self.claim_log@.len() {
                assert(self.epoch_reward_pools@.contains_key(self.claim_log@[i].0));
            }
        }
        assert forall|a: u32, b: u32| !(a != b && #[trigger] self.status_of(a) == EpochState::ClaimPeriod
            && #[trigger] self.status_of(b) == EpochState::ClaimPeriod) by {
        }
    }

    /// Check that the payroll's records agree with one another: never more paid out than the
    /// pot was given, every claim against an epoch that was finalised and is no longer
    /// collecting, the claims adding up to what was paid, one claim window at most and it the
    /// one recorded, and the current epoch collecting. Gives the first disagreement found.
    pub fn try_state(&self) -> (r: Result<(), InvariantViolation>)
        requires
            self.wf(),
        ensures
            match self.invariant_violation() {
                Some(e) => r == Err::<(), InvariantViolation>(e),
                None => r == Ok::<(), InvariantViolation>(()),
            },
    {
        if self.paid_out_total > self.reported_incentive_total {
            return Err(InvariantViolation::PaidOverReported);
        }
        if self.any_claim_fails(InvariantViolation::ClaimOnOpenEpoch) {
            return Err(InvariantViolation::ClaimOnOpenEpoch);
        }
        if self.any_claim_fails(InvariantViolation::ClaimWithoutPool) {
            return Err(InvariantViolation::ClaimWithoutPool);
        }
        if self.claims_paid() != self.paid_out_total {
            return Err(InvariantViolation::ClaimsMismatch);
        }
        let found = match self.window_in_claim() {
            Ok(found) => found,
            Err(()) => return Err(InvariantViolation::TwoWindows),
        };
        let same = match (found, self.epoch_in_claim) {
            (Some(a), Some(b)) => a == b,
            (None, None) => true,
            _ => false,
        };
        if !same {
            proof {
                match found {
                    Some(a) => {
                        assert(self.status_of(a) == EpochState::ClaimPeriod);
                    },
                    None => {
                        let b = self.epoch_in_claim->Some_0;
                        assert(self.status_of(b) != EpochState::ClaimPeriod);
                    },
                }
            }
            return Err(InvariantViolation::WindowMismatch);
        }
        match self.epoch_info {
            Some(info) => {
                if self.epoch_status_of(info.current_epoch) != EpochState::Open {
                    return Err(InvariantViolation::CurrentNotOpen);
                }
            },
            None => {},
        }
        Ok(())
    }
}

} // verus!
