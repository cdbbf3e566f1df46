//! The PEZ treasury: a fixed allocation moved into two pots once a month, halving every
//! forty-eight releases, with nothing anywhere that can create PEZ.
//!
//! The asset balances themselves belong to the assets pallet. A release names the two transfers
//! it needs; whoever holds the balances makes them and reports whether they went through.
use vstd::prelude::*;
use vstd::hash_map::HashMapWithView;
use crate::arith::{sat_add, sat_sub_u64, sat_add_u32};
use crate::scale;


verus! {

/// Releases per halving period.
pub const HALVING_PERIOD_MONTHS: u32 = 48;

/// Blocks between two releases: thirty days at ten blocks a minute.
pub const BLOCKS_PER_MONTH: u32 = 432_000;

/// Blocks in a halving period.
pub const HALVING_PERIOD_BLOCKS: u32 = HALVING_PERIOD_MONTHS * BLOCKS_PER_MONTH;

/// Five billion PEZ at twelve decimals.
pub const TOTAL_SUPPLY: u128 = 5_000_000_000 * 1_000_000_000_000;

/// 96.25 per cent of the supply.
pub const TREASURY_ALLOCATION: u128 = 4_812_500_000 * 1_000_000_000_000;

/// 1.875 per cent of the supply.
pub const PRESALE_ALLOCATION: u128 = 93_750_000 * 1_000_000_000_000;

/// 1.875 per cent of the supply.
pub const FOUNDER_ALLOCATION: u128 = 93_750_000 * 1_000_000_000_000;

/// `note_incentive_funding` in the rewards pallet on the People chain.
pub const NOTE_INCENTIVE_FUNDING_CALL_INDEX: u8 = 2;

/// What release 0 pays: half the allocation spread over the first period.
pub open spec fn initial_monthly() -> u128 {
    TREASURY_ALLOCATION / 2 / (HALVING_PERIOD_MONTHS as u128)
}

/// `x` halved `n` times, rounding down each time.
pub open spec fn halve(x: u128, n: nat) -> u128
    decreases n,
{
    if n == 0 {
        x
    } else {
        halve(x, (n - 1) as nat) / 2
    }
}

/// What a release in halving period `period` pays.
pub open spec fn period_amount(period: nat) -> u128 {
    if period >= 128 {
        0
    } else {
        halve(initial_monthly(), period)
    }
}

/// The pots' three-quarter share of `amount`, computed without overflow.
pub fn incentive_share_of(amount: u128) -> (r: u128)
    ensures
        r == incentive_share(amount),
        r <= amount,
{
    let q = amount / 100;
    let rem = amount % 100;
    proof {
        assert(amount == 100 * q + rem);
        assert(amount * 75 / 100 == 75 * q + rem * 75 / 100) by (nonlinear_arith)
            requires
                amount == 100 * q + rem,
                0 <= rem < 100,
        ;
        assert(q * 75 <= amount) by (nonlinear_arith)
            requires
                amount == 100 * q + rem,
                0 <= rem < 100,
                q >= 0,
        ;
    }
    q * 75 + rem * 75 / 100
}

/// What release `index` pays: derived from the index alone, so it cannot drift.
pub open spec fn release_amount(index: nat) -> u128 {
    period_amount(index / (HALVING_PERIOD_MONTHS as nat))
}

/// The pots' three-quarter share of a release.
pub open spec fn incentive_share(amount: u128) -> u128 {
    (amount * 75 / 100) as u128
}

/// Everything releases `0 .. m` pay.
pub open spec fn schedule_total(m: nat) -> nat
    decreases m,
{
    if m == 0 {
        0
    } else {
        (schedule_total((m - 1) as nat) + release_amount((m - 1) as nat)) as nat
    }
}

/// Everything releases `0 .. m` give the incentive pot.
pub open spec fn incentive_total(m: nat) -> nat
    decreases m,
{
    if m == 0 {
        0
    } else {
        (incentive_total((m - 1) as nat) + incentive_share(release_amount((m - 1) as nat))) as nat
    }
}

/// Where the halving schedule stands.
#[derive(Clone, Copy, PartialEq, Eq, Debug)]
pub struct HalvingData {
    pub current_period: u32,
    pub period_start_block: u64,
    pub monthly_amount: u128,
    pub total_released: u128,
}

/// Before activation: period zero, nothing scheduled, nothing released.
impl Default for HalvingData {
    fn default() -> (r: Self)
        ensures
            r == (HalvingData { current_period: 0, period_start_block: 0, monthly_amount: 0, total_released: 0 }),
    {
        HalvingData { current_period: 0, period_start_block: 0, monthly_amount: 0, total_released: 0 }
    }
}

/// One month's release, as recorded.
#[derive(Clone, Copy, PartialEq, Eq, Debug)]
pub struct MonthlyRelease {
    pub month_index: u32,
    pub release_block: u64,
    pub amount_released: u128,
    pub incentive_amount: u128,
    pub government_amount: u128,
}

/// The record release `index` has when it is made at `block`.
pub open spec fn expected_release(index: u32, block: u64) -> MonthlyRelease {
    let amount = release_amount(index as nat);
    MonthlyRelease {
        month_index: index,
        release_block: block,
        amount_released: amount,
        incentive_amount: incentive_share(amount),
        government_amount: (amount - incentive_share(amount)) as u128,
    }
}

/// What the treasury reports having done.
#[derive(Clone, Copy, PartialEq, Eq, Debug)]
pub enum Event {
    TreasuryInitialized { start_block: u64, initial_monthly_amount: u128 },
    MonthlyFundsReleased {
        month_index: u32,
        total_amount: u128,
        incentive_amount: u128,
        government_amount: u128,
    },
    MonthlyReleaseFailed,
    GovernmentPotSpent { beneficiary: [u8; 32], amount: u128 },
    IncentivePotSpent { beneficiary: [u8; 32], amount: u128 },
    IncentiveFundingReportFailed { total: u128 },
    NewHalvingPeriod { period: u32, new_monthly_amount: u128 },
}

/// Why a treasury call was refused.
#[derive(Clone, Copy, PartialEq, Eq, Debug)]
pub enum Error {
    TreasuryAlreadyInitialized,
    TreasuryNotInitialized,
    MonthlyReleaseAlreadyDone,
    InsufficientTreasuryBalance,
    InvalidHalvingPeriod,
    ReleaseTooEarly,
    NothingToSpend,
    InsufficientGovernmentPotBalance,
    InsufficientIncentivePotBalance,
}

/// A way the treasury's records can disagree with one another or with the schedule.
#[derive(Clone, Copy, PartialEq, Eq, Debug, Structural)]
pub enum InvariantViolation {
    /// The latch and the start block disagree about whether the schedule has begun.
    LatchMismatch,
    /// Releases were counted before the schedule began.
    ReleasesBeforeStart,
    /// A release was recorded before the schedule began.
    RecordBeforeStart,
    /// Incentive funding was reported before the schedule began.
    IncentiveBeforeStart,
    /// A release is recorded for a month that is not due yet.
    RecordNotDue,
    /// A release is filed under the wrong month.
    WrongMonth,
    /// A release paid the wrong amount.
    WrongAmount,
    /// The incentive share of a release is wrong.
    WrongIncentiveShare,
    /// The government share of a release is wrong.
    WrongGovernmentShare,
    /// A month before the next one has no release record.
    Gap,
    /// The reported incentive total does not match the releases.
    IncentiveTotalMismatch,
    /// The released total does not match the releases.
    TotalMismatch,
    /// The halving period does not follow from the releases made.
    PeriodMismatch,
    /// The stored monthly amount is not the current period's.
    MonthlyAmountMismatch,
}

/// What a disagreement is called, in words.
#[verifier::opaque]
pub open spec fn violation_message(v: InvariantViolation) -> Seq<char> {
    match v {
        InvariantViolation::LatchMismatch => "the latch and the start block disagree about whether the schedule has begun"@,
        InvariantViolation::ReleasesBeforeStart => "releases were made before the schedule began"@,
        InvariantViolation::RecordBeforeStart => "a release was recorded before the schedule began"@,
        InvariantViolation::IncentiveBeforeStart => "incentive funding was reported before the schedule began"@,
        InvariantViolation::RecordNotDue => "a release is recorded for a month that is not due yet"@,
        InvariantViolation::WrongMonth => "a release is filed under the wrong month"@,
        InvariantViolation::WrongAmount => "a release paid the wrong amount"@,
        InvariantViolation::WrongIncentiveShare => "the incentive share is wrong"@,
        InvariantViolation::WrongGovernmentShare => "the government share is wrong"@,
        InvariantViolation::Gap => "there is a gap in the release history"@,
        InvariantViolation::IncentiveTotalMismatch => "the reported incentive total does not match the records"@,
        InvariantViolation::TotalMismatch => "total_released does not match the records"@,
        InvariantViolation::PeriodMismatch => "the halving period does not follow from the releases made"@,
        InvariantViolation::MonthlyAmountMismatch => "the stored monthly amount does not match the current period"@,
    }
}

impl InvariantViolation {
    /// What went wrong, in words.
    pub fn message(&self) -> (r: &'static str)
        ensures
            r@ == violation_message(*self),
    {
        proof {
            reveal(violation_message);
        }
        match self {
            InvariantViolation::LatchMismatch => "the latch and the start block disagree about whether the schedule has begun",
            InvariantViolation::ReleasesBeforeStart => "releases were made before the schedule began",
            InvariantViolation::RecordBeforeStart => "a release was recorded before the schedule began",
            InvariantViolation::IncentiveBeforeStart => "incentive funding was reported before the schedule began",
            InvariantViolation::RecordNotDue => "a release is recorded for a month that is not due yet",
            InvariantViolation::WrongMonth => "a release is filed under the wrong month",
            InvariantViolation::WrongAmount => "a release paid the wrong amount",
            InvariantViolation::WrongIncentiveShare => "the incentive share is wrong",
            InvariantViolation::WrongGovernmentShare => "the government share is wrong",
            InvariantViolation::Gap => "there is a gap in the release history",
            InvariantViolation::IncentiveTotalMismatch => "the reported incentive total does not match the records",
            InvariantViolation::TotalMismatch => "total_released does not match the records",
            InvariantViolation::PeriodMismatch => "the halving period does not follow from the releases made",
            InvariantViolation::MonthlyAmountMismatch => "the stored monthly amount does not match the current period",
        }
    }
}

/// What the records for the months below `n` in `months` gave the incentive pot, each month
/// its share of what it was owed.
pub open spec fn recorded_incentive(months: Set<u32>, n: nat) -> nat
    decreases n,
{
    if n == 0 {
        0
    } else {
        recorded_incentive(months, (n - 1) as nat) + if months.contains((n - 1) as u32) {
            incentive_share(release_amount((n - 1) as nat)) as nat
        } else {
            0nat
        }
    }
}

/// The recorded months never gave the pot more than the schedule does, and exactly as much
/// when none is missing.
proof fn lemma_recorded_incentive_bound(months: Set<u32>, n: nat)
    requires
        n <= u32::MAX + 1,
    ensures
        recorded_incentive(months, n) <= incentive_total(n),
        (forall|m: u32| m < n ==> #[trigger] months.contains(m)) ==> recorded_incentive(months, n)
            == incentive_total(n),
    decreases n,
{
    if n > 0 {
        lemma_recorded_incentive_bound(months, (n - 1) as nat);
        if forall|m: u32| m < n ==> #[trigger] months.contains(m) {
            assert(months.contains((n - 1) as u32));
        }
    }
}

/// How many of the months below `n` have a release record in `months`.
pub open spec fn recorded_below(months: Set<u32>, n: nat) -> nat
    decreases n,
{
    if n == 0 {
        0
    } else {
        recorded_below(months, (n - 1) as nat) + if months.contains((n - 1) as u32) {
            1nat
        } else {
            0nat
        }
    }
}

/// The recorded months below `n`.
pub open spec fn recorded_set(months: Set<u32>, n: nat) -> Set<u32> {
    Set::new(|m: u32| m < n && months.contains(m))
}

/// The count of recorded months below `n` is the size of the set of them.
proof fn lemma_recorded_below(months: Set<u32>, n: nat)
    requires
        n <= u32::MAX + 1,
    ensures
        recorded_set(months, n).finite(),
        recorded_set(months, n).len() == recorded_below(months, n),
    decreases n,
{
    if n == 0 {
        assert(recorded_set(months, n) =~= Set::<u32>::empty());
    } else {
        lemma_recorded_below(months, (n - 1) as nat);
        let m = (n - 1) as u32;
        if months.contains(m) {
            assert(recorded_set(months, n) =~= recorded_set(months, (n - 1) as nat).insert(m));
        } else {
            assert(recorded_set(months, n) =~= recorded_set(months, (n - 1) as nat));
        }
    }
}

/// The identities the three accounts are derived from, and where funding reports go.
#[derive(Clone, Copy, PartialEq, Eq, Debug)]
pub struct Config {
    pub treasury_pallet_id: [u8; 8],
    pub incentive_pot_id: [u8; 8],
    pub government_pot_id: [u8; 8],
    pub rewards_pallet_index: u8,
}

/// The treasury's storage.
pub struct Pezpallet {
    pub config: Config,
    pub halving_info: HalvingData,
    pub monthly_releases: HashMapWithView<u32, MonthlyRelease>,
    pub next_release_month: u32,
    pub treasury_start_block: Option<u64>,
    pub distribution_started: bool,
    pub total_incentive_released: u128,
    pub events: Vec<Event>,
}

/// A keyless account derived from a pallet identity: `modl`, the identity, then zeros.
pub open spec fn pallet_account(id: [u8; 8]) -> Seq<u8> {
    seq![109u8, 111u8, 100u8, 108u8] + id@ + Seq::new(20, |i: int| 0u8)
}

/// `PalletId::into_account_truncating` for 32-byte accounts.
pub fn into_account_truncating(id: [u8; 8]) -> (r: [u8; 32])
    ensures
        r@ =~= pallet_account(id),
{
    let mut r = [0u8; 32];
    r[0] = 109;
    r[1] = 111;
    r[2] = 100;
    r[3] = 108;
    let mut i: usize = 0;
    while i < 8
        invariant
            0 <= i <= 8,
            r@.len() == 32,
            r@[0] == 109u8,
            r@[1] == 111u8,
            r@[2] == 100u8,
            r@[3] == 108u8,
            forall|j: int| 4 <= j < 4 + i ==> r@[j] == id@[j - 4],
            forall|j: int| 4 + i <= j < 32 ==> r@[j] == 0u8,
        decreases 8 - i,
    {
        r[4 + i] = id[i];
        i = i + 1;
    }
    r
}

impl Pezpallet {
    /// The storage agrees with the releases it records: every month before the next one was
    /// paid exactly what it was owed, and the running totals are the sums of those payments.
    pub open spec fn wf(&self) -> bool {
        &&& self.monthly_releases@.dom().finite()
        &&& self.treasury_start_block is None ==> {
            &&& self.next_release_month == 0
            &&& self.monthly_releases@ == Map::<u32, MonthlyRelease>::empty()
            &&& self.halving_info.total_released == 0
            &&& self.total_incentive_released == 0
        }
        &&& self.treasury_start_block is Some ==> {
            &&& forall|m: u32| #[trigger]
                self.monthly_releases@.contains_key(m) ==> m < self.next_release_month || (m
                    == u32::MAX && self.next_release_month == u32::MAX)
            &&& forall|m: u32|
                m < self.next_release_month ==> #[trigger] self.monthly_releases@.contains_key(m)
                    && self.monthly_releases@[m].month_index == m
                    && self.monthly_releases@[m].amount_released == release_amount(m as nat)
                    && self.monthly_releases@[m].incentive_amount == incentive_share(
                    release_amount(m as nat),
                ) && self.monthly_releases@[m].government_amount == release_amount(m as nat)
                    - incentive_share(release_amount(m as nat))
            &&& self.halving_info.total_released == schedule_total(self.next_release_month as nat)
            &&& self.total_incentive_released == incentive_total(self.next_release_month as nat)
            &&& self.halving_info.current_period == if self.next_release_month == 0 {
                0
            } else {
                ((self.next_release_month - 1) / (HALVING_PERIOD_MONTHS as int)) as u32
            }
            &&& self.halving_info.monthly_amount == period_amount(
                self.halving_info.current_period as nat,
            )
        }
    }

    /// A treasury whose schedule has not begun.
    pub fn new(config: Config) -> (r: Self)
        ensures
            r.wf(),
            r.config == config,
            r.treasury_start_block is None,
            !r.distribution_started,
            r.events@ == Seq::<Event>::empty(),
            r.halving_info == (HalvingData {
                current_period: 0,
                period_start_block: 0,
                monthly_amount: 0,
                total_released: 0,
            }),
    {
        proof {
            broadcast use vstd::std_specs::hash::axiom_u32_obeys_hash_table_key_model;
        }
        Pezpallet {
            config,
            halving_info: HalvingData {
                current_period: 0,
                period_start_block: 0,
                monthly_amount: 0,
                total_released: 0,
            },
            monthly_releases: HashMapWithView::new(),
            next_release_month: 0,
            treasury_start_block: None,
            distribution_started: false,
            total_incentive_released: 0,
            events: Vec::new(),
        }
    }

    /// Everything but the event log is as it was.
    pub open spec fn same_storage(&self, other: &Self) -> bool {
        &&& self.config == other.config
        &&& self.halving_info == other.halving_info
        &&& self.monthly_releases@ == other.monthly_releases@
        &&& self.next_release_month == other.next_release_month
        &&& self.treasury_start_block == other.treasury_start_block
        &&& self.distribution_started == other.distribution_started
        &&& self.total_incentive_released == other.total_incentive_released
    }

    /// The release that is due at `now`, or why none is.
    pub open spec fn spec_due_release(&self, now: u64) -> Result<MonthlyRelease, Error> {
        match self.treasury_start_block {
            None => Err(Error::TreasuryNotInitialized),
            Some(start) => if self.monthly_releases@.contains_key(self.next_release_month) {
                Err(Error::MonthlyReleaseAlreadyDone)
            } else if sat_sub_u64(now, start) < sat_mul_u32(
                BLOCKS_PER_MONTH,
                self.next_release_month,
            ) {
                Err(Error::ReleaseTooEarly)
            } else {
                Ok(expected_release(self.next_release_month, now))
            },
        }
    }

    /// Start the schedule at `now`, with release 0 due at once.
    pub fn do_initialize_treasury(&mut self, now: u64) -> (r: Result<(), Error>)
        requires
            old(self).wf(),
        ensures
            final(self).wf(),
            old(self).treasury_start_block is Some ==> r == Err::<(), Error>(
                Error::TreasuryAlreadyInitialized,
            ) && final(self).same_storage(old(self)) && final(self).events@ == old(self).events@,
            old(self).treasury_start_block is None ==> r == Ok::<(), Error>(()) && final(self).treasury_start_block == Some(now) && final(self).halving_info == (HalvingData {
                current_period: 0,
                period_start_block: now,
                monthly_amount: initial_monthly(),
                total_released: 0,
            }) && final(self).next_release_month == 0 && final(self).monthly_releases@ == old(self).monthly_releases@ && final(self).distribution_started == old(self).distribution_started && final(self).total_incentive_released == old(self).total_incentive_released && final(self).config == old(self).config && final(self).events@ == old(self).events@.push(
                Event::TreasuryInitialized {
                    start_block: now,
                    initial_monthly_amount: initial_monthly(),
                },
            ),
    {
        if self.treasury_start_block.is_some() {
            return Err(Error::TreasuryAlreadyInitialized);
        }
        let first_period_total: u128 = TREASURY_ALLOCATION / 2;
        let monthly_amount: u128 = first_period_total / 48;
        proof {
            lemma_initial_monthly_value();
        }
        self.treasury_start_block = Some(now);
        self.halving_info = HalvingData {
            current_period: 0,
            period_start_block: now,
            monthly_amount,
            total_released: 0,
        };
        self.next_release_month = 0;
        self.events.push(
            Event::TreasuryInitialized { start_block: now, initial_monthly_amount: monthly_amount },
        );
        Ok(())
    }

    /// The population threshold has been reached: start the schedule. The latch only turns
    /// once.
    pub fn activate_distribution(&mut self, now: u64) -> (r: Result<(), Error>)
        requires
            old(self).wf(),
        ensures
            final(self).wf(),
            old(self).distribution_started == (old(self).treasury_start_block is Some)
                ==> final(self).distribution_started == (final(self).treasury_start_block is Some),
            old(self).distribution_started ==> r == Err::<(), Error>(
                Error::TreasuryAlreadyInitialized,
            ) && final(self).same_storage(old(self)) && final(self).events@ == old(self).events@,
            !old(self).distribution_started && old(self).treasury_start_block is Some ==> r
                == Err::<(), Error>(Error::TreasuryAlreadyInitialized) && final(self).same_storage(
                old(self),
            ) && final(self).events@ == old(self).events@,
            !old(self).distribution_started && old(self).treasury_start_block is None ==> r
                == Ok::<(), Error>(()) && final(self).distribution_started && final(self).treasury_start_block == Some(now) && final(self).next_release_month == 0
                && final(self).monthly_releases@ == old(self).monthly_releases@
                && final(self).total_incentive_released == old(self).total_incentive_released
                && final(self).config == old(self).config && final(self).halving_info == (HalvingData {
                current_period: 0,
                period_start_block: now,
                monthly_amount: initial_monthly(),
                total_released: 0,
            }) && final(self).events@ == old(self).events@.push(
                Event::TreasuryInitialized {
                    start_block: now,
                    initial_monthly_amount: initial_monthly(),
                },
            ),
    {
        if self.distribution_started {
            return Err(Error::TreasuryAlreadyInitialized);
        }
        self.do_initialize_treasury(now)?;
        self.distribution_started = true;
        Ok(())
    }

    /// The release due at `now`: which month, how much, and how it splits between the pots.
    /// These are the two transfers the release needs made.
    pub fn due_release(&self, now: u64) -> (r: Result<MonthlyRelease, Error>)
        requires
            self.wf(),
        ensures
            r == self.spec_due_release(now),
    {
        let start = match self.treasury_start_block {
            Some(s) => s,
            None => return Err(Error::TreasuryNotInitialized),
        };
        let next_month = self.next_release_month;
        if self.monthly_releases.contains_key(&next_month) {
            return Err(Error::MonthlyReleaseAlreadyDone);
        }
        let blocks_passed = now.saturating_sub(start);
        let due_after: u64 = saturating_mul_u32(BLOCKS_PER_MONTH, next_month) as u64;
        if blocks_passed < due_after {
            return Err(Error::ReleaseTooEarly);
        }
        let monthly_amount = amount_for_release(next_month);
        proof {
            lemma_releases_never_grow(0, next_month as nat);
            lemma_initial_monthly_value();
        }
        let incentive_amount = monthly_amount * 75 / 100;
        let government_amount = monthly_amount - incentive_amount;
        Ok(
            MonthlyRelease {
                month_index: next_month,
                release_block: now,
                amount_released: monthly_amount,
                incentive_amount,
                government_amount,
            },
        )
    }

    /// The storage after `release` was made at `now`, from `before`: the release recorded
    /// for its month, the totals and the halving period moved on, and the release reported
    /// (after the new period, if one began, and after the failure of the report to the rewards
    /// chain, if `report_sent` says it failed).
    pub open spec fn release_recorded(
        &self,
        before: &Self,
        now: u64,
        release: MonthlyRelease,
        report_sent: bool,
    ) -> bool {
        let next = before.next_release_month;
        let period = next / HALVING_PERIOD_MONTHS;
        let new_period = period > before.halving_info.current_period;
        &&& self.monthly_releases@ == before.monthly_releases@.insert(
            next,
            release,
        )
        &&& self.next_release_month == sat_add_u32(next, 1)
        &&& self.halving_info.total_released == before.halving_info.total_released + release.amount_released
        &&& self.total_incentive_released == before.total_incentive_released
            + release.incentive_amount
        &&& self.halving_info.current_period == if new_period {
            period
        } else {
            before.halving_info.current_period
        }
        &&& self.halving_info.monthly_amount == if new_period {
            release.amount_released
        } else {
            before.halving_info.monthly_amount
        }
        &&& self.halving_info.period_start_block == if new_period {
            now
        } else {
            before.halving_info.period_start_block
        }
        &&& self.treasury_start_block == before.treasury_start_block
        &&& self.distribution_started == before.distribution_started
        &&& self.config == before.config
        &&& self.events@ == (if new_period {
            before.events@.push(
                Event::NewHalvingPeriod {
                    period,
                    new_monthly_amount: release.amount_released,
                },
            )
        } else {
            before.events@
        } + if report_sent {
            Seq::empty()
        } else {
            seq![Event::IncentiveFundingReportFailed { total: self.total_incentive_released }]
        }).push(
            Event::MonthlyFundsReleased {
                month_index: next,
                total_amount: release.amount_released,
                incentive_amount: release.incentive_amount,
                government_amount: release.government_amount,
            },
        )
    }

    /// What the incentive pot will have been given once `release` is made: the running total
    /// that is reported to the rewards chain.
    pub fn incentive_total_after(&self, release: &MonthlyRelease) -> (r: u128)
        ensures
            r == sat_add(self.total_incentive_released, release.incentive_amount),
    {
        self.total_incentive_released.saturating_add(release.incentive_amount)
    }

    /// Make the release due at `now`. `transfers_made` says whether the two transfers that
    /// `due_release` names went through; if they did not, nothing is recorded and the same
    /// release is due again next time. `report_sent` says whether the report of the new
    /// incentive total (`incentive_total_after`) reached the rewards chain; a lost report is
    /// noted and does not undo the release. On success, returns that running total.
    pub fn do_monthly_release(&mut self, now: u64, transfers_made: bool, report_sent: bool) -> (r: Result<u128, Error>)
        requires
            old(self).wf(),
        ensures
            final(self).wf(),
            match old(self).spec_due_release(now) {
                Err(e) => r == Err::<u128, Error>(e) && final(self).same_storage(old(self))
                    && final(self).events@ == old(self).events@,
                Ok(release) => if !transfers_made {
                    r == Err::<u128, Error>(Error::InsufficientTreasuryBalance) && final(self).same_storage(old(self)) && final(self).events@ == old(self).events@
                } else {
                    &&& r == Ok::<u128, Error>(final(self).total_incentive_released)
                    &&& final(self).total_incentive_released == sat_add(
                        old(self).total_incentive_released,
                        release.incentive_amount,
                    )
                    &&& final(self).release_recorded(old(self), now, release, report_sent)
                },
            },
    {
        let release = self.due_release(now)?;
        if !transfers_made {
            return Err(Error::InsufficientTreasuryBalance);
        }
        let next_month = self.next_release_month;
        let period = next_month / HALVING_PERIOD_MONTHS;
        let ghost old_self = *self;
        proof {
            lemma_schedule_never_exceeds_allocation(next_month as nat + 1);
            lemma_incentive_within_schedule(next_month as nat + 1);
            lemma_initial_monthly_value();
            lemma_releases_never_grow(0, next_month as nat);
        }
        if period > self.halving_info.current_period {
            self.halving_info.current_period = period;
            self.halving_info.monthly_amount = release.amount_released;
            self.halving_info.period_start_block = now;
            self.events.push(
                Event::NewHalvingPeriod { period, new_monthly_amount: release.amount_released },
            );
        }
        self.halving_info.total_released = self.halving_info.total_released
            + release.amount_released;
        self.monthly_releases.insert(next_month, release);
        self.next_release_month = self.next_release_month.saturating_add(1);
        self.total_incentive_released = self.total_incentive_released + release.incentive_amount;
        if !report_sent {
            self.events.push(Event::IncentiveFundingReportFailed { total: self.total_incentive_released });
        }
        self.events.push(
            Event::MonthlyFundsReleased {
                month_index: next_month,
                total_amount: release.amount_released,
                incentive_amount: release.incentive_amount,
                government_amount: release.government_amount,
            },
        );
        proof {
            let new_period = period > old_self.halving_info.current_period;
            assert(self.events@ =~= (if new_period {
                old_self.events@.push(
                    Event::NewHalvingPeriod { period, new_monthly_amount: release.amount_released },
                )
            } else {
                old_self.events@
            } + if report_sent {
                Seq::<Event>::empty()
            } else {
                seq![Event::IncentiveFundingReportFailed { total: self.total_incentive_released }]
            }).push(
                Event::MonthlyFundsReleased {
                    month_index: next_month,
                    total_amount: release.amount_released,
                    incentive_amount: release.incentive_amount,
                    government_amount: release.government_amount,
                },
            ));
        }
        proof {
            let n = next_month;
            let fin = self.next_release_month;
            if n < u32::MAX {
                assert(fin == n + 1);
                assert forall|m: u32| m < fin implies #[trigger] self.monthly_releases@.contains_key(m)
                    && self.monthly_releases@[m].month_index == m
                    && self.monthly_releases@[m].amount_released == release_amount(m as nat)
                    && self.monthly_releases@[m].incentive_amount == incentive_share(
                    release_amount(m as nat),
                ) && self.monthly_releases@[m].government_amount == release_amount(m as nat)
                    - incentive_share(release_amount(m as nat)) by {
                    if m < n {
                        assert(old_self.monthly_releases@.contains_key(m));
                    }
                }
            } else {
                assert(release_amount(n as nat) == 0);
                assert((n - 1) / 48 == n / 48);
            }
        }
        Ok(self.total_incentive_released)
    }

    /// The per-block hook: once the schedule has begun, make whatever release is due.
    /// Being too early is the ordinary answer and is not reported; any other failure is, and
    /// the same release is tried again next block. `transfers_made` and `report_sent` are as
    /// for `do_monthly_release`. Returns the incentive total reported when a release was made.
    pub fn on_initialize(&mut self, now: u64, transfers_made: bool, report_sent: bool) -> (r: Option<u128>)
        requires
            old(self).wf(),
        ensures
            final(self).wf(),
            old(self).distribution_started == (old(self).treasury_start_block is Some)
                ==> final(self).distribution_started == (final(self).treasury_start_block is Some),
            !old(self).distribution_started ==> r is None && final(self).same_storage(old(self))
                && final(self).events@ == old(self).events@,
            old(self).distribution_started ==> match old(self).spec_due_release(now) {
                Err(Error::ReleaseTooEarly) => r is None && final(self).same_storage(old(self))
                    && final(self).events@ == old(self).events@,
                Err(_) => r is None && final(self).same_storage(old(self)) && final(self).events@
                    == old(self).events@.push(Event::MonthlyReleaseFailed),
                Ok(release) => if transfers_made {
                    r == Some(final(self).total_incentive_released)
                        && final(self).release_recorded(old(self), now, release, report_sent)
                } else {
                    r is None && final(self).same_storage(old(self)) && final(self).events@ == old(self).events@.push(Event::MonthlyReleaseFailed)
                },
            },
    {
        if !self.distribution_started {
            return None;
        }
        match self.do_monthly_release(now, transfers_made, report_sent) {
            Ok(total) => Some(total),
            Err(Error::ReleaseTooEarly) => None,
            Err(_) => {
                let ghost before = *self;
                self.events.push(Event::MonthlyReleaseFailed);
                proof {
                    assert(self.same_storage(&before));
                    assert(before.wf());
                }
                None
            },
        }
    }

    /// Pay `amount` out of the government pot. `transfer_made` says whether the assets pallet
    /// moved it.
    pub fn spend_from_government_pot(
        &mut self,
        beneficiary: [u8; 32],
        amount: u128,
        transfer_made: bool,
    ) -> (r: Result<(), Error>)
        requires
            old(self).wf(),
        ensures
            final(self).wf(),
            final(self).same_storage(old(self)),
            amount == 0 ==> r == Err::<(), Error>(Error::NothingToSpend) && final(self).events@
                == old(self).events@,
            amount != 0 && !transfer_made ==> r == Err::<(), Error>(
                Error::InsufficientGovernmentPotBalance,
            ) && final(self).events@ == old(self).events@,
            amount != 0 && transfer_made ==> r == Ok::<(), Error>(()) && final(self).events@
                == old(self).events@.push(Event::GovernmentPotSpent { beneficiary, amount }),
    {
        if amount == 0 {
            return Err(Error::NothingToSpend);
        }
        if !transfer_made {
            return Err(Error::InsufficientGovernmentPotBalance);
        }
        let ghost before = *self;
        self.events.push(Event::GovernmentPotSpent { beneficiary, amount });
        proof {
            lemma_wf_same_storage(before, *self);
        }
        Ok(())
    }

    /// Pay `amount` out of the incentive pot. `transfer_made` says whether the assets pallet
    /// moved it.
    pub fn pay_from_incentive_pot(
        &mut self,
        beneficiary: [u8; 32],
        amount: u128,
        transfer_made: bool,
    ) -> (r: Result<(), Error>)
        requires
            old(self).wf(),
        ensures
            final(self).wf(),
            final(self).same_storage(old(self)),
            amount == 0 ==> r == Err::<(), Error>(Error::NothingToSpend) && final(self).events@
                == old(self).events@,
            amount != 0 && !transfer_made ==> r == Err::<(), Error>(
                Error::InsufficientIncentivePotBalance,
            ) && final(self).events@ == old(self).events@,
            amount != 0 && transfer_made ==> r == Ok::<(), Error>(()) && final(self).events@
                == old(self).events@.push(Event::IncentivePotSpent { beneficiary, amount }),
    {
        if amount == 0 {
            return Err(Error::NothingToSpend);
        }
        if !transfer_made {
            return Err(Error::InsufficientIncentivePotBalance);
        }
        let ghost before = *self;
        self.events.push(Event::IncentivePotSpent { beneficiary, amount });
        proof {
            lemma_wf_same_storage(before, *self);
        }
        Ok(())
    }

    /// Where the halving schedule stands.
    pub fn get_current_halving_info(&self) -> (r: HalvingData)
        ensures
            r == self.halving_info,
    {
        self.halving_info
    }

    /// The call that tells the rewards chain how much the incentive pot has been given in
    /// total: `note_incentive_funding(Compact(total))` in the rewards pallet.
    pub fn report_incentive_funding_call(&self, total: u128) -> (r: Vec<u8>)
        ensures
            r@ == scale::call_bytes(
                self.config.rewards_pallet_index,
                NOTE_INCENTIVE_FUNDING_CALL_INDEX,
                scale::compact_u128(total),
            ),
    {
        let args = scale::encode_compact_u128(total);
        scale::frame_call(self.config.rewards_pallet_index, NOTE_INCENTIVE_FUNDING_CALL_INDEX, args)
    }

    /// The account the releases come from.
    pub fn treasury_account_id(&self) -> (r: [u8; 32])
        ensures
            r@ == pallet_account(self.config.treasury_pallet_id),
    {
        into_account_truncating(self.config.treasury_pallet_id)
    }

    /// The pot the rewards are paid from.
    pub fn incentive_pot_account_id(&self) -> (r: [u8; 32])
        ensures
            r@ == pallet_account(self.config.incentive_pot_id),
    {
        into_account_truncating(self.config.incentive_pot_id)
    }

    /// The pot the government spends from.
    pub fn government_pot_account_id(&self) -> (r: [u8; 32])
        ensures
            r@ == pallet_account(self.config.government_pot_id),
    {
        into_account_truncating(self.config.government_pot_id)
    }
}


/// `x * y` on `u32`, clamped to `u32::MAX`.
pub open spec fn sat_mul_u32(x: u32, y: u32) -> u32 {
    if x * y > u32::MAX { u32::MAX } else { (x * y) as u32 }
}

fn saturating_mul_u32(x: u32, y: u32) -> (r: u32)
    ensures
        r == sat_mul_u32(x, y),
{
    match x.checked_mul(y) {
        Some(v) => v,
        None => u32::MAX,
    }
}

/// Well-formedness depends on the storage alone, not on the event log.
proof fn lemma_wf_same_storage(a: Pezpallet, b: Pezpallet)
    requires
        a.wf(),
        a.same_storage(&b),
    ensures
        b.wf(),
{
    assert(a.monthly_releases@ == b.monthly_releases@);
}

/// Shifting right by `n` is halving `n` times.
proof fn lemma_shr_is_halve(x: u128, n: u32)
    requires
        n < 128,
    ensures
        x >> n == halve(x, n as nat),
    decreases n,
{
    if n == 0 {
        assert(x >> 0u32 == x) by (bit_vector);
    } else {
        lemma_shr_is_halve(x, (n - 1) as u32);
        let m = (n - 1) as u32;
        assert(x >> n == (x >> m) / 2) by (bit_vector)
            requires
                m < 127,
                n == m + 1,
        ;
    }
}

/// Halving more often never gives more.
proof fn lemma_halve_monotone(x: u128, i: nat, j: nat)
    requires
        i <= j,
    ensures
        halve(x, j) <= halve(x, i),
    decreases j - i,
{
    if i < j {
        lemma_halve_monotone(x, i, (j - 1) as nat);
    }
}

/// The running bound behind `lemma_schedule_never_exceeds_allocation`: after `m` releases
/// the schedule has paid at most twice a period's worth of its first release, less what the
/// remaining periods would still pay.
proof fn lemma_schedule_running_bound(m: nat)
    ensures
        schedule_total(m) + 96 * period_amount(m / 48) <= 96 * initial_monthly() + (m % 48)
            * period_amount(m / 48),
    decreases m,
{
    if m > 0 {
        let k = (m - 1) as nat;
        lemma_schedule_running_bound(k);
        let p = k / 48;
        let h = period_amount(p);
        assert(release_amount(k) == h);
        if k % 48 < 47 {
            assert(m / 48 == p);
            assert(m % 48 == k % 48 + 1);
            assert((m % 48) * h == (k % 48) * h + h) by (nonlinear_arith)
                requires
                    m % 48 == k % 48 + 1,
            ;
        } else {
            assert(m / 48 == p + 1);
            assert(m % 48 == 0);
            assert((k % 48) * h == 47 * h);
            assert(2 * period_amount(p + 1) <= h);
        }
    }
}

/// The first period's monthly amount, and that two periods of it fit in the allocation.
proof fn lemma_initial_monthly_value()
    ensures
        initial_monthly() == 50_130_208_333_333_333_333u128,
        96 * initial_monthly() <= TREASURY_ALLOCATION,
{
    assert(TREASURY_ALLOCATION == 4_812_500_000_000_000_000_000u128);
    assert(TREASURY_ALLOCATION / 2 == 2_406_250_000_000_000_000_000u128);
    assert(2_406_250_000_000_000_000_000u128 / 48 == 50_130_208_333_333_333_333u128);
}

/// Releases never pay out more than the treasury allocation, however long the schedule runs.
pub proof fn lemma_schedule_never_exceeds_allocation(m: nat)
    ensures
        schedule_total(m) <= TREASURY_ALLOCATION,
{
    lemma_schedule_running_bound(m);
    assert((m % 48) * period_amount(m / 48) <= 47 * period_amount(m / 48)) by (nonlinear_arith)
        requires
            m % 48 < 48,
    ;
    lemma_initial_monthly_value();
}

/// The incentive pot never receives more than the schedule has released.
proof fn lemma_incentive_within_schedule(m: nat)
    ensures
        incentive_total(m) <= schedule_total(m),
    decreases m,
{
    if m > 0 {
        lemma_incentive_within_schedule((m - 1) as nat);
    }
}

/// Past a hundred and twenty-eight halvings a release pays nothing, and it stays that way.
pub proof fn lemma_schedule_reaches_zero(index: nat)
    requires
        index >= 48 * 128,
    ensures
        release_amount(index) == 0,
{
}

/// What release `index` pays, in the form the schedule is written in: half the allocation
/// spread over forty-eight months, shifted right once per halving period, and nothing past a
/// hundred and twenty-eight halvings.
pub proof fn lemma_release_is_the_shifted_initial_amount(index: u32)
    ensures
        release_amount(index as nat) == if index / HALVING_PERIOD_MONTHS >= 128 {
            0
        } else {
            (TREASURY_ALLOCATION / 2 / 48) >> (index / HALVING_PERIOD_MONTHS)
        },
{
    let period = index / HALVING_PERIOD_MONTHS;
    assert(period as nat == index as nat / 48);
    if period < 128 {
        lemma_shr_is_halve(TREASURY_ALLOCATION / 2 / 48, period);
    }
}

/// Each halving period pays half what the one before paid, rounding down, and every release
/// in a period pays the same.
pub proof fn lemma_each_period_pays_half_the_last(index: nat, j: nat)
    ensures
        release_amount(index + 48) == release_amount(index) / 2,
        index / 48 == j / 48 ==> release_amount(index) == release_amount(j),
{
    let p = index / 48;
    assert((index + 48) / 48 == p + 1);
    if p + 1 >= 128 {
        if p < 128 {
            assert(p == 127);
            let x = initial_monthly();
            lemma_shr_is_halve(x, 127);
            assert((x >> 127u32) / 2 == 0) by (bit_vector);
        }
    }
}

/// The first period pays every release its full initial amount, so the first forty-eight
/// releases together pay half the allocation, short of the rounding of at most forty-seven.
pub proof fn lemma_first_period_pays_half_the_allocation()
    ensures
        schedule_total(48) >= TREASURY_ALLOCATION / 2 - 47,
        schedule_total(48) <= TREASURY_ALLOCATION / 2,
{
    lemma_first_period_total(48);
    lemma_initial_monthly_value();
}

/// The first `m` releases of the first period pay `m` times the initial amount.
proof fn lemma_first_period_total(m: nat)
    requires
        m <= 48,
    ensures
        schedule_total(m) == m * initial_monthly(),
    decreases m,
{
    if m > 0 {
        lemma_first_period_total((m - 1) as nat);
        assert(((m - 1) as nat) / 48 == 0);
        assert(release_amount((m - 1) as nat) == initial_monthly());
        assert(schedule_total(m) == schedule_total((m - 1) as nat) + release_amount((m - 1) as nat));
        let k = (m - 1) as nat;
        let x = initial_monthly() as nat;
        assert(k * x + x == m * x) by (nonlinear_arith)
            requires
                k + 1 == m,
        ;
    } else {
        assert(0 * initial_monthly() == 0);
    }
}

/// A later release never pays more than an earlier one.
pub proof fn lemma_releases_never_grow(i: nat, j: nat)
    requires
        i <= j,
    ensures
        release_amount(j) <= release_amount(i),
{
    let p = i / 48;
    let q = j / 48;
    assert(p <= q) by (nonlinear_arith)
        requires
            i <= j,
            p == i / 48,
            q == j / 48,
    ;
    if q < 128 {
        lemma_halve_monotone(initial_monthly(), p, q);
    }
}

/// What release `index` pays: the first period's monthly amount, halved once per period.
pub fn amount_for_release(index: u32) -> (r: u128)
    ensures
        r == release_amount(index as nat),
{
    let first_period_total: u128 = TREASURY_ALLOCATION / 2;
    let initial: u128 = first_period_total / 48;
    let period = index / HALVING_PERIOD_MONTHS;
    if period >= 128 {
        0
    } else {
        proof {
            lemma_shr_is_halve(initial, period);
        }
        initial >> period
    }
}

impl Pezpallet {
    /// Whether the record filed under month `m` shows the disagreement `v`.
    pub open spec fn record_fails(&self, v: InvariantViolation, m: u32) -> bool {
        let recorded = self.monthly_releases@.contains_key(m);
        let record = self.monthly_releases@[m];
        let due = m < self.next_release_month;
        match v {
            InvariantViolation::RecordNotDue => recorded && !due,
            InvariantViolation::WrongMonth => recorded && due && record.month_index != m,
            InvariantViolation::WrongAmount => recorded && due && record.amount_released != release_amount(m as nat),
            InvariantViolation::WrongIncentiveShare => recorded && due && record.incentive_amount
                != incentive_share(record.amount_released),
            InvariantViolation::WrongGovernmentShare => recorded && due && record.government_amount
                != record.amount_released - incentive_share(record.amount_released),
            InvariantViolation::Gap => !recorded && due,
            _ => false,
        }
    }

    /// The halving period the releases made so far have reached.
    pub open spec fn expected_period(&self) -> u32 {
        if self.next_release_month == 0 {
            0
        } else {
            ((self.next_release_month - 1) / (HALVING_PERIOD_MONTHS as int)) as u32
        }
    }

    /// The first disagreement, in the order the checks run: the latch; before the schedule
    /// begins, any release, record or incentive; after it, each kind of bad record in turn, a
    /// missing month, the two totals, the period and the monthly amount.
    pub open spec fn invariant_violation(&self) -> Option<InvariantViolation> {
        if self.distribution_started != (self.treasury_start_block is Some) {
            Some(InvariantViolation::LatchMismatch)
        } else if !self.distribution_started {
            if self.next_release_month != 0 {
                Some(InvariantViolation::ReleasesBeforeStart)
            } else if !self.monthly_releases@.dom().is_empty() {
                Some(InvariantViolation::RecordBeforeStart)
            } else if self.total_incentive_released != 0 {
                Some(InvariantViolation::IncentiveBeforeStart)
            } else {
                None
            }
        } else if exists|m: u32| #[trigger] self.record_fails(InvariantViolation::RecordNotDue, m) {
            Some(InvariantViolation::RecordNotDue)
        } else if exists|m: u32| #[trigger] self.record_fails(InvariantViolation::WrongMonth, m) {
            Some(InvariantViolation::WrongMonth)
        } else if exists|m: u32| #[trigger] self.record_fails(InvariantViolation::WrongAmount, m) {
            Some(InvariantViolation::WrongAmount)
        } else if exists|m: u32| #[trigger] self.record_fails(InvariantViolation::WrongIncentiveShare, m) {
            Some(InvariantViolation::WrongIncentiveShare)
        } else if exists|m: u32| #[trigger] self.record_fails(InvariantViolation::WrongGovernmentShare, m) {
            Some(InvariantViolation::WrongGovernmentShare)
        } else if self.total_incentive_released != recorded_incentive(
            self.monthly_releases@.dom(),
            self.next_release_month as nat,
        ) {
            Some(InvariantViolation::IncentiveTotalMismatch)
        } else if exists|m: u32| #[trigger] self.record_fails(InvariantViolation::Gap, m) {
            Some(InvariantViolation::Gap)
        } else if self.halving_info.total_released != schedule_total(self.next_release_month as nat) {
            Some(InvariantViolation::TotalMismatch)
        } else if self.halving_info.current_period != self.expected_period() {
            Some(InvariantViolation::PeriodMismatch)
        } else if self.halving_info.monthly_amount != period_amount(self.halving_info.current_period as nat) {
            Some(InvariantViolation::MonthlyAmountMismatch)
        } else {
            None
        }
    }

    /// Whether the record filed under month `m` shows the disagreement `v`.
    fn record_fails_exec(&self, v: InvariantViolation, m: u32) -> (r: bool)
        ensures
            r == self.record_fails(v, m),
    {
        let due = m < self.next_release_month;
        match self.monthly_releases.get(&m) {
            Some(record) => match v {
                InvariantViolation::RecordNotDue => !due,
                InvariantViolation::WrongMonth => due && record.month_index != m,
                InvariantViolation::WrongAmount => due && record.amount_released != amount_for_release(m),
                InvariantViolation::WrongIncentiveShare => {
                    due && record.incentive_amount != incentive_share_of(record.amount_released)
                },
                InvariantViolation::WrongGovernmentShare => {
                    due && record.government_amount != record.amount_released - incentive_share_of(
                        record.amount_released,
                    )
                },
                _ => false,
            },
            None => match v {
                InvariantViolation::Gap => due,
                _ => false,
            },
        }
    }
    /// A record filed under a month that is not due yet shows as more records than there are
    /// recorded months below the next one.
    proof fn lemma_not_due_by_count(&self)
        requires
            self.monthly_releases@.dom().finite(),
        ensures
            (exists|m: u32| #[trigger] self.record_fails(InvariantViolation::RecordNotDue, m))
                <==> self.monthly_releases@.dom().len() != recorded_below(self.monthly_releases@.dom(), self.next_release_month as nat),
    {
        let dom = self.monthly_releases@.dom();
        let n = self.next_release_month as nat;
        lemma_recorded_below(dom, n);
        let below = recorded_set(dom, n);
        assert(below.subset_of(dom));
        if exists|m: u32| #[trigger] self.record_fails(InvariantViolation::RecordNotDue, m) {
            let m = choose|m: u32| #[trigger] self.record_fails(InvariantViolation::RecordNotDue, m);
            assert(below.subset_of(dom.remove(m)));
            vstd::set_lib::lemma_len_subset(below, dom.remove(m));
        } else {
            assert forall|m: u32| dom.contains(m) implies below.contains(m) by {
                assert(!self.record_fails(InvariantViolation::RecordNotDue, m));
            }
            assert(below =~= dom);
        }
    }

    /// Whether any month below the next one shows the disagreement `v`, which is one that
    /// only a due month can show.
    fn any_due_record_fails(&self, v: InvariantViolation) -> (r: bool)
        requires
            v != InvariantViolation::RecordNotDue,
        ensures
            r == exists|m: u32| #[trigger] self.record_fails(v, m),
    {
        let mut m: u32 = 0;
        while m < self.next_release_month
            invariant
                m <= self.next_release_month,
                forall|k: u32| k < m ==> !#[trigger] self.record_fails(v, k),
            decreases self.next_release_month - m,
        {
            if self.record_fails_exec(v, m) {
                return true;
            }
            m = m + 1;
        }
        false
    }

    /// How many months below the next one have a record.
    /// What the records of the months due gave the incentive pot, by the schedule.
    fn incentive_recorded(&self) -> (r: u128)
        ensures
            r as nat == recorded_incentive(self.monthly_releases@.dom(), self.next_release_month as nat),
    {
        let mut total: u128 = 0;
        let mut m: u32 = 0;
        while m < self.next_release_month
            invariant
                m <= self.next_release_month,
                total as nat == recorded_incentive(self.monthly_releases@.dom(), m as nat),
            decreases self.next_release_month - m,
        {
            proof {
                lemma_recorded_incentive_bound(self.monthly_releases@.dom(), (m + 1) as nat);
                lemma_incentive_within_schedule((m + 1) as nat);
                lemma_schedule_never_exceeds_allocation((m + 1) as nat);
            }
            if self.monthly_releases.contains_key(&m) {
                total = total + incentive_share_of(amount_for_release(m));
            }
            m = m + 1;
        }
        total
    }

    fn count_recorded(&self) -> (r: u32)
        ensures
            r as nat == recorded_below(self.monthly_releases@.dom(), self.next_release_month as nat),
    {
        let mut count: u32 = 0;
        let mut m: u32 = 0;
        while m < self.next_release_month
            invariant
                m <= self.next_release_month,
                count <= m,
                count as nat == recorded_below(self.monthly_releases@.dom(), m as nat),
            decreases self.next_release_month - m,
        {
            if self.monthly_releases.contains_key(&m) {
                count = count + 1;
            }
            m = m + 1;
        }
        count
    }

    /// Check that the treasury's records agree with one another and with the schedule: the
    /// latch with the start block; before the schedule begins, that nothing was released,
    /// recorded or reported; after it, that exactly the months before the next one have
    /// records, each paid what its month was owed and split three quarters to one quarter,
    /// and that the totals, the period and the monthly amount follow from them. Gives the
    /// first disagreement found.
    pub fn try_state(&self) -> (r: Result<(), InvariantViolation>)
        requires
            self.monthly_releases@.dom().finite(),
        ensures
            match self.invariant_violation() {
                Some(e) => r == Err::<(), InvariantViolation>(e),
                None => r == Ok::<(), InvariantViolation>(()),
            },
    {
        let started = self.distribution_started;
        if started != self.treasury_start_block.is_some() {
            return Err(InvariantViolation::LatchMismatch);
        }
        let next = self.next_release_month;
        if !started {
            if next != 0 {
                return Err(InvariantViolation::ReleasesBeforeStart);
            }
            if self.monthly_releases.len() != 0 {
                proof {
                    let m = self.monthly_releases@.dom().choose();
                    assert(self.monthly_releases@.dom().contains(m));
                }
                return Err(InvariantViolation::RecordBeforeStart);
            }
            if self.total_incentive_released != 0 {
                return Err(InvariantViolation::IncentiveBeforeStart);
            }
            return Ok(());
        }
        let recorded = self.count_recorded();
        proof {
            self.lemma_not_due_by_count();
        }
        if self.monthly_releases.len() != recorded as usize {
            return Err(InvariantViolation::RecordNotDue);
        }
        if self.any_due_record_fails(InvariantViolation::WrongMonth) {
            return Err(InvariantViolation::WrongMonth);
        }
        if self.any_due_record_fails(InvariantViolation::WrongAmount) {
            return Err(InvariantViolation::WrongAmount);
        }
        if self.any_due_record_fails(InvariantViolation::WrongIncentiveShare) {
            return Err(InvariantViolation::WrongIncentiveShare);
        }
        if self.any_due_record_fails(InvariantViolation::WrongGovernmentShare) {
            return Err(InvariantViolation::WrongGovernmentShare);
        }
        if self.total_incentive_released != self.incentive_recorded() {
            return Err(InvariantViolation::IncentiveTotalMismatch);
        }
        if self.any_due_record_fails(InvariantViolation::Gap) {
            return Err(InvariantViolation::Gap);
        }
        let (released, _incentive) = schedule_totals(next);
        if self.halving_info.total_released != released {
            return Err(InvariantViolation::TotalMismatch);
        }
        let period: u32 = if next == 0 {
            0
        } else {
            (next - 1) / HALVING_PERIOD_MONTHS
        };
        if self.halving_info.current_period != period {
            return Err(InvariantViolation::PeriodMismatch);
        }
        if self.halving_info.monthly_amount != amount_for_release(period * HALVING_PERIOD_MONTHS) {
            return Err(InvariantViolation::MonthlyAmountMismatch);
        }
        Ok(())
    }
}

/// What releases `0 .. n` pay in all, and what they give the incentive pot.
pub fn schedule_totals(n: u32) -> (r: (u128, u128))
    ensures
        r.0 == schedule_total(n as nat),
        r.1 == incentive_total(n as nat),
{
    let mut released: u128 = 0;
    let mut incentive: u128 = 0;
    let mut m: u32 = 0;
    while m < n
        invariant
            m <= n,
            released == schedule_total(m as nat),
            incentive == incentive_total(m as nat),
        decreases n - m,
    {
        let amount = amount_for_release(m);
        proof {
            lemma_schedule_never_exceeds_allocation((m + 1) as nat);
            lemma_incentive_within_schedule((m + 1) as nat);
        }
        released = released + amount;
        incentive = incentive + incentive_share_of(amount);
        m = m + 1;
    }
    (released, incentive)
}

/// A treasury whose records are well formed and whose latch agrees with its start block
/// passes the check: exactly the months before the next one are recorded, each paid what its
/// month was owed and split as the schedule says, and the totals, the period and the monthly
/// amount follow from them. The release counter is below its ceiling, where the month it
/// saturates at would be recorded as not yet due.
pub proof fn lemma_consistent_treasury_passes_check(t: &Pezpallet)
    requires
        t.wf(),
        t.distribution_started == (t.treasury_start_block is Some),
        t.next_release_month < u32::MAX,
    ensures
        t.invariant_violation() is None,
{
    if t.distribution_started {
        assert forall|m: u32| !#[trigger] t.record_fails(InvariantViolation::RecordNotDue, m) by {
        }
        assert forall|m: u32| !#[trigger] t.record_fails(InvariantViolation::WrongMonth, m) by {
        }
        assert forall|m: u32| !#[trigger] t.record_fails(InvariantViolation::WrongAmount, m) by {
        }
        assert forall|m: u32| !#[trigger] t.record_fails(InvariantViolation::WrongIncentiveShare, m) by {
        }
        assert forall|m: u32| !#[trigger] t.record_fails(InvariantViolation::WrongGovernmentShare, m) by {
        }
        assert forall|m: u32| !#[trigger] t.record_fails(InvariantViolation::Gap, m) by {
        }
        assert forall|m: u32| m < t.next_release_month implies #[trigger] t.monthly_releases@.dom().contains(m) by {
            assert(t.monthly_releases@.contains_key(m));
        }
        lemma_recorded_incentive_bound(t.monthly_releases@.dom(), t.next_release_month as nat);
    } else {
        assert(t.monthly_releases@.dom() =~= Set::<u32>::empty());
    }
}

} // verus!
