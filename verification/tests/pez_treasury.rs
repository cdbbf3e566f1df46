use parity_scale_codec::Decode;
use pezpallets::pez_treasury::{
    amount_for_release, Config, Error, Event, InvariantViolation, Pezpallet, BLOCKS_PER_MONTH,
    HALVING_PERIOD_MONTHS, TREASURY_ALLOCATION,
};
use std::collections::HashMap;

const MONTH: u64 = BLOCKS_PER_MONTH as u64;
const REWARDS_PALLET_INDEX: u8 = 73;

/// The amount release `index` is owed, computed here independently of the pallet.
fn expected_amount(index: u32) -> u128 {
    let initial = (TREASURY_ALLOCATION / 2) / HALVING_PERIOD_MONTHS as u128;
    let period = index / HALVING_PERIOD_MONTHS;
    if period >= 128 {
        0
    } else {
        initial >> period
    }
}

/// The treasury pallet on a chain with an asset ledger and an outbox, block by block.
struct Chain {
    pallet: Pezpallet,
    block: u64,
    balances: HashMap<[u8; 32], u128>,
    sent: Vec<Vec<u8>>,
    fail_sending: bool,
}

impl Chain {
    fn new() -> Chain {
        Chain {
            pallet: Pezpallet::new(Config {
                treasury_pallet_id: *b"py/pztrs",
                incentive_pot_id: *b"py/pzinc",
                government_pot_id: *b"py/pzgov",
                rewards_pallet_index: REWARDS_PALLET_INDEX,
            }),
            block: 1,
            balances: HashMap::new(),
            sent: Vec::new(),
            fail_sending: false,
        }
    }

    fn balance(&self, who: [u8; 32]) -> u128 {
        *self.balances.get(&who).unwrap_or(&0)
    }

    fn total_supply(&self) -> u128 {
        self.balances.values().sum()
    }

    fn fund_treasury(&mut self) {
        let t = self.pallet.treasury_account_id();
        *self.balances.entry(t).or_insert(0) += TREASURY_ALLOCATION;
    }

    fn activate(&mut self) {
        self.fund_treasury();
        assert_eq!(self.pallet.activate_distribution(self.block), Ok(()));
    }

    /// Both transfers or neither, as a dispatch that fails half way is rolled back.
    fn transfer_pair(&mut self, incentive: u128, government: u128) -> bool {
        let t = self.pallet.treasury_account_id();
        if self.balance(t) < incentive + government {
            return false;
        }
        *self.balances.get_mut(&t).unwrap() -= incentive + government;
        *self.balances.entry(self.pallet.incentive_pot_account_id()).or_insert(0) += incentive;
        *self.balances.entry(self.pallet.government_pot_account_id()).or_insert(0) += government;
        true
    }

    fn on_initialize(&mut self) {
        let mut made = false;
        let mut sent = false;
        if let Ok(release) = self.pallet.due_release(self.block) {
            if self.pallet.distribution_started {
                made = self.transfer_pair(release.incentive_amount, release.government_amount);
                if made && !self.fail_sending {
                    let total = self.pallet.incentive_total_after(&release);
                    self.sent.push(self.pallet.report_incentive_funding_call(total));
                    sent = true;
                }
            }
        }
        let _ = self.pallet.on_initialize(self.block, made, sent);
    }

    /// Move `amount` out of `from`, keeping at least one unit there, as `Preservation::Preserve`
    /// does.
    fn pay_out(&mut self, from: [u8; 32], to: [u8; 32], amount: u128) -> bool {
        if amount == 0 || self.balance(from) <= amount {
            return false;
        }
        *self.balances.get_mut(&from).unwrap() -= amount;
        *self.balances.entry(to).or_insert(0) += amount;
        true
    }

    fn spend_from_government_pot(&mut self, to: [u8; 32], amount: u128) -> Result<(), Error> {
        let pot = self.pallet.government_pot_account_id();
        let moved = self.pay_out(pot, to, amount);
        self.pallet.spend_from_government_pot(to, amount, moved)
    }

    fn pay_from_incentive_pot(&mut self, to: [u8; 32], amount: u128) -> Result<(), Error> {
        let pot = self.pallet.incentive_pot_account_id();
        let moved = self.pay_out(pot, to, amount);
        self.pallet.pay_from_incentive_pot(to, amount, moved)
    }

    fn government_pot(&self) -> u128 {
        self.balance(self.pallet.government_pot_account_id())
    }

    fn incentive_pot(&self) -> u128 {
        self.balance(self.pallet.incentive_pot_account_id())
    }

    fn jump_to_block(&mut self, n: u64) {
        assert!(n >= self.block, "cannot jump backwards");
        self.block = n;
    }

    fn run_blocks(&mut self, count: u64) {
        for _ in 0..count {
            self.block += 1;
            self.on_initialize();
        }
    }

    fn release(&self, index: u32) -> Option<pezpallets::pez_treasury::MonthlyRelease> {
        self.pallet.monthly_releases.get(&index).copied()
    }
}

fn reported_total(call: &[u8]) -> u128 {
    let mut rest = &call[2..];
    parity_scale_codec::Compact::<u128>::decode(&mut rest).expect("a compact total").0
}

#[test]
fn supply_is_unchanged_across_the_whole_schedule() {
    let mut c = Chain::new();
    c.activate();
    let supply = c.total_supply();
    assert_eq!(supply, TREASURY_ALLOCATION);
    for month in 0..200u64 {
        c.jump_to_block(1 + month * MONTH);
        c.run_blocks(1);
        assert_eq!(c.total_supply(), supply, "supply moved at month {month}");
    }
}

#[test]
fn the_call_surface_is_three_calls_and_none_of_them_mints() {
    // The three ways in: one starts the schedule, two move already-released PEZ out of a pot.
    let _activate = Pezpallet::activate_distribution;
    let _government = Pezpallet::spend_from_government_pot;
    let _incentive = Pezpallet::pay_from_incentive_pot;
}

#[test]
fn activation_sets_up_the_schedule() {
    let mut c = Chain::new();
    let start_block = c.block;
    c.activate();
    assert!(c.pallet.distribution_started);
    assert_eq!(c.pallet.treasury_start_block, Some(start_block));
    assert_eq!(c.pallet.next_release_month, 0);
    let info = c.pallet.get_current_halving_info();
    assert_eq!(info.current_period, 0);
    assert_eq!(info.period_start_block, start_block);
    assert_eq!(info.monthly_amount, expected_amount(0));
    assert_eq!(info.total_released, 0);
    assert!(c.pallet.events.contains(&Event::TreasuryInitialized {
        start_block,
        initial_monthly_amount: info.monthly_amount,
    }));
}

#[test]
fn the_latch_only_turns_once() {
    let mut c = Chain::new();
    c.activate();
    let start_block = c.pallet.treasury_start_block;
    c.jump_to_block(500);
    assert_eq!(c.pallet.activate_distribution(c.block), Err(Error::TreasuryAlreadyInitialized));
    assert_eq!(c.pallet.treasury_start_block, start_block);
}

#[test]
fn nothing_is_released_before_activation() {
    let mut c = Chain::new();
    c.fund_treasury();
    c.jump_to_block(10 * MONTH);
    c.run_blocks(5);
    assert_eq!(c.pallet.next_release_month, 0);
    assert!(c.release(0).is_none());
    assert_eq!(c.balance(c.pallet.incentive_pot_account_id()), 0);
    assert_eq!(c.balance(c.pallet.government_pot_account_id()), 0);
}

#[test]
fn the_first_release_falls_in_the_era_of_activation() {
    let mut c = Chain::new();
    c.activate();
    c.run_blocks(1);
    let release = c.release(0).expect("release 0 was not made");
    assert_eq!(release.month_index, 0);
    assert_eq!(release.amount_released, expected_amount(0));
    assert_eq!(c.pallet.next_release_month, 1);
}

#[test]
fn release_one_waits_a_full_month() {
    let mut c = Chain::new();
    c.activate();
    c.run_blocks(1);
    assert_eq!(c.pallet.next_release_month, 1);
    c.jump_to_block(1 + MONTH - 2);
    c.run_blocks(1);
    assert_eq!(c.block, 1 + MONTH - 1);
    assert_eq!(c.pallet.next_release_month, 1);
    assert!(c.release(1).is_none());
    c.run_blocks(1);
    assert_eq!(c.pallet.next_release_month, 2);
    assert!(c.release(1).is_some());
}

#[test]
fn each_release_splits_seventy_five_twenty_five() {
    let mut c = Chain::new();
    c.activate();
    let monthly = expected_amount(0);
    let incentive = monthly * 75 / 100;
    let government = monthly - incentive;
    c.run_blocks(1);
    assert_eq!(c.balance(c.pallet.incentive_pot_account_id()), incentive);
    assert_eq!(c.balance(c.pallet.government_pot_account_id()), government);
    assert_eq!(incentive + government, monthly, "the split must lose nothing");
    let release = c.release(0).unwrap();
    assert_eq!(release.incentive_amount, incentive);
    assert_eq!(release.government_amount, government);
}

#[test]
fn releases_are_recorded_one_per_month() {
    let mut c = Chain::new();
    c.activate();
    c.run_blocks(1);
    c.jump_to_block(1 + MONTH);
    c.run_blocks(1);
    let zero = c.release(0).unwrap();
    let one = c.release(1).unwrap();
    assert_eq!(zero.month_index, 0);
    assert_eq!(one.month_index, 1);
    assert_ne!(zero.release_block, one.release_block);
}

#[test]
fn a_month_only_pays_once() {
    let mut c = Chain::new();
    c.activate();
    c.run_blocks(1);
    let incentive_after_first = c.balance(c.pallet.incentive_pot_account_id());
    c.run_blocks(20);
    assert_eq!(c.pallet.next_release_month, 1);
    assert_eq!(c.balance(c.pallet.incentive_pot_account_id()), incentive_after_first);
}

#[test]
fn a_backlog_drains_one_release_per_block() {
    let mut c = Chain::new();
    c.activate();
    c.jump_to_block(1 + 3 * MONTH);
    c.run_blocks(1);
    assert_eq!(c.pallet.next_release_month, 1);
    c.run_blocks(1);
    assert_eq!(c.pallet.next_release_month, 2);
    c.run_blocks(1);
    assert_eq!(c.pallet.next_release_month, 3);
    c.run_blocks(1);
    assert_eq!(c.pallet.next_release_month, 4);
    c.run_blocks(5);
    assert_eq!(c.pallet.next_release_month, 4);
}

#[test]
fn a_backlog_pays_each_month_what_that_month_was_owed() {
    let mut c = Chain::new();
    c.activate();
    let months = 100u32;
    c.jump_to_block(1 + (months as u64 - 1) * MONTH);
    c.run_blocks(months as u64);
    assert_eq!(c.pallet.next_release_month, months);
    let expected_total: u128 = (0..months).map(expected_amount).sum();
    assert_eq!(c.pallet.get_current_halving_info().total_released, expected_total);
    for index in 0..months {
        let release = c.release(index).unwrap();
        assert_eq!(release.amount_released, expected_amount(index), "release {index} paid the wrong amount");
    }
}

#[test]
fn release_forty_seven_is_paid_in_full() {
    let mut c = Chain::new();
    c.activate();
    let initial = expected_amount(0);
    c.jump_to_block(1 + 46 * MONTH);
    c.run_blocks(47);
    assert_eq!(c.pallet.next_release_month, 47);
    c.jump_to_block(1 + 47 * MONTH);
    c.run_blocks(1);
    let release = c.release(47).unwrap();
    assert_eq!(release.amount_released, initial);
    assert_eq!(c.pallet.get_current_halving_info().current_period, 0);
    assert_eq!(c.pallet.get_current_halving_info().monthly_amount, initial);
}

#[test]
fn release_forty_eight_is_the_first_halved_one() {
    let mut c = Chain::new();
    c.activate();
    let initial = expected_amount(0);
    c.jump_to_block(1 + 48 * MONTH);
    c.run_blocks(49);
    let release = c.release(48).unwrap();
    assert_eq!(release.amount_released, initial / 2);
    let info = c.pallet.get_current_halving_info();
    assert_eq!(info.current_period, 1);
    assert_eq!(info.monthly_amount, initial / 2);
    assert_eq!(info.period_start_block, c.block);
    assert!(c.pallet.events.contains(&Event::NewHalvingPeriod { period: 1, new_monthly_amount: initial / 2 }));
}

#[test]
fn halvings_keep_coming() {
    let mut c = Chain::new();
    c.activate();
    let initial = expected_amount(0);
    c.jump_to_block(1 + 144 * MONTH);
    c.run_blocks(145);
    let info = c.pallet.get_current_halving_info();
    assert_eq!(info.current_period, 3);
    assert_eq!(info.monthly_amount, initial / 8);
    assert_eq!(c.release(96).unwrap().amount_released, initial / 4);
    assert_eq!(c.release(144).unwrap().amount_released, initial / 8);
}

#[test]
fn the_halving_event_fires_once_per_period() {
    let mut c = Chain::new();
    c.activate();
    c.pallet.events.clear();
    c.jump_to_block(1 + 96 * MONTH);
    c.run_blocks(97);
    let halvings = c.pallet.events.iter().filter(|e| matches!(e, Event::NewHalvingPeriod { .. })).count();
    assert_eq!(halvings, 2, "one for period 1, one for period 2");
}

#[test]
fn an_unfundable_release_is_retried_not_skipped() {
    let mut c = Chain::new();
    assert_eq!(c.pallet.activate_distribution(c.block), Ok(()));
    c.run_blocks(1);
    assert_eq!(c.pallet.next_release_month, 0, "a failed release must not advance");
    assert!(c.release(0).is_none());
    assert!(c.pallet.events.iter().any(|e| matches!(e, Event::MonthlyReleaseFailed)));
    c.fund_treasury();
    c.run_blocks(1);
    let release = c.release(0).expect("release 0 was skipped");
    assert_eq!(release.month_index, 0);
    assert_eq!(c.pallet.next_release_month, 1);
}

#[test]
fn being_too_early_is_quiet() {
    let mut c = Chain::new();
    c.activate();
    c.run_blocks(1);
    c.pallet.events.clear();
    c.run_blocks(50);
    assert!(!c.pallet.events.iter().any(|e| matches!(e, Event::MonthlyReleaseFailed)));
}

#[test]
fn what_leaves_the_treasury_equals_what_reaches_the_pots() {
    let mut c = Chain::new();
    c.activate();
    let t = c.pallet.treasury_account_id();
    let before = c.balance(t);
    c.jump_to_block(1 + 9 * MONTH);
    c.run_blocks(10);
    let paid_out = before - c.balance(t);
    let in_pots = c.balance(c.pallet.incentive_pot_account_id()) + c.balance(c.pallet.government_pot_account_id());
    assert_eq!(paid_out, in_pots);
    assert_eq!(paid_out, c.pallet.get_current_halving_info().total_released);
}

#[test]
fn the_treasury_only_ever_goes_down() {
    let mut c = Chain::new();
    c.activate();
    let t = c.pallet.treasury_account_id();
    let mut previous = c.balance(t);
    for month in 0..120u64 {
        c.jump_to_block(1 + month * MONTH);
        c.run_blocks(1);
        let now = c.balance(t);
        assert!(now <= previous, "treasury grew at month {month}");
        previous = now;
    }
}

#[test]
fn the_first_period_is_half_the_allocation() {
    let first_period: u128 = (0..HALVING_PERIOD_MONTHS).map(amount_for_release).sum();
    let target = TREASURY_ALLOCATION / 2;
    let lost = target - first_period;
    assert!(lost < HALVING_PERIOD_MONTHS as u128, "rounding lost {lost}");
}

#[test]
fn the_schedule_never_exceeds_the_allocation() {
    let mut total = 0u128;
    for index in 0..(HALVING_PERIOD_MONTHS * 130) {
        total += amount_for_release(index);
    }
    assert!(total <= TREASURY_ALLOCATION, "schedule pays out {total}, allocation is {TREASURY_ALLOCATION}");
}

#[test]
fn the_schedule_reaches_zero_and_stays_there() {
    assert_eq!(amount_for_release(HALVING_PERIOD_MONTHS * 200), 0);
    assert_eq!(amount_for_release(u32::MAX), 0);
}

#[test]
fn the_derived_amount_matches_the_independent_formula() {
    for index in [0u32, 1, 47, 48, 95, 96, 1000, 6143, 6144, 6145] {
        assert_eq!(amount_for_release(index), expected_amount(index));
    }
}

#[test]
fn the_three_accounts_are_distinct() {
    let c = Chain::new();
    let t = c.pallet.treasury_account_id();
    let i = c.pallet.incentive_pot_account_id();
    let g = c.pallet.government_pot_account_id();
    assert_ne!(t, i);
    assert_ne!(t, g);
    assert_ne!(i, g);
}

#[test]
fn the_pot_accounts_have_no_key() {
    let c = Chain::new();
    for account in [
        c.pallet.treasury_account_id(),
        c.pallet.incentive_pot_account_id(),
        c.pallet.government_pot_account_id(),
    ] {
        assert_eq!(&account[0..8], b"modlpy/p", "not a PalletId account");
        assert!(account[12..].iter().all(|b| *b == 0));
    }
}

#[test]
fn a_release_reports_the_running_incentive_total() {
    let mut c = Chain::new();
    c.activate();
    c.run_blocks(1);
    let first = c.pallet.total_incentive_released;
    assert!(first > 0);
    assert_eq!(first, c.release(0).unwrap().incentive_amount);
    assert_eq!(c.sent.len(), 1, "one report per release");
    assert_eq!(reported_total(&c.sent[0]), first);
    c.jump_to_block(c.block + MONTH - 1);
    c.run_blocks(1);
    let second = c.pallet.total_incentive_released;
    assert!(second > first);
    assert_eq!(c.sent.len(), 2);
    assert_eq!(reported_total(&c.sent[1]), second, "the report is a running total, so a lost message is repaired by the next one");
}

#[test]
fn the_report_is_addressed_to_the_rewards_pallet() {
    let mut c = Chain::new();
    c.activate();
    c.run_blocks(1);
    let call = c.sent.pop().expect("a report was sent");
    assert_eq!(call[0], REWARDS_PALLET_INDEX, "the rewards pallet's index");
    assert_eq!(call[1], 2, "note_incentive_funding");
}

#[test]
fn spending_zero_is_refused_and_a_short_pot_is_reported() {
    let mut c = Chain::new();
    let who = [7u8; 32];
    assert_eq!(c.pallet.spend_from_government_pot(who, 0, true), Err(Error::NothingToSpend));
    assert_eq!(c.pallet.spend_from_government_pot(who, 5, false), Err(Error::InsufficientGovernmentPotBalance));
    assert_eq!(c.pallet.spend_from_government_pot(who, 5, true), Ok(()));
    assert_eq!(c.pallet.pay_from_incentive_pot(who, 0, true), Err(Error::NothingToSpend));
    assert_eq!(c.pallet.pay_from_incentive_pot(who, 9, false), Err(Error::InsufficientIncentivePotBalance));
    assert_eq!(c.pallet.pay_from_incentive_pot(who, 9, true), Ok(()));
    assert_eq!(c.pallet.events.last(), Some(&Event::IncentivePotSpent { beneficiary: who, amount: 9 }));
}

#[test]
fn compact_encoding_uses_each_mode() {
    let c = Chain::new();
    assert_eq!(c.pallet.report_incentive_funding_call(1), vec![REWARDS_PALLET_INDEX, 2, 4]);
    assert_eq!(c.pallet.report_incentive_funding_call(64), vec![REWARDS_PALLET_INDEX, 2, 1, 1]);
    assert_eq!(c.pallet.report_incentive_funding_call(16384), vec![REWARDS_PALLET_INDEX, 2, 2, 0, 1, 0]);
    assert_eq!(c.pallet.report_incentive_funding_call(1 << 30), vec![REWARDS_PALLET_INDEX, 2, 3, 0, 0, 0, 64]);
}

// The invariant can fail: each test breaks one thing and insists the check sees it.

fn assert_rejected(c: &Chain, what: &str) {
    assert!(c.pallet.try_state().is_err(), "try_state accepted a state where {what}");
}

#[test]
fn a_gap_in_the_history_is_caught() {
    let mut c = Chain::new();
    c.activate();
    c.jump_to_block(1 + 4 * MONTH);
    c.run_blocks(5);
    assert_eq!(c.pallet.try_state(), Ok(()));
    c.pallet.monthly_releases.remove(&2);
    assert_rejected(&c, "a month had no release record");
    // The reported incentive total is checked against the records before the months are
    // counted, so the missing record shows first as a total that does not match.
    assert_eq!(c.pallet.try_state(), Err(InvariantViolation::IncentiveTotalMismatch));
}

#[test]
fn a_gap_with_a_matching_incentive_total_is_caught_as_a_gap() {
    let mut c = Chain::new();
    c.activate();
    c.jump_to_block(1 + 4 * MONTH);
    c.run_blocks(5);
    let missing = c.release(2).unwrap();
    c.pallet.monthly_releases.remove(&2);
    c.pallet.total_incentive_released -= missing.incentive_amount;
    assert_eq!(c.pallet.try_state(), Err(InvariantViolation::Gap));
}

#[test]
fn a_release_of_the_wrong_size_is_caught() {
    let mut c = Chain::new();
    c.activate();
    c.run_blocks(1);
    assert_eq!(c.pallet.try_state(), Ok(()));
    let mut record = c.release(0).unwrap();
    record.amount_released += 1;
    c.pallet.monthly_releases.insert(0, record);
    assert_rejected(&c, "a release paid more than its month was owed");
    assert_eq!(c.pallet.try_state(), Err(InvariantViolation::WrongAmount));
}

#[test]
fn a_mismatched_total_is_caught() {
    let mut c = Chain::new();
    c.activate();
    c.run_blocks(1);
    assert_eq!(c.pallet.try_state(), Ok(()));
    c.pallet.halving_info.total_released += 1;
    assert_rejected(&c, "total_released did not match the records");
    assert_eq!(c.pallet.try_state(), Err(InvariantViolation::TotalMismatch));
}

#[test]
fn a_period_that_no_release_earned_is_caught() {
    let mut c = Chain::new();
    c.activate();
    c.run_blocks(1);
    assert_eq!(c.pallet.try_state(), Ok(()));
    c.pallet.halving_info.current_period = 1;
    assert_rejected(&c, "the halving period ran ahead of the releases");
    assert_eq!(c.pallet.try_state(), Err(InvariantViolation::PeriodMismatch));
}

#[test]
fn a_broken_split_is_caught() {
    let mut c = Chain::new();
    c.activate();
    c.run_blocks(1);
    assert_eq!(c.pallet.try_state(), Ok(()));
    let mut record = c.release(0).unwrap();
    record.incentive_amount += 1;
    record.government_amount -= 1;
    c.pallet.monthly_releases.insert(0, record);
    assert_rejected(&c, "the pots were credited in the wrong proportion");
    assert_eq!(c.pallet.try_state(), Err(InvariantViolation::WrongIncentiveShare));
}

#[test]
fn a_latch_without_a_start_block_is_caught() {
    let mut c = Chain::new();
    c.activate();
    assert_eq!(c.pallet.try_state(), Ok(()));
    c.pallet.treasury_start_block = None;
    assert_rejected(&c, "the schedule had begun with no start block");
    assert_eq!(c.pallet.try_state(), Err(InvariantViolation::LatchMismatch));
}

#[test]
fn releases_before_activation_are_caught() {
    let mut c = Chain::new();
    assert_eq!(c.pallet.try_state(), Ok(()));
    c.pallet.next_release_month = 1;
    assert_rejected(&c, "a release was counted before the schedule began");
    assert_eq!(c.pallet.try_state(), Err(InvariantViolation::ReleasesBeforeStart));
}

#[test]
fn a_record_for_a_month_not_yet_due_is_caught() {
    let mut c = Chain::new();
    c.activate();
    c.run_blocks(1);
    let mut record = c.release(0).unwrap();
    record.month_index = 5;
    c.pallet.monthly_releases.insert(5, record);
    assert_eq!(c.pallet.try_state(), Err(InvariantViolation::RecordNotDue));
}

#[test]
fn a_long_schedule_passes_the_check_across_a_halving() {
    let mut c = Chain::new();
    c.activate();
    c.jump_to_block(1 + 50 * MONTH);
    c.run_blocks(51);
    assert_eq!(c.pallet.next_release_month, 51);
    assert_eq!(c.pallet.try_state(), Ok(()));
    c.pallet.halving_info.monthly_amount = expected_amount(0);
    assert_eq!(c.pallet.try_state(), Err(InvariantViolation::MonthlyAmountMismatch));
    assert_eq!(
        InvariantViolation::MonthlyAmountMismatch.message(),
        "the stored monthly amount does not match the current period"
    );
}

const ALICE: [u8; 32] = [0xa1; 32];

#[test]
fn activation_mints_nothing() {
    let mut c = Chain::new();
    c.fund_treasury();
    let supply_before = c.total_supply();
    assert_eq!(c.pallet.activate_distribution(c.block), Ok(()));
    assert_eq!(c.total_supply(), supply_before);
}

#[test]
fn a_failed_release_moves_no_money() {
    let mut c = Chain::new();
    assert_eq!(c.pallet.activate_distribution(c.block), Ok(()));
    c.run_blocks(3);
    assert_eq!(c.incentive_pot(), 0);
    assert_eq!(c.government_pot(), 0);
    assert_eq!(c.pallet.halving_info.total_released, 0);
}

/// Release once so the government pot has something in it, and return what it holds.
fn fund_government_pot(c: &mut Chain) -> u128 {
    c.activate();
    c.run_blocks(1);
    c.government_pot()
}

/// Release once so the incentive pot has something in it, and return what it holds.
fn fund_incentive_pot(c: &mut Chain) -> u128 {
    c.activate();
    c.run_blocks(1);
    c.incentive_pot()
}

#[test]
fn the_government_can_spend_what_was_released_to_it() {
    let mut c = Chain::new();
    let pot = fund_government_pot(&mut c);
    assert!(pot > 0);
    let supply_before = c.total_supply();
    assert_eq!(c.spend_from_government_pot(ALICE, pot / 2), Ok(()));
    assert_eq!(c.balance(ALICE), pot / 2);
    assert_eq!(c.government_pot(), pot - pot / 2);
    assert_eq!(c.total_supply(), supply_before, "spending must not mint");
    assert!(c.pallet.events.contains(&Event::GovernmentPotSpent { beneficiary: ALICE, amount: pot / 2 }));
}

#[test]
fn the_government_cannot_spend_more_than_its_pot_holds() {
    let mut c = Chain::new();
    let pot = fund_government_pot(&mut c);
    assert_eq!(c.spend_from_government_pot(ALICE, pot + 1), Err(Error::InsufficientGovernmentPotBalance));
    assert_eq!(c.government_pot(), pot);
}

#[test]
fn spending_cannot_reach_the_incentive_pot_or_the_treasury() {
    let mut c = Chain::new();
    let pot = fund_government_pot(&mut c);
    let incentive_before = c.incentive_pot();
    let treasury_before = c.balance(c.pallet.treasury_account_id());
    assert_eq!(c.spend_from_government_pot(ALICE, pot - 1), Ok(()));
    assert_eq!(c.incentive_pot(), incentive_before);
    assert_eq!(c.balance(c.pallet.treasury_account_id()), treasury_before);
}

#[test]
fn a_spend_of_nothing_is_refused() {
    let mut c = Chain::new();
    fund_government_pot(&mut c);
    let events = c.pallet.events.len();
    assert_eq!(c.spend_from_government_pot(ALICE, 0), Err(Error::NothingToSpend));
    assert_eq!(c.pallet.events.len(), events);
}

#[test]
fn spending_does_not_disturb_the_schedule() {
    let mut c = Chain::new();
    let pot = fund_government_pot(&mut c);
    let next_before = c.pallet.next_release_month;
    assert_eq!(c.spend_from_government_pot(ALICE, pot - 1), Ok(()));
    assert_eq!(c.pallet.next_release_month, next_before);
    c.jump_to_block(1 + MONTH);
    c.run_blocks(1);
    assert_eq!(c.pallet.next_release_month, next_before + 1);
    assert_eq!(c.release(next_before).unwrap().amount_released, expected_amount(next_before));
}

#[test]
fn the_pot_account_is_never_emptied_to_nothing() {
    let mut c = Chain::new();
    let pot = fund_government_pot(&mut c);
    assert_eq!(c.spend_from_government_pot(ALICE, pot), Err(Error::InsufficientGovernmentPotBalance));
    assert_eq!(c.spend_from_government_pot(ALICE, pot - 1), Ok(()));
    assert_eq!(c.government_pot(), 1);
}

#[test]
fn the_rewards_chain_can_pay_out_of_the_incentive_pot() {
    let mut c = Chain::new();
    let pot = fund_incentive_pot(&mut c);
    assert!(pot > 0);
    let supply_before = c.total_supply();
    assert_eq!(c.pay_from_incentive_pot(ALICE, pot / 2), Ok(()));
    assert_eq!(c.balance(ALICE), pot / 2);
    assert_eq!(c.incentive_pot(), pot - pot / 2);
    assert_eq!(c.total_supply(), supply_before, "paying a reward must not mint");
    assert!(c.pallet.events.contains(&Event::IncentivePotSpent { beneficiary: ALICE, amount: pot / 2 }));
}

#[test]
fn a_reward_payment_of_nothing_is_refused() {
    let mut c = Chain::new();
    fund_incentive_pot(&mut c);
    assert_eq!(c.pay_from_incentive_pot(ALICE, 0), Err(Error::NothingToSpend));
}

#[test]
fn rewards_cannot_reach_the_government_pot_or_the_treasury() {
    let mut c = Chain::new();
    let pot = fund_incentive_pot(&mut c);
    let government_before = c.government_pot();
    let treasury_before = c.balance(c.pallet.treasury_account_id());
    assert_eq!(c.pay_from_incentive_pot(ALICE, pot + 1), Err(Error::InsufficientIncentivePotBalance));
    assert_eq!(c.government_pot(), government_before);
    assert_eq!(c.balance(c.pallet.treasury_account_id()), treasury_before);
}

#[test]
fn the_incentive_pot_account_is_never_emptied_to_nothing() {
    let mut c = Chain::new();
    let pot = fund_incentive_pot(&mut c);
    assert_eq!(c.pay_from_incentive_pot(ALICE, pot), Err(Error::InsufficientIncentivePotBalance));
    assert_eq!(c.pay_from_incentive_pot(ALICE, pot - 1), Ok(()));
    assert_eq!(c.incentive_pot(), 1);
}

#[test]
fn a_lost_report_does_not_undo_the_release() {
    let mut c = Chain::new();
    c.fail_sending = true;
    c.activate();
    c.run_blocks(1);
    assert!(c.incentive_pot() > 0, "the release still happened");
    assert_eq!(c.pallet.next_release_month, 1);
    assert!(c.sent.is_empty());
    let total = c.pallet.total_incentive_released;
    assert!(c.pallet.events.contains(&Event::IncentiveFundingReportFailed { total }));
    c.fail_sending = false;
    c.jump_to_block(c.block + MONTH - 1);
    c.run_blocks(1);
    assert_eq!(c.sent.len(), 1);
    assert_eq!(reported_total(&c.sent[0]), c.pallet.total_incentive_released);
}

#[test]
fn the_report_is_addressed_to_the_rewards_chain_and_its_pallet() {
    let mut c = Chain::new();
    c.activate();
    c.run_blocks(1);
    let call = c.sent.pop().expect("a report was sent");
    assert_eq!(call[0], REWARDS_PALLET_INDEX, "the rewards pallet's index");
    assert_eq!(call[1], 2, "note_incentive_funding");
    assert_eq!(reported_total(&call), c.pallet.total_incentive_released);
}

#[test]
fn a_lost_report_is_noted_between_the_release_records() {
    let mut c = Chain::new();
    c.fail_sending = true;
    c.activate();
    c.run_blocks(1);
    let n = c.pallet.events.len();
    let release = c.release(0).unwrap();
    assert_eq!(
        c.pallet.events[n - 2],
        Event::IncentiveFundingReportFailed { total: release.incentive_amount }
    );
    assert_eq!(
        c.pallet.events[n - 1],
        Event::MonthlyFundsReleased {
            month_index: 0,
            total_amount: release.amount_released,
            incentive_amount: release.incentive_amount,
            government_amount: release.government_amount,
        }
    );
}
