use pezpallets::pez_rewards::{
    Config, EpochState, Error, Event, GenesisConfig, InvariantViolation, Pezpallet, Seat,
    BLOCKS_PER_EPOCH, CLAIM_PERIOD_BLOCKS, PARLIAMENT_SIZE,
};
use std::collections::HashMap;

const EPOCH: u64 = BLOCKS_PER_EPOCH as u64;
const WINDOW: u64 = CLAIM_PERIOD_BLOCKS as u64;
const TREASURY_PALLET_INDEX: u8 = 70;

/// The payroll beside a trust roll, a parliamentary roll, and an outbox to the chain holding
/// the pot.
struct Chain {
    pallet: Pezpallet,
    block: u64,
    scores: HashMap<u64, u128>,
    seats: HashMap<u64, (u64, bool)>,
    freezes: Vec<u64>,
    sent: Vec<Vec<u8>>,
    sending_fails: bool,
}

impl Chain {
    fn new() -> Chain {
        Chain {
            pallet: Pezpallet::new(Config { treasury_pallet_index: TREASURY_PALLET_INDEX }),
            block: 1,
            scores: HashMap::new(),
            seats: HashMap::new(),
            freezes: Vec::new(),
            sent: Vec::new(),
            sending_fails: false,
        }
    }

    fn start(&mut self) {
        assert_eq!(self.pallet.initialize_rewards_system(self.block), Ok(()));
    }

    fn fund(&mut self, total: u128) {
        assert_eq!(self.pallet.note_incentive_funding(total), Ok(()));
    }

    fn set_trust(&mut self, who: u64, score: u128) {
        if score == 0 {
            self.scores.remove(&who);
        } else {
            self.scores.insert(who, score);
        }
    }

    fn set_seat(&mut self, who: u64, seated_at: u64, holds: bool) {
        self.seats.insert(who, (seated_at, holds));
    }

    fn seat(&self, who: u64) -> Seat {
        match self.seats.get(&who) {
            Some((at, holds)) => Seat { holds_seat: *holds, seated_at: Some(*at) },
            None => Seat { holds_seat: false, seated_at: None },
        }
    }

    fn jump_to_block(&mut self, n: u64) {
        assert!(n >= self.block, "cannot jump backwards");
        self.block = n;
        let total: u128 = self.scores.values().sum();
        if let Some(until) = self.pallet.on_initialize(n, total) {
            self.freezes.push(until);
        }
    }

    fn finalize_current_epoch(&mut self) -> u64 {
        let due = self.pallet.epoch_info.unwrap().epoch_start_block + EPOCH;
        self.jump_to_block(due);
        due
    }

    fn claim(&mut self, who: u64, epoch: u32) -> Result<u128, Error> {
        let score = *self.scores.get(&who).unwrap_or(&0);
        let seat = self.seat(who);
        let amount = self.pallet.claim_reward_check(who, epoch, self.block, score, seat)?;
        let call = self.pallet.payment_call(who, amount);
        let sent = !self.sending_fails;
        if sent {
            self.sent.push(call);
        }
        self.pallet.claim_reward(who, epoch, self.block, score, seat, sent)
    }

    fn claimed(&self, epoch: u32, who: u64) -> Option<u128> {
        let key = (epoch as u128) * (1u128 << 64) + who as u128;
        self.pallet.claimed_rewards.get(&key).copied()
    }

    fn status(&self, epoch: u32) -> EpochState {
        self.pallet.epoch_status_of(epoch)
    }
}

#[test]
fn the_clock_starts_with_one_open_epoch() {
    let mut c = Chain::new();
    c.start();
    assert_eq!(c.pallet.epoch_info.unwrap().current_epoch, 0);
    assert_eq!(c.status(0), EpochState::Open);
    assert!(c.pallet.epoch_in_claim.is_none());
}

#[test]
fn the_clock_cannot_be_started_twice() {
    let mut c = Chain::new();
    c.start();
    assert_eq!(c.pallet.initialize_rewards_system(c.block), Err(Error::AlreadyInitialized));
}

#[test]
fn an_epoch_finalises_itself_when_its_month_is_up() {
    let mut c = Chain::new();
    c.start();
    c.fund(1_000_000);
    c.jump_to_block(EPOCH);
    assert_eq!(c.status(0), EpochState::Open, "not due yet");
    let at = c.finalize_current_epoch();
    assert_eq!(c.status(0), EpochState::ClaimPeriod);
    assert_eq!(c.pallet.epoch_in_claim, Some(0));
    assert_eq!(c.status(1), EpochState::Open, "and the next one is running");
    assert_eq!(c.pallet.epoch_info.unwrap().current_epoch, 1);
    let pool = *c.pallet.epoch_reward_pools.get(&0).unwrap();
    assert_eq!(pool.finalized_at, at);
    assert_eq!(pool.claim_deadline, at + WINDOW);
}

#[test]
fn an_epoch_with_nothing_behind_it_still_ends() {
    let mut c = Chain::new();
    c.start();
    c.finalize_current_epoch();
    let pool = *c.pallet.epoch_reward_pools.get(&0).unwrap();
    assert_eq!(pool.reward_per_trust_point, 0);
    assert_eq!(pool.seat_share, 0);
    assert_eq!(c.pallet.epoch_info.unwrap().current_epoch, 1, "the clock moved on regardless");
}

#[test]
fn the_claim_window_closes_itself() {
    let mut c = Chain::new();
    c.start();
    c.fund(1_000_000);
    let at = c.finalize_current_epoch();
    c.jump_to_block(at + WINDOW);
    assert_eq!(c.status(0), EpochState::ClaimPeriod, "still open on the day");
    c.jump_to_block(at + WINDOW + 1);
    assert_eq!(c.status(0), EpochState::Closed);
    assert!(c.pallet.epoch_in_claim.is_none());
}

#[test]
fn funding_is_a_running_total_and_cannot_go_backwards() {
    let mut c = Chain::new();
    c.fund(500);
    assert_eq!(c.pallet.reported_incentive_total, 500);
    c.fund(1_200);
    assert_eq!(c.pallet.reported_incentive_total, 1_200);
    assert_eq!(c.pallet.note_incentive_funding(900), Err(Error::FundingReportWentBackwards));
    assert_eq!(c.pallet.reported_incentive_total, 1_200);
}

#[test]
fn what_is_available_is_what_was_reported_minus_what_was_paid() {
    let mut c = Chain::new();
    c.start();
    c.fund(1_000_000);
    c.set_trust(1, 1_000);
    assert_eq!(c.pallet.available_funds(), 1_000_000);
    c.finalize_current_epoch();
    assert!(c.claim(1, 0).is_ok());
    let paid = c.claimed(0, 1).unwrap();
    assert_eq!(c.pallet.paid_out_total, paid);
    assert_eq!(c.pallet.available_funds(), 1_000_000 - paid);
}

#[test]
fn the_rate_is_the_citizens_share_spread_over_the_whole_roll() {
    let mut c = Chain::new();
    c.start();
    c.fund(1_000_000);
    c.set_trust(1, 100);
    c.set_trust(2, 200);
    c.set_trust(3, 700);
    c.finalize_current_epoch();
    let pool = *c.pallet.epoch_reward_pools.get(&0).unwrap();
    assert_eq!(pool.seat_share, 100_000 / PARLIAMENT_SIZE as u128);
    assert_eq!(pool.reward_per_trust_point, 900_000 / 1_000);
}

#[test]
fn the_shares_add_up_to_the_pool() {
    let mut c = Chain::new();
    c.start();
    c.fund(1_000_000);
    c.set_trust(1, 100);
    c.set_trust(2, 200);
    c.set_trust(3, 700);
    c.finalize_current_epoch();
    for who in 1..=3u64 {
        assert!(c.claim(who, 0).is_ok());
    }
    assert_eq!(c.pallet.paid_out_total, 900_000, "exactly the citizens' share");
}

#[test]
fn finalising_freezes_the_trust_roll_for_the_claim_window() {
    let mut c = Chain::new();
    c.start();
    c.fund(1_000_000);
    c.set_trust(1, 1_000);
    let at = c.finalize_current_epoch();
    assert_eq!(c.freezes, vec![at + WINDOW]);
}

#[test]
fn a_citizen_claims_their_share_and_the_payment_is_instructed() {
    let mut c = Chain::new();
    c.start();
    c.fund(1_000_000);
    c.set_trust(1, 100);
    c.set_trust(2, 900);
    c.finalize_current_epoch();
    c.sent.clear();
    assert!(c.claim(1, 0).is_ok());
    let expected = 900 * 100;
    assert_eq!(c.claimed(0, 1), Some(expected));
    assert_eq!(c.sent.len(), 1, "the payment was actually instructed");
    assert!(c.pallet.events.contains(&Event::RewardClaimed { who: 1, epoch_index: 0, amount: expected }));
}

#[test]
fn nobody_is_paid_twice() {
    let mut c = Chain::new();
    c.start();
    c.fund(1_000_000);
    c.set_trust(1, 1_000);
    c.finalize_current_epoch();
    assert!(c.claim(1, 0).is_ok());
    assert_eq!(c.claim(1, 0), Err(Error::RewardAlreadyClaimed));
}

#[test]
fn a_claim_after_the_deadline_is_refused() {
    let mut c = Chain::new();
    c.start();
    c.fund(1_000_000);
    c.set_trust(1, 1_000);
    let at = c.finalize_current_epoch();
    c.jump_to_block(at + WINDOW + 1);
    assert_eq!(c.claim(1, 0), Err(Error::NotInClaimPeriod));
}

#[test]
fn nothing_owed_is_nothing_claimed() {
    let mut c = Chain::new();
    c.start();
    c.fund(1_000_000);
    c.set_trust(1, 1_000);
    c.finalize_current_epoch();
    assert_eq!(c.claim(99, 0), Err(Error::NoRewardToClaim));
}

#[test]
fn a_revoked_citizen_is_paid_nothing_and_no_citizenship_check_says_so() {
    let mut c = Chain::new();
    c.start();
    c.fund(1_000_000);
    c.set_trust(1, 500);
    c.set_trust(2, 500);
    c.finalize_current_epoch();
    c.set_trust(1, 0);
    assert_eq!(c.claim(1, 0), Err(Error::NoRewardToClaim));
    assert!(c.claim(2, 0).is_ok());
}

#[test]
fn an_unreachable_treasury_leaves_no_record_of_a_payment_that_did_not_happen() {
    let mut c = Chain::new();
    c.start();
    c.fund(1_000_000);
    c.set_trust(1, 1_000);
    c.finalize_current_epoch();
    c.sending_fails = true;
    assert_eq!(c.claim(1, 0), Err(Error::CouldNotReachTreasury));
    assert!(c.claimed(0, 1).is_none());
    assert_eq!(c.pallet.paid_out_total, 0);
    c.sending_fails = false;
    assert!(c.claim(1, 0).is_ok());
}

#[test]
fn the_payment_is_addressed_to_the_treasury_pallet_and_its_call() {
    let mut c = Chain::new();
    c.start();
    c.fund(1_000_000);
    c.set_trust(1, 1_000);
    c.finalize_current_epoch();
    c.sent.clear();
    assert!(c.claim(1, 0).is_ok());
    let encoded = c.sent.pop().expect("a payment was instructed");
    assert_eq!(encoded[0], TREASURY_PALLET_INDEX, "the treasury pallet's index");
    assert_eq!(encoded[1], 3, "pay_from_incentive_pot");
    // The beneficiary, then the amount as a compact integer.
    assert_eq!(&encoded[2..10], &1u64.to_le_bytes());
    let amount = c.claimed(0, 1).unwrap();
    assert_eq!(amount, 900 * 1_000);
    assert_eq!(encoded[10] & 0b11, 0b10, "a four-byte compact");
    let mut raw = [0u8; 4];
    raw.copy_from_slice(&encoded[10..14]);
    assert_eq!((u32::from_le_bytes(raw) >> 2) as u128, amount);
}

#[test]
fn a_seat_is_paid_by_the_seat_and_never_by_the_member() {
    let mut c = Chain::new();
    c.start();
    c.fund(1_000_000);
    c.set_trust(1, 1_000);
    c.set_seat(1, 1, true);
    c.finalize_current_epoch();
    let pool = *c.pallet.epoch_reward_pools.get(&0).unwrap();
    assert_eq!(pool.seat_share, 100_000 / PARLIAMENT_SIZE as u128);
    assert!(c.claim(1, 0).is_ok());
    assert_eq!(c.claimed(0, 1), Some(pool.reward_per_trust_point * 1_000 + pool.seat_share));
}

#[test]
fn a_member_the_diwan_removed_is_paid_nothing_for_the_seat() {
    let mut c = Chain::new();
    c.start();
    c.fund(1_000_000);
    c.set_trust(1, 1_000);
    c.set_seat(1, 1, false);
    c.finalize_current_epoch();
    let pool = *c.pallet.epoch_reward_pools.get(&0).unwrap();
    assert!(c.claim(1, 0).is_ok());
    assert_eq!(c.claimed(0, 1), Some(pool.reward_per_trust_point * 1_000));
}

#[test]
fn a_seat_taken_during_the_claim_window_is_not_paid_for_the_month_before_it() {
    let mut c = Chain::new();
    c.start();
    c.fund(1_000_000);
    c.set_trust(1, 1_000);
    let at = c.finalize_current_epoch();
    c.set_seat(1, at + 1, true);
    let pool = *c.pallet.epoch_reward_pools.get(&0).unwrap();
    assert!(c.claim(1, 0).is_ok());
    assert_eq!(c.claimed(0, 1), Some(pool.reward_per_trust_point * 1_000));
}

#[test]
fn an_unclaimed_seat_stays_in_the_pot_for_the_following_month() {
    let mut c = Chain::new();
    c.start();
    c.fund(1_000_000);
    c.set_trust(1, 1_000);
    c.finalize_current_epoch();
    assert!(c.claim(1, 0).is_ok());
    let paid = c.pallet.paid_out_total;
    assert!(paid < 1_000_000);
    let second = c.finalize_current_epoch();
    let pool = *c.pallet.epoch_reward_pools.get(&1).unwrap();
    assert_eq!(pool.finalized_at, second);
    assert_eq!(
        pool.reward_per_trust_point,
        (1_000_000 - paid) * 90 / 100 / 1_000,
        "what nobody claimed is simply next month's pot"
    );
}

#[test]
fn the_call_surface_is_three_calls_and_none_of_them_moves_money_directly() {
    // The three ways in: start the clock, claim, and record what the pot was given.
    let _initialize = Pezpallet::initialize_rewards_system;
    let _claim = Pezpallet::claim_reward;
    let _fund = Pezpallet::note_incentive_funding;
}

#[test]
fn a_genesis_that_starts_the_clock_opens_epoch_zero() {
    let p = GenesisConfig { start_rewards_system: true }.build(Config { treasury_pallet_index: 70 });
    assert_eq!(p.epoch_info.unwrap().current_epoch, 0);
    assert_eq!(p.epoch_info.unwrap().epoch_start_block, 0);
    assert_eq!(p.epoch_status_of(0), EpochState::Open);
    let q = GenesisConfig { start_rewards_system: false }.build(Config { treasury_pallet_index: 70 });
    assert!(q.epoch_info.is_none());
}

#[test]
fn only_one_epoch_is_open_to_claims_at_a_time() {
    let mut c = Chain::new();
    c.start();
    c.fund(1_000_000);
    c.set_trust(1, 1_000);
    c.finalize_current_epoch();
    c.finalize_current_epoch();
    assert_eq!(c.status(0), EpochState::Closed, "the first window closed before the second opened");
    assert_eq!(c.status(1), EpochState::ClaimPeriod);
    assert_eq!(c.pallet.epoch_in_claim, Some(1));
}

// The invariants, proved breakable.

fn check_invariants(c: &Chain) {
    if let Err(e) = c.pallet.try_state() {
        panic!("{}", e.message());
    }
}

#[test]
fn an_ordinary_payroll_passes_the_check() {
    let mut c = Chain::new();
    c.start();
    c.fund(1_000_000);
    c.set_trust(1, 1_000);
    c.finalize_current_epoch();
    assert!(c.claim(1, 0).is_ok());
    assert_eq!(c.pallet.try_state(), Ok(()));
    c.jump_to_block(c.block + WINDOW + 1);
    assert_eq!(c.status(0), EpochState::Closed);
    assert_eq!(c.pallet.try_state(), Ok(()));
}

#[test]
#[should_panic(expected = "more has been paid out than the pot was ever given")]
fn paying_out_more_than_the_pot_was_given_is_caught() {
    let mut c = Chain::new();
    c.start();
    c.fund(100);
    c.pallet.paid_out_total = 101;
    check_invariants(&c);
}

#[test]
#[should_panic(expected = "the claims recorded do not add up to what was paid out")]
fn a_claim_the_ledger_does_not_know_about_is_caught() {
    let mut c = Chain::new();
    c.start();
    c.fund(1_000_000);
    c.set_trust(1, 1_000);
    c.finalize_current_epoch();
    assert!(c.claim(1, 0).is_ok());
    c.pallet.paid_out_total = 1;
    check_invariants(&c);
}

#[test]
#[should_panic(expected = "two epochs are open to claims at once")]
fn two_claim_windows_at_once_is_caught() {
    let mut c = Chain::new();
    c.start();
    c.fund(1_000_000);
    c.finalize_current_epoch();
    c.pallet.epoch_status.insert(1, EpochState::ClaimPeriod);
    check_invariants(&c);
}

#[test]
#[should_panic(expected = "a reward was paid for an epoch that is still collecting")]
fn a_reward_paid_against_an_open_epoch_is_caught() {
    let mut c = Chain::new();
    c.start();
    let key = (0u128 << 64) + 1u128;
    c.pallet.claimed_rewards.insert(key, 5);
    c.pallet.claim_log.push((0, 1));
    c.pallet.paid_out_total = 5;
    c.pallet.reported_incentive_total = 5;
    check_invariants(&c);
}

#[test]
fn a_window_the_pallet_does_not_know_about_is_caught() {
    let mut c = Chain::new();
    c.start();
    c.fund(1_000_000);
    c.finalize_current_epoch();
    c.pallet.epoch_in_claim = None;
    assert_eq!(c.pallet.try_state(), Err(InvariantViolation::WindowMismatch));
    c.pallet.epoch_in_claim = Some(0);
    c.pallet.epoch_status.insert(1, EpochState::Closed);
    assert_eq!(c.pallet.try_state(), Err(InvariantViolation::CurrentNotOpen));
}

#[test]
fn epochstate_indices_are_pinned() {
    let pinned: &[(&str, u8, Vec<u8>)] = &[
        ("Open", 0u8, EpochState::Open.encode()),
        ("ClaimPeriod", 1u8, EpochState::ClaimPeriod.encode()),
        ("Closed", 2u8, EpochState::Closed.encode()),
    ];
    let moved: Vec<&str> =
        pinned.iter().filter(|(_, want, enc)| *enc != vec![*want]).map(|(name, _, _)| *name).collect();
    assert!(moved.is_empty(), "`EpochState` indices moved: {moved:?}");
    assert_eq!(pinned.len(), 3, "a variant was added or removed");
}
