use pezpallets::presale::{
    AssetOp, Config, ContributionLimits, Error, Event, Pezpallet, PresaleCreationParams, PresaleStatus,
    RefundConfig, VestingSchedule,
};
use std::collections::HashMap;

const PEZ: u32 = 1;
const USDT: u32 = 2;
const TREASURY: u64 = 999;
const STAKING: u64 = 998;
const MIN_BALANCE: u128 = 1;

#[allow(clippy::too_many_arguments)]
fn make_presale_params(
    tokens_for_sale: u128,
    duration: u64,
    is_whitelist: bool,
    min_contribution: u128,
    max_contribution: u128,
    soft_cap: u128,
    hard_cap: u128,
    enable_vesting: bool,
    vesting_immediate_percent: u8,
    vesting_duration_blocks: u64,
    vesting_cliff_blocks: u64,
    grace_period_blocks: u64,
    refund_fee_percent: u8,
    grace_refund_fee_percent: u8,
) -> PresaleCreationParams {
    let vesting = if enable_vesting {
        Some(VestingSchedule {
            immediate_release_percent: vesting_immediate_percent,
            vesting_duration_blocks,
            cliff_blocks: vesting_cliff_blocks,
        })
    } else {
        None
    };
    PresaleCreationParams {
        tokens_for_sale,
        duration,
        is_whitelist,
        limits: ContributionLimits { min_contribution, max_contribution, soft_cap, hard_cap },
        vesting,
        refund_config: RefundConfig { grace_period_blocks, refund_fee_percent, grace_refund_fee_percent },
    }
}

/// The presale used by most tests: 10,000 PEZ for between 5,000 and 10,000 USDT, at most
/// 1,000 USDT and at least 10 USDT a contribution, over 100 blocks.
fn standard(is_whitelist: bool) -> PresaleCreationParams {
    make_presale_params(
        10_000_000_000_000_000_000,
        100,
        is_whitelist,
        10_000_000,
        1_000_000_000,
        5_000_000_000,
        10_000_000_000,
        false,
        0,
        0,
        0,
        24,
        5,
        2,
    )
}

/// The presale pallet beside an assets ledger, block by block.
struct Chain {
    pallet: Pezpallet,
    block: u64,
    balances: HashMap<(u32, u64), u128>,
}

impl Chain {
    fn new() -> Chain {
        Chain {
            pallet: Pezpallet::new(Config {
                pallet_id: *b"py/prsal",
                platform_treasury: TREASURY,
                staking_reward_pool: STAKING,
                platform_fee_percent: 2,
                max_contributors: 10_000,
            }),
            block: 1,
            balances: HashMap::new(),
        }
    }

    fn balance(&self, asset: u32, who: u64) -> u128 {
        *self.balances.get(&(asset, who)).unwrap_or(&0)
    }

    fn mint(&mut self, asset: u32, who: u64, amount: u128) {
        *self.balances.entry((asset, who)).or_insert(0) += amount;
    }

    fn treasury(&self, id: u32) -> u64 {
        self.pallet.presale_account_id(id)
    }

    /// Apply every operation or none of them, as a dispatch does.
    fn apply(&mut self, ops: &[AssetOp]) -> bool {
        let mut next = self.balances.clone();
        for op in ops {
            match *op {
                AssetOp::Transfer { asset, from, to, amount, keep_alive } => {
                    let have = *next.get(&(asset, from)).unwrap_or(&0);
                    if have < amount || (keep_alive && have - amount < MIN_BALANCE) {
                        return false;
                    }
                    next.insert((asset, from), have - amount);
                    *next.entry((asset, to)).or_insert(0) += amount;
                },
                AssetOp::Burn { asset, from, amount } => {
                    let have = *next.get(&(asset, from)).unwrap_or(&0);
                    if have < amount {
                        return false;
                    }
                    next.insert((asset, from), have - amount);
                },
            }
        }
        self.balances = next;
        true
    }

    fn create(&mut self, owner: u64, params: PresaleCreationParams) -> Result<(), Error> {
        self.pallet.create_presale(owner, USDT, PEZ, params, self.block)
    }

    fn contribute(&mut self, who: u64, id: u32, amount: u128) -> Result<(), Error> {
        let ops = self.pallet.contribute_ops(who, id, amount, self.block)?;
        let made = self.apply(&ops);
        self.pallet.contribute(who, id, amount, self.block, made)
    }

    fn refund(&mut self, who: u64, id: u32) -> Result<(), Error> {
        let ops = self.pallet.refund_ops(who, id, self.block)?;
        let made = self.apply(&ops);
        self.pallet.refund(who, id, self.block, made)
    }

    fn batch_distribute(&mut self, id: u32, start: u32, size: u32) -> Result<(), Error> {
        let ops = self.pallet.batch_distribute_ops(id, start, size)?;
        let made = self.apply(&ops);
        self.pallet.batch_distribute(id, start, size, made)
    }

    fn batch_refund_failed(&mut self, id: u32, start: u32, size: u32) -> Result<(), Error> {
        let ops = self.pallet.batch_refund_failed_presale_ops(id, start, size)?;
        let made = self.apply(&ops);
        self.pallet.batch_refund_failed_presale(id, start, size, self.block, made)
    }

    fn status(&self, id: u32) -> PresaleStatus {
        self.pallet.presales.get(&id).unwrap().status
    }

    fn contribution(&self, id: u32, who: u64) -> Option<pezpallets::presale::ContributionInfo> {
        let key = (id as u128) * (1u128 << 64) + who as u128;
        self.pallet.contributions.get(&key).copied()
    }

    fn contributors(&self, id: u32) -> Vec<u64> {
        self.pallet.contributors.get(&id).cloned().unwrap_or_default()
    }

    fn last_event(&self) -> Event {
        *self.pallet.events.last().unwrap()
    }

    fn has_event(&self, e: Event) -> bool {
        self.pallet.events.contains(&e)
    }
}

#[test]
fn create_presale_works() {
    let mut c = Chain::new();
    c.mint(PEZ, 1, 100_000_000_000_000_000_000);
    assert_eq!(c.create(1, standard(false)), Ok(()));
    let presale = *c.pallet.presales.get(&0).unwrap();
    assert_eq!(presale.owner, 1);
    assert_eq!(presale.payment_asset, USDT);
    assert_eq!(presale.reward_asset, PEZ);
    assert_eq!(presale.tokens_for_sale, 10_000_000_000_000_000_000);
    assert_eq!(presale.duration, 100);
    assert_eq!(
        c.last_event(),
        Event::PresaleCreated { presale_id: 0, owner: 1, payment_asset: 2, reward_asset: 1 }
    );
    assert_eq!(c.pallet.next_presale_id, 1);
}

#[test]
fn create_multiple_presales_works() {
    let mut c = Chain::new();
    assert_eq!(c.create(1, standard(false)), Ok(()));
    assert_eq!(
        c.create(
            2,
            make_presale_params(
                20_000_000_000_000_000_000,
                200,
                false,
                20_000_000,
                2_000_000_000,
                10_000_000_000,
                20_000_000_000,
                false,
                0,
                0,
                0,
                48,
                10,
                5
            )
        ),
        Ok(())
    );
    assert_eq!(c.pallet.presales.get(&0).unwrap().owner, 1);
    assert_eq!(c.pallet.presales.get(&1).unwrap().owner, 2);
    assert_eq!(c.pallet.next_presale_id, 2);
}

#[test]
fn contribute_works() {
    let mut c = Chain::new();
    assert_eq!(c.create(1, standard(false)), Ok(()));
    c.mint(USDT, 2, 1_000_000_000);
    let contribution = 100_000_000;
    assert_eq!(c.contribute(2, 0, contribution), Ok(()));
    assert_eq!(c.contribution(0, 2).unwrap().amount, contribution);
    let platform_fee = contribution * 2 / 100;
    let net_amount = contribution - platform_fee;
    assert_eq!(c.pallet.get_total_raised(0), contribution);
    assert_eq!(c.contributors(0), vec![2]);
    assert_eq!(c.balance(USDT, c.treasury(0)), net_amount);
    assert_eq!(c.balance(USDT, TREASURY), platform_fee * 50 / 100);
    assert_eq!(c.balance(USDT, STAKING), platform_fee * 25 / 100);
    assert_eq!(c.balance(USDT, 2), 1_000_000_000 - contribution);
    assert_eq!(
        c.last_event(),
        Event::Contributed { presale_id: 0, who: 2, amount: contribution, bonus_amount: 0 }
    );
}

#[test]
fn contribute_multiple_times_works() {
    let mut c = Chain::new();
    c.mint(USDT, 2, 1_000_000_000);
    assert_eq!(c.create(1, standard(false)), Ok(()));
    assert_eq!(c.contribute(2, 0, 50_000_000), Ok(()));
    assert_eq!(c.contribution(0, 2).unwrap().amount, 50_000_000);
    assert_eq!(c.contribute(2, 0, 30_000_000), Ok(()));
    assert_eq!(c.contribution(0, 2).unwrap().amount, 80_000_000);
    assert_eq!(c.contributors(0).len(), 1);
    assert_eq!(c.pallet.get_total_raised(0), 80_000_000);
}

#[test]
fn contribute_to_different_presales_works() {
    let mut c = Chain::new();
    c.mint(USDT, 2, 2_000_000_000);
    assert_eq!(c.create(1, standard(false)), Ok(()));
    let mut second = standard(false);
    second.tokens_for_sale = 15_000_000_000_000_000_000;
    assert_eq!(c.create(1, second), Ok(()));
    assert_eq!(c.contribute(2, 0, 100_000_000), Ok(()));
    assert_eq!(c.contribute(2, 1, 200_000_000), Ok(()));
    assert_eq!(c.contribution(0, 2).unwrap().amount, 100_000_000);
    assert_eq!(c.contribution(1, 2).unwrap().amount, 200_000_000);
    assert_eq!(c.pallet.get_total_raised(0), 100_000_000);
    assert_eq!(c.pallet.get_total_raised(1), 200_000_000);
    assert_eq!(c.balance(USDT, c.treasury(0)), 100_000_000 * 98 / 100);
    assert_eq!(c.balance(USDT, c.treasury(1)), 200_000_000 * 98 / 100);
}

#[test]
fn contribute_below_min_fails() {
    let mut c = Chain::new();
    c.mint(USDT, 2, 1_000_000_000);
    assert_eq!(c.create(1, standard(false)), Ok(()));
    assert_eq!(c.contribute(2, 0, 5_000_000), Err(Error::BelowMinContribution));
}

#[test]
fn contribute_above_max_fails() {
    let mut c = Chain::new();
    c.mint(USDT, 2, 5_000_000_000);
    assert_eq!(c.create(1, standard(false)), Ok(()));
    assert_eq!(c.contribute(2, 0, 2_000_000_000), Err(Error::AboveMaxContribution));
}

#[test]
fn contribute_exceeding_hard_cap_fails() {
    let mut c = Chain::new();
    assert_eq!(c.create(1, standard(false)), Ok(()));
    for i in 3..12u64 {
        c.mint(USDT, i, 1_010_000_000);
        assert_eq!(c.contribute(i, 0, 1_000_000_000), Ok(()));
    }
    c.mint(USDT, 2, 2_010_000_000);
    assert_eq!(c.contribute(2, 0, 1_000_000_000), Ok(()));
    c.mint(USDT, 13, 1_010_000_000);
    assert_eq!(c.contribute(13, 0, 1_000_000_000), Err(Error::HardCapReached));
}

#[test]
fn contribute_after_presale_ended_fails() {
    let mut c = Chain::new();
    c.mint(USDT, 2, 1_000_000_000);
    assert_eq!(c.create(1, standard(false)), Ok(()));
    c.block = 102;
    assert_eq!(c.contribute(2, 0, 100_000_000), Err(Error::PresaleEnded));
}

#[test]
fn a_contribution_the_ledger_could_not_move_is_not_recorded() {
    let mut c = Chain::new();
    assert_eq!(c.create(1, standard(false)), Ok(()));
    c.mint(USDT, 2, 50_000_000);
    assert_eq!(c.contribute(2, 0, 100_000_000), Err(Error::AssetOperationFailed));
    assert!(c.contribution(0, 2).is_none());
    assert_eq!(c.pallet.get_total_raised(0), 0);
}

#[test]
fn finalize_presale_works() {
    let mut c = Chain::new();
    assert_eq!(c.create(1, standard(false)), Ok(()));
    let treasury = c.treasury(0);
    c.mint(PEZ, treasury, 100_000_000_000_000_000_000);
    for i in 2..8u64 {
        c.mint(USDT, i, 1_010_000_000);
        assert_eq!(c.contribute(i, 0, 1_000_000_000), Ok(()));
    }
    c.block = 101;
    assert_eq!(c.pallet.finalize_presale(0, c.block), Ok(()));
    assert_eq!(c.status(0), PresaleStatus::Successful);
    assert_eq!(c.batch_distribute(0, 0, 100), Ok(()));
    assert_eq!(c.status(0), PresaleStatus::Finalized);
    let expected_pez = 1_666_666_666_666_666_666u128;
    for i in 2..8u64 {
        let contributor_pez = c.balance(PEZ, i);
        assert!(
            contributor_pez >= expected_pez - 10_000_000_000_000_000
                && contributor_pez <= expected_pez + 10_000_000_000_000_000,
            "Contributor {i} PEZ: {contributor_pez} (expected ~{expected_pez})"
        );
    }
    let total_gross = 6_000_000_000u128;
    assert!(c.has_event(Event::PresaleFinalized { presale_id: 0, total_raised: total_gross }));
}

#[test]
fn finalize_presale_before_end_fails() {
    let mut c = Chain::new();
    assert_eq!(c.create(1, standard(false)), Ok(()));
    assert_eq!(c.pallet.finalize_presale(0, c.block), Err(Error::PresaleNotEnded));
}

#[test]
fn refund_works() {
    let mut c = Chain::new();
    c.mint(USDT, 2, 1_000_000_000);
    assert_eq!(c.create(1, standard(false)), Ok(()));
    let contribution = 100_000_000;
    assert_eq!(c.contribute(2, 0, contribution), Ok(()));
    let treasury = c.treasury(0);
    c.mint(USDT, treasury, 3_000_000);
    c.block = 30;
    let initial_balance = c.balance(USDT, 2);
    assert_eq!(c.refund(2, 0), Ok(()));
    let platform_fee = contribution * 2 / 100;
    let net_in_treasury = contribution - platform_fee;
    let fee = net_in_treasury * 5 / 100;
    let refund_amount = net_in_treasury - fee;
    assert_eq!(c.balance(USDT, 2), initial_balance + refund_amount);
    assert!(c.contribution(0, 2).unwrap().refunded);
    assert_eq!(c.pallet.get_total_raised(0), 0);
    assert_eq!(c.last_event(), Event::Refunded { presale_id: 0, who: 2, amount: refund_amount, fee });
}

#[test]
fn refund_in_grace_period_lower_fee() {
    let mut c = Chain::new();
    c.mint(USDT, 2, 1_000_000_000);
    assert_eq!(c.create(1, standard(false)), Ok(()));
    let contribution = 100_000_000;
    assert_eq!(c.contribute(2, 0, contribution), Ok(()));
    let treasury = c.treasury(0);
    c.mint(USDT, treasury, 3_000_000);
    c.block = 20;
    let initial_balance = c.balance(USDT, 2);
    assert_eq!(c.refund(2, 0), Ok(()));
    let platform_fee = contribution * 2 / 100;
    let net_in_treasury = contribution - platform_fee;
    let grace_fee = net_in_treasury * 2 / 100;
    let refund_amount = net_in_treasury - grace_fee;
    assert_eq!(c.balance(USDT, 2), initial_balance + refund_amount);
}

#[test]
fn refund_with_no_contribution_fails() {
    let mut c = Chain::new();
    assert_eq!(c.create(1, standard(false)), Ok(()));
    assert_eq!(c.refund(2, 0), Err(Error::NoContribution));
}

#[test]
fn cancel_presale_works() {
    let mut c = Chain::new();
    c.mint(USDT, 2, 1_000_000_000);
    assert_eq!(c.create(1, standard(false)), Ok(()));
    assert_eq!(c.contribute(2, 0, 100_000_000), Ok(()));
    assert_eq!(c.pallet.cancel_presale(0), Ok(()));
    assert_eq!(c.status(0), PresaleStatus::Cancelled);
    assert_eq!(c.last_event(), Event::PresaleCancelled { presale_id: 0 });
}

#[test]
fn emergency_cancel_by_root_works() {
    let mut c = Chain::new();
    assert_eq!(c.create(1, standard(false)), Ok(()));
    assert_eq!(c.pallet.cancel_presale(0), Ok(()));
    assert_eq!(c.status(0), PresaleStatus::Cancelled);
}

#[test]
fn whitelist_presale_works() {
    let mut c = Chain::new();
    c.mint(USDT, 2, 1_000_000_000);
    assert_eq!(c.create(1, standard(true)), Ok(()));
    assert_eq!(c.contribute(2, 0, 100_000_000), Err(Error::NotWhitelisted));
    assert_eq!(c.pallet.add_to_whitelist(1, 0, 2), Ok(()));
    assert_eq!(c.contribute(2, 0, 100_000_000), Ok(()));
}

#[test]
fn add_to_whitelist_non_owner_fails() {
    let mut c = Chain::new();
    assert_eq!(c.create(1, standard(true)), Ok(()));
    assert_eq!(c.pallet.add_to_whitelist(3, 0, 2), Err(Error::NotPresaleOwner));
}

#[test]
fn finalize_presale_soft_cap_reached_success() {
    let mut c = Chain::new();
    assert_eq!(c.create(1, standard(false)), Ok(()));
    let treasury = c.treasury(0);
    c.mint(PEZ, treasury, 100_000_000_000_000_000_000);
    for i in 2..8u64 {
        c.mint(USDT, i, 1_010_000_000);
        assert_eq!(c.contribute(i, 0, 1_000_000_000), Ok(()));
    }
    assert_eq!(c.pallet.get_total_raised(0), 6_000_000_000);
    c.block = 102;
    assert_eq!(c.pallet.finalize_presale(0, c.block), Ok(()));
    assert_eq!(c.status(0), PresaleStatus::Successful);
    assert_eq!(c.batch_distribute(0, 0, 100), Ok(()));
    assert_eq!(c.status(0), PresaleStatus::Finalized);
    for i in 2..8u64 {
        assert!(c.balance(PEZ, i) > 0, "Contributor {i} should receive PEZ");
    }
}

#[test]
fn finalize_presale_soft_cap_not_reached_fails() {
    let mut c = Chain::new();
    assert_eq!(c.create(1, standard(false)), Ok(()));
    for i in 2..5u64 {
        c.mint(USDT, i, 1_010_000_000);
        assert_eq!(c.contribute(i, 0, 1_000_000_000), Ok(()));
    }
    assert_eq!(c.pallet.get_total_raised(0), 3_000_000_000);
    c.block = 102;
    assert_eq!(c.pallet.finalize_presale(0, c.block), Ok(()));
    assert_eq!(c.status(0), PresaleStatus::Failed);
    assert_eq!(c.balance(PEZ, 2), 0);
    assert_eq!(c.balance(PEZ, 3), 0);
}

#[test]
fn batch_refund_failed_presale_works() {
    let mut c = Chain::new();
    assert_eq!(c.create(1, standard(false)), Ok(()));
    let treasury = c.treasury(0);
    c.mint(USDT, treasury, 10_000_000_000);
    c.mint(USDT, 2, 510_000_000);
    c.mint(USDT, 3, 510_000_000);
    assert_eq!(c.contribute(2, 0, 500_000_000), Ok(()));
    assert_eq!(c.contribute(3, 0, 500_000_000), Ok(()));
    let bob_initial = c.balance(USDT, 2);
    let charlie_initial = c.balance(USDT, 3);
    c.block = 102;
    assert_eq!(c.pallet.finalize_presale(0, c.block), Ok(()));
    assert_eq!(c.status(0), PresaleStatus::Failed);
    assert_eq!(c.batch_refund_failed(0, 0, 10), Ok(()));
    assert_eq!(c.balance(USDT, 2), bob_initial + 490_000_000);
    assert_eq!(c.balance(USDT, 3), charlie_initial + 490_000_000);
    let bob = c.contribution(0, 2).unwrap();
    assert!(bob.refunded);
    assert_eq!(bob.refund_fee_paid, 0);
}

#[test]
fn batch_refund_successful_presale_fails() {
    let mut c = Chain::new();
    assert_eq!(c.create(1, standard(false)), Ok(()));
    let treasury = c.treasury(0);
    c.mint(PEZ, treasury, 100_000_000_000_000_000_000);
    c.mint(USDT, treasury, 10_000_000_000);
    for i in 2..7u64 {
        c.mint(USDT, i, 1_010_000_000);
        assert_eq!(c.contribute(i, 0, 1_000_000_000), Ok(()));
    }
    c.block = 102;
    assert_eq!(c.pallet.finalize_presale(0, c.block), Ok(()));
    assert_eq!(c.batch_refund_failed(0, 0, 10), Err(Error::PresaleNotFailed));
}

#[test]
fn create_presale_with_soft_cap_greater_than_hard_cap_fails() {
    let mut c = Chain::new();
    assert_eq!(
        c.create(
            1,
            make_presale_params(
                10_000_000_000_000_000_000,
                100,
                false,
                10_000_000,
                1_000_000_000,
                15_000_000_000,
                10_000_000_000,
                false,
                0,
                0,
                0,
                24,
                5,
                2
            )
        ),
        Err(Error::InvalidTokensForSale)
    );
}

#[test]
fn debug_finalize_presale() {
    let mut c = Chain::new();
    assert_eq!(c.create(1, standard(false)), Ok(()));
    let treasury = c.treasury(0);
    c.mint(PEZ, treasury, 1_000_000_000_000_000_000_000);
    c.mint(USDT, TREASURY, 100_000_000_000);
    c.mint(USDT, STAKING, 100_000_000_000);
    for i in 2..27u64 {
        c.mint(USDT, i, 220_000_000);
        c.mint(PEZ, i, 1_000_000_000);
        assert_eq!(c.contribute(i, 0, 200_000_000), Ok(()));
    }
    c.block = 150;
    assert_eq!(c.pallet.finalize_presale(0, c.block), Ok(()));
}

#[test]
fn vested_tokens_are_claimed_as_they_vest() {
    let mut c = Chain::new();
    let params = make_presale_params(
        10_000_000_000_000_000_000,
        100,
        false,
        10_000_000,
        1_000_000_000,
        1_000_000_000,
        10_000_000_000,
        true,
        20,
        1_000,
        0,
        24,
        5,
        2,
    );
    assert_eq!(c.create(1, params), Ok(()));
    let treasury = c.treasury(0);
    c.mint(PEZ, treasury, 100_000_000_000_000_000_000);
    c.mint(USDT, 2, 1_010_000_000);
    assert_eq!(c.contribute(2, 0, 1_000_000_000), Ok(()));
    c.block = 101;
    assert_eq!(c.pallet.finalize_presale(0, c.block), Ok(()));
    assert_eq!(c.batch_distribute(0, 0, 100), Ok(()));
    // A fifth at once, the rest over the vesting period.
    assert_eq!(c.balance(PEZ, 2), 2_000_000_000_000_000_000);
    c.block = 101 + 500;
    let ops = c.pallet.claim_vested_ops(2, 0, c.block).unwrap();
    assert!(c.apply(&ops));
    assert_eq!(c.pallet.claim_vested(2, 0, c.block, true), Ok(()));
    assert_eq!(c.balance(PEZ, 2), 6_000_000_000_000_000_000);
    assert_eq!(
        c.last_event(),
        Event::VestingClaimed { presale_id: 0, who: 2, amount: 4_000_000_000_000_000_000 }
    );
}

#[test]
fn a_contribution_past_the_hard_cap_is_cut_to_fit() {
    // Nine full contributions leave room for one more thousand; a contributor who offers that
    // after somebody took half of it is accepted for the half that is left, and the total
    // stops at the cap.
    let mut c = Chain::new();
    assert_eq!(c.create(1, standard(false)), Ok(()));
    for i in 3..12u64 {
        c.mint(USDT, i, 1_010_000_000);
        assert_eq!(c.contribute(i, 0, 1_000_000_000), Ok(()));
    }
    c.mint(USDT, 12, 1_010_000_000);
    assert_eq!(c.contribute(12, 0, 500_000_000), Ok(()));
    c.mint(USDT, 2, 1_010_000_000);
    assert_eq!(c.contribute(2, 0, 1_000_000_000), Ok(()));
    assert_eq!(c.pallet.get_total_raised(0), 10_000_000_000);
}

#[test]
fn contributing_again_after_a_refund_counts_the_refunded_amount_again() {
    // The record of a contributor who refunded keeps its amount; a new contribution adds to
    // that amount, keeps the first date and clears the refund, while the raised total only
    // gains the new money.
    let mut c = Chain::new();
    assert_eq!(c.create(1, standard(false)), Ok(()));
    c.mint(USDT, 2, 1_000_000_000);
    assert_eq!(c.contribute(2, 0, 100_000_000), Ok(()));
    assert_eq!(c.refund(2, 0), Ok(()));
    assert_eq!(c.pallet.get_total_raised(0), 0);
    c.block = 5;
    assert_eq!(c.contribute(2, 0, 100_000_000), Ok(()));
    assert_eq!(c.pallet.get_total_raised(0), 100_000_000);
    let record = c.contribution(0, 2).unwrap();
    assert_eq!(record.amount, 200_000_000);
    assert_eq!(record.contributed_at, 1);
    assert!(!record.refunded);
}

#[test]
fn the_wallet_limit_counts_a_refunded_contribution() {
    let mut c = Chain::new();
    assert_eq!(c.create(1, standard(false)), Ok(()));
    c.mint(USDT, 2, 2_000_000_000);
    assert_eq!(c.contribute(2, 0, 900_000_000), Ok(()));
    assert_eq!(c.refund(2, 0), Ok(()));
    assert_eq!(c.contribute(2, 0, 200_000_000), Err(Error::AboveMaxContribution));
}

#[test]
fn a_new_contributor_on_a_full_list_is_refused_before_any_money_moves() {
    let mut c = Chain {
        pallet: Pezpallet::new(Config {
            pallet_id: *b"py/prsal",
            platform_treasury: TREASURY,
            staking_reward_pool: STAKING,
            platform_fee_percent: 2,
            max_contributors: 1,
        }),
        block: 1,
        balances: HashMap::new(),
    };
    assert_eq!(c.create(1, standard(false)), Ok(()));
    c.mint(USDT, 2, 1_000_000_000);
    c.mint(USDT, 3, 1_000_000_000);
    assert_eq!(c.contribute(2, 0, 100_000_000), Ok(()));
    assert_eq!(c.pallet.contribute_ops(3, 0, 100_000_000, c.block), Err(Error::TooManyContributors));
    assert_eq!(c.contribute(3, 0, 100_000_000), Err(Error::TooManyContributors));
    assert_eq!(c.balance(USDT, 3), 1_000_000_000);
    assert_eq!(c.contribute(2, 0, 100_000_000), Ok(()));
}

#[test]
fn a_contribution_reports_the_fee_split_then_the_contribution() {
    let mut c = Chain::new();
    c.mint(USDT, 2, 1_000_000_000);
    assert_eq!(c.create(1, standard(false)), Ok(()));
    assert_eq!(c.contribute(2, 0, 100_000_000), Ok(()));
    let n = c.pallet.events.len();
    assert_eq!(
        c.pallet.events[n - 2],
        Event::PlatformFeeDistributed {
            treasury_share: 1_000_000,
            burn_share: 500_000,
            staker_share: 500_000,
        }
    );
    assert_eq!(
        c.pallet.events[n - 1],
        Event::Contributed { presale_id: 0, who: 2, amount: 100_000_000, bonus_amount: 0 }
    );
}

#[test]
fn a_refused_call_reports_nothing() {
    let mut c = Chain::new();
    assert_eq!(c.create(1, standard(false)), Ok(()));
    let before = c.pallet.events.clone();
    assert_eq!(c.refund(2, 0), Err(Error::NoContribution));
    assert_eq!(c.pallet.add_to_whitelist(5, 0, 2), Err(Error::NotPresaleOwner));
    assert_eq!(c.pallet.finalize_presale(0, c.block), Err(Error::PresaleNotEnded));
    assert_eq!(c.pallet.events, before);
}

#[test]
fn finalizing_reports_success_or_failure_against_the_soft_cap() {
    let mut c = Chain::new();
    assert_eq!(c.create(1, standard(false)), Ok(()));
    c.mint(USDT, 2, 1_010_000_000);
    assert_eq!(c.contribute(2, 0, 1_000_000_000), Ok(()));
    c.block = 101;
    assert_eq!(c.pallet.finalize_presale(0, c.block), Ok(()));
    let n = c.pallet.events.len();
    assert_eq!(
        c.pallet.events[n - 1],
        Event::PresaleFailed { presale_id: 0, total_raised: 1_000_000_000, soft_cap: 5_000_000_000 }
    );
    assert_eq!(c.pallet.add_to_whitelist(1, 0, 7), Ok(()));
    assert_eq!(c.last_event(), Event::AccountWhitelisted { presale_id: 0, account: 7 });
}

#[test]
fn a_batch_refund_reports_each_refund_and_the_totals() {
    let mut c = Chain::new();
    assert_eq!(c.create(1, standard(false)), Ok(()));
    for i in 2..5u64 {
        c.mint(USDT, i, 1_010_000_000);
        assert_eq!(c.contribute(i, 0, 1_000_000_000), Ok(()));
    }
    c.block = 101;
    assert_eq!(c.pallet.finalize_presale(0, c.block), Ok(()));
    let treasury = c.treasury(0);
    c.mint(USDT, treasury, 1_000);
    let before = c.pallet.events.len();
    assert_eq!(c.batch_refund_failed(0, 0, 10), Ok(()));
    let reported = &c.pallet.events[before..];
    assert_eq!(reported.len(), 4);
    for (j, who) in (2..5u64).enumerate() {
        assert_eq!(
            reported[j],
            Event::Refunded { presale_id: 0, who, amount: 1_000_000_000, fee: 0 }
        );
    }
    assert_eq!(
        reported[3],
        Event::BatchRefundCompleted { presale_id: 0, refunded_count: 3, total_refunded: 3_000_000_000 }
    );
}

#[test]
fn a_batch_distribution_reports_each_share_and_the_totals() {
    let mut c = Chain::new();
    assert_eq!(c.create(1, standard(false)), Ok(()));
    let treasury = c.treasury(0);
    c.mint(PEZ, treasury, 100_000_000_000_000_000_000);
    for i in 2..8u64 {
        c.mint(USDT, i, 1_010_000_000);
        assert_eq!(c.contribute(i, 0, 1_000_000_000), Ok(()));
    }
    c.block = 101;
    assert_eq!(c.pallet.finalize_presale(0, c.block), Ok(()));
    let before = c.pallet.events.len();
    assert_eq!(c.batch_distribute(0, 0, 4), Ok(()));
    let share = 1_666_666_666_666_666_666u128;
    let reported = c.pallet.events[before..].to_vec();
    assert_eq!(reported.len(), 5);
    assert_eq!(reported[0], Event::Distributed { presale_id: 0, who: 2, amount: share });
    assert_eq!(
        reported[4],
        Event::BatchDistributionCompleted {
            presale_id: 0,
            distributed_count: 4,
            total_distributed: 4 * share,
        }
    );
    let before = c.pallet.events.len();
    assert_eq!(c.batch_distribute(0, 4, 4), Ok(()));
    let reported = c.pallet.events[before..].to_vec();
    assert_eq!(reported.len(), 4);
    assert_eq!(
        reported[2],
        Event::PresaleFinalized { presale_id: 0, total_raised: 6_000_000_000 }
    );
    assert_eq!(
        reported[3],
        Event::BatchDistributionCompleted {
            presale_id: 0,
            distributed_count: 2,
            total_distributed: 2 * share,
        }
    );
}

#[test]
fn distributing_the_same_batch_twice_pays_nobody_the_second_time() {
    let mut c = Chain::new();
    assert_eq!(c.create(1, standard(false)), Ok(()));
    let treasury = c.treasury(0);
    c.mint(PEZ, treasury, 100_000_000_000_000_000_000);
    for i in 2..8u64 {
        c.mint(USDT, i, 1_010_000_000);
        assert_eq!(c.contribute(i, 0, 1_000_000_000), Ok(()));
    }
    c.block = 101;
    assert_eq!(c.pallet.finalize_presale(0, c.block), Ok(()));
    assert_eq!(c.batch_distribute(0, 0, 4), Ok(()));
    let paid = c.balance(PEZ, 2);
    assert!(c.pallet.batch_distribute_ops(0, 0, 4).unwrap().is_empty());
    assert_eq!(c.batch_distribute(0, 0, 4), Ok(()));
    assert_eq!(c.balance(PEZ, 2), paid);
    assert_eq!(
        c.last_event(),
        Event::BatchDistributionCompleted { presale_id: 0, distributed_count: 0, total_distributed: 0 }
    );
}

#[test]
fn refunding_the_same_batch_twice_refunds_nobody_the_second_time() {
    let mut c = Chain::new();
    assert_eq!(c.create(1, standard(false)), Ok(()));
    for i in 2..5u64 {
        c.mint(USDT, i, 1_010_000_000);
        assert_eq!(c.contribute(i, 0, 1_000_000_000), Ok(()));
    }
    c.block = 101;
    assert_eq!(c.pallet.finalize_presale(0, c.block), Ok(()));
    let treasury = c.treasury(0);
    c.mint(USDT, treasury, 1_000);
    assert_eq!(c.batch_refund_failed(0, 0, 10), Ok(()));
    let refunded = c.balance(USDT, 2);
    assert!(c.pallet.batch_refund_failed_presale_ops(0, 0, 10).unwrap().is_empty());
    assert_eq!(c.batch_refund_failed(0, 0, 10), Ok(()));
    assert_eq!(c.balance(USDT, 2), refunded);
    assert_eq!(
        c.last_event(),
        Event::BatchRefundCompleted { presale_id: 0, refunded_count: 0, total_refunded: 0 }
    );
}

#[test]
fn a_vesting_claim_cannot_be_repeated_in_the_same_block() {
    let mut c = Chain::new();
    let params = make_presale_params(
        10_000_000_000_000_000_000,
        100,
        false,
        10_000_000,
        1_000_000_000,
        1_000_000_000,
        10_000_000_000,
        true,
        20,
        1_000,
        0,
        24,
        5,
        2,
    );
    assert_eq!(c.create(1, params), Ok(()));
    let treasury = c.treasury(0);
    c.mint(PEZ, treasury, 100_000_000_000_000_000_000);
    c.mint(USDT, 2, 1_010_000_000);
    assert_eq!(c.contribute(2, 0, 1_000_000_000), Ok(()));
    c.block = 101;
    assert_eq!(c.pallet.finalize_presale(0, c.block), Ok(()));
    assert_eq!(c.batch_distribute(0, 0, 100), Ok(()));
    c.block = 101 + 500;
    let ops = c.pallet.claim_vested_ops(2, 0, c.block).unwrap();
    assert!(c.apply(&ops));
    assert_eq!(c.pallet.claim_vested(2, 0, c.block, true), Ok(()));
    assert_eq!(c.pallet.claim_vested_ops(2, 0, c.block), Err(Error::NothingToClaim));
    // At the end of the vesting the rest, and never more than the total.
    c.block = 101 + 1_000;
    let ops = c.pallet.claim_vested_ops(2, 0, c.block).unwrap();
    assert!(c.apply(&ops));
    assert_eq!(c.pallet.claim_vested(2, 0, c.block, true), Ok(()));
    assert_eq!(c.balance(PEZ, 2), 10_000_000_000_000_000_000);
    c.block = 101 + 2_000;
    assert_eq!(c.pallet.claim_vested_ops(2, 0, c.block), Err(Error::NothingToClaim));
}

#[test]
fn a_batch_past_the_end_does_not_finalize_with_contributors_unpaid() {
    let mut c = Chain::new();
    assert_eq!(c.create(1, standard(false)), Ok(()));
    let treasury = c.treasury(0);
    c.mint(PEZ, treasury, 100_000_000_000_000_000_000);
    for i in 2..8u64 {
        c.mint(USDT, i, 1_010_000_000);
        assert_eq!(c.contribute(i, 0, 1_000_000_000), Ok(()));
    }
    c.block = 101;
    assert_eq!(c.pallet.finalize_presale(0, c.block), Ok(()));
    let before = c.pallet.events.len();
    assert_eq!(c.batch_distribute(0, 10, 5), Ok(()));
    assert_eq!(c.status(0), PresaleStatus::Successful);
    assert_eq!(
        c.pallet.events[before..].to_vec(),
        vec![Event::BatchDistributionCompleted { presale_id: 0, distributed_count: 0, total_distributed: 0 }]
    );
    assert_eq!(c.batch_distribute(0, 0, 3), Ok(()));
    assert_eq!(c.status(0), PresaleStatus::Successful);
    let before = c.pallet.events.len();
    assert_eq!(c.batch_distribute(0, 3, 3), Ok(()));
    assert_eq!(c.status(0), PresaleStatus::Finalized);
    assert!(c.pallet.events[before..]
        .contains(&Event::PresaleFinalized { presale_id: 0, total_raised: 6_000_000_000 }));
}
