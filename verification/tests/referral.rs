use pezpallets::identity_kyc::KycLevel;
use pezpallets::referral::{
    Config, Error, Event, InvariantViolation, InviterProvider, Pezpallet, ReferralScoreProvider,
    ReferrerStats,
};
use std::collections::{HashMap, HashSet};

const FOUNDER: u64 = 100;
const REFERRER: u64 = 1;
const REFERRED: u64 = 2;
const USER_3: u64 = 3;
const INVITER: u64 = 7;
const PENALTY: u32 = 3;

/// The referral pallet beside the register's statuses and its record of fallback approvals.
struct Chain {
    pallet: Pezpallet,
    block: u64,
    statuses: HashMap<u64, KycLevel>,
    by_fallback: HashSet<u64>,
}

impl Chain {
    fn new() -> Chain {
        Chain {
            pallet: Pezpallet::new(Config {
                default_referrer: FOUNDER,
                penalty_per_revocation: PENALTY,
                initial_vouching_capacity: 2,
                settled_vouches_per_place: 2,
                max_vouching_capacity: 6,
                association_head_threshold: 0,
                community_moderator_threshold: 0,
            }),
            block: 1,
            statuses: HashMap::new(),
            by_fallback: HashSet::new(),
        }
    }

    fn approved(&mut self, who: u64) {
        self.statuses.insert(who, KycLevel::Approved);
    }

    fn on_kyc_approved(&mut self, who: u64, referrer: u64, inviter: Option<u64>) {
        let status = *self.statuses.get(&who).unwrap_or(&KycLevel::NotStarted);
        let _ = self.pallet.on_kyc_approved(who, referrer, inviter, status, self.block);
    }

    fn on_citizenship_revoked(&mut self, who: u64) {
        let fallback = self.by_fallback.contains(&who);
        let _ = self.pallet.on_citizenship_revoked(who, fallback);
    }

    fn set_stats(&mut self, who: u64, total: u32, revoked: u32, penalty: u32) {
        self.pallet.referrer_stats.insert(
            who,
            ReferrerStats { total_referrals: total, revoked_referrals: revoked, penalty_score: penalty },
        );
        if !self.pallet.known_accounts.contains(&who) {
            self.pallet.known_accounts.push(who);
        }
    }

    fn stats(&self, who: u64) -> ReferrerStats {
        self.pallet.referrer_stats_of(who)
    }

    fn invited_by(&self, who: u64) -> Option<u64> {
        self.pallet.invited_by.get(&who).copied()
    }

    fn claims_left(&self, who: u64) -> bool {
        self.pallet.invitations.get(&who).map_or(false, |v| !v.is_empty())
    }
}

#[test]
fn initiate_referral_works() {
    let mut c = Chain::new();
    assert_eq!(c.pallet.initiate_referral(REFERRER, REFERRED), Ok(()));
    assert!(c.pallet.invitation_claim(REFERRED, REFERRER));
    assert_eq!(
        *c.pallet.events.last().unwrap(),
        Event::ReferralInitiated { referrer: REFERRER, referred: REFERRED }
    );
}

#[test]
fn initiate_referral_fails_for_self_referral() {
    let mut c = Chain::new();
    assert_eq!(c.pallet.initiate_referral(REFERRER, REFERRER), Err(Error::SelfReferral));
}

#[test]
fn several_people_may_claim_the_same_newcomer() {
    let mut c = Chain::new();
    assert_eq!(c.pallet.initiate_referral(REFERRER, REFERRED), Ok(()));
    assert_eq!(c.pallet.initiate_referral(USER_3, REFERRED), Ok(()));
    assert!(c.pallet.invitation_claim(REFERRED, REFERRER));
    assert!(c.pallet.invitation_claim(REFERRED, USER_3));
}

#[test]
fn nobody_claims_a_newcomer_whose_invitation_is_already_settled() {
    let mut c = Chain::new();
    assert_eq!(c.pallet.initiate_referral(REFERRER, REFERRED), Ok(()));
    c.pallet.invited_by.insert(REFERRED, REFERRER);
    assert_eq!(c.pallet.initiate_referral(USER_3, REFERRED), Err(Error::AlreadyReferred));
}

#[test]
fn on_kyc_approved_hook_works() {
    let mut c = Chain::new();
    assert_eq!(c.pallet.initiate_referral(REFERRER, REFERRED), Ok(()));
    c.approved(REFERRED);
    c.on_kyc_approved(REFERRED, REFERRER, None);
    assert!(!c.claims_left(REFERRED));
    assert_eq!(c.pallet.referral_count_of(REFERRER), 1);
    let info = *c.pallet.referrals.get(&REFERRED).unwrap();
    assert_eq!(info.referrer, REFERRER);
    let stats = c.stats(REFERRER);
    assert_eq!(stats.total_referrals, 1);
    assert_eq!(stats.revoked_referrals, 0);
    assert_eq!(
        *c.pallet.events.last().unwrap(),
        Event::ReferralConfirmed { referrer: REFERRER, referred: REFERRED, new_referrer_count: 1 }
    );
}

#[test]
fn on_kyc_approved_uses_referrer_parameter() {
    let mut c = Chain::new();
    c.approved(REFERRED);
    c.on_kyc_approved(REFERRED, REFERRER, None);
    let info = *c.pallet.referrals.get(&REFERRED).unwrap();
    assert_eq!(info.referrer, REFERRER);
    assert_eq!(c.pallet.referral_count_of(REFERRER), 1);
}

#[test]
fn on_kyc_approved_does_nothing_if_not_approved_status() {
    let mut c = Chain::new();
    let initial_count = c.pallet.referral_count_of(REFERRER);
    c.on_kyc_approved(REFERRED, REFERRER, None);
    assert_eq!(c.pallet.referral_count_of(REFERRER), initial_count);
    assert!(c.pallet.referrals.get(&REFERRED).is_none());
}

#[test]
fn on_kyc_approved_prevents_double_counting() {
    let mut c = Chain::new();
    c.approved(REFERRED);
    c.on_kyc_approved(REFERRED, REFERRER, None);
    assert_eq!(c.pallet.referral_count_of(REFERRER), 1);
    c.on_kyc_approved(REFERRED, REFERRER, None);
    assert_eq!(c.pallet.referral_count_of(REFERRER), 1);
}

#[test]
fn on_citizenship_revoked_penalizes_referrer() {
    let mut c = Chain::new();
    c.approved(REFERRED);
    c.on_kyc_approved(REFERRED, REFERRER, None);
    let stats = c.stats(REFERRER);
    assert_eq!(stats.total_referrals, 1);
    assert_eq!(stats.revoked_referrals, 0);
    assert_eq!(stats.penalty_score, 0);

    c.on_citizenship_revoked(REFERRED);

    let stats = c.stats(REFERRER);
    assert_eq!(stats.total_referrals, 1);
    assert_eq!(stats.revoked_referrals, 1);
    assert_eq!(stats.penalty_score, PENALTY);
    assert_eq!(
        *c.pallet.events.last().unwrap(),
        Event::ReferralPenalized {
            referrer: REFERRER,
            revoked_citizen: REFERRED,
            new_penalty_score: PENALTY,
            total_revoked: 1,
        }
    );
}

#[test]
fn on_citizenship_revoked_does_nothing_if_no_referral() {
    let mut c = Chain::new();
    let unknown_user = 999;
    let events_before = c.pallet.events.len();
    assert_eq!(c.pallet.on_citizenship_revoked(unknown_user, false), None);
    assert_eq!(c.pallet.events.len(), events_before);
}

#[test]
fn referral_score_tier_0_to_10() {
    let mut c = Chain::new();
    c.set_stats(REFERRER, 0, 0, 0);
    assert_eq!(c.pallet.get_referral_score(&REFERRER), 0);
    c.set_stats(REFERRER, 1, 0, 0);
    assert_eq!(c.pallet.get_referral_score(&REFERRER), 10);
    c.set_stats(REFERRER, 5, 0, 0);
    assert_eq!(c.pallet.get_referral_score(&REFERRER), 50);
    c.set_stats(REFERRER, 10, 0, 0);
    assert_eq!(c.pallet.get_referral_score(&REFERRER), 100);
}

#[test]
fn referral_score_tier_11_to_50() {
    let mut c = Chain::new();
    c.set_stats(REFERRER, 11, 0, 0);
    assert_eq!(c.pallet.get_referral_score(&REFERRER), 105);
    c.set_stats(REFERRER, 20, 0, 0);
    assert_eq!(c.pallet.get_referral_score(&REFERRER), 150);
    c.set_stats(REFERRER, 50, 0, 0);
    assert_eq!(c.pallet.get_referral_score(&REFERRER), 300);
}

#[test]
fn referral_score_tier_51_to_100() {
    let mut c = Chain::new();
    c.set_stats(REFERRER, 51, 0, 0);
    assert_eq!(c.pallet.get_referral_score(&REFERRER), 304);
    c.set_stats(REFERRER, 75, 0, 0);
    assert_eq!(c.pallet.get_referral_score(&REFERRER), 400);
    c.set_stats(REFERRER, 100, 0, 0);
    assert_eq!(c.pallet.get_referral_score(&REFERRER), 500);
}

#[test]
fn referral_score_capped_at_500() {
    let mut c = Chain::new();
    c.set_stats(REFERRER, 101, 0, 0);
    assert_eq!(c.pallet.get_referral_score(&REFERRER), 500);
    c.set_stats(REFERRER, 1000, 0, 0);
    assert_eq!(c.pallet.get_referral_score(&REFERRER), 500);
}

#[test]
fn referral_score_with_balanced_penalty() {
    let mut c = Chain::new();
    c.set_stats(REFERRER, 10, 0, 0);
    assert_eq!(c.pallet.get_referral_score(&REFERRER), 100);
    c.set_stats(REFERRER, 10, 4, 4 * PENALTY);
    assert_eq!(c.pallet.get_referral_score(&REFERRER), 48);
    c.set_stats(REFERRER, 20, 8, 8 * PENALTY);
    assert_eq!(ReferralScoreProvider::get_referral_score(&c.pallet, &REFERRER), 86);
}

#[test]
fn referral_score_cannot_go_negative() {
    let mut c = Chain::new();
    c.set_stats(REFERRER, 5, 5, 5 * PENALTY);
    assert_eq!(c.pallet.get_referral_score(&REFERRER), 0);
}

#[test]
fn get_inviter_returns_correct_referrer() {
    let mut c = Chain::new();
    c.approved(REFERRED);
    c.on_kyc_approved(REFERRED, REFERRER, None);
    assert_eq!(InviterProvider::get_inviter(&c.pallet, &REFERRED), Some(REFERRER));
}

#[test]
fn get_inviter_returns_none_for_non_referred() {
    let c = Chain::new();
    assert_eq!(c.pallet.get_inviter(&999), None);
}

#[test]
fn multiple_referrals_for_same_referrer() {
    let mut c = Chain::new();
    for referred in [10, 11, 12] {
        c.approved(referred);
        c.on_kyc_approved(referred, REFERRER, None);
    }
    assert_eq!(c.pallet.referral_count_of(REFERRER), 3);
    assert_eq!(c.stats(REFERRER).total_referrals, 3);
}

#[test]
fn referral_info_stores_block_number() {
    let mut c = Chain::new();
    c.block = 42;
    c.approved(REFERRED);
    c.on_kyc_approved(REFERRED, REFERRER, None);
    let info = *c.pallet.referrals.get(&REFERRED).unwrap();
    assert_eq!(info.created_at, 42);
    assert_eq!(info.referrer, REFERRER);
}

#[test]
fn an_invitation_needs_both_sides_to_say_so() {
    let mut c = Chain::new();
    assert_eq!(c.pallet.initiate_referral(INVITER, REFERRED), Ok(()));
    c.approved(REFERRED);
    c.on_kyc_approved(REFERRED, REFERRER, Some(INVITER));
    assert_eq!(c.invited_by(REFERRED), Some(INVITER));
    assert_eq!(c.pallet.invitation_count_of(INVITER), 1);
}

#[test]
fn a_claim_nobody_confirms_counts_for_nothing() {
    let mut c = Chain::new();
    assert_eq!(c.pallet.initiate_referral(INVITER, REFERRED), Ok(()));
    c.approved(REFERRED);
    c.on_kyc_approved(REFERRED, REFERRER, None);
    assert_eq!(c.invited_by(REFERRED), None);
    assert_eq!(c.pallet.invitation_count_of(INVITER), 0);
}

#[test]
fn naming_somebody_who_never_claimed_counts_for_nothing() {
    let mut c = Chain::new();
    c.approved(REFERRED);
    c.on_kyc_approved(REFERRED, REFERRER, Some(INVITER));
    assert_eq!(c.invited_by(REFERRED), None);
    assert_eq!(c.pallet.invitation_count_of(INVITER), 0);
}

#[test]
fn only_the_claim_the_newcomer_named_survives() {
    let mut c = Chain::new();
    assert_eq!(c.pallet.initiate_referral(INVITER, REFERRED), Ok(()));
    assert_eq!(c.pallet.initiate_referral(USER_3, REFERRED), Ok(()));
    c.approved(REFERRED);
    c.on_kyc_approved(REFERRED, REFERRER, Some(INVITER));
    assert_eq!(c.invited_by(REFERRED), Some(INVITER));
    assert_eq!(c.pallet.invitation_count_of(USER_3), 0);
    assert!(!c.claims_left(REFERRED));
}

#[test]
fn bringing_somebody_in_is_not_standing_for_them() {
    let mut c = Chain::new();
    assert_eq!(c.pallet.initiate_referral(INVITER, REFERRED), Ok(()));
    c.approved(REFERRED);
    c.on_kyc_approved(REFERRED, REFERRER, Some(INVITER));
    assert_eq!(c.pallet.invitation_count_of(INVITER), 1);
    assert_eq!(c.pallet.referral_count_of(INVITER), 0);
    assert_eq!(c.pallet.referral_count_of(REFERRER), 1);
    assert_eq!(c.pallet.invitation_count_of(REFERRER), 0);
}

#[test]
fn the_record_outlives_the_claim_that_made_it() {
    let mut c = Chain::new();
    assert_eq!(c.pallet.initiate_referral(INVITER, REFERRED), Ok(()));
    c.approved(REFERRED);
    c.on_kyc_approved(REFERRED, REFERRER, Some(INVITER));
    assert!(!c.claims_left(REFERRED));
    assert_eq!(c.invited_by(REFERRED), Some(INVITER));
}

#[test]
fn the_guarantor_pays() {
    let mut c = Chain::new();
    c.approved(REFERRED);
    c.on_kyc_approved(REFERRED, REFERRER, None);
    c.on_citizenship_revoked(REFERRED);
    assert_eq!(c.stats(REFERRER).revoked_referrals, 1);
}

#[test]
fn the_founder_standing_in_does_not_pay() {
    let mut c = Chain::new();
    assert_eq!(c.pallet.initiate_referral(INVITER, REFERRED), Ok(()));
    c.approved(REFERRED);
    c.on_kyc_approved(REFERRED, FOUNDER, Some(INVITER));
    c.by_fallback.insert(REFERRED);
    c.on_citizenship_revoked(REFERRED);
    assert_eq!(c.stats(FOUNDER).revoked_referrals, 0);
    assert_eq!(c.stats(INVITER).revoked_referrals, 1);
}

#[test]
fn the_founder_pays_for_the_people_they_chose_to_stand_for() {
    let mut c = Chain::new();
    c.approved(REFERRED);
    c.on_kyc_approved(REFERRED, FOUNDER, None);
    c.on_citizenship_revoked(REFERRED);
    assert_eq!(c.stats(FOUNDER).revoked_referrals, 1);
}

#[test]
fn nobody_pays_when_nobody_vouched_in_any_sense() {
    let mut c = Chain::new();
    c.approved(REFERRED);
    c.on_kyc_approved(REFERRED, FOUNDER, None);
    c.by_fallback.insert(REFERRED);
    assert_eq!(c.invited_by(REFERRED), None);
    c.on_citizenship_revoked(REFERRED);
    assert_eq!(c.stats(FOUNDER).revoked_referrals, 0);
}

#[test]
fn vouching_capacity_is_earned_and_bounded() {
    let mut c = Chain::new();
    let who = REFERRER;
    assert_eq!(c.pallet.vouching_capacity(&who), 2);
    assert_eq!(c.pallet.vouching_remaining(&who), 2);
    c.set_stats(who, 2, 0, 0);
    assert_eq!(c.pallet.vouching_capacity(&who), 3);
    c.set_stats(who, 2, 1, 3);
    assert_eq!(c.pallet.vouching_capacity(&who), 2);
    c.set_stats(who, 1_000, 0, 0);
    assert_eq!(c.pallet.vouching_capacity(&who), 6);
}

#[test]
fn settled_invitations_use_up_the_allowance() {
    let mut c = Chain::new();
    let who = REFERRER;
    assert_eq!(c.pallet.vouching_remaining(&who), 2);
    c.pallet.invitation_count.insert(who, 2);
    assert_eq!(c.pallet.vouching_remaining(&who), 0);
}

#[test]
fn a_bad_record_suspends_vouching_and_the_court_can_lift_it() {
    let mut c = Chain::new();
    let who = REFERRER;
    c.set_stats(who, 10, 2, 6);
    assert!(c.pallet.vouching_capacity(&who) > 0);
    c.set_stats(who, 10, 3, 9);
    assert_eq!(c.pallet.vouching_capacity(&who), 0);
    c.set_stats(who, 100, 3, 9);
    assert!(c.pallet.vouching_capacity(&who) > 0);
}

#[test]
fn restoring_a_citizenship_refunds_the_voucher() {
    let mut c = Chain::new();
    c.approved(REFERRED);
    c.on_kyc_approved(REFERRED, REFERRER, None);
    let before = c.stats(REFERRER);

    c.on_citizenship_revoked(REFERRED);
    let charged = c.stats(REFERRER);
    assert_eq!(charged.revoked_referrals, before.revoked_referrals + 1);
    assert!(charged.penalty_score > before.penalty_score);

    assert_eq!(c.pallet.on_citizenship_restored(REFERRED, false), Some(REFERRER));
    let refunded = c.stats(REFERRER);
    assert_eq!(refunded.revoked_referrals, before.revoked_referrals);
    assert_eq!(refunded.penalty_score, before.penalty_score);
}

#[test]
fn a_good_track_record_is_under_one_revocation_in_ten() {
    let good = ReferrerStats { total_referrals: 20, revoked_referrals: 1, penalty_score: 3 };
    assert!(good.has_good_track_record());
    let bad = ReferrerStats { total_referrals: 20, revoked_referrals: 2, penalty_score: 6 };
    assert!(!bad.has_good_track_record());
    assert!(ReferrerStats::default().has_good_track_record());
}

#[test]
fn the_adjusted_score_charges_each_revocation() {
    let s = ReferrerStats { total_referrals: 10, revoked_referrals: 2, penalty_score: 0 };
    assert_eq!(s.adjusted_score(3), 2);
    let s = ReferrerStats { total_referrals: 3, revoked_referrals: 2, penalty_score: 0 };
    assert_eq!(s.adjusted_score(3), -5);
}

// The three records of the same referrals have to agree, and the check says when they do not.

#[test]
fn confirmed_referrals_leave_the_records_in_agreement() {
    let mut c = Chain::new();
    assert_eq!(c.pallet.initiate_referral(INVITER, REFERRED), Ok(()));
    c.approved(REFERRED);
    c.on_kyc_approved(REFERRED, REFERRER, Some(INVITER));
    c.approved(USER_3);
    c.on_kyc_approved(USER_3, REFERRER, None);
    c.on_citizenship_revoked(USER_3);
    assert_eq!(c.pallet.try_state(), Ok(()));
    assert_eq!(c.stats(REFERRER).total_referrals, 2);
    assert_eq!(c.pallet.invitation_count_of(INVITER), 1);
}

#[test]
fn a_referral_count_ahead_of_the_records_is_caught() {
    let mut c = Chain::new();
    c.approved(REFERRED);
    c.on_kyc_approved(REFERRED, REFERRER, None);
    c.pallet.referral_count.insert(REFERRER, 2);
    assert_eq!(c.pallet.try_state(), Err(InvariantViolation::ReferralCountMismatch));
}

#[test]
fn statistics_that_disagree_with_the_records_are_caught() {
    let mut c = Chain::new();
    c.approved(REFERRED);
    c.on_kyc_approved(REFERRED, REFERRER, None);
    c.set_stats(REFERRER, 5, 0, 0);
    assert_eq!(c.pallet.try_state(), Err(InvariantViolation::StatsMismatch));
}

#[test]
fn an_invitation_count_nobody_earned_is_caught() {
    let mut c = Chain::new();
    c.pallet.invitation_count.insert(INVITER, 1);
    c.pallet.known_accounts.push(INVITER);
    assert_eq!(c.pallet.try_state(), Err(InvariantViolation::InvitationCountMismatch));
    assert_eq!(
        InvariantViolation::InvitationCountMismatch.message(),
        "the invitation count does not match who was actually invited"
    );
}

#[test]
fn charging_an_inviter_who_referred_nobody_breaks_the_revocation_bound() {
    // The founder approved the newcomer by fallback, so the inviter is charged for the
    // revocation; the inviter made no referral of their own, so their record then shows more
    // revocations than referrals, and the check says so.
    let mut c = Chain::new();
    assert_eq!(c.pallet.initiate_referral(INVITER, REFERRED), Ok(()));
    c.approved(REFERRED);
    c.on_kyc_approved(REFERRED, FOUNDER, Some(INVITER));
    c.by_fallback.insert(REFERRED);
    c.on_citizenship_revoked(REFERRED);
    assert_eq!(c.stats(INVITER).revoked_referrals, 1);
    assert_eq!(c.stats(INVITER).total_referrals, 0);
    assert_eq!(c.pallet.try_state(), Err(InvariantViolation::RevokedOverTotal));
}

#[test]
fn the_adjusted_score_saturates_at_both_ends() {
    let s = ReferrerStats { total_referrals: u32::MAX, revoked_referrals: 0, penalty_score: 0 };
    assert_eq!(s.adjusted_score(3), i32::MAX);
    let s = ReferrerStats { total_referrals: u32::MAX, revoked_referrals: u32::MAX, penalty_score: 0 };
    assert_eq!(s.adjusted_score(u32::MAX), i32::MIN);
}

#[test]
fn the_track_record_rule_covers_every_count() {
    let s = ReferrerStats { total_referrals: u32::MAX, revoked_referrals: 429_496_729, penalty_score: 0 };
    assert!(s.has_good_track_record());
    let s = ReferrerStats { total_referrals: u32::MAX, revoked_referrals: 429_496_730, penalty_score: 0 };
    assert!(!s.has_good_track_record());
}
