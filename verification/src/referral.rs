//! Referrals: who vouched for each citizen, who brought each citizen in, what that record is
//! worth, and what a revoked citizen costs the one who stood for them.
use vstd::prelude::*;
use vstd::hash_map::HashMapWithView;
use crate::arith::{sat_add_u32, sat_sub_u32};
use crate::identity_kyc::KycLevel;

verus! {

/// What the trust pallet does when a score it is built from changes.
pub trait TrustScoreUpdater<AccountId> {
    fn on_score_component_changed(&mut self, who: &AccountId);
}

/// Nothing is told.
impl<AccountId> TrustScoreUpdater<AccountId> for () {
    fn on_score_component_changed(&mut self, _who: &AccountId) {
    }
}

/// The fewest revoked referrals that can suspend an account's vouching.
pub const SUSPENSION_FLOOR: u32 = 3;

/// The ceiling of the tiered referral score.
pub const MAX_REFERRAL_SCORE: u32 = 500;

/// A simple NFT.
#[derive(Clone, Copy, PartialEq, Eq, Debug, Default, Structural)]
pub struct Tiki {
    pub id: u32,
}

/// Raw score type used in scoring.
pub type RawScore = u32;

/// What a referrer's record holds: referrals made, referrals later revoked, and the penalty
/// accumulated for them.
#[derive(Clone, Copy, PartialEq, Eq, Debug, Default, Structural)]
pub struct ReferrerStats {
    pub total_referrals: u32,
    pub revoked_referrals: u32,
    pub penalty_score: u32,
}

impl ReferrerStats {
    /// A record is good when fewer than one in ten of its referrals were revoked.
    pub open spec fn spec_good_track_record(&self) -> bool {
        self.total_referrals == 0 || self.revoked_referrals * 10 < self.total_referrals
    }

    /// True if fewer than ten per cent of the referrals were revoked.
    pub fn has_good_track_record(&self) -> (r: bool)
        ensures
            r == self.spec_good_track_record(),
    {
        if self.total_referrals == 0 {
            return true;
        }
        (self.revoked_referrals as u64) * 10 < self.total_referrals as u64
    }

    /// The good referrals, less `penalty_per_revocation` for each revoked one, held within
    /// the range of an `i32`.
    pub open spec fn spec_adjusted_score(&self, penalty_per_revocation: u32) -> i32 {
        let good = sat_sub_u32(self.total_referrals, self.revoked_referrals) as int;
        let score = good - self.revoked_referrals as int * penalty_per_revocation as int;
        if score < i32::MIN {
            i32::MIN
        } else if score > i32::MAX {
            i32::MAX
        } else {
            score as i32
        }
    }

    /// The referral score with the penalty for revoked referrals applied: good referrals
    /// count up, revoked ones count down, and the score saturates at the ends of an `i32`.
    pub fn adjusted_score(&self, penalty_per_revocation: u32) -> (r: i32)
        ensures
            r == self.spec_adjusted_score(penalty_per_revocation),
    {
        let good = self.total_referrals.saturating_sub(self.revoked_referrals) as i128;
        let revoked = self.revoked_referrals as i128;
        let penalty = penalty_per_revocation as i128;
        assert(0 <= revoked * penalty <= 0xffff_ffff * 0xffff_ffff) by (nonlinear_arith)
            requires
                0 <= revoked <= 0xffff_ffff,
                0 <= penalty <= 0xffff_ffff,
        ;
        let score = good - revoked * penalty;
        if score < i32::MIN as i128 {
            i32::MIN
        } else if score > i32::MAX as i128 {
            i32::MAX
        } else {
            score as i32
        }
    }
}

/// Querying who referred an account.
pub trait InviterProvider<AccountId> {
    fn get_inviter(&self, who: &AccountId) -> Option<AccountId>;
}

/// Querying an account's referral score.
pub trait ReferralScoreProvider<AccountId> {
    fn get_referral_score(&self, who: &AccountId) -> u32;
}

/// The record of a confirmed referral.
#[derive(Clone, Copy, PartialEq, Eq, Debug, Structural)]
pub struct ReferralInfo {
    pub referrer: u64,
    pub created_at: u64,
}

/// The roles a referral record can earn.
#[derive(Clone, Copy, PartialEq, Eq, Debug, Structural)]
pub enum EarnedRole {
    /// `Moderatorê Civakê`.
    CommunityModerator,
    /// `Serokê Komelê`.
    AssociationHead,
}

/// What the referral pallet reports having done.
#[derive(Clone, Copy, PartialEq, Eq, Debug, Structural)]
pub enum Event {
    ReferralInitiated { referrer: u64, referred: u64 },
    ReferralConfirmed { referrer: u64, referred: u64, new_referrer_count: u32 },
    InvitationSettled { inviter: u64, invited: u64 },
    ReferralPenalized { referrer: u64, revoked_citizen: u64, new_penalty_score: u32, total_revoked: u32 },
}

/// Why a referral call was refused.
#[derive(Clone, Copy, PartialEq, Eq, Debug, Structural)]
pub enum Error {
    SelfReferral,
    AlreadyReferred,
}

/// A way the referral records can disagree with one another.
#[derive(Clone, Copy, PartialEq, Eq, Debug, Structural)]
pub enum InvariantViolation {
    /// An account's referral count is not the number of referral records naming it.
    ReferralCountMismatch,
    /// An account's statistics count other referrals than the records name it for.
    StatsMismatch,
    /// More of an account's referrals were revoked than it ever made.
    RevokedOverTotal,
    /// An account's invitation count is not the number of settled invitations naming it.
    InvitationCountMismatch,
}

/// What a disagreement is called, in words.
#[verifier::opaque]
pub open spec fn violation_message(v: InvariantViolation) -> Seq<char> {
    match v {
        InvariantViolation::ReferralCountMismatch => "the referral count does not match the referral records"@,
        InvariantViolation::StatsMismatch => "a referrer's statistics do not match the referral records"@,
        InvariantViolation::RevokedOverTotal => "more of a referrer's citizens were revoked than they ever referred"@,
        InvariantViolation::InvitationCountMismatch => "the invitation count does not match who was actually invited"@,
    }
}

impl InvariantViolation {
    /// What went wrong, in words.
    pub fn message(&self) -> (r: &'static str)
        ensures
            r@ == violation_message(*self),
    {
        proof {
            reveal(violation_message);
        }
        match self {
            InvariantViolation::ReferralCountMismatch => "the referral count does not match the referral records",
            InvariantViolation::StatsMismatch => "a referrer's statistics do not match the referral records",
            InvariantViolation::RevokedOverTotal => "more of a referrer's citizens were revoked than they ever referred",
            InvariantViolation::InvitationCountMismatch => "the invitation count does not match who was actually invited",
        }
    }
}

/// How many of `list` satisfy `p`.
pub open spec fn count_matching(list: Seq<u64>, p: spec_fn(u64) -> bool) -> nat
    decreases list.len(),
{
    if list.len() == 0 {
        0
    } else {
        count_matching(list.drop_last(), p) + if p(list.last()) {
            1nat
        } else {
            0nat
        }
    }
}

/// Over a list without repeats, the count of those satisfying `p` is the size of the set of
/// listed accounts satisfying it.
proof fn lemma_count_matching(list: Seq<u64>, p: spec_fn(u64) -> bool)
    requires
        list.no_duplicates(),
    ensures
        Set::new(|a: u64| list.contains(a) && p(a)).finite(),
        Set::new(|a: u64| list.contains(a) && p(a)).len() == count_matching(list, p),
    decreases list.len(),
{
    let set = Set::new(|a: u64| list.contains(a) && p(a));
    if list.len() == 0 {
        assert(set =~= Set::<u64>::empty());
    } else {
        let init = list.drop_last();
        let x = list.last();
        assert(init.no_duplicates());
        lemma_count_matching(init, p);
        let before = Set::new(|a: u64| init.contains(a) && p(a));
        assert(!init.contains(x)) by {
            if init.contains(x) {
                let i = choose|i: int| 0 <= i < init.len() && init[i] == x;
                assert(list[i] == list[list.len() - 1]);
            }
        }
        assert forall|a: u64| list.contains(a) <==> (init.contains(a) || a == x) by {
            if list.contains(a) && a != x {
                let i = choose|i: int| 0 <= i < list.len() && list[i] == a;
                assert(init[i] == a);
            }
            if init.contains(a) {
                let i = choose|i: int| 0 <= i < init.len() && init[i] == a;
                assert(list[i] == a);
            }
            if a == x {
                assert(list[list.len() - 1] == a);
            }
        }
        if p(x) {
            assert(set =~= before.insert(x));
        } else {
            assert(set =~= before);
        }
    }
}

/// The referral pallet's parameters.
#[derive(Clone, Copy, PartialEq, Eq, Debug, Structural)]
pub struct Config {
    pub default_referrer: u64,
    pub penalty_per_revocation: u32,
    pub initial_vouching_capacity: u32,
    pub settled_vouches_per_place: u32,
    pub max_vouching_capacity: u32,
    pub association_head_threshold: u32,
    pub community_moderator_threshold: u32,
}

/// What a confirmed referral sets in motion elsewhere: whose trust score to recompute and
/// which roles to grant them.
#[derive(Clone, PartialEq, Eq, Debug)]
pub struct Confirmation {
    pub trust_changed: u64,
    pub roles: Vec<EarnedRole>,
}

/// The referral pallet's storage.
pub struct Pezpallet {
    pub config: Config,
    /// For each invited account, the accounts claiming to have invited it.
    pub invitations: HashMapWithView<u64, Vec<u64>>,
    pub invited_by: HashMapWithView<u64, u64>,
    pub invitation_count: HashMapWithView<u64, u32>,
    pub referral_count: HashMapWithView<u64, u32>,
    pub referrals: HashMapWithView<u64, ReferralInfo>,
    pub referrer_stats: HashMapWithView<u64, ReferrerStats>,
    /// Every account that is a key of one of the maps above but the claims, once each.
    pub known_accounts: Vec<u64>,
    pub events: Vec<Event>,
}

/// The tiered score of a number of good referrals: ten points each up to ten, five each up
/// to fifty, four each up to a hundred, and the ceiling beyond.
pub open spec fn tiered_score(good: u32) -> u32 {
    if good == 0 {
        0
    } else if good <= 10 {
        (good * 10) as u32
    } else if good <= 50 {
        (100 + (good - 10) * 5) as u32
    } else if good <= 100 {
        (300 + (good - 50) * 4) as u32
    } else {
        MAX_REFERRAL_SCORE
    }
}

impl Pezpallet {
    /// An account's referrer record; empty if it has none.
    pub open spec fn stats(&self, who: u64) -> ReferrerStats {
        if self.referrer_stats@.contains_key(who) {
            self.referrer_stats@[who]
        } else {
            ReferrerStats { total_referrals: 0, revoked_referrals: 0, penalty_score: 0 }
        }
    }

    /// How many referrals an account has had confirmed.
    pub open spec fn count_of(&self, who: u64) -> u32 {
        if self.referral_count@.contains_key(who) {
            self.referral_count@[who]
        } else {
            0
        }
    }

    /// How many citizens an account brought in.
    pub open spec fn invitations_of(&self, who: u64) -> u32 {
        if self.invitation_count@.contains_key(who) {
            self.invitation_count@[who]
        } else {
            0
        }
    }

    /// The accounts claiming to have invited `who`.
    pub open spec fn claims(&self, who: u64) -> Seq<u64> {
        if self.invitations@.contains_key(who) {
            self.invitations@[who]@
        } else {
            Seq::empty()
        }
    }

    /// The bookkeeping that lets the records be walked: every account that is a key of the
    /// referral, settled-invitation, count or statistics maps is listed, once.
    pub open spec fn wf(&self) -> bool {
        &&& self.known_accounts@.no_duplicates()
        &&& forall|a: u64| #[trigger] self.referrals@.contains_key(a) ==> self.known_accounts@.contains(a)
        &&& forall|a: u64| #[trigger] self.invited_by@.contains_key(a) ==> self.known_accounts@.contains(a)
        &&& forall|a: u64| #[trigger] self.referral_count@.contains_key(a) ==> self.known_accounts@.contains(a)
        &&& forall|a: u64| #[trigger] self.referrer_stats@.contains_key(a) ==> self.known_accounts@.contains(a)
        &&& forall|a: u64| #[trigger] self.invitation_count@.contains_key(a) ==> self.known_accounts@.contains(a)
    }

    /// List `a` among the known accounts, if it is not already.
    fn know(&mut self, a: u64)
        ensures
            final(self).known_accounts@.contains(a),
            forall|b: u64| old(self).known_accounts@.contains(b) ==> #[trigger] final(self).known_accounts@.contains(b),
            old(self).known_accounts@.no_duplicates() ==> final(self).known_accounts@.no_duplicates(),
            final(self).config == old(self).config,
            final(self).invitations@ == old(self).invitations@,
            final(self).invited_by@ == old(self).invited_by@,
            final(self).invitation_count@ == old(self).invitation_count@,
            final(self).referral_count@ == old(self).referral_count@,
            final(self).referrals@ == old(self).referrals@,
            final(self).referrer_stats@ == old(self).referrer_stats@,
            final(self).events@ == old(self).events@,
    {
        let mut i: usize = 0;
        while i < self.known_accounts.len()
            invariant
                0 <= i <= self.known_accounts@.len(),
                forall|j: int| 0 <= j < i ==> self.known_accounts@[j] != a,
            decreases self.known_accounts@.len() - i,
        {
            if self.known_accounts[i] == a {
                return;
            }
            i = i + 1;
        }
        let ghost before = self.known_accounts@;
        self.known_accounts.push(a);
        proof {
            assert(self.known_accounts@[before.len() as int] == a);
            assert forall|b: u64| before.contains(b) implies #[trigger] self.known_accounts@.contains(b) by {
                let j = choose|j: int| 0 <= j < before.len() && before[j] == b;
                assert(self.known_accounts@[j] == b);
            }
        }
    }

    /// Nothing changed, not even the event log.
    pub open spec fn unchanged(&self, other: &Self) -> bool {
        &&& self.known_accounts@ == other.known_accounts@
        &&& self.config == other.config
        &&& self.invitations@ == other.invitations@
        &&& self.invited_by@ == other.invited_by@
        &&& self.invitation_count@ == other.invitation_count@
        &&& self.referral_count@ == other.referral_count@
        &&& self.referrals@ == other.referrals@
        &&& self.referrer_stats@ == other.referrer_stats@
        &&& self.events@ == other.events@
    }

    /// An empty referral record.
    pub fn new(config: Config) -> (r: Self)
        ensures
            r.wf(),
            r.records_agree(),
            r.config == config,
            r.invitations@ == Map::<u64, Vec<u64>>::empty(),
            r.invited_by@ == Map::<u64, u64>::empty(),
            r.invitation_count@ == Map::<u64, u32>::empty(),
            r.referral_count@ == Map::<u64, u32>::empty(),
            r.referrals@ == Map::<u64, ReferralInfo>::empty(),
            r.referrer_stats@ == Map::<u64, ReferrerStats>::empty(),
            r.events@ == Seq::<Event>::empty(),
    {
        proof {
            broadcast use vstd::std_specs::hash::axiom_u64_obeys_hash_table_key_model;
        }
        let r = Pezpallet {
            config,
            invitations: HashMapWithView::new(),
            invited_by: HashMapWithView::new(),
            invitation_count: HashMapWithView::new(),
            referral_count: HashMapWithView::new(),
            referrals: HashMapWithView::new(),
            referrer_stats: HashMapWithView::new(),
            known_accounts: Vec::new(),
            events: Vec::new(),
        };
        proof {
            assert forall|a: u64| #[trigger] r.referrals_by(a) == 0 by {
                assert(Set::new(r.refers_to(a)) =~= Set::<u64>::empty());
            }
            assert forall|a: u64| #[trigger] r.invitations_by(a) == 0 by {
                assert(Set::new(r.invited_by_inviter(a)) =~= Set::<u64>::empty());
            }
        }
        r
    }

    /// An account's referrer record.
    pub fn referrer_stats_of(&self, who: u64) -> (r: ReferrerStats)
        ensures
            r == self.stats(who),
    {
        match self.referrer_stats.get(&who) {
            Some(s) => *s,
            None => ReferrerStats { total_referrals: 0, revoked_referrals: 0, penalty_score: 0 },
        }
    }

    /// How many referrals an account has had confirmed.
    pub fn referral_count_of(&self, who: u64) -> (r: u32)
        ensures
            r == self.count_of(who),
    {
        match self.referral_count.get(&who) {
            Some(c) => *c,
            None => 0,
        }
    }

    /// How many citizens an account brought in.
    pub fn invitation_count_of(&self, who: u64) -> (r: u32)
        ensures
            r == self.invitations_of(who),
    {
        match self.invitation_count.get(&who) {
            Some(c) => *c,
            None => 0,
        }
    }

    /// Whether `inviter` has claimed to have brought `invited` here.
    pub fn invitation_claim(&self, invited: u64, inviter: u64) -> (r: bool)
        ensures
            r == self.claims(invited).contains(inviter),
    {
        let empty: Vec<u64> = Vec::new();
        let list = match self.invitations.get(&invited) {
            Some(l) => l,
            None => &empty,
        };
        let mut i: usize = 0;
        while i < list.len()
            invariant
                0 <= i <= list@.len(),
                list@ == self.claims(invited),
                forall|j: int| 0 <= j < i ==> list@[j] != inviter,
            decreases list@.len() - i,
        {
            if list[i] == inviter {
                return true;
            }
            i = i + 1;
        }
        false
    }

    /// `inviter` claims to have brought `referred` to the state. A claim binds nothing until
    /// the person it is about names the same account; several may stand.
    pub fn initiate_referral(&mut self, inviter: u64, referred: u64) -> (r: Result<(), Error>)
        ensures
            old(self).wf() ==> final(self).wf(),
            old(self).records_agree() ==> final(self).records_agree(),
            inviter == referred ==> r == Err::<(), Error>(Error::SelfReferral) && final(self).unchanged(old(self)),
            inviter != referred && old(self).invited_by@.contains_key(referred) ==> r == Err::<(), Error>(
                Error::AlreadyReferred,
            ) && final(self).unchanged(old(self)),
            inviter != referred && !old(self).invited_by@.contains_key(referred) ==> {
                &&& r == Ok::<(), Error>(())
                &&& final(self).invitations@.dom() == old(self).invitations@.dom().insert(referred)
                &&& forall|w: u64| w != referred ==> #[trigger] final(self).claims(w) == old(self).claims(w)
                &&& final(self).claims(referred).to_set() == old(self).claims(referred).to_set().insert(inviter)
                &&& final(self).invited_by@ == old(self).invited_by@
                &&& final(self).invitation_count@ == old(self).invitation_count@
                &&& final(self).referral_count@ == old(self).referral_count@
                &&& final(self).referrals@ == old(self).referrals@
                &&& final(self).referrer_stats@ == old(self).referrer_stats@
                &&& final(self).config == old(self).config
                &&& final(self).events@ == old(self).events@.push(Event::ReferralInitiated { referrer: inviter, referred })
            },
    {
        if inviter == referred {
            return Err(Error::SelfReferral);
        }
        if self.invited_by.contains_key(&referred) {
            return Err(Error::AlreadyReferred);
        }
        let already = self.invitation_claim(referred, inviter);
        let mut list = match self.invitations.remove(&referred) {
            Some(l) => l,
            None => Vec::new(),
        };
        let ghost before = list@;
        if !already {
            list.push(inviter);
        }
        self.invitations.insert(referred, list);
        proof {
            if already {
                assert(list@.to_set() =~= before.to_set().insert(inviter));
            } else {
                before.lemma_push_to_set_commute(inviter);
            }
        }
        self.events.push(Event::ReferralInitiated { referrer: inviter, referred });
        proof {
            if old(self).records_agree() {
                old(self).lemma_agreement_kept(self);
            }
        }
        Ok(())
    }

    /// The roles an account's record earns: a threshold that is set and reached, moderator
    /// first, then association head.
    pub open spec fn earned_roles(&self, who: u64) -> Seq<EarnedRole> {
        let s = self.stats(who);
        let brought_in = sat_sub_u32(s.total_referrals, s.revoked_referrals);
        let m = self.config.community_moderator_threshold;
        let h = self.config.association_head_threshold;
        (if m > 0 && brought_in >= m {
            seq![EarnedRole::CommunityModerator]
        } else {
            Seq::empty()
        }) + (if h > 0 && brought_in >= h {
            seq![EarnedRole::AssociationHead]
        } else {
            Seq::empty()
        })
    }

    /// The roles a referrer earns come from the referrals that stood: a role whose threshold is
    /// set is earned exactly when the referrals confirmed less those later revoked reach it.
    pub proof fn lemma_roles_follow_standing_referrals(&self, who: u64)
        ensures
            ({
                let s = self.stats(who);
                let standing = s.total_referrals as int - s.revoked_referrals as int;
                let m = self.config.community_moderator_threshold;
                let h = self.config.association_head_threshold;
                &&& self.earned_roles(who).contains(EarnedRole::CommunityModerator) <==> (m > 0 && standing >= m)
                &&& self.earned_roles(who).contains(EarnedRole::AssociationHead) <==> (h > 0 && standing >= h)
            }),
    {
        let r = self.earned_roles(who);
        let s = self.stats(who);
        let m = self.config.community_moderator_threshold;
        let h = self.config.association_head_threshold;
        let a: Seq<EarnedRole> = if m > 0 && sat_sub_u32(s.total_referrals, s.revoked_referrals) >= m {
            seq![EarnedRole::CommunityModerator]
        } else {
            Seq::empty()
        };
        let b: Seq<EarnedRole> = if h > 0 && sat_sub_u32(s.total_referrals, s.revoked_referrals) >= h {
            seq![EarnedRole::AssociationHead]
        } else {
            Seq::empty()
        };
        assert(r == a + b);
        if r.contains(EarnedRole::CommunityModerator) {
            let i = choose|i: int| 0 <= i < r.len() && r[i] == EarnedRole::CommunityModerator;
            if i < a.len() {
            } else {
                assert(r[i] == b[i - a.len()]);
            }
        }
        if m > 0 && sat_sub_u32(s.total_referrals, s.revoked_referrals) >= m {
            assert(r[0] == EarnedRole::CommunityModerator);
        }
        if r.contains(EarnedRole::AssociationHead) {
            let i = choose|i: int| 0 <= i < r.len() && r[i] == EarnedRole::AssociationHead;
            if i < a.len() {
                assert(r[i] == a[i]);
            }
        }
        if h > 0 && sat_sub_u32(s.total_referrals, s.revoked_referrals) >= h {
            assert(r[a.len() as int] == EarnedRole::AssociationHead);
        }
    }

    /// The roles an account's record now entitles it to.
    pub fn award_earned_roles(&self, who: u64) -> (r: Vec<EarnedRole>)
        ensures
            r@ == self.earned_roles(who),
    {
        let stats = self.referrer_stats_of(who);
        let brought_in = stats.total_referrals.saturating_sub(stats.revoked_referrals);
        let mut roles: Vec<EarnedRole> = Vec::new();
        let m = self.config.community_moderator_threshold;
        if m > 0 && brought_in >= m {
            roles.push(EarnedRole::CommunityModerator);
        }
        let h = self.config.association_head_threshold;
        if h > 0 && brought_in >= h {
            roles.push(EarnedRole::AssociationHead);
        }
        proof {
            assert(roles@ =~= self.earned_roles(who));
        }
        roles
    }

    /// A citizen was approved at `now`, vouched for by `referrer` and, by their own account,
    /// brought in by `inviter`. `status` is what the register says of them now. The referral
    /// is confirmed once: the referrer's count and record go up, the invitation is settled if
    /// the inviter had claimed it, and every claim about the citizen is cleared. Returns whose
    /// trust score changed and the roles they have earned, when anything happened.
    pub fn on_kyc_approved(&mut self, who: u64, referrer: u64, inviter: Option<u64>, status: KycLevel, now: u64) -> (r: Option<Confirmation>)
        ensures
            old(self).wf() ==> final(self).wf(),
            old(self).wf() && old(self).records_agree() && old(self).count_of(referrer) < u32::MAX
                && (inviter matches Some(i) ==> old(self).invitations_of(i) < u32::MAX) ==> final(self).records_agree(),
            status != KycLevel::Approved || old(self).referrals@.contains_key(who) ==> r is None && final(self).unchanged(old(self)),
            status == KycLevel::Approved && !old(self).referrals@.contains_key(who) ==> {
                let settled = match inviter {
                    Some(i) => old(self).claims(who).contains(i),
                    None => false,
                };
                let new_count = sat_add_u32(old(self).count_of(referrer), 1);
                let s = old(self).stats(referrer);
                &&& final(self).invitations@ == old(self).invitations@.remove(who)
                &&& final(self).invited_by@ == if settled {
                    old(self).invited_by@.insert(who, inviter->Some_0)
                } else {
                    old(self).invited_by@
                }
                &&& final(self).invitation_count@ == if settled {
                    old(self).invitation_count@.insert(
                        inviter->Some_0,
                        sat_add_u32(old(self).invitations_of(inviter->Some_0), 1),
                    )
                } else {
                    old(self).invitation_count@
                }
                &&& final(self).referral_count@ == old(self).referral_count@.insert(referrer, new_count)
                &&& final(self).referrer_stats@ == old(self).referrer_stats@.insert(
                    referrer,
                    ReferrerStats { total_referrals: sat_add_u32(s.total_referrals, 1), ..s },
                )
                &&& final(self).referrals@ == old(self).referrals@.insert(who, ReferralInfo { referrer, created_at: now })
                &&& final(self).config == old(self).config
                &&& final(self).events@ == (if settled {
                    old(self).events@.push(Event::InvitationSettled { inviter: inviter->Some_0, invited: who })
                } else {
                    old(self).events@
                }).push(Event::ReferralConfirmed { referrer, referred: who, new_referrer_count: new_count })
                &&& r == Some(Confirmation { trust_changed: referrer, roles: r->Some_0.roles })
                &&& r->Some_0.roles@ == final(self).earned_roles(referrer)
            },
    {
        if status != KycLevel::Approved {
            return None;
        }
        if self.referrals.contains_key(&who) {
            return None;
        }
        let ghost pre = *self;
        match inviter {
            Some(i) => {
                if self.invitation_claim(who, i) {
                    self.invited_by.insert(who, i);
                    let n = self.invitation_count_of(i);
                    self.invitation_count.insert(i, n.saturating_add(1));
                    self.events.push(Event::InvitationSettled { inviter: i, invited: who });
                    self.know(i);
                }
            },
            None => {},
        }
        self.invitations.remove(&who);
        let new_count = self.referral_count_of(referrer).saturating_add(1);
        self.referral_count.insert(referrer, new_count);
        let mut stats = self.referrer_stats_of(referrer);
        stats.total_referrals = stats.total_referrals.saturating_add(1);
        self.referrer_stats.insert(referrer, stats);
        self.referrals.insert(who, ReferralInfo { referrer, created_at: now });
        self.events.push(Event::ReferralConfirmed { referrer, referred: who, new_referrer_count: new_count });
        self.know(who);
        self.know(referrer);
        proof {
            if pre.wf() && pre.records_agree() && pre.count_of(referrer) < u32::MAX
                && (inviter matches Some(i) ==> pre.invitations_of(i) < u32::MAX) {
                pre.lemma_confirmation_keeps_agreement(*self, who, referrer, inviter, now);
            }
        }
        let roles = self.award_earned_roles(referrer);
        Some(Confirmation { trust_changed: referrer, roles })
    }

    /// Who carries the cost of revoking `who`: their referrer, unless the founder approved them
    /// by fallback, in which case whoever brought them in, and nobody if nobody did.
    pub open spec fn penalized_for(&self, who: u64, approved_by_fallback: bool) -> Option<u64> {
        if !self.referrals@.contains_key(who) {
            None
        } else if approved_by_fallback {
            if self.invited_by@.contains_key(who) {
                Some(self.invited_by@[who])
            } else {
                None
            }
        } else {
            Some(self.referrals@[who].referrer)
        }
    }

    /// The records after the revocation of `who`, from `before`: whoever stood for them has
    /// one more revoked referral and the penalty for it, and the revocation is reported; when
    /// nobody stood for them, nothing changed.
    pub open spec fn charged(&self, before: &Self, who: u64, approved_by_fallback: bool) -> bool {
        match before.penalized_for(who, approved_by_fallback) {
            None => self.unchanged(before),
            Some(p) => {
                let s = before.stats(p);
                let n = ReferrerStats {
                    revoked_referrals: sat_add_u32(s.revoked_referrals, 1),
                    penalty_score: sat_add_u32(s.penalty_score, before.config.penalty_per_revocation),
                    ..s
                };
                &&& self.referrer_stats@ == before.referrer_stats@.insert(p, n)
                &&& self.same_referrals(before)
                &&& self.events@ == before.events@.push(
                    Event::ReferralPenalized {
                        referrer: p,
                        revoked_citizen: who,
                        new_penalty_score: n.penalty_score,
                        total_revoked: n.revoked_referrals,
                    },
                )
            },
        }
    }

    /// The records after the restoration of `who`, from `before`: whoever stood for them has
    /// the revoked referral and its penalty taken off again, each clamped at zero; when nobody
    /// stood for them, nothing changed.
    pub open spec fn refunded(&self, before: &Self, who: u64, approved_by_fallback: bool) -> bool {
        match before.penalized_for(who, approved_by_fallback) {
            None => self.unchanged(before),
            Some(p) => {
                let s = before.stats(p);
                let n = ReferrerStats {
                    revoked_referrals: sat_sub_u32(s.revoked_referrals, 1),
                    penalty_score: sat_sub_u32(s.penalty_score, before.config.penalty_per_revocation),
                    ..s
                };
                &&& self.referrer_stats@ == before.referrer_stats@.insert(p, n)
                &&& self.same_referrals(before)
                &&& self.events@ == before.events@
            },
        }
    }

    /// Everything but the referrer statistics and the event log is as in `other`.
    pub open spec fn same_referrals(&self, other: &Self) -> bool {
        &&& self.invitations@ == other.invitations@
        &&& self.invited_by@ == other.invited_by@
        &&& self.invitation_count@ == other.invitation_count@
        &&& self.referral_count@ == other.referral_count@
        &&& self.referrals@ == other.referrals@
        &&& self.config == other.config
    }

    /// Restoring a citizenship refunds whoever stood for it: a revocation and then the
    /// restoration of the same citizen leave every referrer's record as it was before, unless
    /// the charge saturated.
    pub proof fn lemma_restoring_refunds_the_voucher(
        &self,
        revoked: &Self,
        restored: &Self,
        who: u64,
        approved_by_fallback: bool,
    )
        requires
            revoked.charged(self, who, approved_by_fallback),
            restored.refunded(revoked, who, approved_by_fallback),
            self.penalized_for(who, approved_by_fallback) matches Some(p) ==> {
                &&& self.stats(p).revoked_referrals < u32::MAX
                &&& self.stats(p).penalty_score + self.config.penalty_per_revocation <= u32::MAX
            },
        ensures
            forall|a: u64| #[trigger] restored.stats(a) == self.stats(a),
            restored.same_referrals(self),
    {
        match self.penalized_for(who, approved_by_fallback) {
            None => {},
            Some(p) => {
                assert(revoked.penalized_for(who, approved_by_fallback) == Some(p));
                assert forall|a: u64| #[trigger] restored.stats(a) == self.stats(a) by {
                    if a != p {
                        assert(restored.stats(a) == revoked.stats(a));
                        assert(revoked.stats(a) == self.stats(a));
                    }
                }
            },
        }
    }

    /// A citizenship was revoked. Whoever stood for the citizen takes a revoked referral and
    /// the penalty for it. `approved_by_fallback` is whether the founder approved them by
    /// fallback. Returns whose trust score changed.
    pub fn on_citizenship_revoked(&mut self, who: u64, approved_by_fallback: bool) -> (r: Option<u64>)
        ensures
            old(self).wf() ==> final(self).wf(),
            old(self).records_agree() ==> final(self).records_agree(),
            r == old(self).penalized_for(who, approved_by_fallback),
            final(self).charged(old(self), who, approved_by_fallback),
    {
        let info = match self.referrals.get(&who) {
            Some(i) => *i,
            None => return None,
        };
        let referrer = if approved_by_fallback {
            match self.invited_by.get(&who) {
                Some(i) => *i,
                None => return None,
            }
        } else {
            info.referrer
        };
        let mut stats = self.referrer_stats_of(referrer);
        stats.revoked_referrals = stats.revoked_referrals.saturating_add(1);
        stats.penalty_score = stats.penalty_score.saturating_add(self.config.penalty_per_revocation);
        self.referrer_stats.insert(referrer, stats);
        self.know(referrer);
        self.events.push(
            Event::ReferralPenalized {
                referrer,
                revoked_citizen: who,
                new_penalty_score: stats.penalty_score,
                total_revoked: stats.revoked_referrals,
            },
        );
        proof {
            if old(self).records_agree() {
                old(self).lemma_agreement_kept(self);
            }
        }
        Some(referrer)
    }

    /// A revoked citizenship was restored. Whoever was charged for the revocation has the
    /// revoked referral and its penalty taken off their record again, each clamped at zero.
    /// `approved_by_fallback` is whether the founder approved the citizen by fallback.
    /// Returns whose trust score changed.
    pub fn on_citizenship_restored(&mut self, who: u64, approved_by_fallback: bool) -> (r: Option<u64>)
        ensures
            old(self).wf() ==> final(self).wf(),
            old(self).records_agree() ==> final(self).records_agree(),
            r == old(self).penalized_for(who, approved_by_fallback),
            final(self).refunded(old(self), who, approved_by_fallback),
    {
        let info = match self.referrals.get(&who) {
            Some(i) => *i,
            None => return None,
        };
        let referrer = if approved_by_fallback {
            match self.invited_by.get(&who) {
                Some(i) => *i,
                None => return None,
            }
        } else {
            info.referrer
        };
        let mut stats = self.referrer_stats_of(referrer);
        stats.revoked_referrals = stats.revoked_referrals.saturating_sub(1);
        stats.penalty_score = stats.penalty_score.saturating_sub(self.config.penalty_per_revocation);
        self.referrer_stats.insert(referrer, stats);
        self.know(referrer);
        proof {
            if old(self).records_agree() {
                old(self).lemma_agreement_kept(self);
            }
        }
        Some(referrer)
    }

    /// The referral score: the tiered score of the good referrals, less the stored penalty.
    pub fn get_referral_score(&self, who: &u64) -> (r: u32)
        ensures
            r == sat_sub_u32(
                tiered_score(sat_sub_u32(self.stats(*who).total_referrals, self.stats(*who).revoked_referrals)),
                self.stats(*who).penalty_score,
            ),
    {
        let stats = self.referrer_stats_of(*who);
        let good = stats.total_referrals.saturating_sub(stats.revoked_referrals);
        let base: u32 = if good == 0 {
            0
        } else if good <= 10 {
            good * 10
        } else if good <= 50 {
            100 + (good - 10) * 5
        } else if good <= 100 {
            300 + (good - 50) * 4
        } else {
            MAX_REFERRAL_SCORE
        };
        base.saturating_sub(stats.penalty_score)
    }

    /// Whether an account's record is bad enough to stop it vouching: at least
    /// `SUSPENSION_FLOOR` revoked referrals, and more than a fifth of all it made.
    pub open spec fn spec_suspended(&self, who: u64) -> bool {
        let s = self.stats(who);
        s.revoked_referrals >= SUSPENSION_FLOOR && s.revoked_referrals * 5 > s.total_referrals
    }

    /// How many people an account may vouch into the register in all: none while its record
    /// suspends it, otherwise the initial places plus one per so many settled referrals,
    /// capped.
    pub open spec fn spec_vouching_capacity(&self, who: u64) -> u32 {
        let s = self.stats(who);
        let settled = sat_sub_u32(s.total_referrals, s.revoked_referrals);
        let per_place = if self.config.settled_vouches_per_place >= 1 {
            self.config.settled_vouches_per_place
        } else {
            1
        };
        let c = sat_add_u32(self.config.initial_vouching_capacity, settled / per_place);
        if self.spec_suspended(who) {
            0
        } else if c <= self.config.max_vouching_capacity {
            c
        } else {
            self.config.max_vouching_capacity
        }
    }

    /// How many people an account may vouch into the register in all.
    pub fn vouching_capacity(&self, who: &u64) -> (r: u32)
        ensures
            r == self.spec_vouching_capacity(*who),
    {
        let stats = self.referrer_stats_of(*who);
        let settled = stats.total_referrals.saturating_sub(stats.revoked_referrals);
        let per_place = if self.config.settled_vouches_per_place >= 1 {
            self.config.settled_vouches_per_place
        } else {
            1
        };
        let earned = settled / per_place;
        let c = self.config.initial_vouching_capacity.saturating_add(earned);
        if stats.revoked_referrals >= SUSPENSION_FLOOR && (stats.revoked_referrals as u64) * 5 > stats.total_referrals as u64 {
            0
        } else if c <= self.config.max_vouching_capacity {
            c
        } else {
            self.config.max_vouching_capacity
        }
    }

    /// What is left of that capacity, once those already brought in are counted.
    pub fn vouching_remaining(&self, who: &u64) -> (r: u32)
        ensures
            r == sat_sub_u32(self.spec_vouching_capacity(*who), self.invitations_of(*who)),
    {
        self.vouching_capacity(who).saturating_sub(self.invitation_count_of(*who))
    }

    /// Who vouched for a citizen.
    pub fn get_inviter(&self, who: &u64) -> (r: Option<u64>)
        ensures
            r == if self.referrals@.contains_key(*who) {
                Some(self.referrals@[*who].referrer)
            } else {
                None::<u64>
            },
    {
        match self.referrals.get(who) {
            Some(i) => Some(i.referrer),
            None => None,
        }
    }
}

impl InviterProvider<u64> for Pezpallet {
    fn get_inviter(&self, who: &u64) -> (r: Option<u64>)
        ensures
            r == if self.referrals@.contains_key(*who) {
                Some(self.referrals@[*who].referrer)
            } else {
                None::<u64>
            },
    {
        Pezpallet::get_inviter(self, who)
    }
}

impl ReferralScoreProvider<u64> for Pezpallet {
    fn get_referral_score(&self, who: &u64) -> (r: u32)
        ensures
            r == sat_sub_u32(
                tiered_score(sat_sub_u32(self.stats(*who).total_referrals, self.stats(*who).revoked_referrals)),
                self.stats(*who).penalty_score,
            ),
    {
        Pezpallet::get_referral_score(self, who)
    }
}

impl crate::identity_kyc::VouchingCapacity<u64> for Pezpallet {
    fn remaining(&self, who: &u64) -> (r: Option<u32>)
        ensures
            r == Some(sat_sub_u32(self.spec_vouching_capacity(*who), self.invitations_of(*who))),
    {
        Some(self.vouching_remaining(who))
    }
}

impl Pezpallet {
    /// Whether `a`'s referral record names `r` as the referrer.
    pub open spec fn refers_to(&self, r: u64) -> spec_fn(u64) -> bool {
        |a: u64| self.referrals@.contains_key(a) && self.referrals@[a].referrer == r
    }

    /// Whether `a`'s settled invitation names `i` as the inviter.
    pub open spec fn invited_by_inviter(&self, i: u64) -> spec_fn(u64) -> bool {
        |a: u64| self.invited_by@.contains_key(a) && self.invited_by@[a] == i
    }

    /// How many referral records name `r` as the referrer.
    pub open spec fn referrals_by(&self, r: u64) -> nat {
        Set::new(self.refers_to(r)).len()
    }

    /// How many settled invitations name `i` as the inviter.
    pub open spec fn invitations_by(&self, i: u64) -> nat {
        Set::new(self.invited_by_inviter(i)).len()
    }

    /// Whether account `a`'s entries show the disagreement `v`.
    pub open spec fn account_fails(&self, v: InvariantViolation, a: u64) -> bool {
        match v {
            InvariantViolation::ReferralCountMismatch => self.referral_count@.contains_key(a)
                && self.referral_count@[a] != self.referrals_by(a),
            InvariantViolation::StatsMismatch => self.referrer_stats@.contains_key(a)
                && self.referrer_stats@[a].total_referrals != self.referrals_by(a),
            InvariantViolation::RevokedOverTotal => self.referrer_stats@.contains_key(a)
                && self.referrer_stats@[a].revoked_referrals > self.referrer_stats@[a].total_referrals,
            InvariantViolation::InvitationCountMismatch => self.invitation_count@.contains_key(a)
                && self.invitation_count@[a] != self.invitations_by(a),
        }
    }

    /// The first kind of disagreement, in the order the checks run: the referral counts, the
    /// statistics against the records, the revocations against the referrals, the invitation
    /// counts.
    pub open spec fn invariant_violation(&self) -> Option<InvariantViolation> {
        if exists|a: u64| #[trigger] self.account_fails(InvariantViolation::ReferralCountMismatch, a) {
            Some(InvariantViolation::ReferralCountMismatch)
        } else if exists|a: u64| #[trigger] self.account_fails(InvariantViolation::StatsMismatch, a) {
            Some(InvariantViolation::StatsMismatch)
        } else if exists|a: u64| #[trigger] self.account_fails(InvariantViolation::RevokedOverTotal, a) {
            Some(InvariantViolation::RevokedOverTotal)
        } else if exists|a: u64| #[trigger] self.account_fails(InvariantViolation::InvitationCountMismatch, a) {
            Some(InvariantViolation::InvitationCountMismatch)
        } else {
            None
        }
    }

    /// How many referral records name `r`, and how many settled invitations name it.
    fn tallies(&self, r: u64) -> (t: (u64, u64))
        requires
            self.wf(),
        ensures
            t.0 as nat == self.referrals_by(r),
            t.1 as nat == self.invitations_by(r),
    {
        let ghost list = self.known_accounts@;
        let ghost refers = self.refers_to(r);
        let ghost invited = self.invited_by_inviter(r);
        let mut referred: u64 = 0;
        let mut brought: u64 = 0;
        let mut i: usize = 0;
        while i < self.known_accounts.len()
            invariant
                list == self.known_accounts@,
                refers == self.refers_to(r),
                invited == self.invited_by_inviter(r),
                0 <= i <= list.len(),
                referred as nat == count_matching(list.take(i as int), refers),
                brought as nat == count_matching(list.take(i as int), invited),
                referred <= i,
                brought <= i,
            decreases list.len() - i,
        {
            let a = self.known_accounts[i];
            proof {
                assert(list.take(i + 1).drop_last() =~= list.take(i as int));
                assert(list.take(i + 1).last() == a);
            }
            match self.referrals.get(&a) {
                Some(info) => {
                    if info.referrer == r {
                        referred = referred + 1;
                    }
                },
                None => {},
            }
            match self.invited_by.get(&a) {
                Some(inviter) => {
                    if *inviter == r {
                        brought = brought + 1;
                    }
                },
                None => {},
            }
            i = i + 1;
        }
        proof {
            assert(list.take(list.len() as int) =~= list);
            lemma_count_matching(list, refers);
            lemma_count_matching(list, invited);
            assert(Set::new(|a: u64| list.contains(a) && refers(a)) =~= Set::new(refers));
            assert(Set::new(|a: u64| list.contains(a) && invited(a)) =~= Set::new(invited));
        }
        (referred, brought)
    }

    /// Whether account `a`'s entries show the disagreement `v`.
    fn account_fails_exec(&self, v: InvariantViolation, a: u64) -> (r: bool)
        requires
            self.wf(),
        ensures
            r == self.account_fails(v, a),
    {
        match v {
            InvariantViolation::ReferralCountMismatch => match self.referral_count.get(&a) {
                Some(count) => self.tallies(a).0 != *count as u64,
                None => false,
            },
            InvariantViolation::StatsMismatch => match self.referrer_stats.get(&a) {
                Some(stats) => self.tallies(a).0 != stats.total_referrals as u64,
                None => false,
            },
            InvariantViolation::RevokedOverTotal => match self.referrer_stats.get(&a) {
                Some(stats) => stats.revoked_referrals > stats.total_referrals,
                None => false,
            },
            InvariantViolation::InvitationCountMismatch => match self.invitation_count.get(&a) {
                Some(count) => self.tallies(a).1 != *count as u64,
                None => false,
            },
        }
    }

    /// Whether any account's entries show the disagreement `v`. Every account with an entry
    /// is a known one.
    fn any_account_fails(&self, v: InvariantViolation) -> (r: bool)
        requires
            self.wf(),
        ensures
            r == exists|a: u64| #[trigger] self.account_fails(v, a),
    {
        let mut i: usize = 0;
        while i < self.known_accounts.len()
            invariant
                self.wf(),
                0 <= i <= self.known_accounts@.len(),
                forall|j: int| 0 <= j < i ==> !self.account_fails(v, #[trigger] self.known_accounts@[j]),
            decreases self.known_accounts@.len() - i,
        {
            if self.account_fails_exec(v, self.known_accounts[i]) {
                return true;
            }
            i = i + 1;
        }
        proof {
            assert forall|a: u64| !#[trigger] self.account_fails(v, a) by {
                if self.account_fails(v, a) {
                    assert(self.known_accounts@.contains(a));
                    let j = choose|j: int| 0 <= j < self.known_accounts@.len() && self.known_accounts@[j] == a;
                    assert(!self.account_fails(v, self.known_accounts@[j]));
                }
            }
        }
        false
    }

    /// Each account's referral count and the total in its statistics are the number of
    /// referral records naming it, its invitation count is the number of settled invitations
    /// naming it, and only a citizen with a referral record has a settled invitation.
    pub open spec fn records_agree(&self) -> bool {
        &&& forall|r: u64| #[trigger] self.count_of(r) == self.referrals_by(r)
        &&& forall|r: u64| #[trigger] self.stats(r).total_referrals == self.referrals_by(r)
        &&& forall|i: u64| #[trigger] self.invitations_of(i) == self.invitations_by(i)
        &&& forall|a: u64| #[trigger] self.invited_by@.contains_key(a) ==> self.referrals@.contains_key(a)
    }

    /// Two states with the same referral records and settled invitations name each account
    /// equally often.
    proof fn lemma_same_records(&self, other: &Self)
        requires
            other.referrals@ == self.referrals@,
            other.invited_by@ == self.invited_by@,
        ensures
            forall|r: u64| #[trigger] other.referrals_by(r) == self.referrals_by(r),
            forall|i: u64| #[trigger] other.invitations_by(i) == self.invitations_by(i),
    {
        assert forall|r: u64| #[trigger] other.referrals_by(r) == self.referrals_by(r) by {
            assert(Set::new(other.refers_to(r)) =~= Set::new(self.refers_to(r)));
        }
        assert forall|i: u64| #[trigger] other.invitations_by(i) == self.invitations_by(i) by {
            assert(Set::new(other.invited_by_inviter(i)) =~= Set::new(self.invited_by_inviter(i)));
        }
    }

    /// Agreement survives a change that leaves the records, the counts and every total as
    /// they were.
    proof fn lemma_agreement_kept(&self, other: &Self)
        requires
            self.records_agree(),
            other.referrals@ == self.referrals@,
            other.invited_by@ == self.invited_by@,
            other.referral_count@ == self.referral_count@,
            other.invitation_count@ == self.invitation_count@,
            forall|r: u64| #[trigger] other.stats(r).total_referrals == self.stats(r).total_referrals,
        ensures
            other.records_agree(),
    {
        self.lemma_same_records(other);
        assert forall|r: u64| #[trigger] other.count_of(r) == other.referrals_by(r) by {
            assert(self.count_of(r) == self.referrals_by(r));
        }
        assert forall|r: u64| #[trigger] other.stats(r).total_referrals == other.referrals_by(r) by {
            assert(self.stats(r).total_referrals == self.referrals_by(r));
        }
        assert forall|i: u64| #[trigger] other.invitations_of(i) == other.invitations_by(i) by {
            assert(self.invitations_of(i) == self.invitations_by(i));
        }
    }

    /// The records naming an account are finitely many.
    proof fn lemma_tallies_finite(&self, r: u64)
        requires
            self.wf(),
        ensures
            Set::new(self.refers_to(r)).finite(),
            Set::new(self.invited_by_inviter(r)).finite(),
    {
        vstd::seq_lib::seq_to_set_is_finite(self.known_accounts@);
        assert(Set::new(self.refers_to(r)).subset_of(self.known_accounts@.to_set()));
        assert(Set::new(self.invited_by_inviter(r)).subset_of(self.known_accounts@.to_set()));
        vstd::set_lib::lemma_len_subset(Set::new(self.refers_to(r)), self.known_accounts@.to_set());
        vstd::set_lib::lemma_len_subset(Set::new(self.invited_by_inviter(r)), self.known_accounts@.to_set());
    }

    /// Confirming a referral keeps the records in agreement: the referrer gains one record and
    /// one count, and a settled inviter one invitation and one count.
    proof fn lemma_confirmation_keeps_agreement(&self, post: Self, who: u64, referrer: u64, inviter: Option<u64>, now: u64)
        requires
            self.wf(),
            self.records_agree(),
            !self.referrals@.contains_key(who),
            self.count_of(referrer) < u32::MAX,
            inviter matches Some(i) ==> self.invitations_of(i) < u32::MAX,
            post.referrals@ == self.referrals@.insert(who, ReferralInfo { referrer, created_at: now }),
            post.referral_count@ == self.referral_count@.insert(referrer, sat_add_u32(self.count_of(referrer), 1)),
            post.referrer_stats@ == self.referrer_stats@.insert(
                referrer,
                ReferrerStats { total_referrals: sat_add_u32(self.stats(referrer).total_referrals, 1), ..self.stats(referrer) },
            ),
            ({
                let settled = match inviter {
                    Some(i) => self.claims(who).contains(i),
                    None => false,
                };
                &&& post.invited_by@ == if settled {
                    self.invited_by@.insert(who, inviter->Some_0)
                } else {
                    self.invited_by@
                }
                &&& post.invitation_count@ == if settled {
                    self.invitation_count@.insert(inviter->Some_0, sat_add_u32(self.invitations_of(inviter->Some_0), 1))
                } else {
                    self.invitation_count@
                }
            }),
        ensures
            post.records_agree(),
    {
        let settled = match inviter {
            Some(i) => self.claims(who).contains(i),
            None => false,
        };
        assert(!self.invited_by@.contains_key(who));
        assert forall|r: u64| #[trigger] post.referrals_by(r) == self.referrals_by(r) + (if r == referrer {
            1int
        } else {
            0int
        }) by {
            self.lemma_tallies_finite(r);
            let before = Set::new(self.refers_to(r));
            assert(!before.contains(who));
            if r == referrer {
                assert(Set::new(post.refers_to(r)) =~= before.insert(who));
            } else {
                assert(Set::new(post.refers_to(r)) =~= before);
            }
        }
        assert forall|i: u64| #[trigger] post.invitations_by(i) == self.invitations_by(i) + (if settled
            && inviter == Some(i) {
            1int
        } else {
            0int
        }) by {
            self.lemma_tallies_finite(i);
            let before = Set::new(self.invited_by_inviter(i));
            assert(!before.contains(who));
            if settled && inviter == Some(i) {
                assert(Set::new(post.invited_by_inviter(i)) =~= before.insert(who));
            } else {
                assert(Set::new(post.invited_by_inviter(i)) =~= before);
            }
        }
        assert forall|r: u64| #[trigger] post.count_of(r) == post.referrals_by(r) by {
            assert(post.referrals_by(r) == self.referrals_by(r) + (if r == referrer { 1int } else { 0int }));
            assert(self.count_of(r) == self.referrals_by(r));
        }
        assert forall|r: u64| #[trigger] post.stats(r).total_referrals == post.referrals_by(r) by {
            assert(post.referrals_by(r) == self.referrals_by(r) + (if r == referrer { 1int } else { 0int }));
            assert(self.stats(r).total_referrals == self.referrals_by(r));
            assert(self.count_of(r) == self.referrals_by(r));
        }
        assert forall|i: u64| #[trigger] post.invitations_of(i) == post.invitations_by(i) by {
            assert(post.invitations_by(i) == self.invitations_by(i) + (if settled && inviter == Some(i) { 1int } else { 0int }));
            assert(self.invitations_of(i) == self.invitations_by(i));
        }
    }

    /// Records in agreement pass the checks of the counts: the only disagreement the check can
    /// still find is a record with more revocations than referrals.
    pub proof fn lemma_agreeing_records_pass_count_checks(&self)
        requires
            self.wf(),
            self.records_agree(),
        ensures
            self.invariant_violation() is None || self.invariant_violation() == Some(InvariantViolation::RevokedOverTotal),
    {
        assert forall|a: u64| !#[trigger] self.account_fails(InvariantViolation::ReferralCountMismatch, a) by {
            assert(self.count_of(a) == self.referrals_by(a));
        }
        assert forall|a: u64| !#[trigger] self.account_fails(InvariantViolation::StatsMismatch, a) by {
            assert(self.stats(a).total_referrals == self.referrals_by(a));
        }
        assert forall|a: u64| !#[trigger] self.account_fails(InvariantViolation::InvitationCountMismatch, a) by {
            assert(self.invitations_of(a) == self.invitations_by(a));
        }
    }

    /// Check that the referral records agree with one another: every referral count and
    /// every referrer's statistics with the referral records, no more revocations than
    /// referrals, and every invitation count with the settled invitations. Gives the first
    /// kind of disagreement found.
    pub fn try_state(&self) -> (r: Result<(), InvariantViolation>)
        requires
            self.wf(),
        ensures
            match self.invariant_violation() {
                Some(e) => r == Err::<(), InvariantViolation>(e),
                None => r == Ok::<(), InvariantViolation>(()),
            },
    {
        if self.any_account_fails(InvariantViolation::ReferralCountMismatch) {
            return Err(InvariantViolation::ReferralCountMismatch);
        }
        if self.any_account_fails(InvariantViolation::StatsMismatch) {
            return Err(InvariantViolation::StatsMismatch);
        }
        if self.any_account_fails(InvariantViolation::RevokedOverTotal) {
            return Err(InvariantViolation::RevokedOverTotal);
        }
        if self.any_account_fails(InvariantViolation::InvitationCountMismatch) {
            return Err(InvariantViolation::InvitationCountMismatch);
        }
        Ok(())
    }
}

} // verus!
