//! The citizen register: applications vouched for by an existing citizen, confirmed by the
//! applicant, revocable by governance, and restorable. Only a hash of the applicant's identity
//! documents is kept.
//!
//! The deposit, the citizen NFT and the hooks into other pallets belong elsewhere. A call that
//! needs one of them is told whether it went through; a hook it must fire is handed back.
use vstd::prelude::*;
use vstd::hash_map::HashMapWithView;
use crate::arith::{sat_add_u32, sat_add_u64, sat_sub_u32, sat_sub_u64};

verus! {

/// Citizenship status levels.
#[derive(Clone, Copy, PartialEq, Eq, Debug, Structural)]
pub enum KycLevel {
    NotStarted,
    PendingReferral,
    ReferrerApproved,
    Approved,
    Revoked,
}

/// The index each status is stored under; pinned, never renumbered.
pub open spec fn kyc_level_index(l: KycLevel) -> u8 {
    match l {
        KycLevel::NotStarted => 0,
        KycLevel::PendingReferral => 1,
        KycLevel::ReferrerApproved => 2,
        KycLevel::Approved => 3,
        KycLevel::Revoked => 4,
    }
}

impl KycLevel {
    /// The SCALE encoding of a status: its pinned index as one byte.
    pub fn encode(&self) -> (r: Vec<u8>)
        ensures
            r@ == seq![kyc_level_index(*self)],
    {
        let b: u8 = match self {
            KycLevel::NotStarted => 0,
            KycLevel::PendingReferral => 1,
            KycLevel::ReferrerApproved => 2,
            KycLevel::Approved => 3,
            KycLevel::Revoked => 4,
        };
        let mut v: Vec<u8> = Vec::new();
        v.push(b);
        proof {
            assert(v@ =~= seq![kyc_level_index(*self)]);
        }
        v
    }
}

/// An application: the hash of the applicant's documents, who vouches, who they say brought
/// them, and when.
#[derive(Clone, Copy, PartialEq, Eq, Debug)]
pub struct CitizenshipApplication {
    pub identity_hash: [u8; 32],
    pub referrer: u64,
    pub inviter: Option<u64>,
    pub applied_at: u64,
}

/// Querying an account's status.
pub trait KycStatus<AccountId> {
    fn get_kyc_status(&self, who: &AccountId) -> KycLevel;
}

/// What other pallets do when a citizen is approved.
pub trait OnKycApproved<AccountId> {
    fn on_kyc_approved(&mut self, who: &AccountId, referrer: &AccountId, inviter: Option<&AccountId>);
}

impl<AccountId> OnKycApproved<AccountId> for () {
    fn on_kyc_approved(&mut self, _who: &AccountId, _referrer: &AccountId, _inviter: Option<&AccountId>) {
    }
}

/// What other pallets do when a citizenship is revoked.
pub trait OnCitizenshipRevoked<AccountId> {
    fn on_citizenship_revoked(&mut self, who: &AccountId);
}

impl<AccountId> OnCitizenshipRevoked<AccountId> for () {
    fn on_citizenship_revoked(&mut self, _who: &AccountId) {
    }
}

/// What other pallets do when a revoked citizenship is restored.
pub trait OnCitizenshipRestored<AccountId> {
    fn on_citizenship_restored(&mut self, who: &AccountId);
}

impl<AccountId> OnCitizenshipRestored<AccountId> for () {
    fn on_citizenship_restored(&mut self, _who: &AccountId) {
    }
}

/// How many more citizens an account may vouch for; `None` is unlimited.
pub trait VouchingCapacity<AccountId> {
    fn remaining(&self, who: &AccountId) -> Option<u32>;
}

impl<AccountId> VouchingCapacity<AccountId> for () {
    fn remaining(&self, _who: &AccountId) -> (r: Option<u32>)
        ensures
            r is None,
    {
        None
    }
}

/// Whether an account is a citizen, for other pallets.
pub trait CitizenshipStatusProvider<AccountId> {
    fn is_citizen(&self, who: &AccountId) -> bool;
}

/// A citizen's name and email, as an identity pallet holds them.
#[derive(Clone, Debug, Default)]
pub struct IdentityInfo {
    pub name: Vec<u8>,
    pub email: Vec<u8>,
}

/// The documents of a KYC application: their content identifiers, and notes.
#[derive(Clone, Debug, Default)]
pub struct KycApplication {
    pub cids: Vec<Vec<u8>>,
    pub notes: Vec<u8>,
}

/// Where an account's identity information can be read.
pub trait IdentityInfoProvider<AccountId> {
    fn get_identity_info(&self, who: &AccountId) -> Option<IdentityInfo>;
}

/// What the register reports having done.
#[derive(Clone, Copy, PartialEq, Eq, Debug)]
pub enum Event {
    CitizenshipApplied { applicant: u64, referrer: u64, identity_hash: [u8; 32] },
    ReferralApproved { referrer: u64, applicant: u64 },
    CitizenshipConfirmed { who: u64 },
    CitizenshipRevoked { who: u64 },
    CitizenshipRenounced { who: u64 },
    ApplicationCancelled { who: u64 },
    CitizenshipRestored { who: u64 },
    HonoraryCitizenshipRegistered { who: u64 },
}

/// Why a register call was refused.
#[derive(Clone, Copy, PartialEq, Eq, Debug, Structural)]
pub enum Error {
    NotEligibleToVouch,
    VouchingTooSoon,
    VouchingCapacityReached,
    ApplicationAlreadyExists,
    ApplicationNotFound,
    ReferrerNotCitizen,
    SelfReferral,
    CannotApproveInCurrentState,
    CannotConfirmInCurrentState,
    CannotRevokeInCurrentState,
    NotACitizen,
    NotTheReferrer,
    CannotCancelInCurrentState,
    IdentityHashAlreadyUsed,
    NotRevoked,
    AlreadyACitizen,
    /// The balances pallet could not reserve the application deposit.
    DepositNotReserved,
    /// The NFT pallet could not mint or burn the citizen NFT.
    CitizenNftFailed,
}

/// A way the register's records can disagree with one another.
#[derive(Clone, Copy, PartialEq, Eq, Debug, Structural)]
pub enum InvariantViolation {
    /// The kept citizen count is not the number of `Approved` records.
    CitizenCountMismatch,
    /// Some account's identity hash is not held by that account in the reverse index.
    IdentityHashNotPointingBack,
    /// Somebody is in the honorary register without being a citizen.
    HonoraryNotCitizen,
    /// The honorary count is not the size of the honorary register.
    HonoraryCountMismatch,
    /// More citizens were named honorary than there are citizens.
    MoreHonoraryThanCitizens,
}

/// What a disagreement is called, in words.
#[verifier::opaque]
pub open spec fn violation_message(v: InvariantViolation) -> Seq<char> {
    match v {
        InvariantViolation::CitizenCountMismatch => "CitizenCount does not match the number of Approved records"@,
        InvariantViolation::IdentityHashNotPointingBack => "an identity hash does not point back at the account that holds it"@,
        InvariantViolation::HonoraryNotCitizen => "somebody is in the honorary register without being a citizen"@,
        InvariantViolation::HonoraryCountMismatch => "the honorary count does not match the honorary register"@,
        InvariantViolation::MoreHonoraryThanCitizens => "more citizens were named than there are citizens"@,
    }
}

impl InvariantViolation {
    /// What went wrong, in words.
    pub fn message(&self) -> (r: &'static str)
        ensures
            r@ == violation_message(*self),
    {
        proof {
            reveal(violation_message);
        }
        match self {
            InvariantViolation::CitizenCountMismatch => "CitizenCount does not match the number of Approved records",
            InvariantViolation::IdentityHashNotPointingBack => "an identity hash does not point back at the account that holds it",
            InvariantViolation::HonoraryNotCitizen => "somebody is in the honorary register without being a citizen",
            InvariantViolation::HonoraryCountMismatch => "the honorary count does not match the honorary register",
            InvariantViolation::MoreHonoraryThanCitizens => "more citizens were named than there are citizens",
        }
    }
}

/// The register's parameters.
#[derive(Clone, Copy, PartialEq, Eq, Debug, Structural)]
pub struct Config {
    /// The founder: the referrer of last resort, exempt from the limits on vouching.
    pub default_referrer: u64,
    pub referral_fallback_period: u64,
    pub vouching_waiting_period: u64,
    pub kyc_application_deposit: u128,
}

/// Who a newly confirmed citizen's referral hook is about.
#[derive(Clone, Copy, PartialEq, Eq, Debug, Structural)]
pub struct Approval {
    pub who: u64,
    pub referrer: u64,
    pub inviter: Option<u64>,
}

/// The register's storage.
pub struct Pezpallet {
    pub config: Config,
    pub applications: HashMapWithView<u64, CitizenshipApplication>,
    pub kyc_statuses: HashMapWithView<u64, KycLevel>,
    /// Every account that has a status, in the order it first got one.
    pub status_accounts: Vec<u64>,
    pub identity_hashes: HashMapWithView<u64, [u8; 32]>,
    pub citizen_since: HashMapWithView<u64, u64>,
    /// Each identity hash in use and the account holding it.
    pub identity_hash_to_account: Vec<([u8; 32], u64)>,
    pub citizen_referrers: HashMapWithView<u64, u64>,
    pub citizen_count: u32,
    pub approved_by_fallback: HashMapWithView<u64, ()>,
    pub honorary_citizens: HashMapWithView<u64, ()>,
    pub honorary_citizen_count: u32,
    pub events: Vec<Event>,
}

/// Whether two identity hashes are the same.
pub fn same_hash(a: &[u8; 32], b: &[u8; 32]) -> (r: bool)
    ensures
        r == (a@ == b@),
{
    let mut i: usize = 0;
    while i < 32
        invariant
            0 <= i <= 32,
            a@.len() == 32,
            b@.len() == 32,
            forall|j: int| 0 <= j < i ==> a@[j] == b@[j],
        decreases 32 - i,
    {
        if a[i] != b[i] {
            return false;
        }
        i = i + 1;
    }
    assert(a@ =~= b@);
    true
}

/// How many of `accounts` hold `Approved` in `statuses`.
pub open spec fn approved_count(accounts: Seq<u64>, statuses: Map<u64, KycLevel>) -> nat
    decreases accounts.len(),
{
    if accounts.len() == 0 {
        0
    } else {
        approved_count(accounts.drop_last(), statuses) + if statuses.contains_key(accounts.last())
            && statuses[accounts.last()] == KycLevel::Approved {
            1nat
        } else {
            0nat
        }
    }
}

/// Changing one listed account's status changes the count by what that account contributes.
proof fn lemma_approved_count_update(accounts: Seq<u64>, statuses: Map<u64, KycLevel>, who: u64, level: KycLevel)
    requires
        forall|i: int, j: int| 0 <= i < j < accounts.len() ==> accounts[i] != accounts[j],
    ensures
        approved_count(accounts, statuses.insert(who, level)) + (if accounts.contains(who)
            && statuses.contains_key(who) && statuses[who] == KycLevel::Approved {
            1int
        } else {
            0int
        }) == approved_count(accounts, statuses) + (if accounts.contains(who) && level
            == KycLevel::Approved {
            1int
        } else {
            0int
        }),
    decreases accounts.len(),
{
    if accounts.len() > 0 {
        let init = accounts.drop_last();
        lemma_approved_count_update(init, statuses, who, level);
        if accounts.last() == who {
            assert(!init.contains(who)) by {
                if init.contains(who) {
                    let i = choose|i: int| 0 <= i < init.len() && init[i] == who;
                    assert(accounts[i] == accounts[accounts.len() - 1]);
                }
            }
        } else {
            assert(accounts.contains(who) == init.contains(who)) by {
                if accounts.contains(who) {
                    let i = choose|i: int| 0 <= i < accounts.len() && accounts[i] == who;
                    assert(init[i] == who);
                }
            }
        }
    }
}

/// Appending an account that has no status yet leaves the count as it was.
proof fn lemma_approved_count_push(accounts: Seq<u64>, statuses: Map<u64, KycLevel>, who: u64)
    requires
        !(statuses.contains_key(who) && statuses[who] == KycLevel::Approved),
    ensures
        approved_count(accounts.push(who), statuses) == approved_count(accounts, statuses),
{
    assert(accounts.push(who).drop_last() =~= accounts);

}

/// The identity hashes in use and who holds each, as a map.
pub open spec fn owners_map(list: Seq<([u8; 32], u64)>) -> Map<Seq<u8>, u64>
    decreases list.len(),
{
    if list.len() == 0 {
        Map::empty()
    } else {
        owners_map(list.drop_last()).insert(list.last().0@, list.last().1)
    }
}

/// No identity hash appears twice.
pub open spec fn hashes_distinct(list: Seq<([u8; 32], u64)>) -> bool {
    forall|i: int, j: int| 0 <= i < j < list.len() ==> list[i].0@ != list[j].0@
}

/// A hash is in the map exactly when some entry carries it.
proof fn lemma_owners_contains(list: Seq<([u8; 32], u64)>, h: Seq<u8>)
    ensures
        owners_map(list).contains_key(h) <==> exists|i: int| 0 <= i < list.len() && list[i].0@ == h,
    decreases list.len(),
{
    if list.len() > 0 {
        lemma_owners_contains(list.drop_last(), h);
        if owners_map(list).contains_key(h) && list.last().0@ != h {
            let i = choose|i: int| 0 <= i < list.len() - 1 && list.drop_last()[i].0@ == h;
            assert(list[i].0@ == h);
        }
        if exists|i: int| 0 <= i < list.len() && list[i].0@ == h {
            let i = choose|i: int| 0 <= i < list.len() && list[i].0@ == h;
            if i < list.len() - 1 {
                assert(list.drop_last()[i].0@ == h);
            }
        }
    }
}

/// The entry at `i` is what the map says its hash belongs to.
proof fn lemma_owners_at(list: Seq<([u8; 32], u64)>, i: int)
    requires
        hashes_distinct(list),
        0 <= i < list.len(),
    ensures
        owners_map(list).contains_key(list[i].0@),
        owners_map(list)[list[i].0@] == list[i].1,
    decreases list.len(),
{
    if i < list.len() - 1 {
        lemma_owners_at(list.drop_last(), i);
    }
}

/// Replacing the entry at `i` by another for the same hash sets that hash's holder.
proof fn lemma_owners_update(list: Seq<([u8; 32], u64)>, i: int, e: ([u8; 32], u64))
    requires
        hashes_distinct(list),
        0 <= i < list.len(),
        e.0@ == list[i].0@,
    ensures
        hashes_distinct(list.update(i, e)),
        owners_map(list.update(i, e)) == owners_map(list).insert(e.0@, e.1),
    decreases list.len(),
{
    let l2 = list.update(i, e);
    if i == list.len() - 1 {
        assert(l2.drop_last() =~= list.drop_last());
    } else {
        lemma_owners_update(list.drop_last(), i, e);
        assert(l2.drop_last() =~= list.drop_last().update(i, e));
        assert(list.last().0@ != e.0@);
    }
    assert(owners_map(l2) =~= owners_map(list).insert(e.0@, e.1));
}

/// Removing the entry at `i` removes its hash and nothing else.
proof fn lemma_owners_remove(list: Seq<([u8; 32], u64)>, i: int)
    requires
        hashes_distinct(list),
        0 <= i < list.len(),
    ensures
        hashes_distinct(list.remove(i)),
        owners_map(list.remove(i)) == owners_map(list).remove(list[i].0@),
    decreases list.len(),
{
    let l2 = list.remove(i);
    if i == list.len() - 1 {
        assert(l2 =~= list.drop_last());
        lemma_owners_contains(list.drop_last(), list[i].0@);
        assert(owners_map(l2) =~= owners_map(list).remove(list[i].0@));
    } else {
        lemma_owners_remove(list.drop_last(), i);
        assert(l2.drop_last() =~= list.drop_last().remove(i));
        assert(l2.last() == list.last());
        assert(list.last().0@ != list[i].0@);
        assert(owners_map(l2) =~= owners_map(list).remove(list[i].0@));
    }
}

/// An account's status in `statuses`; `NotStarted` if it has none.
pub open spec fn level_in(statuses: Map<u64, KycLevel>, a: u64) -> KycLevel {
    if statuses.contains_key(a) {
        statuses[a]
    } else {
        KycLevel::NotStarted
    }
}

/// The identity hashes agree with their reverse index: every citizen's hash is held by that
/// citizen; an applicant awaiting a vouch or a confirmation holds the hash they applied with
/// and no confirmed one; and only a citizen or a revoked citizen has a confirmed hash.
pub open spec fn hashes_agree(
    statuses: Map<u64, KycLevel>,
    applications: Map<u64, CitizenshipApplication>,
    hashes: Map<u64, [u8; 32]>,
    owners: Map<Seq<u8>, u64>,
) -> bool {
    &&& forall|a: u64| #[trigger] hashes.contains_key(a) ==> {
        &&& owners.contains_key(hashes[a]@)
        &&& owners[hashes[a]@] == a
        &&& level_in(statuses, a) == KycLevel::Approved || level_in(statuses, a) == KycLevel::Revoked
    }
    &&& forall|a: u64| #![trigger level_in(statuses, a)]
        level_in(statuses, a) == KycLevel::PendingReferral || level_in(statuses, a) == KycLevel::ReferrerApproved ==> {
            &&& applications.contains_key(a)
            &&& owners.contains_key(applications[a].identity_hash@)
            &&& owners[applications[a].identity_hash@] == a
            &&& !hashes.contains_key(a)
        }
}

/// The hashes still agree when an account becomes, or stays, a citizen or a revoked citizen.
proof fn lemma_agree_settled_status(
    statuses: Map<u64, KycLevel>,
    applications: Map<u64, CitizenshipApplication>,
    hashes: Map<u64, [u8; 32]>,
    owners: Map<Seq<u8>, u64>,
    who: u64,
    level: KycLevel,
)
    requires
        hashes_agree(statuses, applications, hashes, owners),
        level == KycLevel::Approved || level == KycLevel::Revoked,
    ensures
        hashes_agree(statuses.insert(who, level), applications, hashes, owners),
{
    let s2 = statuses.insert(who, level);
    assert forall|a: u64| #![trigger level_in(s2, a)] a != who implies level_in(s2, a) == level_in(statuses, a) by {
    }
}

/// The hashes still agree when an applicant is vouched for: their status moves on and their
/// application keeps its hash.
proof fn lemma_agree_vouched(
    statuses: Map<u64, KycLevel>,
    applications: Map<u64, CitizenshipApplication>,
    hashes: Map<u64, [u8; 32]>,
    owners: Map<Seq<u8>, u64>,
    who: u64,
    application: CitizenshipApplication,
)
    requires
        hashes_agree(statuses, applications, hashes, owners),
        level_in(statuses, who) == KycLevel::PendingReferral,
        application.identity_hash == applications[who].identity_hash,
    ensures
        hashes_agree(statuses.insert(who, KycLevel::ReferrerApproved), applications.insert(who, application), hashes, owners),
{
    let s2 = statuses.insert(who, KycLevel::ReferrerApproved);
    let a2 = applications.insert(who, application);
    assert(level_in(statuses, who) == KycLevel::PendingReferral);
    assert forall|a: u64| #![trigger level_in(s2, a)]
        level_in(s2, a) == KycLevel::PendingReferral || level_in(s2, a) == KycLevel::ReferrerApproved implies {
            &&& a2.contains_key(a)
            &&& owners.contains_key(a2[a].identity_hash@)
            &&& owners[a2[a].identity_hash@] == a
            &&& !hashes.contains_key(a)
        } by {
        assert(level_in(statuses, a) == KycLevel::PendingReferral || level_in(statuses, a) == KycLevel::ReferrerApproved);
    }
    assert forall|a: u64| #[trigger] hashes.contains_key(a) implies level_in(s2, a) == KycLevel::Approved
        || level_in(s2, a) == KycLevel::Revoked by {
        assert(level_in(statuses, a) == KycLevel::Approved || level_in(statuses, a) == KycLevel::Revoked);
    }
}

/// The hashes still agree when somebody with no status applies with a hash nobody holds.
proof fn lemma_agree_applied(
    statuses: Map<u64, KycLevel>,
    applications: Map<u64, CitizenshipApplication>,
    hashes: Map<u64, [u8; 32]>,
    owners: Map<Seq<u8>, u64>,
    who: u64,
    application: CitizenshipApplication,
)
    requires
        hashes_agree(statuses, applications, hashes, owners),
        level_in(statuses, who) == KycLevel::NotStarted,
        !owners.contains_key(application.identity_hash@),
    ensures
        hashes_agree(
            statuses.insert(who, KycLevel::PendingReferral),
            applications.insert(who, application),
            hashes,
            owners.insert(application.identity_hash@, who),
        ),
{
    let s2 = statuses.insert(who, KycLevel::PendingReferral);
    let a2 = applications.insert(who, application);
    let o2 = owners.insert(application.identity_hash@, who);
    assert(!hashes.contains_key(who)) by {
        if hashes.contains_key(who) {
            assert(level_in(statuses, who) == KycLevel::Approved || level_in(statuses, who) == KycLevel::Revoked);
        }
    }
    assert forall|a: u64| #[trigger] hashes.contains_key(a) implies {
        &&& o2.contains_key(hashes[a]@)
        &&& o2[hashes[a]@] == a
        &&& level_in(s2, a) == KycLevel::Approved || level_in(s2, a) == KycLevel::Revoked
    } by {
        assert(owners.contains_key(hashes[a]@));
    }
    assert forall|a: u64| #![trigger level_in(s2, a)]
        level_in(s2, a) == KycLevel::PendingReferral || level_in(s2, a) == KycLevel::ReferrerApproved implies {
            &&& a2.contains_key(a)
            &&& o2.contains_key(a2[a].identity_hash@)
            &&& o2[a2[a].identity_hash@] == a
            &&& !hashes.contains_key(a)
        } by {
        if a != who {
            assert(level_in(statuses, a) == KycLevel::PendingReferral || level_in(statuses, a) == KycLevel::ReferrerApproved);
            assert(owners.contains_key(applications[a].identity_hash@));
        }
    }
}

/// The hashes still agree when a vouched applicant confirms: their application goes, and the
/// hash they applied with becomes their confirmed one.
proof fn lemma_agree_confirmed(
    statuses: Map<u64, KycLevel>,
    applications: Map<u64, CitizenshipApplication>,
    hashes: Map<u64, [u8; 32]>,
    owners: Map<Seq<u8>, u64>,
    who: u64,
)
    requires
        hashes_agree(statuses, applications, hashes, owners),
        level_in(statuses, who) == KycLevel::ReferrerApproved,
    ensures
        hashes_agree(
            statuses.insert(who, KycLevel::Approved),
            applications.remove(who),
            hashes.insert(who, applications[who].identity_hash),
            owners.insert(applications[who].identity_hash@, who),
        ),
{
    let h = applications[who].identity_hash;
    let s2 = statuses.insert(who, KycLevel::Approved);
    let a2 = applications.remove(who);
    let x2 = hashes.insert(who, h);
    let o2 = owners.insert(h@, who);
    assert(level_in(statuses, who) == KycLevel::ReferrerApproved);
    assert(o2 =~= owners);
    assert forall|a: u64| #[trigger] x2.contains_key(a) implies {
        &&& o2.contains_key(x2[a]@)
        &&& o2[x2[a]@] == a
        &&& level_in(s2, a) == KycLevel::Approved || level_in(s2, a) == KycLevel::Revoked
    } by {
        if a != who {
            assert(hashes.contains_key(a));
        }
    }
    assert forall|a: u64| #![trigger level_in(s2, a)]
        level_in(s2, a) == KycLevel::PendingReferral || level_in(s2, a) == KycLevel::ReferrerApproved implies {
            &&& a2.contains_key(a)
            &&& o2.contains_key(a2[a].identity_hash@)
            &&& o2[a2[a].identity_hash@] == a
            &&& !x2.contains_key(a)
        } by {
        assert(a != who);
        assert(level_in(statuses, a) == KycLevel::PendingReferral || level_in(statuses, a) == KycLevel::ReferrerApproved);
    }
}

/// The hashes still agree when a citizen renounces: their status is cleared, their confirmed
/// hash goes, and so does its entry in the reverse index.
proof fn lemma_agree_renounced(
    statuses: Map<u64, KycLevel>,
    applications: Map<u64, CitizenshipApplication>,
    hashes: Map<u64, [u8; 32]>,
    owners: Map<Seq<u8>, u64>,
    who: u64,
)
    requires
        hashes_agree(statuses, applications, hashes, owners),
        level_in(statuses, who) == KycLevel::Approved,
    ensures
        hashes_agree(
            statuses.insert(who, KycLevel::NotStarted),
            applications,
            hashes.remove(who),
            if hashes.contains_key(who) {
                owners.remove(hashes[who]@)
            } else {
                owners
            },
        ),
{
    let s2 = statuses.insert(who, KycLevel::NotStarted);
    let x2 = hashes.remove(who);
    let o2 = if hashes.contains_key(who) {
        owners.remove(hashes[who]@)
    } else {
        owners
    };
    assert(level_in(statuses, who) == KycLevel::Approved);
    assert forall|a: u64| #[trigger] x2.contains_key(a) implies {
        &&& o2.contains_key(x2[a]@)
        &&& o2[x2[a]@] == a
        &&& level_in(s2, a) == KycLevel::Approved || level_in(s2, a) == KycLevel::Revoked
    } by {
        assert(hashes.contains_key(a));
        if hashes.contains_key(who) {
            assert(owners[hashes[who]@] == who);
        }
    }
    assert forall|a: u64| #![trigger level_in(s2, a)]
        level_in(s2, a) == KycLevel::PendingReferral || level_in(s2, a) == KycLevel::ReferrerApproved implies {
            &&& applications.contains_key(a)
            &&& o2.contains_key(applications[a].identity_hash@)
            &&& o2[applications[a].identity_hash@] == a
            &&& !x2.contains_key(a)
        } by {
        assert(a != who);
        assert(level_in(statuses, a) == KycLevel::PendingReferral || level_in(statuses, a) == KycLevel::ReferrerApproved);
        if hashes.contains_key(who) {
            assert(owners[hashes[who]@] == who);
        }
    }
}

/// The hashes still agree when an applicant nobody has vouched for withdraws: their status is
/// cleared, their application goes, and so does its hash in the reverse index.
proof fn lemma_agree_cancelled(
    statuses: Map<u64, KycLevel>,
    applications: Map<u64, CitizenshipApplication>,
    hashes: Map<u64, [u8; 32]>,
    owners: Map<Seq<u8>, u64>,
    who: u64,
)
    requires
        hashes_agree(statuses, applications, hashes, owners),
        level_in(statuses, who) == KycLevel::PendingReferral,
    ensures
        hashes_agree(
            statuses.insert(who, KycLevel::NotStarted),
            applications.remove(who),
            hashes,
            owners.remove(applications[who].identity_hash@),
        ),
{
    let h = applications[who].identity_hash@;
    let s2 = statuses.insert(who, KycLevel::NotStarted);
    let a2 = applications.remove(who);
    let o2 = owners.remove(h);
    assert(level_in(statuses, who) == KycLevel::PendingReferral);
    assert(owners[h] == who);
    assert forall|a: u64| #[trigger] hashes.contains_key(a) implies {
        &&& o2.contains_key(hashes[a]@)
        &&& o2[hashes[a]@] == a
        &&& level_in(s2, a) == KycLevel::Approved || level_in(s2, a) == KycLevel::Revoked
    } by {
        assert(a != who);
    }
    assert forall|a: u64| #![trigger level_in(s2, a)]
        level_in(s2, a) == KycLevel::PendingReferral || level_in(s2, a) == KycLevel::ReferrerApproved implies {
            &&& a2.contains_key(a)
            &&& o2.contains_key(a2[a].identity_hash@)
            &&& o2[a2[a].identity_hash@] == a
            &&& !hashes.contains_key(a)
        } by {
        assert(a != who);
        assert(level_in(statuses, a) == KycLevel::PendingReferral || level_in(statuses, a) == KycLevel::ReferrerApproved);
    }
}

/// The hashes still agree when a founding citizen is written with a hash no other holds.
proof fn lemma_agree_founded(
    statuses: Map<u64, KycLevel>,
    applications: Map<u64, CitizenshipApplication>,
    hashes: Map<u64, [u8; 32]>,
    owners: Map<Seq<u8>, u64>,
    who: u64,
    h: [u8; 32],
)
    requires
        hashes_agree(statuses, applications, hashes, owners),
        forall|a: u64| #[trigger] level_in(statuses, a) != KycLevel::PendingReferral
            && level_in(statuses, a) != KycLevel::ReferrerApproved,
        forall|a: u64| #[trigger] hashes.contains_key(a) && a != who ==> hashes[a]@ != h@,
    ensures
        hashes_agree(statuses.insert(who, KycLevel::Approved), applications, hashes.insert(who, h), owners.insert(h@, who)),
{
    let s2 = statuses.insert(who, KycLevel::Approved);
    let x2 = hashes.insert(who, h);
    let o2 = owners.insert(h@, who);
    assert forall|a: u64| #[trigger] x2.contains_key(a) implies {
        &&& o2.contains_key(x2[a]@)
        &&& o2[x2[a]@] == a
        &&& level_in(s2, a) == KycLevel::Approved || level_in(s2, a) == KycLevel::Revoked
    } by {
        if a != who {
            assert(hashes.contains_key(a));
            assert(hashes[a]@ != h@);
        }
    }
    assert forall|a: u64| #![trigger level_in(s2, a)]
        !(level_in(s2, a) == KycLevel::PendingReferral || level_in(s2, a) == KycLevel::ReferrerApproved) by {
        if a != who {
            assert(level_in(statuses, a) != KycLevel::PendingReferral && level_in(statuses, a) != KycLevel::ReferrerApproved);
        }
    }
}

/// How many of `accounts` are in the honorary register and hold `Approved`.
pub open spec fn honorary_approved_count(accounts: Seq<u64>, honorary: Map<u64, ()>, statuses: Map<u64, KycLevel>) -> nat
    decreases accounts.len(),
{
    if accounts.len() == 0 {
        0
    } else {
        honorary_approved_count(accounts.drop_last(), honorary, statuses) + if honorary.contains_key(accounts.last())
            && statuses.contains_key(accounts.last()) && statuses[accounts.last()] == KycLevel::Approved {
            1nat
        } else {
            0nat
        }
    }
}

/// The listed accounts that are in the honorary register and hold `Approved`.
pub open spec fn honorary_approved_set(accounts: Seq<u64>, honorary: Map<u64, ()>, statuses: Map<u64, KycLevel>) -> Set<u64> {
    Set::new(|a: u64| accounts.contains(a) && honorary.contains_key(a) && statuses.contains_key(a)
        && statuses[a] == KycLevel::Approved)
}

/// Over a list without repeats, the count is the size of the set it counts.
proof fn lemma_honorary_approved_set(accounts: Seq<u64>, honorary: Map<u64, ()>, statuses: Map<u64, KycLevel>)
    requires
        forall|i: int, j: int| 0 <= i < j < accounts.len() ==> accounts[i] != accounts[j],
    ensures
        honorary_approved_set(accounts, honorary, statuses).finite(),
        honorary_approved_set(accounts, honorary, statuses).len() == honorary_approved_count(accounts, honorary, statuses),
    decreases accounts.len(),
{
    let set = honorary_approved_set(accounts, honorary, statuses);
    if accounts.len() == 0 {
        assert(set =~= Set::<u64>::empty());
    } else {
        let init = accounts.drop_last();
        let x = accounts.last();
        lemma_honorary_approved_set(init, honorary, statuses);
        let before = honorary_approved_set(init, honorary, statuses);
        assert(!init.contains(x)) by {
            if init.contains(x) {
                let i = choose|i: int| 0 <= i < init.len() && init[i] == x;
                assert(accounts[i] == accounts[accounts.len() - 1]);
            }
        }
        assert forall|a: u64| accounts.contains(a) <==> (init.contains(a) || a == x) by {
            if accounts.contains(a) && a != x {
                let i = choose|i: int| 0 <= i < accounts.len() && accounts[i] == a;
                assert(init[i] == a);
            }
            if init.contains(a) {
                let i = choose|i: int| 0 <= i < init.len() && init[i] == a;
                assert(accounts[i] == a);
            }
            if a == x {
                assert(accounts[accounts.len() - 1] == a);
            }
        }
        if honorary.contains_key(x) && statuses.contains_key(x) && statuses[x] == KycLevel::Approved {
            assert(set =~= before.insert(x));
        } else {
            assert(set =~= before);
        }
    }
}

impl Pezpallet {
    /// An account's status; `NotStarted` if it has none.
    pub open spec fn status(&self, who: u64) -> KycLevel {
        if self.kyc_statuses@.contains_key(who) {
            self.kyc_statuses@[who]
        } else {
            KycLevel::NotStarted
        }
    }

    /// The identity hashes in use, and who holds each.
    pub open spec fn hash_owners(&self) -> Map<Seq<u8>, u64> {
        owners_map(self.identity_hash_to_account@)
    }

    /// How many accounts hold `Approved`, counted record by record.
    pub open spec fn scan(&self) -> nat {
        approved_count(self.status_accounts@, self.kyc_statuses@)
    }

    /// The kept count agrees with the records, and is below the point where it would saturate.
    pub open spec fn counted(&self) -> bool {
        self.citizen_count as nat == self.scan() && self.scan() < u32::MAX
    }

    /// The register's bookkeeping: every account with a status is listed once, only such an
    /// account holds an identity hash, no identity hash is held twice, and the honorary register
    /// is finite.
    pub open spec fn wf(&self) -> bool {
        &&& forall|i: int, j: int|
            0 <= i < j < self.status_accounts@.len() ==> self.status_accounts@[i]
                != self.status_accounts@[j]
        &&& forall|a: u64| #[trigger]
            self.kyc_statuses@.contains_key(a) <==> self.status_accounts@.contains(a)
        &&& forall|a: u64| #[trigger]
            self.identity_hashes@.contains_key(a) ==> self.kyc_statuses@.contains_key(a)
        &&& hashes_distinct(self.identity_hash_to_account@)
        &&& self.honorary_citizens@.dom().finite()
    }

    /// Everything but the event log is as it was.
    pub open spec fn same_storage(&self, other: &Self) -> bool {
        &&& self.config == other.config
        &&& self.applications@ == other.applications@
        &&& self.kyc_statuses@ == other.kyc_statuses@
        &&& self.status_accounts@ == other.status_accounts@
        &&& self.identity_hashes@ == other.identity_hashes@
        &&& self.citizen_since@ == other.citizen_since@
        &&& self.identity_hash_to_account@ == other.identity_hash_to_account@
        &&& self.citizen_referrers@ == other.citizen_referrers@
        &&& self.citizen_count == other.citizen_count
        &&& self.approved_by_fallback@ == other.approved_by_fallback@
        &&& self.honorary_citizens@ == other.honorary_citizens@
        &&& self.honorary_citizen_count == other.honorary_citizen_count
    }

    /// Nothing changed, not even the event log.
    pub open spec fn unchanged(&self, other: &Self) -> bool {
        self.same_storage(other) && self.events@ == other.events@
    }

    /// The honorary register and its count are as in `other`.
    pub open spec fn same_honorary(&self, other: &Self) -> bool {
        &&& self.honorary_citizens@ == other.honorary_citizens@
        &&& self.honorary_citizen_count == other.honorary_citizen_count
    }

    /// The status, the status list and the count after giving `who` the status `level`.
    pub open spec fn status_set(&self, old: &Self, who: u64, level: KycLevel) -> bool {
        &&& self.kyc_statuses@ == old.kyc_statuses@.insert(who, level)
        &&& self.status_accounts@ == if old.kyc_statuses@.contains_key(who) {
            old.status_accounts@
        } else {
            old.status_accounts@.push(who)
        }
    }

    /// The register before anyone has applied.
    pub fn new(config: Config) -> (r: Self)
        ensures
            r.wf(),
            r.hashes_consistent(),
            r.counted(),
            r.honorary_counted(),
            r.config == config,
            r.applications@ == Map::<u64, CitizenshipApplication>::empty(),
            r.kyc_statuses@ == Map::<u64, KycLevel>::empty(),
            r.identity_hashes@ == Map::<u64, [u8; 32]>::empty(),
            r.citizen_since@ == Map::<u64, u64>::empty(),
            r.hash_owners() == Map::<Seq<u8>, u64>::empty(),
            r.citizen_referrers@ == Map::<u64, u64>::empty(),
            r.citizen_count == 0,
            r.approved_by_fallback@ == Map::<u64, ()>::empty(),
            r.honorary_citizens@ == Map::<u64, ()>::empty(),
            r.honorary_citizen_count == 0,
            r.events@ == Seq::<Event>::empty(),
    {
        proof {
            broadcast use vstd::std_specs::hash::axiom_u64_obeys_hash_table_key_model;
        }
        let r = Pezpallet {
            config,
            applications: HashMapWithView::new(),
            kyc_statuses: HashMapWithView::new(),
            status_accounts: Vec::new(),
            identity_hashes: HashMapWithView::new(),
            citizen_since: HashMapWithView::new(),
            identity_hash_to_account: Vec::new(),
            citizen_referrers: HashMapWithView::new(),
            citizen_count: 0,
            approved_by_fallback: HashMapWithView::new(),
            honorary_citizens: HashMapWithView::new(),
            honorary_citizen_count: 0,
            events: Vec::new(),
        };
        assert(r.hash_owners() =~= Map::<Seq<u8>, u64>::empty());
        r
    }

    /// Give `who` a status, listing the account if it had none.
    fn set_status(&mut self, who: u64, level: KycLevel)
        requires
            old(self).wf(),
        ensures
            final(self).wf(),
            final(self).status_set(old(self), who, level),
            final(self).scan() + (if old(self).status(who) == KycLevel::Approved {
                1int
            } else {
                0int
            }) == old(self).scan() + (if level == KycLevel::Approved {
                1int
            } else {
                0int
            }),
            final(self).config == old(self).config,
            final(self).applications@ == old(self).applications@,
            final(self).identity_hashes@ == old(self).identity_hashes@,
            final(self).citizen_since@ == old(self).citizen_since@,
            final(self).identity_hash_to_account@ == old(self).identity_hash_to_account@,
            final(self).citizen_referrers@ == old(self).citizen_referrers@,
            final(self).citizen_count == old(self).citizen_count,
            final(self).approved_by_fallback@ == old(self).approved_by_fallback@,
            final(self).honorary_citizens@ == old(self).honorary_citizens@,
            final(self).honorary_citizen_count == old(self).honorary_citizen_count,
            final(self).events@ == old(self).events@,
    {
        let ghost old_self = *self;
        if !self.kyc_statuses.contains_key(&who) {
            proof {
                assert(!old_self.status_accounts@.contains(who));
                lemma_approved_count_push(old_self.status_accounts@, old_self.kyc_statuses@, who);
            }
            self.status_accounts.push(who);
            proof {
                assert forall|i: int, j: int|
                    0 <= i < j < self.status_accounts@.len() implies self.status_accounts@[i]
                        != self.status_accounts@[j] by {
                    if j == self.status_accounts@.len() - 1 {
                        assert(old_self.status_accounts@.contains(self.status_accounts@[i]));
                    }
                }
            }
        }
        let ghost mid = *self;
        proof {
            lemma_approved_count_update(mid.status_accounts@, mid.kyc_statuses@, who, level);
            assert(mid.status_accounts@.contains(who)) by {
                if old_self.kyc_statuses@.contains_key(who) {
                } else {
                    assert(mid.status_accounts@[mid.status_accounts@.len() - 1] == who);
                }
            }
        }
        self.kyc_statuses.insert(who, level);
        proof {
            assert forall|a: u64| #[trigger]
                self.kyc_statuses@.contains_key(a) <==> self.status_accounts@.contains(a) by {
                if a != who {
                    assert(self.kyc_statuses@.contains_key(a) == old_self.kyc_statuses@.contains_key(a));
                    if !old_self.kyc_statuses@.contains_key(who) {
                        assert(self.status_accounts@.contains(a) == old_self.status_accounts@.contains(a)) by {
                            if self.status_accounts@.contains(a) {
                                let i = choose|i: int| 0 <= i < self.status_accounts@.len() && self.status_accounts@[i] == a;
                                assert(old_self.status_accounts@[i] == a);
                            }
                            if old_self.status_accounts@.contains(a) {
                                let i = choose|i: int| 0 <= i < old_self.status_accounts@.len() && old_self.status_accounts@[i] == a;
                                assert(self.status_accounts@[i] == a);
                            }
                        }
                    }
                }
            }
        }
    }

    /// Where an identity hash is in the list of hashes in use.
    fn find_hash(&self, h: &[u8; 32]) -> (r: Option<usize>)
        ensures
            match r {
                Some(i) => i < self.identity_hash_to_account@.len()
                    && self.identity_hash_to_account@[i as int].0@ == h@,
                None => !self.hash_owners().contains_key(h@),
            },
    {
        let mut i: usize = 0;
        while i < self.identity_hash_to_account.len()
            invariant
                0 <= i <= self.identity_hash_to_account@.len(),
                forall|j: int| 0 <= j < i ==> self.identity_hash_to_account@[j].0@ != h@,
            decreases self.identity_hash_to_account@.len() - i,
        {
            if same_hash(&self.identity_hash_to_account[i].0, h) {
                return Some(i);
            }
            i = i + 1;
        }
        proof {
            lemma_owners_contains(self.identity_hash_to_account@, h@);
        }
        None
    }

    /// Whether an identity hash is held by anyone.
    pub fn identity_hash_taken(&self, h: &[u8; 32]) -> (r: bool)
        ensures
            r == self.hash_owners().contains_key(h@),
    {
        match self.find_hash(h) {
            Some(i) => {
                proof {
                    lemma_owners_contains(self.identity_hash_to_account@, h@);
                }
                true
            },
            None => false,
        }
    }

    /// Who holds an identity hash.
    pub fn identity_hash_owner(&self, h: &[u8; 32]) -> (r: Option<u64>)
        requires
            self.wf(),
        ensures
            r == if self.hash_owners().contains_key(h@) {
                Some(self.hash_owners()[h@])
            } else {
                None::<u64>
            },
    {
        match self.find_hash(h) {
            Some(i) => {
                proof {
                    lemma_owners_at(self.identity_hash_to_account@, i as int);
                }
                Some(self.identity_hash_to_account[i].1)
            },
            None => None,
        }
    }

    /// Record that `who` holds `h`.
    fn hash_insert(&mut self, h: [u8; 32], who: u64)
        requires
            old(self).wf(),
        ensures
            final(self).wf(),
            final(self).hash_owners() == old(self).hash_owners().insert(h@, who),
            final(self).config == old(self).config,
            final(self).applications@ == old(self).applications@,
            final(self).kyc_statuses@ == old(self).kyc_statuses@,
            final(self).status_accounts@ == old(self).status_accounts@,
            final(self).identity_hashes@ == old(self).identity_hashes@,
            final(self).citizen_since@ == old(self).citizen_since@,
            final(self).citizen_referrers@ == old(self).citizen_referrers@,
            final(self).citizen_count == old(self).citizen_count,
            final(self).approved_by_fallback@ == old(self).approved_by_fallback@,
            final(self).honorary_citizens@ == old(self).honorary_citizens@,
            final(self).honorary_citizen_count == old(self).honorary_citizen_count,
            final(self).events@ == old(self).events@,
    {
        match self.find_hash(&h) {
            Some(i) => {
                proof {
                    lemma_owners_update(self.identity_hash_to_account@, i as int, (h, who));
                }
                self.identity_hash_to_account.set(i, (h, who));
            },
            None => {
                proof {
                    lemma_owners_contains(self.identity_hash_to_account@, h@);
                }
                let ghost before = self.identity_hash_to_account@;
                self.identity_hash_to_account.push((h, who));
                proof {
                    assert(self.identity_hash_to_account@.drop_last() =~= before);
                    assert forall|a: int, b: int| 0 <= a < b < self.identity_hash_to_account@.len() implies
                        self.identity_hash_to_account@[a].0@ != self.identity_hash_to_account@[b].0@ by {
                        if b == before.len() {
                            assert(before[a].0@ != h@);
                        }
                    }
                }
            },
        }
    }

    /// Release an identity hash.
    fn hash_remove(&mut self, h: &[u8; 32])
        requires
            old(self).wf(),
        ensures
            final(self).wf(),
            final(self).hash_owners() == old(self).hash_owners().remove(h@),
            final(self).config == old(self).config,
            final(self).applications@ == old(self).applications@,
            final(self).kyc_statuses@ == old(self).kyc_statuses@,
            final(self).status_accounts@ == old(self).status_accounts@,
            final(self).identity_hashes@ == old(self).identity_hashes@,
            final(self).citizen_since@ == old(self).citizen_since@,
            final(self).citizen_referrers@ == old(self).citizen_referrers@,
            final(self).citizen_count == old(self).citizen_count,
            final(self).approved_by_fallback@ == old(self).approved_by_fallback@,
            final(self).honorary_citizens@ == old(self).honorary_citizens@,
            final(self).honorary_citizen_count == old(self).honorary_citizen_count,
            final(self).events@ == old(self).events@,
    {
        match self.find_hash(h) {
            Some(i) => {
                proof {
                    lemma_owners_remove(self.identity_hash_to_account@, i as int);
                }
                self.identity_hash_to_account.remove(i);
            },
            None => {
                assert(self.hash_owners().remove(h@) =~= self.hash_owners());
            },
        }
    }

    /// An account's status.
    pub fn kyc_status_of(&self, who: u64) -> (r: KycLevel)
        ensures
            r == self.status(who),
    {
        match self.kyc_statuses.get(&who) {
            Some(l) => *l,
            None => KycLevel::NotStarted,
        }
    }

    /// Whether an account is a citizen.
    pub fn is_citizen(&self, who: &u64) -> (r: bool)
        ensures
            r == (self.status(*who) == KycLevel::Approved),
    {
        self.kyc_status_of(*who) == KycLevel::Approved
    }

    /// How many citizens there are, as kept.
    pub fn citizen_count(&self) -> (r: u32)
        ensures
            r == self.citizen_count,
    {
        self.citizen_count
    }

    /// How many citizens there are, counted record by record.
    pub fn count_citizens_by_scan(&self) -> (r: u32)
        ensures
            r == #[verifier::truncate] (self.scan() as u32),
    {
        let mut count: usize = 0;
        let mut i: usize = 0;
        while i < self.status_accounts.len()
            invariant
                0 <= i <= self.status_accounts@.len(),
                count as nat == approved_count(self.status_accounts@.subrange(0, i as int), self.kyc_statuses@),
                count <= i,
            decreases self.status_accounts@.len() - i,
        {
            let who = self.status_accounts[i];
            proof {
                assert(self.status_accounts@.subrange(0, i + 1).drop_last() =~= self.status_accounts@.subrange(0, i as int));
            }
            let l = match self.kyc_statuses.get(&who) {
                Some(l) => *l,
                None => KycLevel::NotStarted,
            };
            if l == KycLevel::Approved {
                proof {
                    assert(self.kyc_statuses@.contains_key(who));
                }
                count = count + 1;
            }
            i = i + 1;
        }
        proof {
            assert(self.status_accounts@.subrange(0, self.status_accounts@.len() as int) =~= self.status_accounts@);
        }
        #[verifier::truncate] (count as u32)
    }

    /// The referrer an application actually gets: the one named, if that is a citizen other
    /// than the applicant, and the founder otherwise.
    pub open spec fn actual_referrer(&self, applicant: u64, referrer: Option<u64>) -> u64 {
        match referrer {
            Some(r) => if r != applicant && self.status(r) == KycLevel::Approved {
                r
            } else {
                self.config.default_referrer
            },
            None => self.config.default_referrer,
        }
    }

    /// Naming a referrer who is not a citizen does not refuse an application: the founder
    /// stands in. The application's referrer is the one named exactly when that account is an
    /// approved citizen other than the applicant, and the founder otherwise; and when the
    /// founder is a citizen, the application is refused only for the applicant's own status,
    /// a hash already in use, or the applicant being the founder.
    pub proof fn lemma_a_non_citizen_referrer_falls_back_to_the_founder(
        &self,
        applicant: u64,
        identity_hash: [u8; 32],
        referrer: Option<u64>,
    )
        ensures
            forall|r: u64| referrer == Some(r) && r != applicant && self.status(r) == KycLevel::Approved
                ==> self.actual_referrer(applicant, referrer) == r,
            (forall|r: u64| referrer == Some(r) ==> r == applicant || self.status(r) != KycLevel::Approved)
                ==> self.actual_referrer(applicant, referrer) == self.config.default_referrer,
            self.status(self.config.default_referrer) == KycLevel::Approved
                && self.status(applicant) == KycLevel::NotStarted
                && !self.hash_owners().contains_key(identity_hash@)
                && applicant != self.config.default_referrer
                ==> self.apply_error(applicant, identity_hash, referrer) is None,
    {
    }

    /// Why an application would be refused, if it would be.
    pub open spec fn apply_error(&self, applicant: u64, identity_hash: [u8; 32], referrer: Option<u64>) -> Option<Error> {
        let a = self.actual_referrer(applicant, referrer);
        if self.status(applicant) != KycLevel::NotStarted {
            Some(Error::ApplicationAlreadyExists)
        } else if self.hash_owners().contains_key(identity_hash@) {
            Some(Error::IdentityHashAlreadyUsed)
        } else if self.status(a) != KycLevel::Approved {
            Some(Error::ReferrerNotCitizen)
        } else if applicant == a {
            Some(Error::SelfReferral)
        } else {
            None
        }
    }

    /// Whether an application would be accepted, and who its referrer would be. The deposit is
    /// reserved only once this says yes.
    pub fn apply_for_citizenship_check(&self, applicant: u64, identity_hash: &[u8; 32], referrer: Option<u64>) -> (r: Result<u64, Error>)
        ensures
            match self.apply_error(applicant, *identity_hash, referrer) {
                Some(e) => r == Err::<u64, Error>(e),
                None => r == Ok::<u64, Error>(self.actual_referrer(applicant, referrer)),
            },
    {
        if self.kyc_status_of(applicant) != KycLevel::NotStarted {
            return Err(Error::ApplicationAlreadyExists);
        }
        if self.identity_hash_taken(identity_hash) {
            return Err(Error::IdentityHashAlreadyUsed);
        }
        let actual_referrer = match referrer {
            Some(r) => if r != applicant && self.kyc_status_of(r) == KycLevel::Approved {
                r
            } else {
                self.config.default_referrer
            },
            None => self.config.default_referrer,
        };
        if self.kyc_status_of(actual_referrer) != KycLevel::Approved {
            return Err(Error::ReferrerNotCitizen);
        }
        if applicant == actual_referrer {
            return Err(Error::SelfReferral);
        }
        Ok(actual_referrer)
    }

    /// Apply for citizenship with the hash of one's documents, a referrer and, optionally, who
    /// brought one here. The hash is reserved at once. `deposit_reserved` says whether the
    /// application deposit could be reserved.
    pub fn apply_for_citizenship(
        &mut self,
        applicant: u64,
        identity_hash: [u8; 32],
        referrer: Option<u64>,
        inviter: Option<u64>,
        now: u64,
        deposit_reserved: bool,
    ) -> (r: Result<(), Error>)
        requires
            old(self).wf(),
        ensures
            final(self).wf(),
            old(self).counted() ==> final(self).counted(),
            old(self).hashes_consistent() ==> final(self).hashes_consistent(),
            old(self).honorary_counted() ==> final(self).honorary_counted(),
            match old(self).apply_error(applicant, identity_hash, referrer) {
                Some(e) => r == Err::<(), Error>(e) && final(self).unchanged(old(self)),
                None => if !deposit_reserved {
                    r == Err::<(), Error>(Error::DepositNotReserved) && final(self).unchanged(old(self))
                } else {
                    let a = old(self).actual_referrer(applicant, referrer);
                    &&& r == Ok::<(), Error>(())
                    &&& final(self).hash_owners() == old(self).hash_owners().insert(identity_hash@, applicant)
                    &&& final(self).applications@ == old(self).applications@.insert(
                        applicant,
                        CitizenshipApplication {
                            identity_hash,
                            referrer: a,
                            inviter: match inviter {
                                Some(i) => if i != applicant {
                                    Some(i)
                                } else {
                                    None
                                },
                                None => None,
                            },
                            applied_at: now,
                        },
                    )
                    &&& final(self).status_set(old(self), applicant, KycLevel::PendingReferral)
                    &&& final(self).citizen_count == old(self).citizen_count
                    &&& final(self).identity_hashes@ == old(self).identity_hashes@
                    &&& final(self).citizen_referrers@ == old(self).citizen_referrers@
                    &&& final(self).events@ == old(self).events@.push(
                        Event::CitizenshipApplied { applicant, referrer: a, identity_hash },
                    )
                    &&& final(self).config == old(self).config
                    &&& final(self).citizen_since@ == old(self).citizen_since@
                    &&& final(self).approved_by_fallback@ == old(self).approved_by_fallback@
                    &&& final(self).same_honorary(old(self))
                },
            },
    {
        let actual_referrer = self.apply_for_citizenship_check(applicant, &identity_hash, referrer)?;
        if !deposit_reserved {
            return Err(Error::DepositNotReserved);
        }
        self.hash_insert(identity_hash, applicant);
        let inviter = match inviter {
            Some(i) => if i != applicant {
                Some(i)
            } else {
                None
            },
            None => None,
        };
        self.applications.insert(
            applicant,
            CitizenshipApplication { identity_hash, referrer: actual_referrer, inviter, applied_at: now },
        );
        self.set_status(applicant, KycLevel::PendingReferral);
        self.events.push(
            Event::CitizenshipApplied { applicant, referrer: actual_referrer, identity_hash },
        );
        proof {
            if old(self).hashes_consistent() {
                let application = CitizenshipApplication { identity_hash, referrer: actual_referrer, inviter, applied_at: now };
                lemma_agree_applied(old(self).kyc_statuses@, old(self).applications@, old(self).identity_hashes@, old(self).hash_owners(), applicant, application);
                assert(self.kyc_statuses@ == old(self).kyc_statuses@.insert(applicant, KycLevel::PendingReferral));
                assert(self.applications@ == old(self).applications@.insert(applicant, application));
            }
        }
        Ok(())
    }

    /// Why `caller` may not approve `applicant`'s application at `now`, if they may not.
    /// `vouching_remaining` is what the vouching record says the caller has left.
    pub open spec fn approve_error(&self, caller: u64, applicant: u64, now: u64, vouching_remaining: Option<u32>) -> Option<Error> {
        let founder = self.config.default_referrer;
        if caller != founder && !self.citizen_since@.contains_key(caller) {
            Some(Error::NotEligibleToVouch)
        } else if caller != founder && !(self.citizen_since@[caller] == 0 || sat_sub_u64(now, self.citizen_since@[caller])
            >= self.config.vouching_waiting_period) {
            Some(Error::VouchingTooSoon)
        } else if caller != founder && vouching_remaining == Some(0u32) {
            Some(Error::VouchingCapacityReached)
        } else if self.status(applicant) != KycLevel::PendingReferral {
            Some(Error::CannotApproveInCurrentState)
        } else if !self.applications@.contains_key(applicant) {
            Some(Error::ApplicationNotFound)
        } else if self.applications@[applicant].referrer != caller && !(caller == founder && now
            > sat_add_u64(self.applications@[applicant].applied_at, self.config.referral_fallback_period)) {
            Some(Error::NotTheReferrer)
        } else if self.status(caller) != KycLevel::Approved {
            Some(Error::ReferrerNotCitizen)
        } else {
            None
        }
    }

    /// `caller` vouches for `applicant`. The named referrer may do so however late; after the
    /// fallback period the founder may instead, and becomes the referrer of record.
    /// `vouching_remaining` is what the vouching record says the caller has left.
    pub fn approve_referral(&mut self, caller: u64, applicant: u64, now: u64, vouching_remaining: Option<u32>) -> (r: Result<(), Error>)
        requires
            old(self).wf(),
        ensures
            final(self).wf(),
            old(self).hashes_consistent() ==> final(self).hashes_consistent(),
            old(self).honorary_counted() ==> final(self).honorary_counted(),
            old(self).counted() ==> final(self).counted(),
            match old(self).approve_error(caller, applicant, now, vouching_remaining) {
                Some(e) => r == Err::<(), Error>(e) && final(self).unchanged(old(self)),
                None => {
                    let app = old(self).applications@[applicant];
                    let fallback = app.referrer != caller;
                    &&& r == Ok::<(), Error>(())
                    &&& final(self).applications@ == if fallback {
                        old(self).applications@.insert(applicant, CitizenshipApplication { referrer: caller, ..app })
                    } else {
                        old(self).applications@
                    }
                    &&& final(self).approved_by_fallback@ == if fallback {
                        old(self).approved_by_fallback@.insert(applicant, ())
                    } else {
                        old(self).approved_by_fallback@
                    }
                    &&& final(self).status_set(old(self), applicant, KycLevel::ReferrerApproved)
                    &&& final(self).hash_owners() == old(self).hash_owners()
                    &&& final(self).citizen_count == old(self).citizen_count
                    &&& final(self).events@ == old(self).events@.push(
                        Event::ReferralApproved { referrer: caller, applicant },
                    )
                    &&& final(self).config == old(self).config
                    &&& final(self).identity_hashes@ == old(self).identity_hashes@
                    &&& final(self).citizen_since@ == old(self).citizen_since@
                    &&& final(self).citizen_referrers@ == old(self).citizen_referrers@
                    &&& final(self).same_honorary(old(self))
                },
            },
    {
        let founder = self.config.default_referrer;
        if caller != founder {
            let since = match self.citizen_since.get(&caller) {
                Some(s) => *s,
                None => return Err(Error::NotEligibleToVouch),
            };
            let admitted_at_genesis = since == 0;
            if !(admitted_at_genesis || now.saturating_sub(since) >= self.config.vouching_waiting_period) {
                return Err(Error::VouchingTooSoon);
            }
            if vouching_remaining == Some(0u32) {
                return Err(Error::VouchingCapacityReached);
            }
        }
        if self.kyc_status_of(applicant) != KycLevel::PendingReferral {
            return Err(Error::CannotApproveInCurrentState);
        }
        let mut application = match self.applications.get(&applicant) {
            Some(a) => *a,
            None => return Err(Error::ApplicationNotFound),
        };
        let fallback_open = now > application.applied_at.saturating_add(self.config.referral_fallback_period);
        let fallback = application.referrer != caller;
        if fallback && !(caller == founder && fallback_open) {
            return Err(Error::NotTheReferrer);
        }
        if self.kyc_status_of(caller) != KycLevel::Approved {
            return Err(Error::ReferrerNotCitizen);
        }
        if fallback {
            application.referrer = caller;
            self.applications.insert(applicant, application);
            self.approved_by_fallback.insert(applicant, ());
        }
        self.set_status(applicant, KycLevel::ReferrerApproved);
        self.events.push(Event::ReferralApproved { referrer: caller, applicant });
        proof {
            if old(self).hashes_consistent() {
                lemma_agree_vouched(old(self).kyc_statuses@, old(self).applications@, old(self).identity_hashes@, old(self).hash_owners(), applicant, application);
                assert(self.applications@ =~= old(self).applications@.insert(applicant, application));
            }
        }
        Ok(())
    }

    /// Why `applicant` may not confirm their citizenship, if they may not.
    pub open spec fn confirm_error(&self, applicant: u64) -> Option<Error> {
        if self.status(applicant) != KycLevel::ReferrerApproved {
            Some(Error::CannotConfirmInCurrentState)
        } else if !self.applications@.contains_key(applicant) {
            Some(Error::ApplicationNotFound)
        } else {
            None
        }
    }

    /// Whether `applicant` may confirm their citizenship. The citizen NFT is minted only once
    /// this says yes.
    pub fn confirm_citizenship_check(&self, applicant: u64) -> (r: Result<(), Error>)
        ensures
            match self.confirm_error(applicant) {
                Some(e) => r == Err::<(), Error>(e),
                None => r == Ok::<(), Error>(()),
            },
    {
        if self.kyc_status_of(applicant) != KycLevel::ReferrerApproved {
            return Err(Error::CannotConfirmInCurrentState);
        }
        if !self.applications.contains_key(&applicant) {
            return Err(Error::ApplicationNotFound);
        }
        Ok(())
    }

    /// The applicant confirms their own citizenship once their referrer has vouched. The
    /// application is closed, the hash kept for good, the referrer recorded, and the citizen
    /// counted. `nft_minted` says whether the citizen NFT was minted; without it nothing
    /// happens. Returns who the referral hook is about; the deposit is returned to the
    /// applicant.
    pub fn confirm_citizenship(&mut self, applicant: u64, now: u64, nft_minted: bool) -> (r: Result<Approval, Error>)
        requires
            old(self).wf(),
        ensures
            final(self).wf(),
            old(self).hashes_consistent() ==> final(self).hashes_consistent(),
            old(self).honorary_counted() ==> final(self).honorary_counted(),
            old(self).counted() ==> final(self).citizen_count as nat == final(self).scan(),
            match old(self).confirm_error(applicant) {
                Some(e) => r == Err::<Approval, Error>(e) && final(self).unchanged(old(self)),
                None => if !nft_minted {
                    r == Err::<Approval, Error>(Error::CitizenNftFailed) && final(self).unchanged(old(self))
                } else {
                    let app = old(self).applications@[applicant];
                    &&& r == Ok::<Approval, Error>(Approval { who: applicant, referrer: app.referrer, inviter: app.inviter })
                    &&& final(self).applications@ == old(self).applications@.remove(applicant)
                    &&& final(self).identity_hashes@ == old(self).identity_hashes@.insert(applicant, app.identity_hash)
                    &&& final(self).citizen_since@ == old(self).citizen_since@.insert(applicant, now)
                    &&& final(self).hash_owners() == old(self).hash_owners().insert(app.identity_hash@, applicant)
                    &&& final(self).citizen_referrers@ == old(self).citizen_referrers@.insert(applicant, app.referrer)
                    &&& final(self).status_set(old(self), applicant, KycLevel::Approved)
                    &&& final(self).citizen_count == sat_add_u32(old(self).citizen_count, 1)
                    &&& final(self).approved_by_fallback@ == old(self).approved_by_fallback@
                    &&& final(self).events@ == old(self).events@.push(Event::CitizenshipConfirmed { who: applicant })
                    &&& final(self).config == old(self).config
                    &&& final(self).same_honorary(old(self))
                },
            },
    {
        self.confirm_citizenship_check(applicant)?;
        if !nft_minted {
            return Err(Error::CitizenNftFailed);
        }
        let application = self.applications.remove(&applicant).unwrap();
        self.identity_hashes.insert(applicant, application.identity_hash);
        self.citizen_since.insert(applicant, now);
        self.hash_insert(application.identity_hash, applicant);
        self.citizen_referrers.insert(applicant, application.referrer);
        self.set_status(applicant, KycLevel::Approved);
        self.citizen_count = self.citizen_count.saturating_add(1);
        self.events.push(Event::CitizenshipConfirmed { who: applicant });
        proof {
            if old(self).hashes_consistent() {
                lemma_agree_confirmed(old(self).kyc_statuses@, old(self).applications@, old(self).identity_hashes@, old(self).hash_owners(), applicant);
            }
        }
        Ok(Approval { who: applicant, referrer: application.referrer, inviter: application.inviter })
    }

    /// Governance revokes a citizenship. The citizen NFT is burnt and the referral penalty
    /// applied by the caller; a failed burn does not stop the revocation.
    pub fn revoke_citizenship(&mut self, who: u64) -> (r: Result<(), Error>)
        requires
            old(self).wf(),
        ensures
            final(self).wf(),
            old(self).hashes_consistent() ==> final(self).hashes_consistent(),
            old(self).honorary_counted() ==> final(self).honorary_counted(),
            old(self).counted() ==> final(self).counted(),
            old(self).status(who) != KycLevel::Approved ==> r == Err::<(), Error>(Error::CannotRevokeInCurrentState)
                && final(self).unchanged(old(self)),
            old(self).status(who) == KycLevel::Approved ==> {
                &&& r == Ok::<(), Error>(())
                &&& final(self).status_set(old(self), who, KycLevel::Revoked)
                &&& final(self).citizen_count == sat_sub_u32(old(self).citizen_count, 1)
                &&& final(self).applications@ == old(self).applications@
                &&& final(self).identity_hashes@ == old(self).identity_hashes@
                &&& final(self).hash_owners() == old(self).hash_owners()
                &&& final(self).citizen_referrers@ == old(self).citizen_referrers@
                &&& final(self).events@ == old(self).events@.push(Event::CitizenshipRevoked { who })
                &&& final(self).config == old(self).config
                &&& final(self).citizen_since@ == old(self).citizen_since@
                &&& final(self).approved_by_fallback@ == old(self).approved_by_fallback@
                &&& final(self).same_honorary(old(self))
            },
    {
        if self.kyc_status_of(who) != KycLevel::Approved {
            return Err(Error::CannotRevokeInCurrentState);
        }
        self.set_status(who, KycLevel::Revoked);
        self.citizen_count = self.citizen_count.saturating_sub(1);
        self.events.push(Event::CitizenshipRevoked { who });
        proof {
            if old(self).hashes_consistent() {
                lemma_agree_settled_status(old(self).kyc_statuses@, old(self).applications@, old(self).identity_hashes@, old(self).hash_owners(), who, KycLevel::Revoked);
            }
        }
        Ok(())
    }

    /// Give back a revoked citizenship, straight to `Approved`. `nft_minted` says whether the
    /// citizen NFT was minted again; without it nothing happens.
    pub fn restore_citizenship(&mut self, who: u64, nft_minted: bool) -> (r: Result<(), Error>)
        requires
            old(self).wf(),
        ensures
            final(self).wf(),
            old(self).hashes_consistent() ==> final(self).hashes_consistent(),
            old(self).honorary_counted() ==> final(self).honorary_counted(),
            old(self).counted() ==> final(self).citizen_count as nat == final(self).scan(),
            old(self).status(who) != KycLevel::Revoked ==> r == Err::<(), Error>(Error::NotRevoked)
                && final(self).unchanged(old(self)),
            old(self).status(who) == KycLevel::Revoked && !nft_minted ==> r == Err::<(), Error>(Error::CitizenNftFailed)
                && final(self).unchanged(old(self)),
            old(self).status(who) == KycLevel::Revoked && nft_minted ==> {
                &&& r == Ok::<(), Error>(())
                &&& final(self).status_set(old(self), who, KycLevel::Approved)
                &&& final(self).citizen_count == sat_add_u32(old(self).citizen_count, 1)
                &&& final(self).applications@ == old(self).applications@
                &&& final(self).hash_owners() == old(self).hash_owners()
                &&& final(self).events@ == old(self).events@.push(Event::CitizenshipRestored { who })
                &&& final(self).config == old(self).config
                &&& final(self).identity_hashes@ == old(self).identity_hashes@
                &&& final(self).citizen_since@ == old(self).citizen_since@
                &&& final(self).citizen_referrers@ == old(self).citizen_referrers@
                &&& final(self).approved_by_fallback@ == old(self).approved_by_fallback@
                &&& final(self).same_honorary(old(self))
            },
    {
        if self.kyc_status_of(who) != KycLevel::Revoked {
            return Err(Error::NotRevoked);
        }
        if !nft_minted {
            return Err(Error::CitizenNftFailed);
        }
        self.set_status(who, KycLevel::Approved);
        self.citizen_count = self.citizen_count.saturating_add(1);
        self.events.push(Event::CitizenshipRestored { who });
        proof {
            if old(self).hashes_consistent() {
                lemma_agree_settled_status(old(self).kyc_statuses@, old(self).applications@, old(self).identity_hashes@, old(self).hash_owners(), who, KycLevel::Approved);
            }
        }
        Ok(())
    }

    /// A citizen gives up their citizenship; their identity hash is released. `nft_burned`
    /// says whether the citizen NFT was burnt; without it nothing happens.
    pub fn renounce_citizenship(&mut self, who: u64, nft_burned: bool) -> (r: Result<(), Error>)
        requires
            old(self).wf(),
        ensures
            final(self).wf(),
            old(self).hashes_consistent() ==> final(self).hashes_consistent(),
            old(self).honorary_counted() ==> final(self).honorary_counted(),
            old(self).counted() ==> final(self).counted(),
            old(self).status(who) != KycLevel::Approved ==> r == Err::<(), Error>(Error::NotACitizen)
                && final(self).unchanged(old(self)),
            old(self).status(who) == KycLevel::Approved && !nft_burned ==> r == Err::<(), Error>(Error::CitizenNftFailed)
                && final(self).unchanged(old(self)),
            old(self).status(who) == KycLevel::Approved && nft_burned ==> {
                &&& r == Ok::<(), Error>(())
                &&& final(self).status_set(old(self), who, KycLevel::NotStarted)
                &&& final(self).citizen_count == sat_sub_u32(old(self).citizen_count, 1)
                &&& final(self).identity_hashes@ == old(self).identity_hashes@.remove(who)
                &&& final(self).hash_owners() == if old(self).identity_hashes@.contains_key(who) {
                    old(self).hash_owners().remove(old(self).identity_hashes@[who]@)
                } else {
                    old(self).hash_owners()
                }
                &&& final(self).applications@ == old(self).applications@
                &&& final(self).events@ == old(self).events@.push(Event::CitizenshipRenounced { who })
                &&& final(self).config == old(self).config
                &&& final(self).citizen_since@ == old(self).citizen_since@
                &&& final(self).citizen_referrers@ == old(self).citizen_referrers@
                &&& final(self).approved_by_fallback@ == old(self).approved_by_fallback@
                &&& final(self).same_honorary(old(self))
            },
    {
        if self.kyc_status_of(who) != KycLevel::Approved {
            return Err(Error::NotACitizen);
        }
        if !nft_burned {
            return Err(Error::CitizenNftFailed);
        }
        self.set_status(who, KycLevel::NotStarted);
        self.citizen_count = self.citizen_count.saturating_sub(1);
        match self.identity_hashes.remove(&who) {
            Some(h) => self.hash_remove(&h),
            None => {},
        }
        self.events.push(Event::CitizenshipRenounced { who });
        proof {
            if old(self).hashes_consistent() {
                lemma_agree_renounced(old(self).kyc_statuses@, old(self).applications@, old(self).identity_hashes@, old(self).hash_owners(), who);
            }
        }
        Ok(())
    }

    /// Withdraw an application nobody has vouched for yet; its identity hash is released and
    /// the deposit returned.
    pub fn cancel_application(&mut self, applicant: u64) -> (r: Result<(), Error>)
        requires
            old(self).wf(),
        ensures
            final(self).wf(),
            old(self).hashes_consistent() ==> final(self).hashes_consistent(),
            old(self).honorary_counted() ==> final(self).honorary_counted(),
            old(self).counted() ==> final(self).counted(),
            old(self).status(applicant) != KycLevel::PendingReferral ==> r == Err::<(), Error>(Error::CannotCancelInCurrentState)
                && final(self).unchanged(old(self)),
            old(self).status(applicant) == KycLevel::PendingReferral && !old(self).applications@.contains_key(applicant)
                ==> r == Err::<(), Error>(Error::ApplicationNotFound) && final(self).unchanged(old(self)),
            old(self).status(applicant) == KycLevel::PendingReferral && old(self).applications@.contains_key(applicant) ==> {
                &&& r == Ok::<(), Error>(())
                &&& final(self).applications@ == old(self).applications@.remove(applicant)
                &&& final(self).hash_owners() == old(self).hash_owners().remove(old(self).applications@[applicant].identity_hash@)
                &&& final(self).status_set(old(self), applicant, KycLevel::NotStarted)
                &&& final(self).citizen_count == old(self).citizen_count
                &&& final(self).identity_hashes@ == old(self).identity_hashes@
                &&& final(self).events@ == old(self).events@.push(Event::ApplicationCancelled { who: applicant })
                &&& final(self).config == old(self).config
                &&& final(self).citizen_since@ == old(self).citizen_since@
                &&& final(self).citizen_referrers@ == old(self).citizen_referrers@
                &&& final(self).approved_by_fallback@ == old(self).approved_by_fallback@
                &&& final(self).same_honorary(old(self))
            },
    {
        if self.kyc_status_of(applicant) != KycLevel::PendingReferral {
            return Err(Error::CannotCancelInCurrentState);
        }
        let application = match self.applications.remove(&applicant) {
            Some(a) => a,
            None => return Err(Error::ApplicationNotFound),
        };
        self.hash_remove(&application.identity_hash);
        self.set_status(applicant, KycLevel::NotStarted);
        self.events.push(Event::ApplicationCancelled { who: applicant });
        proof {
            if old(self).hashes_consistent() {
                lemma_agree_cancelled(old(self).kyc_statuses@, old(self).applications@, old(self).identity_hashes@, old(self).hash_owners(), applicant);
            }
        }
        Ok(())
    }

    /// Record someone the state has named a citizen: ordinary citizenship, noted in the
    /// honorary register.
    pub fn register_honorary_citizen(&mut self, who: u64) -> (r: Result<(), Error>)
        requires
            old(self).wf(),
        ensures
            final(self).wf(),
            old(self).hashes_consistent() ==> final(self).hashes_consistent(),
            old(self).honorary_counted() ==> final(self).honorary_counted(),
            old(self).counted() ==> final(self).citizen_count as nat == final(self).scan(),
            old(self).status(who) == KycLevel::Approved ==> r == Err::<(), Error>(Error::AlreadyACitizen)
                && final(self).unchanged(old(self)),
            old(self).status(who) != KycLevel::Approved ==> {
                &&& r == Ok::<(), Error>(())
                &&& final(self).status_set(old(self), who, KycLevel::Approved)
                &&& final(self).citizen_count == sat_add_u32(old(self).citizen_count, 1)
                &&& final(self).honorary_citizens@ == old(self).honorary_citizens@.insert(who, ())
                &&& final(self).honorary_citizen_count == if old(self).honorary_citizens@.contains_key(who) {
                    old(self).honorary_citizen_count
                } else {
                    sat_add_u32(old(self).honorary_citizen_count, 1)
                }
                &&& final(self).applications@ == old(self).applications@
                &&& final(self).hash_owners() == old(self).hash_owners()
                &&& final(self).events@ == old(self).events@.push(Event::HonoraryCitizenshipRegistered { who })
                &&& final(self).config == old(self).config
                &&& final(self).identity_hashes@ == old(self).identity_hashes@
                &&& final(self).citizen_since@ == old(self).citizen_since@
                &&& final(self).citizen_referrers@ == old(self).citizen_referrers@
                &&& final(self).approved_by_fallback@ == old(self).approved_by_fallback@
            },
    {
        if self.kyc_status_of(who) == KycLevel::Approved {
            return Err(Error::AlreadyACitizen);
        }
        self.set_status(who, KycLevel::Approved);
        self.citizen_count = self.citizen_count.saturating_add(1);
        if !self.honorary_citizens.contains_key(&who) {
            self.honorary_citizens.insert(who, ());
            self.honorary_citizen_count = self.honorary_citizen_count.saturating_add(1);
        }
        self.events.push(Event::HonoraryCitizenshipRegistered { who });
        proof {
            if old(self).hashes_consistent() {
                lemma_agree_settled_status(old(self).kyc_statuses@, old(self).applications@, old(self).identity_hashes@, old(self).hash_owners(), who, KycLevel::Approved);
            }
        }
        Ok(())
    }

    /// The referrer of a citizen, or else of a pending application.
    pub fn get_referrer(&self, who: &u64) -> (r: Option<u64>)
        ensures
            r == if self.citizen_referrers@.contains_key(*who) {
                Some(self.citizen_referrers@[*who])
            } else if self.applications@.contains_key(*who) {
                Some(self.applications@[*who].referrer)
            } else {
                None::<u64>
            },
    {
        match self.citizen_referrers.get(who) {
            Some(r) => Some(*r),
            None => match self.applications.get(who) {
                Some(a) => Some(a.referrer),
                None => None,
            },
        }
    }

    /// The identity hash of a citizen.
    pub fn get_identity_hash(&self, who: &u64) -> (r: Option<[u8; 32]>)
        ensures
            r == if self.identity_hashes@.contains_key(*who) {
                Some(self.identity_hashes@[*who])
            } else {
                None::<[u8; 32]>
            },
    {
        match self.identity_hashes.get(who) {
            Some(h) => Some(*h),
            None => None,
        }
    }

    /// Every account's identity hash is held by that account in the reverse index.
    pub open spec fn hashes_point_back(&self) -> bool {
        forall|a: u64| #[trigger] self.identity_hashes@.contains_key(a) ==> {
            &&& self.hash_owners().contains_key(self.identity_hashes@[a]@)
            &&& self.hash_owners()[self.identity_hashes@[a]@] == a
        }
    }

    /// The identity hashes agree with their reverse index; see `hashes_agree`.
    pub open spec fn hashes_consistent(&self) -> bool {
        hashes_agree(self.kyc_statuses@, self.applications@, self.identity_hashes@, self.hash_owners())
    }

    /// Everyone in the honorary register is a citizen.
    pub open spec fn honorary_are_citizens(&self) -> bool {
        forall|a: u64| #[trigger] self.honorary_citizens@.contains_key(a) ==> self.status(a) == KycLevel::Approved
    }

    /// The size of the honorary register, saturated at what a `u32` holds.
    pub open spec fn honorary_tally(&self) -> u32 {
        if self.honorary_citizens@.len() > u32::MAX {
            u32::MAX
        } else {
            self.honorary_citizens@.len() as u32
        }
    }

    /// Cancelling an application undoes it: an application accepted and then cancelled leaves
    /// the applicant at `NotStarted` with no application, and their identity hash free again,
    /// the reverse index exactly as before.
    pub proof fn lemma_cancelling_undoes_the_application(
        &self,
        applied: &Self,
        cancelled: &Self,
        applicant: u64,
        identity_hash: [u8; 32],
        referrer: Option<u64>,
    )
        requires
            self.apply_error(applicant, identity_hash, referrer) is None,
            applied.hash_owners() == self.hash_owners().insert(identity_hash@, applicant),
            applied.applications@.contains_key(applicant),
            applied.applications@[applicant].identity_hash == identity_hash,
            applied.applications@ == self.applications@.insert(applicant, applied.applications@[applicant]),
            applied.status_set(self, applicant, KycLevel::PendingReferral),
            cancelled.applications@ == applied.applications@.remove(applicant),
            cancelled.hash_owners() == applied.hash_owners().remove(
                applied.applications@[applicant].identity_hash@,
            ),
            cancelled.status_set(applied, applicant, KycLevel::NotStarted),
        ensures
            cancelled.status(applicant) == KycLevel::NotStarted,
            cancelled.applications@ == self.applications@.remove(applicant),
            cancelled.hash_owners() == self.hash_owners(),
            !cancelled.hash_owners().contains_key(identity_hash@),
            cancelled.kyc_statuses@ == self.kyc_statuses@.insert(applicant, KycLevel::NotStarted),
    {
        assert(cancelled.applications@ =~= self.applications@.remove(applicant));
        assert(cancelled.hash_owners() =~= self.hash_owners());
        assert(cancelled.kyc_statuses@ =~= self.kyc_statuses@.insert(applicant, KycLevel::NotStarted));
    }

    /// The honorary count is the size of the honorary register, as the check counts it.
    pub open spec fn honorary_counted(&self) -> bool {
        self.honorary_citizen_count == self.honorary_tally()
    }

    /// The first way, in the order they are checked, in which the records disagree.
    pub open spec fn invariant_violation(&self) -> Option<InvariantViolation> {
        if self.citizen_count != #[verifier::truncate] (self.scan() as u32) {
            Some(InvariantViolation::CitizenCountMismatch)
        } else if !self.hashes_point_back() {
            Some(InvariantViolation::IdentityHashNotPointingBack)
        } else if !self.honorary_are_citizens() {
            Some(InvariantViolation::HonoraryNotCitizen)
        } else if self.honorary_citizen_count != self.honorary_tally() {
            Some(InvariantViolation::HonoraryCountMismatch)
        } else if self.honorary_citizen_count > self.citizen_count {
            Some(InvariantViolation::MoreHonoraryThanCitizens)
        } else {
            None
        }
    }

    /// A register whose kept count agrees with its records and whose hashes agree with their
    /// reverse index passes the check of the count and of the hashes; only the honorary
    /// register can still be found wanting.
    pub proof fn lemma_consistent_register_passes_count_and_hash_checks(&self)
        requires
            self.wf(),
            self.counted(),
            self.hashes_consistent(),
        ensures
            self.invariant_violation() != Some(InvariantViolation::CitizenCountMismatch),
            self.invariant_violation() != Some(InvariantViolation::IdentityHashNotPointingBack),
    {
        assert forall|a: u64| #[trigger] self.identity_hashes@.contains_key(a) implies {
            &&& self.hash_owners().contains_key(self.identity_hashes@[a]@)
            &&& self.hash_owners()[self.identity_hashes@[a]@] == a
        } by {
        }
    }

    /// The honorary check by counting: the listed honorary citizens number as many as the
    /// register holds exactly when every name in it is a citizen.
    proof fn lemma_honorary_by_count(&self)
        requires
            self.wf(),
        ensures
            (honorary_approved_count(self.status_accounts@, self.honorary_citizens@, self.kyc_statuses@)
                == self.honorary_citizens@.len()) <==> self.honorary_are_citizens(),
    {
        let h = self.honorary_citizens@;
        let found = honorary_approved_set(self.status_accounts@, h, self.kyc_statuses@);
        lemma_honorary_approved_set(self.status_accounts@, h, self.kyc_statuses@);
        assert(found.subset_of(h.dom()));
        if self.honorary_are_citizens() {
            assert forall|a: u64| h.dom().contains(a) implies found.contains(a) by {
                assert(self.status(a) == KycLevel::Approved);
                assert(self.kyc_statuses@.contains_key(a));
                assert(self.status_accounts@.contains(a));
            }
            assert(found =~= h.dom());
        }
        if honorary_approved_count(self.status_accounts@, h, self.kyc_statuses@) == h.len() {
            vstd::set_lib::lemma_subset_equality(found, h.dom());
            assert forall|a: u64| #[trigger] h.contains_key(a) implies self.status(a) == KycLevel::Approved by {
                assert(found.contains(a));
            }
        }
    }

    /// Check that the register's records agree with one another: the kept citizen count with
    /// the records, each identity hash with its reverse index, and the honorary register with
    /// the citizens and with its count. Gives the first disagreement found.
    pub fn try_state(&self) -> (r: Result<(), InvariantViolation>)
        requires
            self.wf(),
        ensures
            match self.invariant_violation() {
                Some(e) => r == Err::<(), InvariantViolation>(e),
                None => r == Ok::<(), InvariantViolation>(()),
            },
    {
        let kept = self.citizen_count;
        if kept != self.count_citizens_by_scan() {
            return Err(InvariantViolation::CitizenCountMismatch);
        }
        let mut i: usize = 0;
        while i < self.status_accounts.len()
            invariant
                self.wf(),
                kept == self.citizen_count,
                self.citizen_count == #[verifier::truncate] (self.scan() as u32),
                0 <= i <= self.status_accounts@.len(),
                forall|j: int| 0 <= j < i && #[trigger] self.identity_hashes@.contains_key(self.status_accounts@[j]) ==> {
                    &&& self.hash_owners().contains_key(self.identity_hashes@[self.status_accounts@[j]]@)
                    &&& self.hash_owners()[self.identity_hashes@[self.status_accounts@[j]]@] == self.status_accounts@[j]
                },
            decreases self.status_accounts@.len() - i,
        {
            let a = self.status_accounts[i];
            match self.identity_hashes.get(&a) {
                Some(h) => {
                    match self.identity_hash_owner(h) {
                        Some(owner) => {
                            if owner != a {
                                assert(self.identity_hashes@.contains_key(a));
                                return Err(InvariantViolation::IdentityHashNotPointingBack);
                            }
                        },
                        None => {
                            assert(self.identity_hashes@.contains_key(a));
                            return Err(InvariantViolation::IdentityHashNotPointingBack);
                        },
                    }
                },
                None => {},
            }
            i = i + 1;
        }
        proof {
            assert forall|a: u64| #[trigger] self.identity_hashes@.contains_key(a) implies {
                &&& self.hash_owners().contains_key(self.identity_hashes@[a]@)
                &&& self.hash_owners()[self.identity_hashes@[a]@] == a
            } by {
                assert(self.status_accounts@.contains(a));
                let j = choose|j: int| 0 <= j < self.status_accounts@.len() && self.status_accounts@[j] == a;
                assert(self.identity_hashes@.contains_key(self.status_accounts@[j]));
            }
        }
        let mut found: usize = 0;
        let mut k: usize = 0;
        while k < self.status_accounts.len()
            invariant
                0 <= k <= self.status_accounts@.len(),
                found as nat == honorary_approved_count(self.status_accounts@.subrange(0, k as int), self.honorary_citizens@, self.kyc_statuses@),
                found <= k,
            decreases self.status_accounts@.len() - k,
        {
            let a = self.status_accounts[k];
            proof {
                assert(self.status_accounts@.subrange(0, k + 1).drop_last() =~= self.status_accounts@.subrange(0, k as int));
            }
            if self.honorary_citizens.contains_key(&a) {
                match self.kyc_statuses.get(&a) {
                    Some(l) => {
                        if *l == KycLevel::Approved {
                            found = found + 1;
                        }
                    },
                    None => {},
                }
            }
            k = k + 1;
        }
        proof {
            assert(self.status_accounts@.subrange(0, self.status_accounts@.len() as int) =~= self.status_accounts@);
            self.lemma_honorary_by_count();
        }
        let registered = self.honorary_citizens.len();
        if found != registered {
            return Err(InvariantViolation::HonoraryNotCitizen);
        }
        let tally: u32 = if registered > 4294967295usize {
            u32::MAX
        } else {
            registered as u32
        };
        if self.honorary_citizen_count != tally {
            return Err(InvariantViolation::HonoraryCountMismatch);
        }
        if self.honorary_citizen_count > kept {
            return Err(InvariantViolation::MoreHonoraryThanCitizens);
        }
        Ok(())
    }

    /// The register at genesis: the founding citizens approved, their hashes held, and their
    /// citizenship dated from block zero so they may vouch at once.
    pub fn with_founding_citizens(config: Config, founding_citizens: &Vec<(u64, [u8; 32])>) -> (r: Self)
        ensures
            r.wf(),
            r.config == config,
            forall|i: int| 0 <= i < founding_citizens@.len() ==> {
                let (a, h) = #[trigger] founding_citizens@[i];
                &&& r.status(a) == KycLevel::Approved
                &&& r.identity_hashes@.contains_key(a)
                &&& r.citizen_since@.contains_key(a) && r.citizen_since@[a] == 0
            },
            forall|a: u64| (forall|i: int| 0 <= i < founding_citizens@.len() ==> founding_citizens@[i].0 != a) ==> r.status(a) == KycLevel::NotStarted,
            r.citizen_count == #[verifier::truncate] (founding_citizens@.len() as u32),
            r.applications@ == Map::<u64, CitizenshipApplication>::empty(),
            r.events@ == Seq::<Event>::empty(),
            r.honorary_counted(),
            (forall|i: int, j: int| 0 <= i < j < founding_citizens@.len() ==> founding_citizens@[i].1@
                != founding_citizens@[j].1@) ==> r.hashes_consistent(),
    {
        let ghost distinct = forall|i: int, j: int| 0 <= i < j < founding_citizens@.len() ==> founding_citizens@[i].1@
            != founding_citizens@[j].1@;
        let mut r = Self::new(config);
        let mut i: usize = 0;
        while i < founding_citizens.len()
            invariant
                0 <= i <= founding_citizens@.len(),
                r.wf(),
                r.config == config,
                forall|j: int| 0 <= j < i ==> {
                    let (a, h) = #[trigger] founding_citizens@[j];
                    &&& r.status(a) == KycLevel::Approved
                    &&& r.identity_hashes@.contains_key(a)
                    &&& r.citizen_since@.contains_key(a) && r.citizen_since@[a] == 0
                },
                forall|a: u64| (forall|j: int| 0 <= j < i ==> founding_citizens@[j].0 != a) ==> r.status(a) == KycLevel::NotStarted,
                r.citizen_count == 0,
                r.honorary_counted(),
                r.applications@ == Map::<u64, CitizenshipApplication>::empty(),
                r.events@ == Seq::<Event>::empty(),
                distinct == forall|a: int, b: int| 0 <= a < b < founding_citizens@.len() ==> founding_citizens@[a].1@
                    != founding_citizens@[b].1@,
                distinct ==> r.hashes_consistent(),
                forall|a: u64| #[trigger] r.identity_hashes@.contains_key(a) ==> exists|j: int|
                    0 <= j < i && #[trigger] founding_citizens@[j].1@ == r.identity_hashes@[a]@,
            decreases founding_citizens@.len() - i,
        {
            let (account, identity_hash) = founding_citizens[i];
            let ghost before = r;
            proof {
                if distinct {
                    assert forall|a: u64| #[trigger] level_in(before.kyc_statuses@, a) != KycLevel::PendingReferral
                        && level_in(before.kyc_statuses@, a) != KycLevel::ReferrerApproved by {
                        assert(level_in(before.kyc_statuses@, a) == before.status(a));
                        if !(forall|j: int| 0 <= j < i ==> founding_citizens@[j].0 != a) {
                            let j = choose|j: int| 0 <= j < i && founding_citizens@[j].0 == a;
                            assert(founding_citizens@[j].0 == a);
                        }
                    }
                    assert forall|a: u64| #[trigger] before.identity_hashes@.contains_key(a) && a != account
                        implies before.identity_hashes@[a]@ != identity_hash@ by {
                        let j = choose|j: int| 0 <= j < i && #[trigger] founding_citizens@[j].1@ == before.identity_hashes@[a]@;
                        assert(founding_citizens@[j].1@ != founding_citizens@[i as int].1@);
                    }
                    lemma_agree_founded(
                        before.kyc_statuses@,
                        before.applications@,
                        before.identity_hashes@,
                        before.hash_owners(),
                        account,
                        identity_hash,
                    );
                }
            }
            r.set_status(account, KycLevel::Approved);
            r.identity_hashes.insert(account, identity_hash);
            r.citizen_since.insert(account, 0);
            r.hash_insert(identity_hash, account);
            proof {
                assert forall|a: u64| #[trigger] r.identity_hashes@.contains_key(a) implies exists|j: int|
                    0 <= j < i + 1 && #[trigger] founding_citizens@[j].1@ == r.identity_hashes@[a]@ by {
                    if a == account {
                        assert(founding_citizens@[i as int].1@ == r.identity_hashes@[a]@);
                    } else {
                        assert(before.identity_hashes@.contains_key(a));
                        let j = choose|j: int| 0 <= j < i && #[trigger] founding_citizens@[j].1@ == before.identity_hashes@[a]@;
                        assert(founding_citizens@[j].1@ == r.identity_hashes@[a]@);
                    }
                }
                assert forall|a: u64| (forall|j: int| 0 <= j < i + 1 ==> founding_citizens@[j].0 != a) implies r.status(a) == KycLevel::NotStarted by {
                    assert(founding_citizens@[i as int].0 != a);
                    assert(before.status(a) == KycLevel::NotStarted);
                }
            }
            i = i + 1;
        }
        let ghost before = r;
        r.citizen_count = #[verifier::truncate] (founding_citizens.len() as u32);
        proof {
            assert forall|a: u64| (forall|j: int| 0 <= j < founding_citizens@.len() ==> founding_citizens@[j].0 != a) implies r.status(a) == KycLevel::NotStarted by {
                assert(forall|j: int| 0 <= j < i ==> founding_citizens@[j].0 != a);
                assert(before.status(a) == KycLevel::NotStarted);
            }
        }
        r
    }
}

/// The register at genesis: its founding citizens and their identity hashes.
pub struct GenesisConfig {
    pub founding_citizens: Vec<(u64, [u8; 32])>,
}

impl GenesisConfig {
    /// The register with the founding citizens approved, their hashes held, their
    /// citizenship dated from block zero, and the count starting at their number.
    pub fn build(&self, config: Config) -> (r: Pezpallet)
        ensures
            r.wf(),
            r.config == config,
            forall|i: int| 0 <= i < self.founding_citizens@.len() ==> {
                let (a, h) = #[trigger] self.founding_citizens@[i];
                &&& r.status(a) == KycLevel::Approved
                &&& r.identity_hashes@.contains_key(a)
                &&& r.citizen_since@.contains_key(a) && r.citizen_since@[a] == 0
            },
            forall|a: u64| (forall|i: int| 0 <= i < self.founding_citizens@.len() ==> self.founding_citizens@[i].0 != a) ==> r.status(a) == KycLevel::NotStarted,
            r.citizen_count == #[verifier::truncate] (self.founding_citizens@.len() as u32),
            r.applications@ == Map::<u64, CitizenshipApplication>::empty(),
            r.events@ == Seq::<Event>::empty(),
            r.honorary_counted(),
            (forall|i: int, j: int| 0 <= i < j < self.founding_citizens@.len() ==> self.founding_citizens@[i].1@
                != self.founding_citizens@[j].1@) ==> r.hashes_consistent(),
    {
        Pezpallet::with_founding_citizens(config, &self.founding_citizens)
    }
}

impl KycStatus<u64> for Pezpallet {
    fn get_kyc_status(&self, who: &u64) -> (r: KycLevel)
        ensures
            r == self.status(*who),
    {
        self.kyc_status_of(*who)
    }
}

impl CitizenshipStatusProvider<u64> for Pezpallet {
    fn is_citizen(&self, who: &u64) -> (r: bool)
        ensures
            r == (self.status(*who) == KycLevel::Approved),
    {
        self.kyc_status_of(*who) == KycLevel::Approved
    }
}

} // verus!
