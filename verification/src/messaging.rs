//! Ephemeral encrypted messaging between citizens: encryption keys, per-era inboxes that drop
//! their oldest message when full, a per-era sending quota, era rotation, and the purge of an
//! expired era's messages a bounded number at a time.
//!
//! Whether an account is a citizen, and its trust score, are other pallets' answers and are
//! passed in.
use vstd::prelude::*;
use vstd::hash_map::HashMapWithView;
use crate::arith::{sat_add_u32, sat_sub_u32, sat_sub_u64};
use crate::presale::{pair_key, make_pair_key};

verus! {

/// The most messages an inbox can physically hold, whatever the configuration says.
pub const INBOX_HARD_CAP: usize = 100;

/// The most storage entries one purge step removes from each record.
pub const PURGE_BATCH: usize = 50;

/// An encrypted message held on chain until its era is purged.
#[derive(Clone, Debug)]
pub struct EncryptedMessage {
    /// Who sent it.
    pub sender: u64,
    /// When it was submitted.
    pub block_number: u64,
    /// The sender's one-time x25519 public key for this message.
    pub ephemeral_public_key: [u8; 32],
    /// The XChaCha20-Poly1305 nonce.
    pub nonce: [u8; 24],
    /// The ciphertext and its tag.
    pub ciphertext: Vec<u8>,
}

/// Whether an account is an approved citizen.
pub trait CitizenshipChecker<AccountId> {
    fn is_citizen(who: &AccountId) -> bool;
}

/// Nobody is a citizen.
impl<AccountId> CitizenshipChecker<AccountId> for () {
    fn is_citizen(_who: &AccountId) -> (r: bool)
        ensures
            !r,
    {
        false
    }
}

/// An account's trust score.
pub trait TrustScoreChecker<AccountId> {
    fn trust_score_of(who: &AccountId) -> u32;
}

/// Everybody's trust score is zero.
impl<AccountId> TrustScoreChecker<AccountId> for () {
    fn trust_score_of(_who: &AccountId) -> (r: u32)
        ensures
            r == 0,
    {
        0
    }
}

/// What the messaging pallet reports having done.
#[derive(Clone, Copy, PartialEq, Eq, Debug, Structural)]
pub enum Event {
    EncryptionKeyRegistered { who: u64 },
    MessageSent { from: u64, to: u64, era: u32 },
    InboxCleared { who: u64, era: u32, count: u32 },
    EraPurged { era: u32 },
    EraRotated { old_era: u32, new_era: u32 },
    InboxOverflow { recipient: u64, era: u32 },
}

/// Why a messaging call was refused.
#[derive(Clone, Copy, PartialEq, Eq, Debug, Structural)]
pub enum Error {
    NotACitizen,
    RecipientNotCitizen,
    RecipientNoEncryptionKey,
    CannotMessageSelf,
    RateLimitExceeded,
    InboxFull,
    EmptyPayload,
    PayloadTooLarge,
    InsufficientTrustScore,
}

/// The messaging pallet's parameters.
#[derive(Clone, Copy, PartialEq, Eq, Debug, Structural)]
pub struct Config {
    /// The trust score needed to register a key or send.
    pub min_trust_score: u32,
    /// The largest ciphertext accepted, in bytes.
    pub max_message_size: u32,
    /// How many messages an inbox keeps per era before dropping the oldest.
    pub max_inbox_size: u32,
    /// How many messages one account may send per era.
    pub max_messages_per_era: u32,
    /// Era length in blocks.
    pub era_length: u64,
}

/// What one purge step did.
#[derive(Clone, Copy, PartialEq, Eq, Debug, Structural)]
pub struct PurgeStep {
    /// The era being purged.
    pub era: u32,
    /// Inbox entries visited.
    pub inboxes_cleared: u32,
    /// Send counters visited.
    pub counters_cleared: u32,
    /// Whether every inbox of the era is now gone.
    pub finished: bool,
}

/// The messaging pallet's storage. Inboxes and send counters are keyed by
/// `crate::presale::pair_key(era, account)`; for each era the accounts that were given an
/// inbox or a counter are listed in the order they got it, so an era can be purged.
pub struct Pezpallet {
    pub config: Config,
    pub encryption_keys: HashMapWithView<u64, [u8; 32]>,
    pub inbox: HashMapWithView<u128, Vec<EncryptedMessage>>,
    pub recipients: HashMapWithView<u32, Vec<u64>>,
    pub send_count: HashMapWithView<u128, u32>,
    pub senders: HashMapWithView<u32, Vec<u64>>,
    pub current_era: u32,
    pub era_start_block: u64,
    /// The era being purged, if a purge is under way.
    pub cleanup_era: Option<u32>,
    pub events: Vec<Event>,
}

/// `m` with the entries of `era` for the accounts in `list` removed.
pub open spec fn cleared<V>(m: Map<u128, V>, era: u32, list: Seq<u64>) -> Map<u128, V>
    decreases list.len(),
{
    if list.len() == 0 {
        m
    } else {
        cleared(m, era, list.drop_last()).remove(pair_key(era, list.last()))
    }
}

/// The inbox that a new message joins: without its oldest message when it is at the
/// configured size.
pub open spec fn make_room(inbox: Seq<EncryptedMessage>, max_inbox_size: u32) -> Seq<EncryptedMessage> {
    if inbox.len() >= max_inbox_size {
        inbox.subrange(1, inbox.len() as int)
    } else {
        inbox
    }
}

/// What removing the entries of `era` for `list` leaves: a sub-map, without any of them.
proof fn lemma_cleared<V>(m: Map<u128, V>, era: u32, list: Seq<u64>)
    ensures
        forall|k: u128| #[trigger] cleared(m, era, list).contains_key(k) ==> m.contains_key(k) && cleared(m, era, list)[k] == m[k],
        forall|i: int| 0 <= i < list.len() ==> !cleared(m, era, list).contains_key(pair_key(era, #[trigger] list[i])),
    decreases list.len(),
{
    if list.len() > 0 {
        lemma_cleared(m, era, list.drop_last());
        let smaller = cleared(m, era, list.drop_last());
        assert(cleared(m, era, list) == smaller.remove(pair_key(era, list.last())));
        assert forall|k: u128| #[trigger] cleared(m, era, list).contains_key(k) implies m.contains_key(k)
            && cleared(m, era, list)[k] == m[k] by {
            assert(smaller.contains_key(k));
        }
        assert forall|i: int| 0 <= i < list.len() implies !cleared(m, era, list).contains_key(pair_key(era, #[trigger] list[i])) by {
            if i < list.len() - 1 {
                assert(list.drop_last()[i] == list[i]);
            }
        }
    }
}

/// Remove from `m` the entries of `era` for the first `k` accounts of `list`.
fn clear_batch<V>(m: &mut HashMapWithView<u128, V>, era: u32, list: &Vec<u64>, k: usize)
    requires
        k <= list@.len(),
    ensures
        final(m)@ == cleared(old(m)@, era, list@.take(k as int)),
{
    let mut i: usize = 0;
    while i < k
        invariant
            i <= k,
            k <= list@.len(),
            m@ == cleared(old(m)@, era, list@.take(i as int)),
        decreases k - i,
    {
        let key = make_pair_key(era, list[i]);
        m.remove(&key);
        proof {
            assert(list@.take(i + 1).drop_last() =~= list@.take(i as int));
        }
        i = i + 1;
    }
}

/// The entries of `list` from `k` on.
fn slice_from(list: &Vec<u64>, k: usize) -> (r: Vec<u64>)
    requires
        k <= list@.len(),
    ensures
        r@ == list@.skip(k as int),
{
    let mut r: Vec<u64> = Vec::new();
    let mut i: usize = k;
    while i < list.len()
        invariant
            k <= i <= list@.len(),
            r@ == list@.subrange(k as int, i as int),
        decreases list@.len() - i,
    {
        r.push(list[i]);
        proof {
            assert(list@.subrange(k as int, i + 1) =~= list@.subrange(k as int, i as int).push(list@[i as int]));
        }
        i = i + 1;
    }
    proof {
        assert(list@.subrange(k as int, list@.len() as int) =~= list@.skip(k as int));
    }
    r
}

impl Pezpallet {
    /// An account's inbox for an era.
    pub open spec fn inbox_of(&self, era: u32, who: u64) -> Seq<EncryptedMessage> {
        if self.inbox@.contains_key(pair_key(era, who)) {
            self.inbox@[pair_key(era, who)]@
        } else {
            Seq::empty()
        }
    }

    /// How many messages an account has sent in an era.
    pub open spec fn sent_in(&self, era: u32, who: u64) -> u32 {
        if self.send_count@.contains_key(pair_key(era, who)) {
            self.send_count@[pair_key(era, who)]
        } else {
            0
        }
    }

    /// The accounts given an inbox in an era.
    pub open spec fn recipients_of(&self, era: u32) -> Seq<u64> {
        if self.recipients@.contains_key(era) {
            self.recipients@[era]@
        } else {
            Seq::empty()
        }
    }

    /// The accounts given a send counter in an era.
    pub open spec fn senders_of(&self, era: u32) -> Seq<u64> {
        if self.senders@.contains_key(era) {
            self.senders@[era]@
        } else {
            Seq::empty()
        }
    }

    /// The pallet's invariants: no inbox holds more than the configured size or the hard
    /// cap, no account has sent more than its quota in any era, and every inbox and send
    /// counter is on its era's list.
    pub open spec fn wf(&self) -> bool {
        &&& forall|k: u128| #[trigger] self.inbox@.contains_key(k) ==> self.inbox@[k]@.len() <= INBOX_HARD_CAP
            && self.inbox@[k]@.len() <= self.config.max_inbox_size
        &&& forall|k: u128| #[trigger] self.send_count@.contains_key(k) ==> self.send_count@[k] <= self.config.max_messages_per_era
        &&& forall|e: u32, w: u64| #[trigger] self.inbox@.contains_key(pair_key(e, w)) ==> self.recipients_of(e).contains(w)
        &&& forall|e: u32, w: u64| #[trigger] self.send_count@.contains_key(pair_key(e, w)) ==> self.senders_of(e).contains(w)
    }

    /// No account sends more than the per-era limit in any era: every call keeps `wf`, which
    /// bounds each era's send counter, and `send_message` refuses once the counter reaches the
    /// limit and otherwise adds one to it.
    pub proof fn lemma_send_limit_holds(&self, era: u32, who: u64)
        requires
            self.wf(),
        ensures
            self.sent_in(era, who) <= self.config.max_messages_per_era,
    {
        if self.send_count@.contains_key(pair_key(era, who)) {
            assert(self.send_count@[pair_key(era, who)] <= self.config.max_messages_per_era);
        }
    }

    /// Nothing changed, not even the event log.
    pub open spec fn unchanged(&self, other: &Self) -> bool {
        &&& self.config == other.config
        &&& self.encryption_keys@ == other.encryption_keys@
        &&& self.inbox@ == other.inbox@
        &&& self.recipients@ == other.recipients@
        &&& self.send_count@ == other.send_count@
        &&& self.senders@ == other.senders@
        &&& self.current_era == other.current_era
        &&& self.era_start_block == other.era_start_block
        &&& self.cleanup_era == other.cleanup_era
        &&& self.events@ == other.events@
    }

    /// A messaging pallet in era zero with nothing stored.
    pub fn new(config: Config) -> (r: Self)
        ensures
            r.wf(),
            r.config == config,
            r.encryption_keys@ == Map::<u64, [u8; 32]>::empty(),
            r.inbox@ == Map::<u128, Vec<EncryptedMessage>>::empty(),
            r.recipients@ == Map::<u32, Vec<u64>>::empty(),
            r.send_count@ == Map::<u128, u32>::empty(),
            r.senders@ == Map::<u32, Vec<u64>>::empty(),
            r.current_era == 0,
            r.era_start_block == 0,
            r.cleanup_era is None,
            r.events@ == Seq::<Event>::empty(),
    {
        proof {
            broadcast use vstd::std_specs::hash::axiom_u32_obeys_hash_table_key_model;
            broadcast use vstd::std_specs::hash::axiom_u64_obeys_hash_table_key_model;
            broadcast use vstd::std_specs::hash::axiom_u128_obeys_hash_table_key_model;
        }
        Pezpallet {
            config,
            encryption_keys: HashMapWithView::new(),
            inbox: HashMapWithView::new(),
            recipients: HashMapWithView::new(),
            send_count: HashMapWithView::new(),
            senders: HashMapWithView::new(),
            current_era: 0,
            era_start_block: 0,
            cleanup_era: None,
            events: Vec::new(),
        }
    }

    /// `who` registers or replaces their encryption key. `is_citizen` and `trust_score` are
    /// what the citizenship and trust pallets say of them. Refused for a non-citizen and for
    /// a trust score under the minimum.
    pub fn register_encryption_key(&mut self, who: u64, public_key: [u8; 32], is_citizen: bool, trust_score: u32) -> (r: Result<(), Error>)
        requires
            old(self).wf(),
        ensures
            final(self).wf(),
            !is_citizen ==> r == Err::<(), Error>(Error::NotACitizen) && final(self).unchanged(old(self)),
            is_citizen && trust_score < old(self).config.min_trust_score ==> r == Err::<(), Error>(
                Error::InsufficientTrustScore,
            ) && final(self).unchanged(old(self)),
            is_citizen && trust_score >= old(self).config.min_trust_score ==> {
                &&& r == Ok::<(), Error>(())
                &&& final(self).encryption_keys@ == old(self).encryption_keys@.insert(who, public_key)
                &&& final(self).config == old(self).config
                &&& final(self).inbox@ == old(self).inbox@
                &&& final(self).recipients@ == old(self).recipients@
                &&& final(self).send_count@ == old(self).send_count@
                &&& final(self).senders@ == old(self).senders@
                &&& final(self).current_era == old(self).current_era
                &&& final(self).era_start_block == old(self).era_start_block
                &&& final(self).cleanup_era == old(self).cleanup_era
                &&& final(self).events@ == old(self).events@.push(Event::EncryptionKeyRegistered { who })
            },
    {
        if !is_citizen {
            return Err(Error::NotACitizen);
        }
        if trust_score < self.config.min_trust_score {
            return Err(Error::InsufficientTrustScore);
        }
        let ghost pre = *self;
        self.encryption_keys.insert(who, public_key);
        self.events.push(Event::EncryptionKeyRegistered { who });
        proof {
            assert forall|e: u32, w: u64| #[trigger] self.inbox@.contains_key(pair_key(e, w)) implies self.recipients_of(e).contains(w) by {
                assert(pre.inbox@.contains_key(pair_key(e, w)));
                assert(self.recipients_of(e) == pre.recipients_of(e));
            }
            assert forall|e: u32, w: u64| #[trigger] self.send_count@.contains_key(pair_key(e, w)) implies self.senders_of(e).contains(w) by {
                assert(pre.send_count@.contains_key(pair_key(e, w)));
                assert(self.senders_of(e) == pre.senders_of(e));
            }
        }
        Ok(())
    }

    /// The current era.
    pub fn current_era(&self) -> (r: u32)
        ensures
            r == self.current_era,
    {
        self.current_era
    }

    /// Whether `who` has registered an encryption key.
    pub fn has_encryption_key(&self, who: u64) -> (r: bool)
        ensures
            r == self.encryption_keys@.contains_key(who),
    {
        self.encryption_keys.contains_key(&who)
    }

    /// `who`'s encryption key, if registered.
    pub fn get_encryption_key(&self, who: u64) -> (r: Option<[u8; 32]>)
        ensures
            r == (if self.encryption_keys@.contains_key(who) {
                Some(self.encryption_keys@[who])
            } else {
                None
            }),
    {
        match self.encryption_keys.get(&who) {
            Some(k) => Some(*k),
            None => None,
        }
    }

    /// How many messages `who` has in the current era.
    pub fn inbox_count(&self, who: u64) -> (r: u32)
        requires
            self.wf(),
        ensures
            r == self.inbox_of(self.current_era, who).len(),
    {
        let k = make_pair_key(self.current_era, who);
        match self.inbox.get(&k) {
            Some(v) => v.len() as u32,
            None => 0,
        }
    }

    /// How many more messages `who` may send in the current era.
    pub fn remaining_send_quota(&self, who: u64) -> (r: u32)
        ensures
            r == sat_sub_u32(self.config.max_messages_per_era, self.sent_in(self.current_era, who)),
    {
        let k = make_pair_key(self.current_era, who);
        let used = match self.send_count.get(&k) {
            Some(v) => *v,
            None => 0,
        };
        self.config.max_messages_per_era.saturating_sub(used)
    }

    /// Why a message from `sender` to `to` with a `len`-byte ciphertext would be refused, if
    /// it would: the citizenship and trust checks, no messages to oneself, the recipient's
    /// key, the payload's size, the sender's quota for the era, and room in an inbox that has
    /// reached the hard cap.
    pub open spec fn send_check(
        &self,
        sender: u64,
        to: u64,
        len: nat,
        sender_is_citizen: bool,
        sender_trust: u32,
        recipient_is_citizen: bool,
    ) -> Result<(), Error> {
        let era = self.current_era;
        if !sender_is_citizen {
            Err(Error::NotACitizen)
        } else if sender_trust < self.config.min_trust_score {
            Err(Error::InsufficientTrustScore)
        } else if !recipient_is_citizen {
            Err(Error::RecipientNotCitizen)
        } else if sender == to {
            Err(Error::CannotMessageSelf)
        } else if !self.encryption_keys@.contains_key(to) {
            Err(Error::RecipientNoEncryptionKey)
        } else if len == 0 {
            Err(Error::EmptyPayload)
        } else if len > self.config.max_message_size {
            Err(Error::PayloadTooLarge)
        } else if self.sent_in(era, sender) >= self.config.max_messages_per_era {
            Err(Error::RateLimitExceeded)
        } else if make_room(self.inbox_of(era, to), self.config.max_inbox_size).len() >= INBOX_HARD_CAP {
            Err(Error::InboxFull)
        } else {
            Ok(())
        }
    }

    /// `sender` sends `to` an encrypted message at block `now`. `sender_is_citizen`,
    /// `sender_trust` and `recipient_is_citizen` are what the citizenship and trust pallets
    /// say. The message joins the recipient's inbox for the current era, which first drops
    /// its oldest message if it is at the configured size, and counts against the sender's
    /// quota for the era.
    pub fn send_message(
        &mut self,
        sender: u64,
        to: u64,
        ephemeral_public_key: [u8; 32],
        nonce: [u8; 24],
        ciphertext: Vec<u8>,
        now: u64,
        sender_is_citizen: bool,
        sender_trust: u32,
        recipient_is_citizen: bool,
    ) -> (r: Result<(), Error>)
        requires
            old(self).wf(),
            old(self).config.max_inbox_size > 0,
        ensures
            final(self).wf(),
            r == old(self).send_check(sender, to, ciphertext@.len(), sender_is_citizen, sender_trust, recipient_is_citizen),
            r is Err ==> final(self).unchanged(old(self)),
            r is Ok ==> ({
                let era = old(self).current_era;
                let before = old(self).inbox_of(era, to);
                let kept = make_room(before, old(self).config.max_inbox_size);
                let after = final(self).inbox_of(era, to);
                let m = after.last();
                let overflow = before.len() >= old(self).config.max_inbox_size;
                &&& after.len() == kept.len() + 1
                &&& after.subrange(0, kept.len() as int) == kept
                &&& m.sender == sender && m.block_number == now && m.ephemeral_public_key == ephemeral_public_key
                &&& m.nonce == nonce && m.ciphertext@ == ciphertext@
                &&& forall|e: u32, w: u64| (e, w) != (era, to) ==> #[trigger] final(self).inbox_of(e, w) == old(self).inbox_of(e, w)
                &&& final(self).sent_in(era, sender) == old(self).sent_in(era, sender) + 1
                &&& forall|e: u32, w: u64| (e, w) != (era, sender) ==> #[trigger] final(self).sent_in(e, w) == old(self).sent_in(e, w)
                &&& final(self).config == old(self).config
                &&& final(self).encryption_keys@ == old(self).encryption_keys@
                &&& final(self).current_era == old(self).current_era
                &&& final(self).era_start_block == old(self).era_start_block
                &&& final(self).cleanup_era == old(self).cleanup_era
                &&& final(self).events@ == if overflow {
                    old(self).events@.push(Event::InboxOverflow { recipient: to, era }).push(
                        Event::MessageSent { from: sender, to, era },
                    )
                } else {
                    old(self).events@.push(Event::MessageSent { from: sender, to, era })
                }
            }),
    {
        if !sender_is_citizen {
            return Err(Error::NotACitizen);
        }
        if sender_trust < self.config.min_trust_score {
            return Err(Error::InsufficientTrustScore);
        }
        if !recipient_is_citizen {
            return Err(Error::RecipientNotCitizen);
        }
        if sender == to {
            return Err(Error::CannotMessageSelf);
        }
        if !self.encryption_keys.contains_key(&to) {
            return Err(Error::RecipientNoEncryptionKey);
        }
        if ciphertext.len() == 0 {
            return Err(Error::EmptyPayload);
        }
        if ciphertext.len() > self.config.max_message_size as usize {
            return Err(Error::PayloadTooLarge);
        }
        let era = self.current_era;
        let ks = make_pair_key(era, sender);
        let (count, had_count) = match self.send_count.get(&ks) {
            Some(v) => (*v, true),
            None => (0u32, false),
        };
        if count >= self.config.max_messages_per_era {
            return Err(Error::RateLimitExceeded);
        }
        let kt = make_pair_key(era, to);
        let (len, had_inbox) = match self.inbox.get(&kt) {
            Some(v) => (v.len(), true),
            None => (0usize, false),
        };
        let overflow = len >= self.config.max_inbox_size as usize;
        let kept_len = if overflow {
            len - 1
        } else {
            len
        };
        proof {
            let before = self.inbox_of(era, to);
            assert(before.len() == len);
            if overflow {
                assert(make_room(before, self.config.max_inbox_size).len() == kept_len);
            }
        }
        if kept_len >= INBOX_HARD_CAP {
            return Err(Error::InboxFull);
        }
        let ghost pre = *self;
        let mut messages = match self.inbox.remove(&kt) {
            Some(v) => v,
            None => Vec::new(),
        };
        proof {
            assert(messages@ == pre.inbox_of(era, to));
        }
        if overflow {
            messages.remove(0);
            self.events.push(Event::InboxOverflow { recipient: to, era });
        }
        proof {
            assert(messages@ == make_room(pre.inbox_of(era, to), pre.config.max_inbox_size));
        }
        messages.push(EncryptedMessage { sender, block_number: now, ephemeral_public_key, nonce, ciphertext });
        self.inbox.insert(kt, messages);
        if !had_inbox {
            let mut list = match self.recipients.remove(&era) {
                Some(v) => v,
                None => Vec::new(),
            };
            list.push(to);
            self.recipients.insert(era, list);
        }
        self.send_count.insert(ks, count + 1);
        if !had_count {
            let mut list = match self.senders.remove(&era) {
                Some(v) => v,
                None => Vec::new(),
            };
            list.push(sender);
            self.senders.insert(era, list);
        }
        self.events.push(Event::MessageSent { from: sender, to, era });
        proof {
            assert forall|e: u32, w: u64| (e, w) != (era, to) implies #[trigger] self.inbox_of(e, w) == pre.inbox_of(e, w) by {
                assert(pair_key(e, w) != pair_key(era, to));
            }
            assert forall|e: u32, w: u64| (e, w) != (era, sender) implies #[trigger] self.sent_in(e, w) == pre.sent_in(e, w) by {
                assert(pair_key(e, w) != pair_key(era, sender));
            }
            assert forall|k: u128| #[trigger] self.inbox@.contains_key(k) implies self.inbox@[k]@.len() <= INBOX_HARD_CAP
                && self.inbox@[k]@.len() <= self.config.max_inbox_size by {
                if k != kt {
                    assert(pre.inbox@.contains_key(k));
                }
            }
            assert forall|k: u128| #[trigger] self.send_count@.contains_key(k) implies self.send_count@[k] <= self.config.max_messages_per_era by {
                if k != ks {
                    assert(pre.send_count@.contains_key(k));
                }
            }
            assert forall|e: u32, w: u64| #[trigger] self.inbox@.contains_key(pair_key(e, w)) implies self.recipients_of(e).contains(w) by {
                if pair_key(e, w) == kt {
                    assert(e == era && w == to);
                    if had_inbox {
                        assert(pre.inbox@.contains_key(pair_key(e, w)));
                        assert(self.recipients_of(e) == pre.recipients_of(e));
                    } else {
                        assert(self.recipients_of(e).last() == to);
                    }
                } else {
                    assert(pre.inbox@.contains_key(pair_key(e, w)));
                    assert(pre.recipients_of(e).contains(w));
                    if e == era && !had_inbox {
                        let i = choose|i: int| 0 <= i < pre.recipients_of(e).len() && pre.recipients_of(e)[i] == w;
                        assert(self.recipients_of(e)[i] == w);
                    } else {
                        assert(self.recipients_of(e) == pre.recipients_of(e));
                    }
                }
            }
            assert forall|e: u32, w: u64| #[trigger] self.send_count@.contains_key(pair_key(e, w)) implies self.senders_of(e).contains(w) by {
                if pair_key(e, w) == ks {
                    assert(e == era && w == sender);
                    if had_count {
                        assert(pre.send_count@.contains_key(pair_key(e, w)));
                        assert(self.senders_of(e) == pre.senders_of(e));
                    } else {
                        assert(self.senders_of(e).last() == sender);
                    }
                } else {
                    assert(pre.send_count@.contains_key(pair_key(e, w)));
                    assert(pre.senders_of(e).contains(w));
                    if e == era && !had_count {
                        let i = choose|i: int| 0 <= i < pre.senders_of(e).len() && pre.senders_of(e)[i] == w;
                        assert(self.senders_of(e)[i] == w);
                    } else {
                        assert(self.senders_of(e) == pre.senders_of(e));
                    }
                }
            }
        }
        Ok(())
    }

    /// `who` clears their inbox for the current era.
    pub fn acknowledge_messages(&mut self, who: u64) -> (r: Result<(), Error>)
        requires
            old(self).wf(),
        ensures
            final(self).wf(),
            r is Ok,
            final(self).inbox@ == old(self).inbox@.remove(pair_key(old(self).current_era, who)),
            final(self).config == old(self).config,
            final(self).encryption_keys@ == old(self).encryption_keys@,
            final(self).recipients@ == old(self).recipients@,
            final(self).send_count@ == old(self).send_count@,
            final(self).senders@ == old(self).senders@,
            final(self).current_era == old(self).current_era,
            final(self).era_start_block == old(self).era_start_block,
            final(self).cleanup_era == old(self).cleanup_era,
            final(self).events@ == old(self).events@.push(
                Event::InboxCleared {
                    who,
                    era: old(self).current_era,
                    count: old(self).inbox_of(old(self).current_era, who).len() as u32,
                },
            ),
    {
        let era = self.current_era;
        let k = make_pair_key(era, who);
        let ghost pre = *self;
        let count = match self.inbox.remove(&k) {
            Some(v) => v.len() as u32,
            None => 0,
        };
        self.events.push(Event::InboxCleared { who, era, count });
        proof {
            assert forall|e: u32, w: u64| #[trigger] self.inbox@.contains_key(pair_key(e, w)) implies self.recipients_of(e).contains(w) by {
                assert(pre.inbox@.contains_key(pair_key(e, w)));
                assert(self.recipients_of(e) == pre.recipients_of(e));
            }
            assert forall|e: u32, w: u64| #[trigger] self.send_count@.contains_key(pair_key(e, w)) implies self.senders_of(e).contains(w) by {
                assert(pre.send_count@.contains_key(pair_key(e, w)));
                assert(self.senders_of(e) == pre.senders_of(e));
            }
        }
        Ok(())
    }

    /// The per-block hook at block `now`: once an era has run its length, the next era begins
    /// here, and the era before the one that ended is scheduled for purging. Returns whether
    /// the era rotated.
    pub fn on_initialize(&mut self, now: u64) -> (r: bool)
        requires
            old(self).wf(),
        ensures
            final(self).wf(),
            r == (sat_sub_u64(now, old(self).era_start_block) >= old(self).config.era_length),
            final(self).config == old(self).config,
            final(self).encryption_keys@ == old(self).encryption_keys@,
            final(self).inbox@ == old(self).inbox@,
            final(self).recipients@ == old(self).recipients@,
            final(self).send_count@ == old(self).send_count@,
            final(self).senders@ == old(self).senders@,
            !r ==> final(self).unchanged(old(self)),
            r ==> {
                let old_era = old(self).current_era;
                let new_era = sat_add_u32(old_era, 1);
                &&& final(self).current_era == new_era
                &&& final(self).era_start_block == now
                &&& final(self).cleanup_era == if old_era > 0 {
                    Some((old_era - 1) as u32)
                } else {
                    old(self).cleanup_era
                }
                &&& final(self).events@ == old(self).events@.push(Event::EraRotated { old_era, new_era })
            },
    {
        let elapsed = now.saturating_sub(self.era_start_block);
        if elapsed < self.config.era_length {
            return false;
        }
        let ghost pre = *self;
        let old_era = self.current_era;
        let new_era = old_era.saturating_add(1);
        self.current_era = new_era;
        self.era_start_block = now;
        self.events.push(Event::EraRotated { old_era, new_era });
        if old_era > 0 {
            self.cleanup_era = Some(old_era - 1);
        }
        proof {
            assert forall|e: u32, w: u64| #[trigger] self.inbox@.contains_key(pair_key(e, w)) implies self.recipients_of(e).contains(w) by {
                assert(pre.inbox@.contains_key(pair_key(e, w)));
                assert(self.recipients_of(e) == pre.recipients_of(e));
            }
            assert forall|e: u32, w: u64| #[trigger] self.send_count@.contains_key(pair_key(e, w)) implies self.senders_of(e).contains(w) by {
                assert(pre.send_count@.contains_key(pair_key(e, w)));
                assert(self.senders_of(e) == pre.senders_of(e));
            }
        }
        true
    }

    /// One purge step, when the block has room for it (`has_capacity`) and an era is being
    /// purged: the inboxes of the first `PURGE_BATCH` accounts on the era's list go, and so
    /// do the send counters of the first `PURGE_BATCH` senders; once no inbox of the era is
    /// left, the purge is over and reported.
    pub fn on_idle(&mut self, has_capacity: bool) -> (r: Option<PurgeStep>)
        requires
            old(self).wf(),
        ensures
            final(self).wf(),
            !has_capacity || old(self).cleanup_era is None ==> r is None && final(self).unchanged(old(self)),
            has_capacity && old(self).cleanup_era is Some ==> ({
                let e = old(self).cleanup_era->Some_0;
                let list = old(self).recipients_of(e);
                let sent = old(self).senders_of(e);
                let k = if list.len() < PURGE_BATCH { list.len() } else { PURGE_BATCH as nat };
                let j = if sent.len() < PURGE_BATCH { sent.len() } else { PURGE_BATCH as nat };
                let finished = k == list.len();
                &&& r == Some(PurgeStep { era: e, inboxes_cleared: k as u32, counters_cleared: j as u32, finished })
                &&& final(self).inbox@ == cleared(old(self).inbox@, e, list.take(k as int))
                &&& final(self).send_count@ == cleared(old(self).send_count@, e, sent.take(j as int))
                &&& final(self).recipients_of(e) == list.skip(k as int)
                &&& final(self).senders_of(e) == sent.skip(j as int)
                &&& forall|d: u32| d != e ==> #[trigger] final(self).recipients_of(d) == old(self).recipients_of(d)
                    && final(self).senders_of(d) == old(self).senders_of(d)
                &&& finished ==> forall|w: u64| !(#[trigger] final(self).inbox@.contains_key(pair_key(e, w)))
                &&& final(self).cleanup_era == if finished {
                    None
                } else {
                    Some(e)
                }
                &&& final(self).events@ == if finished {
                    old(self).events@.push(Event::EraPurged { era: e })
                } else {
                    old(self).events@
                }
                &&& final(self).config == old(self).config
                &&& final(self).encryption_keys@ == old(self).encryption_keys@
                &&& final(self).current_era == old(self).current_era
                &&& final(self).era_start_block == old(self).era_start_block
            }),
    {
        if !has_capacity {
            return None;
        }
        let e = match self.cleanup_era {
            Some(e) => e,
            None => return None,
        };
        let ghost pre = *self;
        let list = match self.recipients.remove(&e) {
            Some(v) => v,
            None => Vec::new(),
        };
        let k = if list.len() < PURGE_BATCH {
            list.len()
        } else {
            PURGE_BATCH
        };
        clear_batch(&mut self.inbox, e, &list, k);
        let rest = slice_from(&list, k);
        let finished = rest.len() == 0;
        if !finished {
            self.recipients.insert(e, rest);
        }
        let sent = match self.senders.remove(&e) {
            Some(v) => v,
            None => Vec::new(),
        };
        let j = if sent.len() < PURGE_BATCH {
            sent.len()
        } else {
            PURGE_BATCH
        };
        clear_batch(&mut self.send_count, e, &sent, j);
        let sent_rest = slice_from(&sent, j);
        if sent_rest.len() > 0 {
            self.senders.insert(e, sent_rest);
        }
        if finished {
            self.cleanup_era = None;
            self.events.push(Event::EraPurged { era: e });
        }
        proof {
            assert(list@ == pre.recipients_of(e));
            assert(sent@ == pre.senders_of(e));
            lemma_cleared(pre.inbox@, e, list@.take(k as int));
            lemma_cleared(pre.send_count@, e, sent@.take(j as int));
            assert forall|d: u32| d != e implies #[trigger] self.recipients_of(d) == pre.recipients_of(d)
                && self.senders_of(d) == pre.senders_of(d) by {
                assert(self.recipients@.contains_key(d) == pre.recipients@.contains_key(d));
                assert(self.senders@.contains_key(d) == pre.senders@.contains_key(d));
            }
            assert(self.recipients_of(e) == list@.skip(k as int));
            assert(self.senders_of(e) == sent@.skip(j as int));
            assert forall|k2: u128| #[trigger] self.inbox@.contains_key(k2) implies self.inbox@[k2]@.len() <= INBOX_HARD_CAP
                && self.inbox@[k2]@.len() <= self.config.max_inbox_size by {
                assert(pre.inbox@.contains_key(k2));
            }
            assert forall|k2: u128| #[trigger] self.send_count@.contains_key(k2) implies self.send_count@[k2] <= self.config.max_messages_per_era by {
                assert(pre.send_count@.contains_key(k2));
            }
            assert forall|d: u32, w: u64| #[trigger] self.inbox@.contains_key(pair_key(d, w)) implies self.recipients_of(d).contains(w) by {
                assert(pre.inbox@.contains_key(pair_key(d, w)));
                assert(pre.recipients_of(d).contains(w));
                if d == e {
                    let i = choose|i: int| 0 <= i < list@.len() && list@[i] == w;
                    if i < k {
                        assert(list@.take(k as int)[i] == w);
                        assert(!self.inbox@.contains_key(pair_key(e, list@.take(k as int)[i])));
                    } else {
                        assert(list@.skip(k as int)[i - k] == w);
                    }
                }
            }
            assert forall|d: u32, w: u64| #[trigger] self.send_count@.contains_key(pair_key(d, w)) implies self.senders_of(d).contains(w) by {
                assert(pre.send_count@.contains_key(pair_key(d, w)));
                assert(pre.senders_of(d).contains(w));
                if d == e {
                    let i = choose|i: int| 0 <= i < sent@.len() && sent@[i] == w;
                    if i < j {
                        assert(sent@.take(j as int)[i] == w);
                        assert(!self.send_count@.contains_key(pair_key(e, sent@.take(j as int)[i])));
                    } else {
                        assert(sent@.skip(j as int)[i - j] == w);
                    }
                }
            }
            if finished {
                assert forall|w: u64| !(#[trigger] self.inbox@.contains_key(pair_key(e, w))) by {
                    if self.inbox@.contains_key(pair_key(e, w)) {
                        assert(self.recipients_of(e).contains(w));
                    }
                }
            }
        }
        Some(PurgeStep { era: e, inboxes_cleared: k as u32, counters_cleared: j as u32, finished })
    }
}

} // verus!
