use pezpallets::messaging::{Config, Error, Event, Pezpallet, PurgeStep};

/// Accounts 1 to 10 are citizens with a trust score of 50; nobody else is either.
fn is_citizen(who: u64) -> bool {
    (1..=10).contains(&who)
}

fn trust_score_of(who: u64) -> u32 {
    if is_citizen(who) {
        50
    } else {
        0
    }
}

fn dummy_pubkey(seed: u8) -> [u8; 32] {
    [seed; 32]
}

fn dummy_nonce() -> [u8; 24] {
    [0xAB; 24]
}

fn dummy_ciphertext(len: usize) -> Vec<u8> {
    vec![0xCD; len]
}

struct Chain {
    pallet: Pezpallet,
    block: u64,
}

impl Chain {
    fn new() -> Chain {
        Chain {
            pallet: Pezpallet::new(Config {
                min_trust_score: 20,
                max_message_size: 512,
                max_inbox_size: 50,
                max_messages_per_era: 5,
                era_length: 100,
            }),
            block: 1,
        }
    }

    fn register(&mut self, who: u64, key: [u8; 32]) -> Result<(), Error> {
        self.pallet.register_encryption_key(who, key, is_citizen(who), trust_score_of(who))
    }

    fn send(&mut self, from: u64, to: u64, ephemeral: [u8; 32], ciphertext: Vec<u8>) -> Result<(), Error> {
        self.pallet.send_message(
            from,
            to,
            ephemeral,
            dummy_nonce(),
            ciphertext,
            self.block,
            is_citizen(from),
            trust_score_of(from),
            is_citizen(to),
        )
    }

    fn inbox_len(&self, era: u32, who: u64) -> usize {
        let key = (era as u128) * (1u128 << 64) + who as u128;
        self.pallet.inbox.get(&key).map_or(0, |v| v.len())
    }

    fn send_count(&self, era: u32, who: u64) -> u32 {
        let key = (era as u128) * (1u128 << 64) + who as u128;
        self.pallet.send_count.get(&key).copied().unwrap_or(0)
    }

    fn rotate_to(&mut self, n: u64) -> bool {
        self.block = n;
        self.pallet.on_initialize(n)
    }
}

#[test]
fn register_key_works() {
    let mut c = Chain::new();
    let key = dummy_pubkey(1);
    assert_eq!(c.register(1, key), Ok(()));
    assert_eq!(c.pallet.get_encryption_key(1), Some(key));
    assert_eq!(*c.pallet.events.last().unwrap(), Event::EncryptionKeyRegistered { who: 1 });
}

#[test]
fn register_key_update_works() {
    let mut c = Chain::new();
    assert_eq!(c.register(1, dummy_pubkey(1)), Ok(()));
    assert_eq!(c.register(1, dummy_pubkey(2)), Ok(()));
    assert_eq!(c.pallet.get_encryption_key(1), Some(dummy_pubkey(2)));
}

#[test]
fn register_key_fails_for_non_citizen() {
    let mut c = Chain::new();
    assert_eq!(c.register(99, dummy_pubkey(1)), Err(Error::NotACitizen));
}

#[test]
fn a_citizen_below_the_trust_minimum_cannot_register_or_send() {
    let mut c = Chain::new();
    assert_eq!(c.register(2, dummy_pubkey(2)), Ok(()));
    assert_eq!(c.pallet.register_encryption_key(1, dummy_pubkey(1), true, 19), Err(Error::InsufficientTrustScore));
    assert!(!c.pallet.has_encryption_key(1));
    assert_eq!(
        c.pallet.send_message(1, 2, dummy_pubkey(9), dummy_nonce(), dummy_ciphertext(10), c.block, true, 19, true),
        Err(Error::InsufficientTrustScore)
    );
}

#[test]
fn send_message_fails_insufficient_trust() {
    let mut c = Chain::new();
    assert_eq!(c.register(1, dummy_pubkey(1)), Ok(()));
    assert_eq!(c.register(2, dummy_pubkey(2)), Ok(()));
    assert_eq!(c.send(1, 2, dummy_pubkey(99), dummy_ciphertext(100)), Ok(()));
}

#[test]
fn send_message_works() {
    let mut c = Chain::new();
    assert_eq!(c.register(1, dummy_pubkey(1)), Ok(()));
    assert_eq!(c.register(2, dummy_pubkey(2)), Ok(()));
    assert_eq!(c.send(1, 2, dummy_pubkey(99), dummy_ciphertext(100)), Ok(()));
    let era = c.pallet.current_era();
    let key = (era as u128) * (1u128 << 64) + 2;
    let inbox = c.pallet.inbox.get(&key).unwrap();
    assert_eq!(inbox.len(), 1);
    assert_eq!(inbox[0].sender, 1);
    assert_eq!(inbox[0].ephemeral_public_key, dummy_pubkey(99));
    assert_eq!(inbox[0].block_number, 1);
    assert_eq!(inbox[0].ciphertext, dummy_ciphertext(100));
    assert_eq!(c.send_count(era, 1), 1);
}

#[test]
fn send_message_fails_sender_not_citizen() {
    let mut c = Chain::new();
    assert_eq!(c.register(2, dummy_pubkey(2)), Ok(()));
    assert_eq!(c.send(99, 2, dummy_pubkey(99), dummy_ciphertext(100)), Err(Error::NotACitizen));
}

#[test]
fn send_message_fails_recipient_not_citizen() {
    let mut c = Chain::new();
    assert_eq!(c.register(1, dummy_pubkey(1)), Ok(()));
    assert_eq!(c.send(1, 99, dummy_pubkey(99), dummy_ciphertext(100)), Err(Error::RecipientNotCitizen));
}

#[test]
fn send_message_fails_no_encryption_key() {
    let mut c = Chain::new();
    assert_eq!(c.send(1, 2, dummy_pubkey(99), dummy_ciphertext(100)), Err(Error::RecipientNoEncryptionKey));
}

#[test]
fn send_message_fails_self_message() {
    let mut c = Chain::new();
    assert_eq!(c.register(1, dummy_pubkey(1)), Ok(()));
    assert_eq!(c.send(1, 1, dummy_pubkey(99), dummy_ciphertext(100)), Err(Error::CannotMessageSelf));
}

#[test]
fn send_message_fails_empty_payload() {
    let mut c = Chain::new();
    assert_eq!(c.register(1, dummy_pubkey(1)), Ok(()));
    assert_eq!(c.register(2, dummy_pubkey(2)), Ok(()));
    assert_eq!(c.send(1, 2, dummy_pubkey(99), vec![]), Err(Error::EmptyPayload));
}

#[test]
fn send_message_fails_payload_too_large() {
    let mut c = Chain::new();
    assert_eq!(c.register(1, dummy_pubkey(1)), Ok(()));
    assert_eq!(c.register(2, dummy_pubkey(2)), Ok(()));
    assert_eq!(c.send(1, 2, dummy_pubkey(99), dummy_ciphertext(513)), Err(Error::PayloadTooLarge));
}

#[test]
fn rate_limit_enforced() {
    let mut c = Chain::new();
    assert_eq!(c.register(1, dummy_pubkey(1)), Ok(()));
    assert_eq!(c.register(2, dummy_pubkey(2)), Ok(()));
    for _ in 0..5 {
        assert_eq!(c.send(1, 2, dummy_pubkey(99), dummy_ciphertext(50)), Ok(()));
    }
    assert_eq!(c.send(1, 2, dummy_pubkey(99), dummy_ciphertext(50)), Err(Error::RateLimitExceeded));
}

#[test]
fn inbox_fifo_drops_oldest() {
    let mut c = Chain::new();
    for i in 1..=10u64 {
        assert_eq!(c.register(i, dummy_pubkey(i as u8)), Ok(()));
    }
    let era = c.pallet.current_era();
    for i in 3..=10u64 {
        for _ in 0..5 {
            assert_eq!(c.send(i, 2, dummy_pubkey(i as u8), dummy_ciphertext(10)), Ok(()));
        }
    }
    assert_eq!(c.inbox_len(era, 2), 40);
    for _ in 0..5 {
        assert_eq!(c.send(1, 2, dummy_pubkey(1), dummy_ciphertext(10)), Ok(()));
    }
    assert_eq!(c.inbox_len(era, 2), 45);
}

#[test]
fn a_full_inbox_drops_its_oldest_message_for_the_newest() {
    let mut c = Chain::new();
    c.pallet.config.max_inbox_size = 3;
    assert_eq!(c.register(2, dummy_pubkey(2)), Ok(()));
    for sender in [3u64, 4, 5] {
        assert_eq!(c.send(sender, 2, dummy_pubkey(sender as u8), dummy_ciphertext(10)), Ok(()));
    }
    assert_eq!(c.send(6, 2, dummy_pubkey(6), dummy_ciphertext(10)), Ok(()));
    let key = 2u128;
    let senders: Vec<u64> = c.pallet.inbox.get(&key).unwrap().iter().map(|m| m.sender).collect();
    assert_eq!(senders, vec![4, 5, 6]);
    let n = c.pallet.events.len();
    assert_eq!(c.pallet.events[n - 2], Event::InboxOverflow { recipient: 2, era: 0 });
    assert_eq!(c.pallet.events[n - 1], Event::MessageSent { from: 6, to: 2, era: 0 });
}

#[test]
fn acknowledge_clears_inbox() {
    let mut c = Chain::new();
    assert_eq!(c.register(1, dummy_pubkey(1)), Ok(()));
    assert_eq!(c.register(2, dummy_pubkey(2)), Ok(()));
    assert_eq!(c.send(1, 2, dummy_pubkey(99), dummy_ciphertext(50)), Ok(()));
    let era = c.pallet.current_era();
    assert_eq!(c.inbox_len(era, 2), 1);
    assert_eq!(c.pallet.acknowledge_messages(2), Ok(()));
    assert_eq!(c.inbox_len(era, 2), 0);
    assert_eq!(*c.pallet.events.last().unwrap(), Event::InboxCleared { who: 2, era, count: 1 });
}

#[test]
fn era_rotates_after_era_length_blocks() {
    let mut c = Chain::new();
    assert_eq!(c.pallet.current_era(), 0);
    assert!(c.rotate_to(100));
    assert_eq!(c.pallet.current_era(), 1);
    assert!(c.rotate_to(200));
    assert_eq!(c.pallet.current_era(), 2);
    assert!(!c.rotate_to(250));
    assert_eq!(c.pallet.current_era(), 2);
}

#[test]
fn remaining_send_quota_works() {
    let mut c = Chain::new();
    assert_eq!(c.register(1, dummy_pubkey(1)), Ok(()));
    assert_eq!(c.register(2, dummy_pubkey(2)), Ok(()));
    assert_eq!(c.pallet.remaining_send_quota(1), 5);
    assert_eq!(c.send(1, 2, dummy_pubkey(99), dummy_ciphertext(50)), Ok(()));
    assert_eq!(c.pallet.remaining_send_quota(1), 4);
}

#[test]
fn inbox_count_works() {
    let mut c = Chain::new();
    assert_eq!(c.register(1, dummy_pubkey(1)), Ok(()));
    assert_eq!(c.register(2, dummy_pubkey(2)), Ok(()));
    assert_eq!(c.pallet.inbox_count(2), 0);
    assert_eq!(c.send(1, 2, dummy_pubkey(99), dummy_ciphertext(50)), Ok(()));
    assert_eq!(c.pallet.inbox_count(2), 1);
}

#[test]
fn an_expired_era_is_purged_a_batch_at_a_time() {
    let mut c = Chain::new();
    c.pallet.config.max_messages_per_era = 100;
    for who in 1..=10u64 {
        assert_eq!(c.register(who, dummy_pubkey(who as u8)), Ok(()));
    }
    // Era 0: messages to every citizen.
    for to in 2..=10u64 {
        assert_eq!(c.send(1, to, dummy_pubkey(1), dummy_ciphertext(10)), Ok(()));
    }
    assert!(c.rotate_to(100));
    assert_eq!(c.pallet.cleanup_era, None, "the era just ended keeps its messages a while longer");
    assert!(c.rotate_to(200));
    assert_eq!(c.pallet.cleanup_era, Some(0));
    assert_eq!(c.pallet.on_idle(false), None, "no room in the block, nothing done");

    let step = c.pallet.on_idle(true).unwrap();
    assert_eq!(step, PurgeStep { era: 0, inboxes_cleared: 9, counters_cleared: 1, finished: true });
    for to in 2..=10u64 {
        assert_eq!(c.inbox_len(0, to), 0);
    }
    assert_eq!(c.send_count(0, 1), 0);
    assert_eq!(c.pallet.cleanup_era, None);
    assert_eq!(*c.pallet.events.last().unwrap(), Event::EraPurged { era: 0 });
    assert_eq!(c.pallet.on_idle(true), None);
}

#[test]
fn a_large_era_takes_several_purge_steps() {
    let mut c = Chain::new();
    for who in 1..=120u64 {
        let key = who as u128;
        c.pallet.inbox.insert(key, Vec::new());
    }
    c.pallet.recipients.insert(0, (1..=120u64).collect());
    c.pallet.cleanup_era = Some(0);
    let first = c.pallet.on_idle(true).unwrap();
    assert_eq!(first.inboxes_cleared, 50);
    assert!(!first.finished);
    let second = c.pallet.on_idle(true).unwrap();
    assert_eq!(second.inboxes_cleared, 50);
    let third = c.pallet.on_idle(true).unwrap();
    assert_eq!(third.inboxes_cleared, 20);
    assert!(third.finished);
    assert_eq!(c.pallet.inbox.len(), 0);
}
