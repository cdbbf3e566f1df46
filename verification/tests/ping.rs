use pezpallets::ping::{Error, Event, Pezpallet, PING_CALL_INDEX, PONG_CALL_INDEX};

const PALLET_INDEX: u8 = 50;

fn targets(p: &Pezpallet) -> Vec<(u32, Vec<u8>)> {
    p.targets.iter().map(|t| (t.para, t.payload.clone())).collect()
}

/// Run the per-block hook with every ping sent, as a sender that always succeeds does.
fn finalize(p: &mut Pezpallet, n: u64) {
    let due = p.pings_due();
    let sent: Vec<Option<[u8; 32]>> = due.iter().map(|_| Some([0u8; 32])).collect();
    p.on_finalize(n, &sent);
}

#[test]
fn start_works_with_root() {
    let mut p = Pezpallet::new(PALLET_INDEX);
    let payload = vec![1u8; 32];
    assert_eq!(p.start(2000, payload.clone()), Ok(()));
    let t = targets(&p);
    assert_eq!(t.len(), 1);
    assert_eq!(t[0].0, 2000);
    assert_eq!(t[0].1, payload);
}

#[test]
fn start_rejects_payload_too_large() {
    let mut p = Pezpallet::new(PALLET_INDEX);
    assert_eq!(p.start(2000, vec![0u8; 1025]), Err(Error::PayloadTooLarge));
}

#[test]
fn start_respects_max_payload_boundary() {
    let mut p = Pezpallet::new(PALLET_INDEX);
    assert_eq!(p.start(2000, vec![0u8; 1024]), Ok(()));
    assert_eq!(p.targets.len(), 1);
}

#[test]
fn start_rejects_too_many_targets() {
    let mut p = Pezpallet::new(PALLET_INDEX);
    for i in 0..100u32 {
        assert_eq!(p.start(2000 + i, vec![0u8; 4]), Ok(()));
    }
    assert_eq!(p.start(3000, vec![0u8; 4]), Err(Error::TooManyTargets));
}

#[test]
fn start_many_adds_multiple_entries() {
    let mut p = Pezpallet::new(PALLET_INDEX);
    let payload = vec![1u8; 16];
    assert_eq!(p.start_many(2000, 5, payload.clone()), Ok(()));
    let t = targets(&p);
    assert_eq!(t.len(), 5);
    for (para, pl) in t {
        assert_eq!(para, 2000);
        assert_eq!(pl, payload);
    }
}

#[test]
fn start_many_respects_max_targets() {
    let mut p = Pezpallet::new(PALLET_INDEX);
    assert_eq!(p.start_many(2000, 101, vec![0u8; 4]), Err(Error::TooManyTargets));
    assert_eq!(p.targets.len(), 0, "nothing was added");
}

#[test]
fn start_many_rejects_payload_too_large() {
    let mut p = Pezpallet::new(PALLET_INDEX);
    assert_eq!(p.start_many(2000, 1, vec![0u8; 1025]), Err(Error::PayloadTooLarge));
}

#[test]
fn stop_removes_first_matching_target() {
    let mut p = Pezpallet::new(PALLET_INDEX);
    assert_eq!(p.start(2000, vec![1u8; 4]), Ok(()));
    assert_eq!(p.start(2001, vec![2u8; 4]), Ok(()));
    assert_eq!(p.start(2000, vec![3u8; 4]), Ok(()));
    assert_eq!(p.targets.len(), 3);
    assert_eq!(p.stop(2000), Ok(()));
    let t = targets(&p);
    assert_eq!(t.len(), 2);
    assert_eq!(t, vec![(2000, vec![3u8; 4]), (2001, vec![2u8; 4])]);
}

#[test]
fn stop_noop_if_no_match() {
    let mut p = Pezpallet::new(PALLET_INDEX);
    assert_eq!(p.start(2000, vec![0u8; 4]), Ok(()));
    assert_eq!(p.stop(9999), Ok(()));
    assert_eq!(p.targets.len(), 1);
}

#[test]
fn stop_all_clears_everything() {
    let mut p = Pezpallet::new(PALLET_INDEX);
    assert_eq!(p.start(2000, vec![1u8; 4]), Ok(()));
    assert_eq!(p.start(2001, vec![2u8; 4]), Ok(()));
    assert_eq!(p.stop_all(None), Ok(()));
    assert_eq!(p.targets.len(), 0);
}

#[test]
fn stop_all_with_para_filter() {
    let mut p = Pezpallet::new(PALLET_INDEX);
    assert_eq!(p.start(2000, vec![1u8; 4]), Ok(()));
    assert_eq!(p.start(2001, vec![2u8; 4]), Ok(()));
    assert_eq!(p.start(2000, vec![3u8; 4]), Ok(()));
    assert_eq!(p.stop_all(Some(2000)), Ok(()));
    let t = targets(&p);
    assert_eq!(t.len(), 1);
    assert_eq!(t[0].0, 2001);
}

#[test]
fn ping_from_sibling_para_works() {
    let mut p = Pezpallet::new(PALLET_INDEX);
    let pong = p.pong_call(1, &vec![42u8; 8]);
    assert_eq!(pong[0], PALLET_INDEX);
    assert_eq!(pong[1], PONG_CALL_INDEX);
    assert_eq!(p.ping(2000, 1, vec![42u8; 8], Some([9u8; 32])), Ok(()));
    assert!(matches!(&p.events[0], Event::Pinged { para: 2000, seq: 1, payload } if *payload == vec![42u8; 8]));
    assert!(matches!(&p.events[1], Event::PongSent { para: 2000, seq: 1, hash, .. } if *hash == [9u8; 32]));
}

#[test]
fn a_pong_that_could_not_be_sent_is_reported() {
    let mut p = Pezpallet::new(PALLET_INDEX);
    assert_eq!(p.ping(2000, 1, vec![1u8; 2], None), Ok(()));
    assert!(matches!(&p.events[1], Event::ErrorSendingPong { para: 2000, seq: 1, .. }));
}

#[test]
fn pong_processes_known_ping() {
    let mut p = Pezpallet::new(PALLET_INDEX);
    p.pings.insert(42, 1);
    assert_eq!(p.pong(2000, 42, vec![0u8; 4], 1), Ok(()));
    assert!(p.pings.get(&42).is_none());
    assert!(matches!(p.events.last().unwrap(), Event::Ponged { para: 2000, seq: 42, elapsed: 0, .. }));
}

#[test]
fn pong_handles_unknown_pong() {
    let mut p = Pezpallet::new(PALLET_INDEX);
    assert_eq!(p.pong(2000, 99, vec![0u8; 4], 1), Ok(()));
    assert!(matches!(p.events.last().unwrap(), Event::UnknownPong { para: 2000, seq: 99, .. }));
}

#[test]
fn on_finalize_sends_pings_to_targets() {
    let mut p = Pezpallet::new(PALLET_INDEX);
    assert_eq!(p.start(2000, vec![7u8; 4]), Ok(()));
    assert_eq!(p.ping_count, 0);
    let due = p.pings_due();
    assert_eq!(due.len(), 1);
    assert_eq!(due[0].seq, 1);
    // ping(seq = 1, payload = [7; 4]): the call's index, the sequence number, then the bytes.
    assert_eq!(due[0].call, vec![PALLET_INDEX, PING_CALL_INDEX, 1, 0, 0, 0, 16, 7, 7, 7, 7]);
    finalize(&mut p, 1);
    assert_eq!(p.ping_count, 1);
    assert_eq!(p.pings.get(&1).copied(), Some(1));
    assert!(matches!(&p.events[0], Event::PingSent { para: 2000, seq: 1, payload, hash } if *payload == vec![7u8; 4] && *hash == [0u8; 32]));
}

#[test]
fn on_finalize_increments_seq_per_target() {
    let mut p = Pezpallet::new(PALLET_INDEX);
    assert_eq!(p.start(2000, vec![1u8; 4]), Ok(()));
    assert_eq!(p.start(2001, vec![2u8; 4]), Ok(()));
    finalize(&mut p, 1);
    assert_eq!(p.ping_count, 2);
    assert!(p.pings.get(&1).is_some());
    assert!(p.pings.get(&2).is_some());
}

#[test]
fn on_finalize_noop_with_no_targets() {
    let mut p = Pezpallet::new(PALLET_INDEX);
    finalize(&mut p, 1);
    assert_eq!(p.ping_count, 0);
}

#[test]
fn a_ping_that_could_not_be_sent_is_not_awaited() {
    let mut p = Pezpallet::new(PALLET_INDEX);
    assert_eq!(p.start(2000, vec![1u8; 4]), Ok(()));
    assert_eq!(p.start(2001, vec![2u8; 4]), Ok(()));
    p.on_finalize(5, &vec![None, Some([1u8; 32])]);
    assert_eq!(p.ping_count, 2);
    assert!(p.pings.get(&1).is_none());
    assert_eq!(p.pings.get(&2).copied(), Some(5));
    assert!(matches!(&p.events[0], Event::ErrorSendingPing { para: 2000, seq: 1, .. }));
}
