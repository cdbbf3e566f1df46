//! Pinging sibling chains: a list of targets pinged every block with a rising sequence
//! number, the pings answered with pongs, and the pongs matched against the pings sent.
//!
//! The cross-chain messages themselves are sent by the caller: the pallet says what to send
//! and records what came of it.
use vstd::prelude::*;
use vstd::hash_map::HashMapWithView;
use crate::arith::{sat_add_u32, sat_sub_u64};
use crate::scale;

verus! {

/// The most targets the pallet keeps.
pub const MAX_TEYRCHAINS: usize = 100;

/// The largest payload a target may carry, in bytes.
pub const MAX_PAYLOAD_SIZE: usize = 1024;

/// `ping` in this pallet's call enum.
pub const PING_CALL_INDEX: u8 = 4;

/// `pong` in this pallet's call enum.
pub const PONG_CALL_INDEX: u8 = 5;

/// A chain to ping, and what to ping it with.
#[derive(Clone, Debug)]
pub struct Target {
    pub para: u32,
    pub payload: Vec<u8>,
}

/// A ping to send this block: to whom, with which sequence number, and the call to send.
#[derive(Clone, Debug)]
pub struct PlannedPing {
    pub para: u32,
    pub seq: u32,
    pub payload: Vec<u8>,
    /// The encoded `ping` call for the target to dispatch.
    pub call: Vec<u8>,
}

/// What the ping pallet reports having done. `hash` is the sent message's hash.
#[derive(Clone, Debug)]
pub enum Event {
    PingSent { para: u32, seq: u32, payload: Vec<u8>, hash: [u8; 32] },
    Pinged { para: u32, seq: u32, payload: Vec<u8> },
    PongSent { para: u32, seq: u32, payload: Vec<u8>, hash: [u8; 32] },
    Ponged { para: u32, seq: u32, payload: Vec<u8>, elapsed: u64 },
    ErrorSendingPing { para: u32, seq: u32, payload: Vec<u8> },
    ErrorSendingPong { para: u32, seq: u32, payload: Vec<u8> },
    UnknownPong { para: u32, seq: u32, payload: Vec<u8> },
}

/// Why a ping call was refused.
#[derive(Clone, Copy, PartialEq, Eq, Debug, Structural)]
pub enum Error {
    /// Too many teyrchains have been added as a target.
    TooManyTargets,
    /// The payload provided is too large, limit is 1024 bytes.
    PayloadTooLarge,
}

/// The ping pallet's storage.
pub struct Pezpallet {
    /// This pallet's index in the sibling chains' runtimes, which share this runtime's calls.
    pub pallet_index: u8,
    pub targets: Vec<Target>,
    pub ping_count: u32,
    /// When each ping still awaiting its pong was sent.
    pub pings: HashMapWithView<u32, u64>,
    pub events: Vec<Event>,
}

/// The encoded `ping` or `pong` call with `seq` and `payload`.
pub open spec fn ping_pong_call(pallet_index: u8, call_index: u8, seq: u32, payload: Seq<u8>) -> Seq<u8> {
    scale::call_bytes(pallet_index, call_index, scale::le_bytes(seq as nat, 4) + scale::compact_u128(payload.len() as u128) + payload)
}

/// The sequence number of the `i`-th ping after `count` pings: counting on, and stuck at
/// `u32::MAX` once it gets there.
pub open spec fn seq_after(count: u32, i: int) -> u32 {
    if count + i + 1 > u32::MAX {
        u32::MAX
    } else {
        (count + i + 1) as u32
    }
}

/// The targets that are not `para`.
pub open spec fn without(l: Seq<(u32, Seq<u8>)>, para: u32) -> Seq<(u32, Seq<u8>)>
    decreases l.len(),
{
    if l.len() == 0 {
        l
    } else if l.last().0 != para {
        without(l.drop_last(), para).push(l.last())
    } else {
        without(l.drop_last(), para)
    }
}

/// The encoded call `pallet_index`.`call_index`(`seq`, `payload`).
fn encode_call(pallet_index: u8, call_index: u8, seq: u32, payload: &Vec<u8>) -> (r: Vec<u8>)
    requires
        payload@.len() <= u32::MAX,
    ensures
        r@ == ping_pong_call(pallet_index, call_index, seq, payload@),
{
    let mut args = scale::encode_u32(seq);
    let mut bytes = scale::encode_bytes(payload);
    args.append(&mut bytes);
    let r = scale::frame_call(pallet_index, call_index, args);
    proof {
        assert(r@ =~= ping_pong_call(pallet_index, call_index, seq, payload@));
    }
    r
}

fn copy_bytes(v: &Vec<u8>) -> (r: Vec<u8>)
    ensures
        r@ == v@,
{
    let mut r: Vec<u8> = Vec::new();
    let mut i: usize = 0;
    while i < v.len()
        invariant
            i <= v@.len(),
            r@ == v@.take(i as int),
        decreases v@.len() - i,
    {
        r.push(v[i]);
        proof {
            assert(v@.take(i + 1) =~= v@.take(i as int).push(v@[i as int]));
        }
        i = i + 1;
    }
    proof {
        assert(v@.take(v@.len() as int) =~= v@);
    }
    r
}

/// `e` reports the ping of `seq` to `para` with `payload`: sent, with its hash, or not.
pub open spec fn ping_reported(e: Event, para: u32, seq: u32, payload: Seq<u8>, sent: Option<[u8; 32]>) -> bool {
    match sent {
        Some(h) => e matches Event::PingSent { para: p, seq: s, payload: pl, hash } && p == para && s == seq
            && pl@ == payload && hash == h,
        None => e matches Event::ErrorSendingPing { para: p, seq: s, payload: pl } && p == para && s == seq
            && pl@ == payload,
    }
}

/// `e` reports the pong answering ping `seq` from `para` with `payload`: sent, with its hash,
/// or not.
pub open spec fn pong_reported(e: Event, para: u32, seq: u32, payload: Seq<u8>, sent: Option<[u8; 32]>) -> bool {
    match sent {
        Some(h) => e matches Event::PongSent { para: p, seq: s, payload: pl, hash } && p == para && s == seq
            && pl@ == payload && hash == h,
        None => e matches Event::ErrorSendingPong { para: p, seq: s, payload: pl } && p == para && s == seq
            && pl@ == payload,
    }
}

impl Pezpallet {
    /// The targets as (chain, payload) pairs.
    pub open spec fn target_list(&self) -> Seq<(u32, Seq<u8>)> {
        self.targets@.map_values(|t: Target| (t.para, t.payload@))
    }

    /// The pallet's invariant: at most `MAX_TEYRCHAINS` targets, none with a payload over
    /// `MAX_PAYLOAD_SIZE`.
    pub open spec fn wf(&self) -> bool {
        &&& self.targets@.len() <= MAX_TEYRCHAINS
        &&& forall|i: int| 0 <= i < self.targets@.len() ==> (#[trigger] self.targets@[i]).payload@.len() <= MAX_PAYLOAD_SIZE
    }

    /// A ping pallet with no targets.
    pub fn new(pallet_index: u8) -> (r: Self)
        ensures
            r.wf(),
            r.pallet_index == pallet_index,
            r.target_list() == Seq::<(u32, Seq<u8>)>::empty(),
            r.ping_count == 0,
            r.pings@ == Map::<u32, u64>::empty(),
            r.events@.len() == 0,
    {
        proof {
            broadcast use vstd::std_specs::hash::axiom_u32_obeys_hash_table_key_model;
        }
        let r = Pezpallet {
            pallet_index,
            targets: Vec::new(),
            ping_count: 0,
            pings: HashMapWithView::new(),
            events: Vec::new(),
        };
        proof {
            assert(r.target_list() =~= Seq::<(u32, Seq<u8>)>::empty());
        }
        r
    }

    /// Ping `para` with `payload` every block from now on. Refused for a payload over
    /// `MAX_PAYLOAD_SIZE` and when there are already `MAX_TEYRCHAINS` targets.
    pub fn start(&mut self, para: u32, payload: Vec<u8>) -> (r: Result<(), Error>)
        requires
            old(self).wf(),
        ensures
            final(self).wf(),
            r == (if payload@.len() > MAX_PAYLOAD_SIZE {
                Err(Error::PayloadTooLarge)
            } else if old(self).targets@.len() >= MAX_TEYRCHAINS {
                Err(Error::TooManyTargets)
            } else {
                Ok::<(), Error>(())
            }),
            r is Err ==> final(self).target_list() == old(self).target_list(),
            r is Ok ==> final(self).target_list() == old(self).target_list().push((para, payload@)),
            final(self).pallet_index == old(self).pallet_index,
            final(self).ping_count == old(self).ping_count,
            final(self).pings@ == old(self).pings@,
            final(self).events@ == old(self).events@,
    {
        if payload.len() > MAX_PAYLOAD_SIZE {
            return Err(Error::PayloadTooLarge);
        }
        if self.targets.len() >= MAX_TEYRCHAINS {
            return Err(Error::TooManyTargets);
        }
        let ghost pre = self.target_list();
        self.targets.push(Target { para, payload });
        proof {
            assert(self.target_list() =~= pre.push((para, payload@)));
        }
        Ok(())
    }

    /// Ping `para` with `payload` `count` more times per block. Refused, with nothing added,
    /// for a payload over `MAX_PAYLOAD_SIZE` and when the targets would exceed
    /// `MAX_TEYRCHAINS`.
    pub fn start_many(&mut self, para: u32, count: u32, payload: Vec<u8>) -> (r: Result<(), Error>)
        requires
            old(self).wf(),
        ensures
            final(self).wf(),
            r == (if payload@.len() > MAX_PAYLOAD_SIZE {
                Err(Error::PayloadTooLarge)
            } else if old(self).targets@.len() + count > MAX_TEYRCHAINS {
                Err(Error::TooManyTargets)
            } else {
                Ok::<(), Error>(())
            }),
            r is Err ==> final(self).target_list() == old(self).target_list(),
            r is Ok ==> final(self).target_list() == old(self).target_list() + Seq::new(count as nat, |i: int| (para, payload@)),
            final(self).pallet_index == old(self).pallet_index,
            final(self).ping_count == old(self).ping_count,
            final(self).pings@ == old(self).pings@,
            final(self).events@ == old(self).events@,
    {
        if payload.len() > MAX_PAYLOAD_SIZE {
            return Err(Error::PayloadTooLarge);
        }
        if count as usize > MAX_TEYRCHAINS - self.targets.len() {
            return Err(Error::TooManyTargets);
        }
        let ghost pre = self.target_list();
        let mut i: u32 = 0;
        while i < count
            invariant
                i <= count,
                pre.len() + count <= MAX_TEYRCHAINS,
                payload@.len() <= MAX_PAYLOAD_SIZE,
                self.wf(),
                self.target_list() == pre + Seq::new(i as nat, |j: int| (para, payload@)),
                self.pallet_index == old(self).pallet_index,
                self.ping_count == old(self).ping_count,
                self.pings@ == old(self).pings@,
                self.events@ == old(self).events@,
            decreases count - i,
        {
            let copy = copy_bytes(&payload);
            let ghost before = self.target_list();
            self.targets.push(Target { para, payload: copy });
            proof {
                assert(self.target_list() =~= before.push((para, payload@)));
                assert(pre + Seq::new((i + 1) as nat, |j: int| (para, payload@)) =~= (pre + Seq::new(i as nat, |j: int| (para, payload@))).push((para, payload@)));
            }
            i = i + 1;
        }
        Ok(())
    }

    /// Stop pinging `para` once: its first target goes, and the last target takes its place.
    pub fn stop(&mut self, para: u32) -> (r: Result<(), Error>)
        requires
            old(self).wf(),
        ensures
            final(self).wf(),
            r is Ok,
            (forall|i: int| 0 <= i < old(self).target_list().len() ==> (#[trigger] old(self).target_list()[i]).0 != para) ==> final(self).target_list() == old(self).target_list(),
            forall|p: int| 0 <= p < old(self).target_list().len() && (#[trigger] old(self).target_list()[p]).0 == para
                && (forall|i: int| 0 <= i < p ==> (#[trigger] old(self).target_list()[i]).0 != para) ==> {
                let l = old(self).target_list();
                final(self).target_list() == l.update(p, l.last()).drop_last()
            },
            final(self).pallet_index == old(self).pallet_index,
            final(self).ping_count == old(self).ping_count,
            final(self).pings@ == old(self).pings@,
            final(self).events@ == old(self).events@,
    {
        let ghost l = self.target_list();
        let mut i: usize = 0;
        while i < self.targets.len()
            invariant
                i <= self.targets@.len(),
                self.target_list() == l,
                l == old(self).target_list(),
                self.wf(),
                self.pallet_index == old(self).pallet_index,
                self.ping_count == old(self).ping_count,
                self.pings@ == old(self).pings@,
                self.events@ == old(self).events@,
                forall|j: int| 0 <= j < i ==> (#[trigger] l[j]).0 != para,
            decreases self.targets@.len() - i,
        {
            if self.targets[i].para == para {
                self.targets.swap_remove(i);
                proof {
                    assert(l[i as int].0 == para);
                    assert(self.target_list() =~= l.update(i as int, l.last()).drop_last());
                    assert forall|p: int| 0 <= p < l.len() && (#[trigger] l[p]).0 == para
                        && (forall|j: int| 0 <= j < p ==> (#[trigger] l[j]).0 != para) implies p == i by {
                        if p < i {
                        } else if p > i {
                            assert(l[i as int].0 == para);
                        }
                    }
                }
                return Ok(());
            }
            proof {
                assert(l[i as int].0 != para);
            }
            i = i + 1;
        }
        proof {
            assert forall|p: int| 0 <= p < l.len() implies (#[trigger] l[p]).0 != para by {
            }
        }
        Ok(())
    }

    /// Stop pinging `para` altogether, or, given no chain, stop pinging everyone.
    pub fn stop_all(&mut self, maybe_para: Option<u32>) -> (r: Result<(), Error>)
        requires
            old(self).wf(),
        ensures
            final(self).wf(),
            r is Ok,
            final(self).target_list() == match maybe_para {
                Some(para) => without(old(self).target_list(), para),
                None => Seq::<(u32, Seq<u8>)>::empty(),
            },
            final(self).pallet_index == old(self).pallet_index,
            final(self).ping_count == old(self).ping_count,
            final(self).pings@ == old(self).pings@,
            final(self).events@ == old(self).events@,
    {
        match maybe_para {
            None => {
                self.targets = Vec::new();
                proof {
                    assert(self.target_list() =~= Seq::<(u32, Seq<u8>)>::empty());
                }
            },
            Some(para) => {
                let ghost l = self.target_list();
                let mut kept: Vec<Target> = Vec::new();
                let mut rest: Vec<Target> = Vec::new();
                std::mem::swap(&mut rest, &mut self.targets);
                let ghost all = rest@;
                let mut i: usize = 0;
                let n = rest.len();
                while i < n
                    invariant
                        n == all.len(),
                        rest@.len() == n - i,
                        i <= n,
                        rest@ == all.skip(i as int),
                        l == all.map_values(|t: Target| (t.para, t.payload@)),
                        kept@.map_values(|t: Target| (t.para, t.payload@)) == without(l.take(i as int), para),
                        forall|j: int| 0 <= j < kept@.len() ==> (#[trigger] kept@[j]).payload@.len() <= MAX_PAYLOAD_SIZE,
                        kept@.len() <= i,
                        forall|j: int| 0 <= j < n ==> (#[trigger] all[j]).payload@.len() <= MAX_PAYLOAD_SIZE,
                    decreases n - i,
                {
                    let t = rest.remove(0);
                    proof {
                        assert(t == all[i as int]);
                        assert(l.take(i + 1).drop_last() =~= l.take(i as int));
                        assert(l.take(i + 1).last() == (t.para, t.payload@));
                        assert(without(l.take(i + 1), para) == (if t.para != para {
                            without(l.take(i as int), para).push(l[i as int])
                        } else {
                            without(l.take(i as int), para)
                        }));
                    }
                    let ghost before = kept@;
                    if t.para != para {
                        kept.push(t);
                        proof {
                            assert(kept@.map_values(|t: Target| (t.para, t.payload@)) =~= before.map_values(|t: Target| (t.para, t.payload@)).push(l[i as int]));
                        }
                    }
                    proof {
                        assert(rest@ =~= all.skip(i + 1));
                    }
                    i = i + 1;
                }
                proof {
                    assert(l.take(n as int) =~= l);
                }
                self.targets = kept;
            },
        }
        Ok(())
    }

    /// The pings due this block, one per target in order, numbered on from the pings sent so
    /// far, each with its encoded `ping` call.
    pub fn pings_due(&self) -> (r: Vec<PlannedPing>)
        requires
            self.wf(),
        ensures
            r@.len() == self.targets@.len(),
            forall|i: int| 0 <= i < r@.len() ==> {
                let p = #[trigger] r@[i];
                &&& p.para == self.targets@[i].para
                &&& p.seq == seq_after(self.ping_count, i)
                &&& p.payload@ == self.targets@[i].payload@
                &&& p.call@ == ping_pong_call(self.pallet_index, PING_CALL_INDEX, p.seq, p.payload@)
            },
    {
        let mut r: Vec<PlannedPing> = Vec::new();
        let mut seq = self.ping_count;
        let mut i: usize = 0;
        while i < self.targets.len()
            invariant
                self.wf(),
                i <= self.targets@.len(),
                r@.len() == i,
                seq == (if i == 0 { self.ping_count } else { seq_after(self.ping_count, i - 1) }),
                forall|j: int| 0 <= j < i ==> {
                    let p = #[trigger] r@[j];
                    &&& p.para == self.targets@[j].para
                    &&& p.seq == seq_after(self.ping_count, j)
                    &&& p.payload@ == self.targets@[j].payload@
                    &&& p.call@ == ping_pong_call(self.pallet_index, PING_CALL_INDEX, p.seq, p.payload@)
                },
            decreases self.targets@.len() - i,
        {
            seq = seq.saturating_add(1);
            let payload = copy_bytes(&self.targets[i].payload);
            proof {
                assert(self.targets@[i as int].payload@.len() <= MAX_PAYLOAD_SIZE);
            }
            let call = encode_call(self.pallet_index, PING_CALL_INDEX, seq, &payload);
            r.push(PlannedPing { para: self.targets[i].para, seq, payload, call });
            i = i + 1;
        }
        r
    }

    /// The per-block hook at block `n`, once the pings of `pings_due` have been sent: `sent`
    /// says, target by target, whether each was sent and with what message hash. Every
    /// target takes the next sequence number; a sent ping is remembered as sent at `n`.
    pub fn on_finalize(&mut self, n: u64, sent: &Vec<Option<[u8; 32]>>) -> (r: ())
        requires
            old(self).wf(),
            sent@.len() == old(self).targets@.len(),
        ensures
            final(self).wf(),
            final(self).targets@ == old(self).targets@,
            final(self).pallet_index == old(self).pallet_index,
            final(self).ping_count == (if old(self).targets@.len() == 0 {
                old(self).ping_count
            } else {
                seq_after(old(self).ping_count, old(self).targets@.len() - 1)
            }),
            forall|seq: u32| #[trigger] final(self).pings@.contains_key(seq) == (old(self).pings@.contains_key(seq)
                || exists|i: int| 0 <= i < sent@.len() && sent@[i] is Some && seq_after(old(self).ping_count, i) == seq),
            forall|seq: u32| #[trigger] final(self).pings@.contains_key(seq) ==> final(self).pings@[seq] == if exists|i: int|
                0 <= i < sent@.len() && sent@[i] is Some && seq_after(old(self).ping_count, i) == seq {
                n
            } else {
                old(self).pings@[seq]
            },
            final(self).events@.len() == old(self).events@.len() + sent@.len(),
            forall|j: int| 0 <= j < old(self).events@.len() ==> #[trigger] final(self).events@[j] == old(self).events@[j],
            forall|i: int| 0 <= i < sent@.len() ==> ping_reported(
                #[trigger] final(self).events@[old(self).events@.len() as int + i],
                old(self).targets@[i].para,
                seq_after(old(self).ping_count, i),
                old(self).targets@[i].payload@,
                sent@[i],
            ),
    {
        let ghost pre = *self;
        let mut i: usize = 0;
        while i < self.targets.len()
            invariant
                i <= self.targets@.len(),
                self.targets@ == pre.targets@,
                self.pallet_index == pre.pallet_index,
                sent@.len() == pre.targets@.len(),
                pre.wf(),
                self.ping_count == (if i == 0 { pre.ping_count } else { seq_after(pre.ping_count, i - 1) }),
                forall|seq: u32| #[trigger] self.pings@.contains_key(seq) == (pre.pings@.contains_key(seq)
                    || exists|k: int| 0 <= k < i && sent@[k] is Some && seq_after(pre.ping_count, k) == seq),
                forall|seq: u32| #[trigger] self.pings@.contains_key(seq) ==> self.pings@[seq] == if exists|k: int|
                    0 <= k < i && sent@[k] is Some && seq_after(pre.ping_count, k) == seq {
                    n
                } else {
                    pre.pings@[seq]
                },
                self.events@.len() == pre.events@.len() + i,
                forall|j: int| 0 <= j < pre.events@.len() ==> #[trigger] self.events@[j] == pre.events@[j],
                forall|k: int| 0 <= k < i ==> ping_reported(
                    #[trigger] self.events@[pre.events@.len() as int + k],
                    pre.targets@[k].para,
                    seq_after(pre.ping_count, k),
                    pre.targets@[k].payload@,
                    sent@[k],
                ),
            decreases self.targets@.len() - i,
        {
            let seq = self.ping_count.saturating_add(1);
            self.ping_count = seq;
            let para = self.targets[i].para;
            let payload = copy_bytes(&self.targets[i].payload);
            let ghost before = *self;
            proof {
                assert(seq == seq_after(pre.ping_count, i as int));
            }
            match sent[i] {
                Some(hash) => {
                    self.pings.insert(seq, n);
                    self.events.push(Event::PingSent { para, seq, payload, hash });
                },
                None => {
                    self.events.push(Event::ErrorSendingPing { para, seq, payload });
                },
            }
            proof {
                assert forall|s: u32| #[trigger] self.pings@.contains_key(s) == (pre.pings@.contains_key(s)
                    || exists|k: int| 0 <= k < i + 1 && sent@[k] is Some && seq_after(pre.ping_count, k) == s) by {
                    if sent@[i as int] is Some && s == seq {
                        assert(0 <= i < i + 1 && sent@[i as int] is Some && seq_after(pre.ping_count, i as int) == s);
                    }
                    if exists|k: int| 0 <= k < i + 1 && sent@[k] is Some && seq_after(pre.ping_count, k) == s {
                        let k = choose|k: int| 0 <= k < i + 1 && sent@[k] is Some && seq_after(pre.ping_count, k) == s;
                        if k < i {
                            assert(before.pings@.contains_key(s));
                        }
                    }
                }
                assert forall|s: u32| #[trigger] self.pings@.contains_key(s) implies self.pings@[s] == if exists|k: int|
                    0 <= k < i + 1 && sent@[k] is Some && seq_after(pre.ping_count, k) == s {
                    n
                } else {
                    pre.pings@[s]
                } by {
                    if sent@[i as int] is Some && s == seq {
                        assert(0 <= i < i + 1 && sent@[i as int] is Some && seq_after(pre.ping_count, i as int) == s);
                    } else {
                        assert(before.pings@.contains_key(s));
                        if exists|k: int| 0 <= k < i + 1 && sent@[k] is Some && seq_after(pre.ping_count, k) == s {
                            let k = choose|k: int| 0 <= k < i + 1 && sent@[k] is Some && seq_after(pre.ping_count, k) == s;
                            assert(k != i);
                            assert(0 <= k < i && sent@[k] is Some && seq_after(pre.ping_count, k) == s);
                        }
                    }
                }
                assert forall|k: int| 0 <= k < i + 1 implies ping_reported(
                    #[trigger] self.events@[pre.events@.len() as int + k],
                    pre.targets@[k].para,
                    seq_after(pre.ping_count, k),
                    pre.targets@[k].payload@,
                    sent@[k],
                ) by {
                    if k < i {
                        assert(self.events@[pre.events@.len() as int + k] == before.events@[pre.events@.len() as int + k]);
                    }
                }
            }
            i = i + 1;
        }
    }

    /// The encoded `pong` call answering ping `seq` with `payload`.
    pub fn pong_call(&self, seq: u32, payload: &Vec<u8>) -> (r: Vec<u8>)
        requires
            payload@.len() <= u32::MAX,
        ensures
            r@ == ping_pong_call(self.pallet_index, PONG_CALL_INDEX, seq, payload@),
    {
        encode_call(self.pallet_index, PONG_CALL_INDEX, seq, payload)
    }

    /// Chain `para` pinged this one with `seq` and `payload`; the pong was then sent, with
    /// the given message hash, or could not be (`sent` is `None`).
    pub fn ping(&mut self, para: u32, seq: u32, payload: Vec<u8>, sent: Option<[u8; 32]>) -> (r: Result<(), Error>)
        ensures
            r is Ok,
            final(self).targets@ == old(self).targets@,
            final(self).pallet_index == old(self).pallet_index,
            final(self).ping_count == old(self).ping_count,
            final(self).pings@ == old(self).pings@,
            final(self).events@.len() == old(self).events@.len() + 2,
            final(self).events@.subrange(0, old(self).events@.len() as int) == old(self).events@,
            final(self).events@[old(self).events@.len() as int] matches Event::Pinged { para: p, seq: s, payload: pl }
                && p == para && s == seq && pl@ == payload@,
            pong_reported(final(self).events@[old(self).events@.len() as int + 1], para, seq, payload@, sent),
    {
        let copy = copy_bytes(&payload);
        let ghost pre = self.events@;
        self.events.push(Event::Pinged { para, seq, payload: copy });
        match sent {
            Some(hash) => {
                self.events.push(Event::PongSent { para, seq, payload, hash });
            },
            None => {
                self.events.push(Event::ErrorSendingPong { para, seq, payload });
            },
        }
        proof {
            assert(self.events@.subrange(0, pre.len() as int) =~= pre);
        }
        Ok(())
    }

    /// Chain `para` answered ping `seq` at block `now`. A pong for a ping this pallet is
    /// waiting on is reported with the blocks it took, and the ping is forgotten; any other
    /// is reported as unknown.
    pub fn pong(&mut self, para: u32, seq: u32, payload: Vec<u8>, now: u64) -> (r: Result<(), Error>)
        ensures
            r is Ok,
            final(self).targets@ == old(self).targets@,
            final(self).pallet_index == old(self).pallet_index,
            final(self).ping_count == old(self).ping_count,
            final(self).pings@ == old(self).pings@.remove(seq),
            final(self).events@.len() == old(self).events@.len() + 1,
            final(self).events@.drop_last() == old(self).events@,
            old(self).pings@.contains_key(seq) ==> (final(self).events@.last() matches Event::Ponged {
                para: p,
                seq: s,
                payload: pl,
                elapsed,
            } && p == para && s == seq && pl@ == payload@ && elapsed == sat_sub_u64(now, old(self).pings@[seq])),
            !old(self).pings@.contains_key(seq) ==> (final(self).events@.last() matches Event::UnknownPong {
                para: p,
                seq: s,
                payload: pl,
            } && p == para && s == seq && pl@ == payload@),
    {
        match self.pings.remove(&seq) {
            Some(sent_at) => {
                self.events.push(Event::Ponged { para, seq, payload, elapsed: now.saturating_sub(sent_at) });
            },
            None => {
                self.events.push(Event::UnknownPong { para, seq, payload });
            },
        }
        Ok(())
    }
}

} // verus!
