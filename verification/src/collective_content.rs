//! A collective's published content: its charter, and announcements that expire, kept to a
//! maximum number. Both are content identifiers of documents held elsewhere.
use vstd::prelude::*;
use crate::arith::sat_add_u64;

verus! {

/// The longest content identifier, in bytes.
pub const MAX_CID_LEN: usize = 68;

/// When an announcement expires: at a block, or a number of blocks from now.
#[derive(Clone, Copy, PartialEq, Eq, Debug, Structural)]
pub enum DispatchTime {
    At(u64),
    After(u64),
}

/// The block `t` names, seen from block `now`.
pub open spec fn evaluate(t: DispatchTime, now: u64) -> u64 {
    match t {
        DispatchTime::At(n) => n,
        DispatchTime::After(n) => sat_add_u64(now, n),
    }
}

/// An announcement and the block it expires at.
#[derive(Clone, Debug)]
pub struct Announcement {
    pub cid: Vec<u8>,
    pub expire_at: u64,
}

/// What the content pallet reports having done.
#[derive(Clone, Debug)]
pub enum Event {
    NewCharterSet { cid: Vec<u8> },
    AnnouncementAnnounced { cid: Vec<u8>, expire_at: u64 },
    AnnouncementRemoved { cid: Vec<u8> },
}

/// Why a content call was refused.
#[derive(Clone, Copy, PartialEq, Eq, Debug, Structural)]
pub enum Error {
    /// The announcement is not found.
    MissingAnnouncement,
    /// Number of announcements exceeds the maximum.
    TooManyAnnouncements,
    /// Cannot expire in the past.
    InvalidExpiration,
    /// Only the announcement authority may remove an announcement before it expires.
    BadOrigin,
}

/// The content pallet's parameters.
#[derive(Clone, Copy, PartialEq, Eq, Debug, Structural)]
pub struct Config {
    /// How long an announcement lasts when no expiry is given.
    pub announcement_lifetime: u64,
    /// The most announcements kept.
    pub max_announcements: u32,
}

/// The content pallet's storage: the charter, and the announcements with no identifier
/// twice.
pub struct Pezpallet {
    pub config: Config,
    pub charter: Option<Vec<u8>>,
    pub announcements: Vec<Announcement>,
    pub events: Vec<Event>,
}

fn bytes_eq(a: &Vec<u8>, b: &Vec<u8>) -> (r: bool)
    ensures
        r == (a@ == b@),
{
    if a.len() != b.len() {
        return false;
    }
    let mut i: usize = 0;
    while i < a.len()
        invariant
            i <= a@.len(),
            a@.len() == b@.len(),
            forall|j: int| 0 <= j < i ==> a@[j] == b@[j],
        decreases a@.len() - i,
    {
        if a[i] != b[i] {
            return false;
        }
        i = i + 1;
    }
    proof {
        assert(a@ =~= b@);
    }
    true
}

fn copy_bytes(v: &Vec<u8>) -> (r: Vec<u8>)
    ensures
        r@ == v@,
{
    let mut r: Vec<u8> = Vec::new();
    let mut i: usize = 0;
    while i < v.len()
        invariant
            i <= v@.len(),
            r@ == v@.take(i as int),
        decreases v@.len() - i,
    {
        r.push(v[i]);
        proof {
            assert(v@.take(i + 1) =~= v@.take(i as int).push(v@[i as int]));
        }
        i = i + 1;
    }
    proof {
        assert(v@.take(v@.len() as int) =~= v@);
    }
    r
}

impl Pezpallet {
    /// The announcements as (identifier, expiry) pairs.
    pub open spec fn listed(&self) -> Seq<(Seq<u8>, u64)> {
        self.announcements@.map_values(|a: Announcement| (a.cid@, a.expire_at))
    }

    /// Whether `cid` is announced.
    pub open spec fn announced(&self, cid: Seq<u8>) -> bool {
        exists|i: int| 0 <= i < self.listed().len() && (#[trigger] self.listed()[i]).0 == cid
    }

    /// The pallet's invariant: no identifier is announced twice, and there are no more
    /// announcements than the maximum.
    pub open spec fn wf(&self) -> bool {
        &&& forall|i: int, j: int| 0 <= i < self.listed().len() && 0 <= j < self.listed().len() && i != j
            ==> (#[trigger] self.listed()[i]).0 != (#[trigger] self.listed()[j]).0
        &&& self.listed().len() <= self.config.max_announcements
    }

    /// A content pallet with no charter and no announcements.
    pub fn new(config: Config) -> (r: Self)
        ensures
            r.wf(),
            r.config == config,
            r.charter is None,
            r.listed().len() == 0,
            r.events@.len() == 0,
    {
        Pezpallet { config, charter: None, announcements: Vec::new(), events: Vec::new() }
    }

    /// Where `cid` is among the announcements, if it is.
    fn position_of(&self, cid: &Vec<u8>) -> (r: Option<usize>)
        ensures
            match r {
                Some(i) => i < self.listed().len() && self.listed()[i as int].0 == cid@,
                None => !self.announced(cid@),
            },
    {
        let mut i: usize = 0;
        while i < self.announcements.len()
            invariant
                i <= self.announcements@.len(),
                forall|j: int| 0 <= j < i ==> (#[trigger] self.listed()[j]).0 != cid@,
            decreases self.announcements@.len() - i,
        {
            if bytes_eq(&self.announcements[i].cid, cid) {
                return Some(i);
            }
            i = i + 1;
        }
        None
    }

    /// Set the collective's charter.
    pub fn set_charter(&mut self, cid: Vec<u8>) -> (r: Result<(), Error>)
        requires
            cid@.len() <= MAX_CID_LEN,
        ensures
            r is Ok,
            final(self).charter matches Some(c) && c@ == cid@,
            final(self).config == old(self).config,
            final(self).listed() == old(self).listed(),
            final(self).announcements@ == old(self).announcements@,
            final(self).events@.drop_last() == old(self).events@,
            final(self).events@.last() matches Event::NewCharterSet { cid: c } && c@ == cid@,
    {
        let copy = copy_bytes(&cid);
        self.charter = Some(cid);
        self.events.push(Event::NewCharterSet { cid: copy });
        Ok(())
    }

    /// Publish `cid` at block `now`, expiring at `maybe_expire` or, by default, after the
    /// announcement lifetime. Refused for an expiry not after `now`, and when the maximum
    /// number of announcements is reached (even to re-announce one). Re-announcing replaces
    /// the expiry.
    pub fn announce(&mut self, cid: Vec<u8>, maybe_expire: Option<DispatchTime>, now: u64) -> (r: Result<(), Error>)
        requires
            old(self).wf(),
            cid@.len() <= MAX_CID_LEN,
        ensures
            final(self).wf(),
            ({
                let expire_at = match maybe_expire {
                    Some(t) => evaluate(t, now),
                    None => sat_add_u64(now, old(self).config.announcement_lifetime),
                };
                &&& r == (if expire_at <= now {
                    Err(Error::InvalidExpiration)
                } else if old(self).listed().len() >= old(self).config.max_announcements {
                    Err(Error::TooManyAnnouncements)
                } else {
                    Ok::<(), Error>(())
                })
                &&& r is Err ==> final(self).listed() == old(self).listed() && final(self).events@ == old(self).events@
                &&& r is Ok ==> {
                    &&& (forall|i: int| 0 <= i < old(self).listed().len() && (#[trigger] old(self).listed()[i]).0 == cid@
                        ==> final(self).listed() == old(self).listed().update(i, (cid@, expire_at)))
                    &&& !old(self).announced(cid@) ==> final(self).listed() == old(self).listed().push((cid@, expire_at))
                    &&& final(self).events@.drop_last() == old(self).events@
                    &&& final(self).events@.last() matches Event::AnnouncementAnnounced { cid: c, expire_at: x }
                        && c@ == cid@ && x == expire_at
                }
            }),
            final(self).config == old(self).config,
            final(self).charter == old(self).charter,
    {
        let expire_at = match maybe_expire {
            Some(DispatchTime::At(n)) => n,
            Some(DispatchTime::After(n)) => now.saturating_add(n),
            None => now.saturating_add(self.config.announcement_lifetime),
        };
        if expire_at <= now {
            return Err(Error::InvalidExpiration);
        }
        if self.announcements.len() >= self.config.max_announcements as usize {
            return Err(Error::TooManyAnnouncements);
        }
        let ghost l = self.listed();
        let copy = copy_bytes(&cid);
        match self.position_of(&cid) {
            Some(i) => {
                self.announcements.set(i, Announcement { cid, expire_at });
                proof {
                    assert(self.listed() =~= l.update(i as int, (cid@, expire_at)));
                    assert forall|k: int| 0 <= k < l.len() && (#[trigger] l[k]).0 == cid@ implies k == i by {
                        if k != i {
                            assert(l[k].0 != l[i as int].0);
                        }
                    }
                    assert forall|a: int, b: int| 0 <= a < self.listed().len() && 0 <= b < self.listed().len() && a != b
                        implies (#[trigger] self.listed()[a]).0 != (#[trigger] self.listed()[b]).0 by {
                        assert(l[a].0 != l[b].0);
                    }
                }
            },
            None => {
                self.announcements.push(Announcement { cid, expire_at });
                proof {
                    assert(self.listed() =~= l.push((cid@, expire_at)));
                    assert forall|a: int, b: int| 0 <= a < self.listed().len() && 0 <= b < self.listed().len() && a != b
                        implies (#[trigger] self.listed()[a]).0 != (#[trigger] self.listed()[b]).0 by {
                        if a == l.len() as int {
                            assert(l[b].0 != cid@);
                        } else if b == l.len() as int {
                            assert(l[a].0 != cid@);
                        } else {
                            assert(l[a].0 != l[b].0);
                        }
                    }
                }
            },
        }
        self.events.push(Event::AnnouncementAnnounced { cid: copy, expire_at });
        Ok(())
    }

    /// Remove the announcement `cid` at block `now`. The announcement authority may remove
    /// any (`by_authority`); anyone else only an expired one. Returns whether the caller pays
    /// the fee: not for removing an expired announcement.
    pub fn remove_announcement(&mut self, cid: Vec<u8>, by_authority: bool, now: u64) -> (r: Result<bool, Error>)
        requires
            old(self).wf(),
            cid@.len() <= MAX_CID_LEN,
        ensures
            final(self).wf(),
            final(self).config == old(self).config,
            final(self).charter == old(self).charter,
            !old(self).announced(cid@) ==> r == Err::<bool, Error>(Error::MissingAnnouncement)
                && final(self).listed() == old(self).listed() && final(self).events@ == old(self).events@,
            forall|i: int| 0 <= i < old(self).listed().len() && (#[trigger] old(self).listed()[i]).0 == cid@ ==> {
                let expire_at = old(self).listed()[i].1;
                if !by_authority && now < expire_at {
                    r == Err::<bool, Error>(Error::BadOrigin) && final(self).listed() == old(self).listed()
                        && final(self).events@ == old(self).events@
                } else {
                    &&& r == Ok::<bool, Error>(now < expire_at)
                    &&& final(self).listed() == old(self).listed().remove(i)
                    &&& final(self).events@.drop_last() == old(self).events@
                    &&& final(self).events@.last() matches Event::AnnouncementRemoved { cid: c } && c@ == cid@
                }
            },
    {
        let i = match self.position_of(&cid) {
            Some(i) => i,
            None => return Err(Error::MissingAnnouncement),
        };
        let ghost l = self.listed();
        proof {
            assert forall|k: int| 0 <= k < l.len() && (#[trigger] l[k]).0 == cid@ implies k == i by {
                if k != i {
                    assert(l[k].0 != l[i as int].0);
                }
            }
        }
        let expire_at = self.announcements[i].expire_at;
        if !by_authority && now < expire_at {
            return Err(Error::BadOrigin);
        }
        self.announcements.remove(i);
        self.events.push(Event::AnnouncementRemoved { cid });
        proof {
            assert(self.listed() =~= l.remove(i as int));
            assert forall|a: int, b: int| 0 <= a < self.listed().len() && 0 <= b < self.listed().len() && a != b
                implies (#[trigger] self.listed()[a]).0 != (#[trigger] self.listed()[b]).0 by {
                let a2 = if a < i { a } else { a + 1 };
                let b2 = if b < i { b } else { b + 1 };
                assert(self.listed()[a] == l[a2]);
                assert(self.listed()[b] == l[b2]);
                assert(l[a2].0 != l[b2].0);
            }
        }
        Ok(now < expire_at)
    }

    /// How many announcements there are.
    pub fn announcement_count(&self) -> (r: u32)
        requires
            self.wf(),
        ensures
            r == self.listed().len(),
    {
        self.announcements.len() as u32
    }
}

} // verus!
