use pezpallets::collective_content::{Config, DispatchTime, Error, Event, Pezpallet};

const LIFETIME: u64 = 100;

fn pallet(max: u32) -> Pezpallet {
    Pezpallet::new(Config { announcement_lifetime: LIFETIME, max_announcements: max })
}

fn cid(n: u8) -> Vec<u8> {
    vec![n; 46]
}

fn expiry_of(p: &Pezpallet, c: &[u8]) -> Option<u64> {
    p.announcements.iter().find(|a| a.cid == c).map(|a| a.expire_at)
}

#[test]
fn a_charter_is_set_and_announced() {
    let mut p = pallet(5);
    assert_eq!(p.set_charter(cid(1)), Ok(()));
    assert_eq!(p.charter, Some(cid(1)));
    assert!(matches!(p.events.last().unwrap(), Event::NewCharterSet { cid: c } if *c == cid(1)));
    assert_eq!(p.set_charter(cid(2)), Ok(()));
    assert_eq!(p.charter, Some(cid(2)));
}

#[test]
fn an_announcement_expires_after_the_lifetime_by_default() {
    let mut p = pallet(5);
    assert_eq!(p.announce(cid(1), None, 10), Ok(()));
    assert_eq!(expiry_of(&p, &cid(1)), Some(10 + LIFETIME));
    assert!(matches!(p.events.last().unwrap(), Event::AnnouncementAnnounced { expire_at, .. } if *expire_at == 110));
}

#[test]
fn an_announcement_may_name_its_expiry() {
    let mut p = pallet(5);
    assert_eq!(p.announce(cid(1), Some(DispatchTime::At(50)), 10), Ok(()));
    assert_eq!(expiry_of(&p, &cid(1)), Some(50));
    assert_eq!(p.announce(cid(2), Some(DispatchTime::After(7)), 10), Ok(()));
    assert_eq!(expiry_of(&p, &cid(2)), Some(17));
}

#[test]
fn an_announcement_cannot_expire_in_the_past() {
    let mut p = pallet(5);
    assert_eq!(p.announce(cid(1), Some(DispatchTime::At(10)), 10), Err(Error::InvalidExpiration));
    assert_eq!(p.announce(cid(1), Some(DispatchTime::After(0)), 10), Err(Error::InvalidExpiration));
    assert_eq!(p.announcement_count(), 0);
}

#[test]
fn announcements_are_kept_to_the_maximum() {
    let mut p = pallet(2);
    assert_eq!(p.announce(cid(1), None, 1), Ok(()));
    assert_eq!(p.announce(cid(2), None, 1), Ok(()));
    assert_eq!(p.announce(cid(3), None, 1), Err(Error::TooManyAnnouncements));
    // Even re-announcing is refused once the maximum is reached.
    assert_eq!(p.announce(cid(1), None, 5), Err(Error::TooManyAnnouncements));
    assert_eq!(p.announcement_count(), 2);
}

#[test]
fn re_announcing_replaces_the_expiry() {
    let mut p = pallet(5);
    assert_eq!(p.announce(cid(1), None, 1), Ok(()));
    assert_eq!(p.announce(cid(1), Some(DispatchTime::At(500)), 2), Ok(()));
    assert_eq!(p.announcement_count(), 1);
    assert_eq!(expiry_of(&p, &cid(1)), Some(500));
}

#[test]
fn the_authority_removes_any_announcement_and_pays() {
    let mut p = pallet(5);
    assert_eq!(p.announce(cid(1), None, 1), Ok(()));
    assert_eq!(p.remove_announcement(cid(1), true, 2), Ok(true));
    assert_eq!(p.announcement_count(), 0);
    assert!(matches!(p.events.last().unwrap(), Event::AnnouncementRemoved { cid: c } if *c == cid(1)));
}

#[test]
fn anyone_removes_an_expired_announcement_for_free() {
    let mut p = pallet(5);
    assert_eq!(p.announce(cid(1), None, 1), Ok(()));
    assert_eq!(p.remove_announcement(cid(1), false, 50), Err(Error::BadOrigin));
    assert_eq!(p.announcement_count(), 1);
    assert_eq!(p.remove_announcement(cid(1), false, 1 + LIFETIME), Ok(false));
    assert_eq!(p.announcement_count(), 0);
}

#[test]
fn removing_a_missing_announcement_is_refused() {
    let mut p = pallet(5);
    assert_eq!(p.remove_announcement(cid(9), true, 1), Err(Error::MissingAnnouncement));
}
