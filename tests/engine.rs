use campground::engine::Engine;
use campground::model::{overlaps, EngineError, Spot, SpotType, Status};
use campground::pricing::compute_price;

const JUL_01: u32 = 739067;
const JUL_04: u32 = 739070;

fn rv_spot(code: &str, price: u64) -> Spot {
    Spot::new(code.to_string(), format!("Terrain {}", &code[2..]), SpotType::Rv, 6, price)
}

fn setup() -> (Engine, u64, u64) {
    let mut e = Engine::new();
    let spot = e.add_spot(rv_spot("T-14", 5500)).unwrap();
    let cust = e
        .add_customer(
            "Marie".to_string(),
            "Tremblay".to_string(),
            "marie@example.com".to_string(),
            "555-0100".to_string(),
            Some("Québec".to_string()),
            None,
        )
        .unwrap();
    (e, spot, cust)
}

#[test]
fn price_is_nights_times_rate() {
    let spot = rv_spot("T-15", 5200);
    assert_eq!(compute_price(&spot, JUL_01, JUL_04), 15600);
    assert_eq!(compute_price(&spot, JUL_01, JUL_04), compute_price(&spot, JUL_01, JUL_04));
    assert_eq!(compute_price(&spot, 10, 11), 5200);
}

#[test]
fn booking_is_priced_at_creation() {
    let (mut e, _, cust) = setup();
    let spot = e.add_spot(rv_spot("T-15", 5200)).unwrap();
    let id = e.create_reservation(spot, cust, JUL_01, JUL_04, 2, 1).unwrap();
    let r = e.reservation(id).unwrap();
    assert_eq!(r.total_price, 15600);
    assert_eq!(r.status, Status::Hold);
    assert_eq!((r.adults, r.children), (2, 1));
}

#[test]
fn overlapping_booking_conflicts() {
    let (mut e, spot, cust) = setup();
    e.create_reservation(spot, cust, 100, 105, 2, 0).unwrap();
    assert_eq!(e.create_reservation(spot, cust, 104, 110, 1, 0), Err(EngineError::Conflict));
    assert_eq!(e.create_reservation(spot, cust, 95, 101, 1, 0), Err(EngineError::Conflict));
    assert_eq!(e.create_reservation(spot, cust, 101, 103, 1, 0), Err(EngineError::Conflict));
}

#[test]
fn checkout_day_can_be_next_checkin_day() {
    let (mut e, spot, cust) = setup();
    e.create_reservation(spot, cust, 100, 105, 2, 0).unwrap();
    assert!(e.create_reservation(spot, cust, 105, 107, 2, 0).is_ok());
    assert!(e.create_reservation(spot, cust, 98, 100, 2, 0).is_ok());
    assert!(!overlaps(100, 105, 105, 107));
    assert!(overlaps(100, 105, 104, 107));
}

#[test]
fn other_spot_is_not_blocked() {
    let (mut e, spot, cust) = setup();
    let other = e.add_spot(rv_spot("T-16", 5500)).unwrap();
    e.create_reservation(spot, cust, 100, 105, 2, 0).unwrap();
    assert!(e.create_reservation(other, cust, 100, 105, 2, 0).is_ok());
}

#[test]
fn same_request_twice_one_wins() {
    let (mut e, spot, cust) = setup();
    let code = "T-14".to_string();
    assert_eq!(e.find_spot_by_code(&code), Some(spot));
    let first = e.create_reservation(spot, cust, JUL_01, JUL_04, 2, 0);
    let second = e.create_reservation(spot, cust, JUL_01, JUL_04, 2, 0);
    assert!(first.is_ok());
    assert_eq!(second, Err(EngineError::Conflict));
    assert_eq!(e.reservation_count(), 1);
}

#[test]
fn empty_or_reversed_range_is_refused() {
    let (mut e, spot, cust) = setup();
    assert_eq!(e.create_reservation(spot, cust, 10, 10, 1, 0), Err(EngineError::InvalidRange));
    assert_eq!(e.create_reservation(spot, cust, 12, 10, 1, 0), Err(EngineError::InvalidRange));
    let id = e.create_reservation(spot, cust, 10, 12, 1, 0).unwrap();
    assert_eq!(e.modify_dates(id, 15, 15), Err(EngineError::InvalidRange));
    assert_eq!(e.modify_dates(id, 16, 15), Err(EngineError::InvalidRange));
    let r = e.reservation(id).unwrap();
    assert_eq!((r.check_in, r.check_out), (10, 12));
}

#[test]
fn cancelling_frees_the_range() {
    let (mut e, spot, cust) = setup();
    let id = e.create_reservation(spot, cust, 100, 105, 2, 0).unwrap();
    assert_eq!(e.is_available(spot, 100, 105, None), Ok(false));
    e.change_status(id, Status::Cancelled, 50).unwrap();
    assert_eq!(e.is_available(spot, 100, 105, None), Ok(true));
    assert!(e.create_reservation(spot, cust, 100, 105, 2, 0).is_ok());
}

#[test]
fn checked_out_frees_the_range() {
    let (mut e, spot, cust) = setup();
    let id = e.create_reservation(spot, cust, 100, 105, 2, 0).unwrap();
    e.change_status(id, Status::Confirmed, 90).unwrap();
    e.change_status(id, Status::CheckedIn, 100).unwrap();
    assert_eq!(e.is_available(spot, 101, 102, None), Ok(false));
    e.change_status(id, Status::CheckedOut, 105).unwrap();
    assert_eq!(e.is_available(spot, 100, 105, None), Ok(true));
}

#[test]
fn availability_can_exclude_a_reservation() {
    let (mut e, spot, cust) = setup();
    let id = e.create_reservation(spot, cust, 100, 105, 2, 0).unwrap();
    assert_eq!(e.is_available(spot, 102, 108, Some(id)), Ok(true));
    assert_eq!(e.is_available(spot, 102, 108, Some(id + 7)), Ok(false));
    assert_eq!(e.is_available(spot + 9, 102, 108, None), Err(EngineError::NotFound));
}

#[test]
fn terminal_statuses_refuse_every_change() {
    let (mut e, spot, cust) = setup();
    let a = e.create_reservation(spot, cust, 100, 105, 2, 0).unwrap();
    e.change_status(a, Status::Cancelled, 50).unwrap();
    let b = e.create_reservation(spot, cust, 100, 105, 2, 0).unwrap();
    e.change_status(b, Status::Confirmed, 50).unwrap();
    e.change_status(b, Status::CheckedIn, 100).unwrap();
    e.change_status(b, Status::CheckedOut, 104).unwrap();
    let all = [Status::Hold, Status::Confirmed, Status::CheckedIn, Status::CheckedOut, Status::Cancelled];
    for target in all {
        assert_eq!(e.change_status(a, target, 200), Err(EngineError::InvalidTransition));
        assert_eq!(e.change_status(b, target, 200), Err(EngineError::InvalidTransition));
    }
    assert_eq!(e.reservation(a).unwrap().status, Status::Cancelled);
    assert_eq!(e.reservation(b).unwrap().status, Status::CheckedOut);
}

#[test]
fn lifecycle_edges() {
    let (mut e, spot, cust) = setup();
    let id = e.create_reservation(spot, cust, 100, 105, 2, 0).unwrap();
    assert_eq!(e.change_status(id, Status::CheckedIn, 100), Err(EngineError::InvalidTransition));
    assert_eq!(e.change_status(id, Status::Hold, 100), Err(EngineError::InvalidTransition));
    e.change_status(id, Status::Confirmed, 90).unwrap();
    assert_eq!(e.change_status(id, Status::CheckedIn, 99), Err(EngineError::TooEarly));
    e.change_status(id, Status::CheckedIn, 100).unwrap();
    assert_eq!(e.change_status(id, Status::Cancelled, 101), Err(EngineError::InvalidTransition));
    assert_eq!(e.change_status(99, Status::Confirmed, 101), Err(EngineError::NotFound));
}

#[test]
fn modify_dates_rechecks_and_reprices() {
    let (mut e, spot, cust) = setup();
    let a = e.create_reservation(spot, cust, 100, 105, 2, 0).unwrap();
    let b = e.create_reservation(spot, cust, 110, 112, 2, 0).unwrap();
    assert_eq!(e.modify_dates(a, 103, 111), Err(EngineError::Conflict));
    e.modify_dates(a, 102, 110).unwrap();
    let r = e.reservation(a).unwrap();
    assert_eq!((r.check_in, r.check_out, r.total_price), (102, 110, 8 * 5500));
    e.change_status(b, Status::Confirmed, 0).unwrap();
    e.change_status(b, Status::CheckedIn, 110).unwrap();
    assert_eq!(e.modify_dates(b, 110, 113), Err(EngineError::InvalidState));
    assert_eq!(e.modify_dates(42, 1, 2), Err(EngineError::NotFound));
}

#[test]
fn creation_errors() {
    let (mut e, spot, cust) = setup();
    assert_eq!(e.create_reservation(spot, cust, 1, 3, 0, 2), Err(EngineError::InvalidGuests));
    assert_eq!(e.create_reservation(spot + 1, cust, 1, 3, 1, 0), Err(EngineError::NotFound));
    assert_eq!(e.create_reservation(spot, cust + 1, 1, 3, 1, 0), Err(EngineError::NotFound));
    e.set_spot_active(spot, false).unwrap();
    assert!(!e.spot(spot).unwrap().is_active);
    assert_eq!(e.create_reservation(spot, cust, 1, 3, 1, 0), Err(EngineError::SpotInactive));
    e.set_spot_active(spot, true).unwrap();
    assert!(e.create_reservation(spot, cust, 1, 3, 1, 0).is_ok());
    assert_eq!(e.set_spot_active(spot + 3, true), Err(EngineError::NotFound));
}

#[test]
fn notes_come_back_oldest_first() {
    let (mut e, spot, cust) = setup();
    let a = e.create_reservation(spot, cust, 1, 3, 1, 0).unwrap();
    let b = e.create_reservation(spot, cust, 3, 5, 1, 0).unwrap();
    let n0 = e.add_note(a, "arrive tard".to_string(), "Admin".to_string(), "2024-06-01 10:00:00".to_string()).unwrap();
    e.add_note(b, "chien".to_string(), "Admin".to_string(), "2024-06-01 10:05:00".to_string()).unwrap();
    let n2 = e.add_note(a, "payé".to_string(), "Luc".to_string(), "2024-06-02 09:00:00".to_string()).unwrap();
    let notes = e.notes_for(a);
    assert_eq!(notes.len(), 2);
    assert_eq!((notes[0].id, notes[1].id), (n0, n2));
    assert_eq!(notes[0].text, "arrive tard");
    assert_eq!(notes[1].author, "Luc");
    e.add_note(a, "départ".to_string(), "Admin".to_string(), "2024-06-03".to_string()).unwrap();
    let later = e.notes_for(a);
    assert_eq!(later.len(), 3);
    assert_eq!(later[0].text, "arrive tard");
    assert_eq!(later[1].text, "payé");
    assert_eq!(later[2].text, "départ");
    assert_eq!(e.notes_for(b).len(), 1);
    assert_eq!(e.notes_for(77).len(), 0);
}

#[test]
fn note_errors() {
    let (mut e, spot, cust) = setup();
    let a = e.create_reservation(spot, cust, 1, 3, 1, 0).unwrap();
    assert_eq!(e.add_note(a, String::new(), "Admin".to_string(), "t".to_string()), Err(EngineError::EmptyNote));
    assert_eq!(e.add_note(a + 1, "x".to_string(), "Admin".to_string(), "t".to_string()), Err(EngineError::NotFound));
    e.change_status(a, Status::Cancelled, 0).unwrap();
    assert!(e.add_note(a, "annulé".to_string(), "Admin".to_string(), "t".to_string()).is_ok());
}

#[test]
fn customer_email_is_unique() {
    let (mut e, _, cust) = setup();
    let dup = e.add_customer(
        "Other".to_string(),
        "Person".to_string(),
        "marie@example.com".to_string(),
        "555-0199".to_string(),
        None,
        None,
    );
    assert_eq!(dup, Err(EngineError::DuplicateEmail));
    let other = e
        .add_customer("Luc".to_string(), "Roy".to_string(), "luc@example.com".to_string(), "1".to_string(), None, None)
        .unwrap();
    assert_ne!(other, cust);
    assert_eq!(e.customer(other).unwrap().email, "luc@example.com");
}

#[test]
fn referenced_records_cannot_be_removed() {
    let (mut e, spot, cust) = setup();
    let spare = e.add_spot(rv_spot("T-18", 5200)).unwrap();
    e.create_reservation(spot, cust, 1, 3, 1, 0).unwrap();
    assert_eq!(e.remove_spot(spot), Err(EngineError::InUse));
    assert_eq!(e.remove_customer(cust), Err(EngineError::InUse));
    assert_eq!(e.remove_spot(spare), Ok(()));
    assert!(e.spot(spare).is_none());
    assert_eq!(e.remove_spot(spare), Err(EngineError::NotFound));
    let lone = e
        .add_customer("A".to_string(), "B".to_string(), "ab@example.com".to_string(), "2".to_string(), None, None)
        .unwrap();
    assert_eq!(e.remove_customer(lone), Ok(()));
    assert!(e.customer(lone).is_none());
    assert_eq!(e.remove_customer(lone), Err(EngineError::NotFound));
}

#[test]
fn spot_validation() {
    let mut e = Engine::new();
    let mut empty = rv_spot("T-1", 100);
    empty.capacity = 0;
    assert_eq!(e.add_spot(empty), Err(EngineError::InvalidSpot));
    assert_eq!(e.add_spot(rv_spot("T-2", 1_000_000_001)), Err(EngineError::InvalidSpot));
    let id = e.add_spot(rv_spot("T-3", 1_000_000_000)).unwrap();
    let mut tent = Spot::new("T-3".to_string(), "Terrain 3".to_string(), SpotType::Tent, 4, 4300);
    tent.ground_type = Some("sable".to_string());
    e.update_spot(id, tent).unwrap();
    let s = e.spot(id).unwrap();
    assert_eq!((s.id, s.kind, s.capacity, s.price_per_night), (id, SpotType::Tent, 4, 4300));
    let mut bad = rv_spot("T-3", 10);
    bad.capacity = 0;
    assert_eq!(e.update_spot(id, bad), Err(EngineError::InvalidSpot));
    assert_eq!(e.update_spot(id + 1, rv_spot("T-4", 10)), Err(EngineError::NotFound));
    assert_eq!(e.find_spot_by_code(&"T-9".to_string()), None);
}

#[test]
fn largest_stay_price_fits() {
    let spot = rv_spot("T-5", 1_000_000_000);
    assert_eq!(compute_price(&spot, 0, u32::MAX), 1_000_000_000u64 * u32::MAX as u64);
}

#[test]
fn checked_in_stay_can_move_its_check_out() {
    let (mut e, spot, cust) = setup();
    let a = e.create_reservation(spot, cust, 100, 105, 2, 0).unwrap();
    e.create_reservation(spot, cust, 107, 109, 2, 0).unwrap();
    assert_eq!(e.adjust_check_out(a, 106), Err(EngineError::InvalidState));
    e.change_status(a, Status::Confirmed, 90).unwrap();
    e.change_status(a, Status::CheckedIn, 100).unwrap();
    assert_eq!(e.adjust_check_out(a, 108), Err(EngineError::Conflict));
    assert_eq!(e.adjust_check_out(a, 100), Err(EngineError::InvalidRange));
    e.adjust_check_out(a, 107).unwrap();
    let r = e.reservation(a).unwrap();
    assert_eq!((r.check_in, r.check_out, r.total_price), (100, 107, 7 * 5500));
    e.adjust_check_out(a, 103).unwrap();
    assert_eq!(e.reservation(a).unwrap().total_price, 3 * 5500);
    e.change_status(a, Status::CheckedOut, 103).unwrap();
    assert_eq!(e.adjust_check_out(a, 104), Err(EngineError::InvalidState));
    assert_eq!(e.adjust_check_out(a + 50, 104), Err(EngineError::NotFound));
}

#[test]
fn blocking_and_terminal_statuses() {
    assert!(Status::Hold.is_blocking() && Status::Confirmed.is_blocking() && Status::CheckedIn.is_blocking());
    assert!(!Status::CheckedOut.is_blocking() && !Status::Cancelled.is_blocking());
    assert!(Status::CheckedOut.is_terminal() && Status::Cancelled.is_terminal());
    assert!(!Status::Hold.is_terminal());
    assert!(Status::Hold.can_transition_to(Status::Confirmed));
    assert!(!Status::Cancelled.can_transition_to(Status::Hold));
}

#[test]
fn customer_details_can_be_updated() {
    let (mut e, _, cust) = setup();
    let other = e
        .add_customer("Luc".to_string(), "Roy".to_string(), "luc@example.com".to_string(), "1".to_string(), None, None)
        .unwrap();
    assert_eq!(
        e.update_customer(cust, "M".to_string(), "T".to_string(), "luc@example.com".to_string(), "2".to_string(), None, None),
        Err(EngineError::DuplicateEmail)
    );
    assert_eq!(e.customer(cust).unwrap().email, "marie@example.com");
    e.update_customer(
        cust,
        "Marie".to_string(),
        "Gagnon".to_string(),
        "marie@example.com".to_string(),
        "555-0101".to_string(),
        Some("Lévis".to_string()),
        Some("QC".to_string()),
    )
    .unwrap();
    let c = e.customer(cust).unwrap();
    assert_eq!((c.id, c.last_name.as_str(), c.phone.as_str()), (cust, "Gagnon", "555-0101"));
    assert_eq!(c.province.as_deref(), Some("QC"));
    e.update_customer(other, "Luc".to_string(), "Roy".to_string(), "lr@example.com".to_string(), "1".to_string(), None, None)
        .unwrap();
    assert!(e
        .add_customer("X".to_string(), "Y".to_string(), "luc@example.com".to_string(), "3".to_string(), None, None)
        .is_ok());
    assert_eq!(
        e.update_customer(other + 10, "A".to_string(), "B".to_string(), "c@d".to_string(), "4".to_string(), None, None),
        Err(EngineError::NotFound)
    );
}
