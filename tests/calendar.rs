use campground::calendar::{day_number, parse_iso_date};
use campground::model::{Spot, SpotType};
use campground::pricing::compute_price;

#[test]
fn first_day_is_zero() {
    assert_eq!(day_number(1, 1, 1), Some(0));
    assert_eq!(day_number(1, 12, 31), Some(364));
    assert_eq!(day_number(2, 1, 1), Some(365));
}

#[test]
fn known_dates() {
    assert_eq!(day_number(2024, 7, 1), Some(739067));
    assert_eq!(day_number(1970, 1, 1), Some(719162));
    assert_eq!(day_number(9999, 12, 31), Some(3652058));
}

#[test]
fn leap_years() {
    assert_eq!(day_number(2024, 2, 29).map(|d| d + 1), day_number(2024, 3, 1));
    assert_eq!(day_number(2023, 2, 29), None);
    assert_eq!(day_number(1900, 2, 29), None);
    assert!(day_number(2000, 2, 29).is_some());
    assert_eq!(day_number(2024, 12, 31).unwrap() + 1, day_number(2025, 1, 1).unwrap());
}

#[test]
fn invalid_dates() {
    assert_eq!(day_number(0, 1, 1), None);
    assert_eq!(day_number(10000, 1, 1), None);
    assert_eq!(day_number(2024, 13, 1), None);
    assert_eq!(day_number(2024, 0, 1), None);
    assert_eq!(day_number(2024, 4, 31), None);
    assert_eq!(day_number(2024, 4, 0), None);
}

#[test]
fn parse_iso_dates() {
    assert_eq!(parse_iso_date("2024-07-01"), Some(739067));
    assert_eq!(parse_iso_date("0001-01-01"), Some(0));
    assert_eq!(parse_iso_date("2024-7-01"), None);
    assert_eq!(parse_iso_date("2024/07/01"), None);
    assert_eq!(parse_iso_date("2024-07-0a"), None);
    assert_eq!(parse_iso_date("2024-02-30"), None);
    assert_eq!(parse_iso_date("2024-07-01T00"), None);
    assert_eq!(parse_iso_date(""), None);
}

#[test]
fn three_nights_at_fifty_two_dollars() {
    let spot = Spot::new("T-15".to_string(), "Terrain 15".to_string(), SpotType::Rv, 6, 5200);
    let check_in = parse_iso_date("2024-07-01").unwrap();
    let check_out = parse_iso_date("2024-07-04").unwrap();
    assert_eq!(check_out - check_in, 3);
    assert_eq!(compute_price(&spot, check_in, check_out), 15600);
}
