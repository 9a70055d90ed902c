//! Tests of the domain model: categorical parsing, validating
//! constructors, and the timeline projection.

use baby_tracker::models::{Dejection, DejectionType, Feeding, FeedingType, TimelineEntry, Weight};
use baby_tracker::time::Timestamp;

fn ts(h: u8, m: u8) -> Timestamp {
    Timestamp::new(2026, 2, 15, h, m, 0).unwrap()
}

// --- FeedingType parsing ---

#[test]
fn parse_feeding_type_full_names() {
    assert_eq!(FeedingType::parse("breast-left").unwrap(), FeedingType::BreastLeft);
    assert_eq!(FeedingType::parse("breast-right").unwrap(), FeedingType::BreastRight);
    assert_eq!(FeedingType::parse("bottle").unwrap(), FeedingType::Bottle);
    assert_eq!(FeedingType::parse("solid").unwrap(), FeedingType::Solid);
}

#[test]
fn parse_feeding_type_shortcuts() {
    assert_eq!(FeedingType::parse("bl").unwrap(), FeedingType::BreastLeft);
    assert_eq!(FeedingType::parse("br").unwrap(), FeedingType::BreastRight);
    assert_eq!(FeedingType::parse("b").unwrap(), FeedingType::Bottle);
    assert_eq!(FeedingType::parse("s").unwrap(), FeedingType::Solid);
}

#[test]
fn parse_feeding_type_case_insensitive() {
    assert_eq!(FeedingType::parse("BOTTLE").unwrap(), FeedingType::Bottle);
    assert_eq!(FeedingType::parse("Breast-Left").unwrap(), FeedingType::BreastLeft);
}

#[test]
fn parse_feeding_type_invalid() {
    assert!(FeedingType::parse("juice").is_err());
    assert!(FeedingType::parse("").is_err());
}

#[test]
fn feeding_type_display() {
    assert_eq!(FeedingType::BreastLeft.display_name(), "Breast (Left)");
    assert_eq!(FeedingType::Bottle.display_name(), "Bottle");
}

#[test]
fn feeding_type_serde_roundtrip() {
    let ft = FeedingType::BreastLeft;
    let tag = ft.tag();
    assert_eq!(tag, "breast-left");
    let parsed = FeedingType::parse(tag).unwrap();
    assert_eq!(parsed, ft);
}

// --- Feeding construction & validation ---

#[test]
fn feeding_new_valid() {
    let f = Feeding::new(
        "Emma".to_string(),
        FeedingType::Bottle,
        Some(120),
        None,
        Some("Morning".to_string()),
        ts(8, 0),
    )
    .unwrap();
    assert_eq!(f.baby_name, "Emma");
    assert_eq!(f.amount_ml, Some(120));
    assert_eq!(f.id, 0);
}

#[test]
fn feeding_new_trims_name() {
    let f =
        Feeding::new("  Emma  ".to_string(), FeedingType::Bottle, None, None, None, ts(8, 0)).unwrap();
    assert_eq!(f.baby_name, "Emma");
}

#[test]
fn feeding_new_empty_name_rejected() {
    assert!(Feeding::new("".to_string(), FeedingType::Bottle, None, None, None, ts(8, 0)).is_err());
    assert!(Feeding::new("   ".to_string(), FeedingType::Bottle, None, None, None, ts(8, 0)).is_err());
}

#[test]
fn feeding_new_negative_amount_rejected() {
    // negative amounts cannot exist in the store's milliliter type; they
    // are rejected where they can arrive, at the facade
    let mut t = baby_tracker::tracker::Tracker::new();
    assert!(t.add_feeding("Emma", "bottle", Some(-10), None, None, "2026-02-15T08:00:00").is_err());
}

#[test]
fn feeding_new_blank_notes_become_none() {
    let f = Feeding::new(
        "Emma".to_string(),
        FeedingType::Solid,
        None,
        None,
        Some("  ".to_string()),
        ts(8, 0),
    )
    .unwrap();
    assert_eq!(f.notes, None);
}

#[test]
fn feeding_serde_roundtrip() {
    let f = Feeding::new(
        "Emma".to_string(),
        FeedingType::BreastRight,
        None,
        Some(15),
        Some("Good latch".to_string()),
        Timestamp::new(2026, 2, 15, 14, 30, 0).unwrap(),
    )
    .unwrap();
    let mut store = baby_tracker::store::Store::new();
    store.add_feeding(f.clone());
    let json = store.to_json();
    let restored = baby_tracker::store::Store::from_json(&json).unwrap();
    let parsed = &restored.list_feedings(None, 100)[0];
    assert_eq!(parsed.baby_name, f.baby_name);
    assert_eq!(parsed.feeding_type, f.feeding_type);
    assert_eq!(parsed.duration_minutes, f.duration_minutes);
    assert_eq!(parsed.timestamp, f.timestamp);
}

// --- DejectionType parsing ---

#[test]
fn parse_dejection_type_full_names() {
    assert_eq!(DejectionType::parse("urine").unwrap(), DejectionType::Urine);
    assert_eq!(DejectionType::parse("poop").unwrap(), DejectionType::Poop);
}

#[test]
fn parse_dejection_type_shortcuts() {
    assert_eq!(DejectionType::parse("pee").unwrap(), DejectionType::Urine);
    assert_eq!(DejectionType::parse("u").unwrap(), DejectionType::Urine);
    assert_eq!(DejectionType::parse("p").unwrap(), DejectionType::Poop);
}

#[test]
fn parse_dejection_type_case_insensitive() {
    assert_eq!(DejectionType::parse("URINE").unwrap(), DejectionType::Urine);
    assert_eq!(DejectionType::parse("Poop").unwrap(), DejectionType::Poop);
}

#[test]
fn parse_dejection_type_invalid() {
    assert!(DejectionType::parse("vomit").is_err());
    assert!(DejectionType::parse("").is_err());
}

#[test]
fn dejection_type_serde_roundtrip() {
    let dt = DejectionType::Poop;
    let tag = dt.tag();
    assert_eq!(tag, "poop");
    let parsed = DejectionType::parse(tag).unwrap();
    assert_eq!(parsed, dt);
}

// --- Dejection construction ---

#[test]
fn dejection_new_valid() {
    let d = Dejection::new("Emma".to_string(), DejectionType::Poop, Some("Soft".to_string()), ts(10, 0))
        .unwrap();
    assert_eq!(d.baby_name, "Emma");
    assert_eq!(d.dejection_type, DejectionType::Poop);
    assert_eq!(d.notes, Some("Soft".to_string()));
}

#[test]
fn dejection_new_empty_name_rejected() {
    assert!(Dejection::new("".to_string(), DejectionType::Urine, None, ts(10, 0)).is_err());
}

#[test]
fn dejection_new_blank_notes_become_none() {
    let d = Dejection::new("Emma".to_string(), DejectionType::Urine, Some("  ".to_string()), ts(10, 0))
        .unwrap();
    assert_eq!(d.notes, None);
}

// --- Weight ---

#[test]
fn weight_new_valid() {
    let w = Weight::new("Emma".to_string(), 3500, Some("Birth".to_string()), ts(8, 0)).unwrap();
    assert_eq!(w.baby_name, "Emma");
    assert_eq!(w.weight_g, 3500);
    assert_eq!(w.notes, Some("Birth".to_string()));
}

#[test]
fn weight_new_empty_name_rejected() {
    assert!(Weight::new("".to_string(), 3500, None, ts(8, 0)).is_err());
}

#[test]
fn weight_new_zero_rejected() {
    assert!(Weight::new("Emma".to_string(), 0, None, ts(8, 0)).is_err());
}

#[test]
fn weight_new_negative_rejected() {
    // a negative weight cannot exist in the store's gram type; it is
    // rejected where it can arrive, at the facade
    let mut t = baby_tracker::tracker::Tracker::new();
    assert!(t.add_weight("Emma", -1000, None, "2026-02-15T08:00:00").is_err());
}

#[test]
fn weight_new_blank_notes_become_none() {
    let w = Weight::new("Emma".to_string(), 3500, Some("  ".to_string()), ts(8, 0)).unwrap();
    assert_eq!(w.notes, None);
}

// --- TimelineEntry ---

#[test]
fn timeline_entry_from_weight() {
    let mut w = Weight::new("Emma".to_string(), 4200, None, ts(10, 0)).unwrap();
    w.id = 5;
    let e = TimelineEntry::from_weight(&w);
    assert_eq!(e.kind, "weight");
    assert_eq!(e.subtype, "weight");
    assert_eq!(e.weight_g, Some(4200));
    assert_eq!(e.amount_ml, None);
}

#[test]
fn timeline_entry_from_feeding() {
    let mut f =
        Feeding::new("Emma".to_string(), FeedingType::Bottle, Some(120), None, None, ts(8, 0)).unwrap();
    f.id = 1;
    let e = TimelineEntry::from_feeding(&f);
    assert_eq!(e.kind, "feeding");
    assert_eq!(e.subtype, "bottle");
    assert_eq!(e.amount_ml, Some(120));
}

#[test]
fn timeline_entry_from_dejection() {
    let mut d = Dejection::new("Emma".to_string(), DejectionType::Poop, None, ts(9, 0)).unwrap();
    d.id = 2;
    let e = TimelineEntry::from_dejection(&d);
    assert_eq!(e.kind, "dejection");
    assert_eq!(e.subtype, "poop");
    assert_eq!(e.amount_ml, None);
}

// --- Timestamps ---

#[test]
fn timestamp_rejects_invalid_calendar_values() {
    assert!(Timestamp::new(2026, 2, 30, 0, 0, 0).is_err());
    assert!(Timestamp::new(2026, 13, 1, 0, 0, 0).is_err());
    assert!(Timestamp::new(2026, 2, 15, 24, 0, 0).is_err());
    assert!(Timestamp::new(2026, 2, 15, 8, 60, 0).is_err());
}

#[test]
fn timestamp_leap_year_rules() {
    assert!(Timestamp::new(2024, 2, 29, 0, 0, 0).is_ok());
    assert!(Timestamp::new(2026, 2, 29, 0, 0, 0).is_err());
    assert!(Timestamp::new(1900, 2, 29, 0, 0, 0).is_err());
    assert!(Timestamp::new(2000, 2, 29, 0, 0, 0).is_ok());
}
