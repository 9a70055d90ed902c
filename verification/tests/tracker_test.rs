//! Tests of the facade: string validation, delegation, and serialized
//! query results.

use baby_tracker::time::parse_timestamp;
use baby_tracker::tracker::Tracker;

#[test]
fn add_and_list_feeding() {
    let mut t = Tracker::new();
    let id = t.add_feeding("Emma", "bottle", Some(120), None, None, "2026-02-15T08:00:00").unwrap();
    assert_eq!(id, 1);
    let json = t.timeline_for_day(None, "2026-02-15").unwrap();
    assert!(json.contains("bottle"));
}

#[test]
fn add_validates_type() {
    let mut t = Tracker::new();
    assert!(t.add_feeding("Emma", "juice", None, None, None, "2026-02-15T08:00:00").is_err());
}

#[test]
fn add_validates_name() {
    let mut t = Tracker::new();
    assert!(t.add_feeding("", "bottle", None, None, None, "2026-02-15T08:00:00").is_err());
}

#[test]
fn add_validates_timestamp() {
    let mut t = Tracker::new();
    assert!(t.add_feeding("Emma", "bottle", None, None, None, "not-a-date").is_err());
}

#[test]
fn add_validates_amount_range() {
    let mut t = Tracker::new();
    assert!(t.add_feeding("Emma", "bottle", Some(5_000_000_000), None, None, "2026-02-15T08:00:00")
        .is_err());
}

#[test]
fn delete_feeding() {
    let mut t = Tracker::new();
    let id = t.add_feeding("Emma", "bottle", None, None, None, "2026-02-15T08:00:00").unwrap();
    assert!(t.delete_feeding(id));
    assert!(!t.delete_feeding(id));
}

#[test]
fn update_feeding() {
    let mut t = Tracker::new();
    let id = t.add_feeding("Emma", "bottle", Some(100), None, None, "2026-02-15T08:00:00").unwrap();
    assert!(t
        .update_feeding(id, "solid", Some(200), Some(5), Some("Edited".to_string()), "2026-02-15T09:00:00")
        .unwrap());
    let json = t.timeline_for_day(None, "2026-02-15").unwrap();
    assert!(json.contains("solid"));
    assert!(json.contains("200"));
    assert!(json.contains("Edited"));
}

#[test]
fn update_feeding_invalid_type() {
    let mut t = Tracker::new();
    let id = t.add_feeding("Emma", "bottle", None, None, None, "2026-02-15T08:00:00").unwrap();
    assert!(t.update_feeding(id, "juice", None, None, None, "2026-02-15T08:00:00").is_err());
}

// --- Dejections ---

#[test]
fn add_dejection() {
    let mut t = Tracker::new();
    let id = t.add_dejection("Emma", "poop", Some("Soft".to_string()), "2026-02-15T10:00:00").unwrap();
    assert_eq!(id, 1);
    let json = t.timeline_for_day(None, "2026-02-15").unwrap();
    assert!(json.contains("dejection"));
    assert!(json.contains("poop"));
}

#[test]
fn add_dejection_validates_type() {
    let mut t = Tracker::new();
    assert!(t.add_dejection("Emma", "vomit", None, "2026-02-15T10:00:00").is_err());
}

#[test]
fn tracker_delete_dejection() {
    let mut t = Tracker::new();
    let id = t.add_dejection("Emma", "urine", None, "2026-02-15T10:00:00").unwrap();
    assert!(t.delete_dejection(id));
    assert!(!t.delete_dejection(id));
}

#[test]
fn tracker_update_dejection() {
    let mut t = Tracker::new();
    let id = t.add_dejection("Emma", "urine", None, "2026-02-15T10:00:00").unwrap();
    assert!(t
        .update_dejection(id, "poop", Some("Changed".to_string()), "2026-02-15T11:00:00")
        .unwrap());
    let json = t.timeline_for_day(None, "2026-02-15").unwrap();
    assert!(json.contains("poop"));
    assert!(json.contains("Changed"));
}

// --- Weight ---

#[test]
fn add_weight() {
    let mut t = Tracker::new();
    let id = t.add_weight("Emma", 3500, None, "2026-02-15T08:00:00").unwrap();
    assert_eq!(id, 1);
    let json = t.timeline_for_day(None, "2026-02-15").unwrap();
    assert!(json.contains("weight"));
    assert!(json.contains("3.5"));
}

#[test]
fn add_weight_validates() {
    let mut t = Tracker::new();
    assert!(t.add_weight("", 3500, None, "2026-02-15T08:00:00").is_err());
    assert!(t.add_weight("Emma", 0, None, "2026-02-15T08:00:00").is_err());
    assert!(t.add_weight("Emma", 3500, None, "bad-date").is_err());
}

#[test]
fn tracker_update_weight() {
    let mut t = Tracker::new();
    let id = t.add_weight("Emma", 3500, None, "2026-02-15T08:00:00").unwrap();
    assert!(t.update_weight(id, 4000, Some("Grew!".to_string()), "2026-02-15T10:00:00").unwrap());
    let json = t.timeline_for_day(None, "2026-02-15").unwrap();
    assert!(json.contains("4.0"));
    assert!(json.contains("Grew!"));
}

#[test]
fn tracker_delete_weight() {
    let mut t = Tracker::new();
    let id = t.add_weight("Emma", 3500, None, "2026-02-15T08:00:00").unwrap();
    assert!(t.delete_weight(id));
    assert!(!t.delete_weight(id));
}

// --- Timeline ---

#[test]
fn timeline_merges_all_types() {
    let mut t = Tracker::new();
    t.add_feeding("Emma", "bottle", Some(120), None, None, "2026-02-15T08:00:00").unwrap();
    t.add_dejection("Emma", "poop", None, "2026-02-15T09:00:00").unwrap();
    t.add_weight("Emma", 3500, None, "2026-02-15T10:00:00").unwrap();
    t.add_feeding("Emma", "bl", None, Some(15), None, "2026-02-15T11:00:00").unwrap();

    let json = t.timeline_for_day(None, "2026-02-15").unwrap();
    let entries: Vec<serde_json::Value> = serde_json::from_str(&json).unwrap();
    assert_eq!(entries.len(), 4);
    assert_eq!(entries[0]["kind"], "feeding");
    assert_eq!(entries[1]["kind"], "dejection");
    assert_eq!(entries[2]["kind"], "weight");
    assert_eq!(entries[3]["kind"], "feeding");
}

#[test]
fn export_and_load_with_all_types() {
    let mut t = Tracker::new();
    t.add_feeding("Emma", "bl", None, Some(15), None, "2026-02-15T08:00:00").unwrap();
    t.add_dejection("Emma", "poop", None, "2026-02-15T09:00:00").unwrap();
    t.add_weight("Emma", 3500, None, "2026-02-15T10:00:00").unwrap();

    let json = t.export_data();
    let restored = Tracker::from_json(&json).unwrap();
    let tl = restored.timeline_for_day(None, "2026-02-15").unwrap();
    assert!(tl.contains("feeding"));
    assert!(tl.contains("dejection"));
    assert!(tl.contains("weight"));
}

// --- Summary (day-bounded) ---

#[test]
fn summary_is_day_bounded() {
    let mut t = Tracker::new();
    t.add_feeding("Emma", "bottle", Some(100), None, None, "2026-02-14T20:00:00").unwrap();
    t.add_feeding("Emma", "bottle", Some(120), None, None, "2026-02-15T08:00:00").unwrap();
    t.add_dejection("Emma", "urine", None, "2026-02-15T09:00:00").unwrap();
    t.add_dejection("Emma", "poop", None, "2026-02-15T10:00:00").unwrap();
    t.add_weight("Emma", 3500, None, "2026-02-15T11:00:00").unwrap();
    t.add_feeding("Emma", "bottle", Some(90), None, None, "2026-02-16T06:00:00").unwrap();

    let s = t.get_summary(None, "2026-02-15").unwrap();
    assert!(s.contains("\"total_feedings\":1"));
    assert!(s.contains("\"total_ml\":120"));
    assert!(s.contains("\"total_urine\":1"));
    assert!(s.contains("\"total_poop\":1"));
    assert!(s.contains("\"latest_weight_kg\":3.5"));
}

// --- Report ---

#[test]
fn report_returns_per_day_data() {
    let mut t = Tracker::new();
    t.add_feeding("Emma", "bottle", Some(120), None, None, "2026-02-14T08:00:00").unwrap();
    t.add_feeding("Emma", "bl", None, Some(15), None, "2026-02-15T10:00:00").unwrap();

    let r = t.report(None, "2026-02-14", "2026-02-16").unwrap();
    let days: Vec<serde_json::Value> = serde_json::from_str(&r).unwrap();
    assert_eq!(days.len(), 2);
    assert_eq!(days[0]["date"], "2026-02-14");
    assert_eq!(days[0]["total_feedings"], 1);
    assert_eq!(days[0]["total_ml"], 120.0);
    assert_eq!(days[1]["date"], "2026-02-15");
    assert_eq!(days[1]["total_feedings"], 1);
    assert_eq!(days[1]["total_minutes"], 15);
}

#[test]
fn parse_various_formats() {
    assert!(parse_timestamp("2026-02-15T08:00:00").is_ok());
    assert!(parse_timestamp("2026-02-15T08:00").is_ok());
    assert!(parse_timestamp("2026-02-15 08:00:00").is_ok());
    assert!(parse_timestamp("2026-02-15 08:00").is_ok());
    assert!(parse_timestamp("bad").is_err());
}

#[test]
fn parse_rejects_out_of_range_fields() {
    assert!(parse_timestamp("2026-02-30T08:00:00").is_err());
    assert!(parse_timestamp("2026-00-15T08:00:00").is_err());
    assert!(parse_timestamp("2026-02-15T25:00:00").is_err());
    assert!(parse_timestamp("2026-02-15T08:61:00").is_err());
}

#[test]
fn day_views_cover_the_last_representable_date() {
    let mut t = Tracker::new();
    t.add_feeding("Emma", "bottle", Some(50), None, None, "9999-12-31T23:59:59").unwrap();
    let tl = t.timeline_for_day(None, "9999-12-31").unwrap();
    assert!(tl.contains("bottle"));
    let s = t.get_summary(None, "9999-12-31").unwrap();
    assert!(s.contains("\"total_feedings\":1"));
}
