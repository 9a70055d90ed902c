//! The end-to-end scenario: one feeding, one dejection and one weight on
//! a single day, then the timeline, the summary, and a two-day report.

use baby_tracker::tracker::Tracker;

fn filled_tracker() -> Tracker {
    let mut t = Tracker::new();
    let id1 = t.add_feeding("Emma", "bottle", Some(120), None, None, "2026-02-15T08:00:00").unwrap();
    let id2 = t.add_dejection("Emma", "poop", None, "2026-02-15T09:00:00").unwrap();
    let id3 = t.add_weight("Emma", 3500, None, "2026-02-15T10:00:00").unwrap();
    assert_eq!(id1, 1);
    assert_eq!(id2, 2);
    assert_eq!(id3, 3);
    t
}

#[test]
fn scenario_timeline_for_the_day() {
    let t = filled_tracker();
    let json = t.timeline_for_day(None, "2026-02-15").unwrap();
    let entries: Vec<serde_json::Value> = serde_json::from_str(&json).unwrap();
    assert_eq!(entries.len(), 3);
    assert_eq!(entries[0]["kind"], "feeding");
    assert_eq!(entries[0]["id"], 1);
    assert!(entries[0]["timestamp"].as_str().unwrap().contains("08:00"));
    assert_eq!(entries[1]["kind"], "dejection");
    assert_eq!(entries[1]["id"], 2);
    assert_eq!(entries[1]["subtype"], "poop");
    assert!(entries[1]["timestamp"].as_str().unwrap().contains("09:00"));
    assert_eq!(entries[2]["kind"], "weight");
    assert_eq!(entries[2]["id"], 3);
    assert_eq!(entries[2]["weight_kg"], 3.5);
    assert!(entries[2]["timestamp"].as_str().unwrap().contains("10:00"));
}

#[test]
fn scenario_summary_for_the_day() {
    let t = filled_tracker();
    let json = t.get_summary(None, "2026-02-15").unwrap();
    let s: serde_json::Value = serde_json::from_str(&json).unwrap();
    assert_eq!(s["total_feedings"], 1);
    assert_eq!(s["total_ml"], 120);
    assert_eq!(s["total_poop"], 1);
    assert_eq!(s["latest_weight_kg"], 3.5);
}

#[test]
fn scenario_two_day_report() {
    let t = filled_tracker();
    let json = t.report(None, "2026-02-15", "2026-02-17").unwrap();
    let days: Vec<serde_json::Value> = serde_json::from_str(&json).unwrap();
    assert_eq!(days.len(), 2);
    assert_eq!(days[0]["date"], "2026-02-15");
    assert_eq!(days[0]["total_feedings"], 1);
    assert_eq!(days[0]["total_ml"], 120);
    assert_eq!(days[0]["total_poop"], 1);
    assert_eq!(days[0]["weight_kg"], 3.5);
    assert_eq!(days[1]["date"], "2026-02-16");
    assert_eq!(days[1]["total_feedings"], 0);
    assert_eq!(days[1]["total_ml"], 0);
    assert_eq!(days[1]["total_urine"], 0);
    assert_eq!(days[1]["total_poop"], 0);
    assert_eq!(days[1]["weight_kg"], serde_json::Value::Null);
}

#[test]
fn export_format_matches_interchange_shape() {
    let t = filled_tracker();
    let doc: serde_json::Value = serde_json::from_str(&t.export_data()).unwrap();
    assert_eq!(doc["next_id"], 4);
    assert_eq!(doc["feedings"][0]["id"], 1);
    assert_eq!(doc["feedings"][0]["feeding_type"], "bottle");
    assert_eq!(doc["dejections"][0]["dejection_type"], "poop");
    assert_eq!(doc["weights"][0]["weight_kg"], 3.5);
    assert_eq!(doc["weights"][0]["timestamp"], "2026-02-15T10:00:00");
}

#[test]
fn ids_stay_unique_after_deletes_and_reload() {
    let mut t = filled_tracker();
    assert!(t.delete_dejection(2));
    let json = t.export_data();
    let mut restored = Tracker::from_json(&json).unwrap();
    let id4 = restored.add_weight("Emma", 3600, None, "2026-02-16T10:00:00").unwrap();
    assert_eq!(id4, 4);
}
