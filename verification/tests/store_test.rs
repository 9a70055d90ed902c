//! Tests of the event store: CRUD, listing, the merged timeline, JSON
//! persistence, the bounded summary, and the per-day report.

use baby_tracker::models::{Dejection, DejectionType, Feeding, FeedingType, Weight};
use baby_tracker::store::Store;
use baby_tracker::time::Timestamp;

fn ts(day: u8, h: u8, m: u8) -> Timestamp {
    Timestamp::new(2026, 2, day, h, m, 0).unwrap()
}

fn make_feeding(
    name: &str,
    ft: FeedingType,
    ml: Option<u32>,
    dur: Option<u32>,
    day: u8,
    h: u8,
) -> Feeding {
    Feeding::new(name.to_string(), ft, ml, dur, None, ts(day, h, 0)).unwrap()
}

fn make_dejection(name: &str, dt: DejectionType, day: u8, h: u8) -> Dejection {
    Dejection::new(name.to_string(), dt, None, ts(day, h, 0)).unwrap()
}

fn make_weight(name: &str, g: u64, day: u8, h: u8) -> Weight {
    Weight::new(name.to_string(), g, None, ts(day, h, 0)).unwrap()
}

// --- Feeding basics ---

#[test]
fn new_store_is_empty() {
    let store = Store::new();
    assert_eq!(store.list_feedings(None, 100).len(), 0);
}

#[test]
fn add_assigns_incrementing_ids() {
    let mut store = Store::new();
    let id1 = store.add_feeding(make_feeding("Emma", FeedingType::Bottle, Some(120), None, 15, 8));
    let id2 = store.add_feeding(make_feeding("Emma", FeedingType::Bottle, Some(90), None, 15, 12));
    assert_eq!(id1, 1);
    assert_eq!(id2, 2);
}

#[test]
fn list_returns_all_in_reverse_chronological() {
    let mut store = Store::new();
    store.add_feeding(make_feeding("Emma", FeedingType::Bottle, None, None, 15, 8));
    store.add_feeding(make_feeding("Emma", FeedingType::Bottle, None, None, 15, 14));
    store.add_feeding(make_feeding("Emma", FeedingType::Bottle, None, None, 15, 11));
    let list = store.list_feedings(None, 100);
    assert_eq!(list.len(), 3);
    assert!(list[0].timestamp > list[1].timestamp);
    assert!(list[1].timestamp > list[2].timestamp);
}

#[test]
fn list_filters_by_baby_name() {
    let mut store = Store::new();
    store.add_feeding(make_feeding("Emma", FeedingType::Bottle, None, None, 15, 8));
    store.add_feeding(make_feeding("Noah", FeedingType::Bottle, None, None, 15, 9));
    store.add_feeding(make_feeding("Emma", FeedingType::Solid, None, None, 15, 10));
    assert_eq!(store.list_feedings(Some("Emma"), 100).len(), 2);
    assert_eq!(store.list_feedings(Some("Noah"), 100).len(), 1);
}

#[test]
fn list_respects_limit() {
    let mut store = Store::new();
    for h in 0..10 {
        store.add_feeding(make_feeding("Emma", FeedingType::Bottle, None, None, 15, h));
    }
    assert_eq!(store.list_feedings(None, 3).len(), 3);
}

#[test]
fn delete_feeding_existing() {
    let mut store = Store::new();
    let id = store.add_feeding(make_feeding("Emma", FeedingType::Bottle, None, None, 15, 8));
    assert!(store.delete_feeding(id));
    assert_eq!(store.list_feedings(None, 100).len(), 0);
}

#[test]
fn delete_feeding_nonexistent() {
    let mut store = Store::new();
    assert!(!store.delete_feeding(999));
}

#[test]
fn delete_feeding_only_removes_target() {
    let mut store = Store::new();
    store.add_feeding(make_feeding("Emma", FeedingType::Bottle, None, None, 15, 8));
    let id2 = store.add_feeding(make_feeding("Emma", FeedingType::Solid, None, None, 15, 10));
    store.add_feeding(make_feeding("Emma", FeedingType::Bottle, None, None, 15, 12));
    store.delete_feeding(id2);
    assert_eq!(store.list_feedings(None, 100).len(), 2);
}

// --- Update feeding ---

#[test]
fn update_feeding_changes_fields() {
    let mut store = Store::new();
    let id = store.add_feeding(make_feeding("Emma", FeedingType::Bottle, Some(100), None, 15, 8));
    let updated = Feeding::new(
        "Emma".to_string(),
        FeedingType::Solid,
        Some(200),
        Some(10),
        Some("Edited".to_string()),
        ts(15, 9, 0),
    )
    .unwrap();
    assert!(store.update_feeding(id, updated));
    let list = store.list_feedings(None, 100);
    assert_eq!(list[0].feeding_type, FeedingType::Solid);
    assert_eq!(list[0].amount_ml, Some(200));
    assert_eq!(list[0].duration_minutes, Some(10));
    assert_eq!(list[0].notes, Some("Edited".to_string()));
    assert_eq!(list[0].timestamp.hour, 9);
}

#[test]
fn update_feeding_nonexistent_returns_false() {
    let mut store = Store::new();
    let f = make_feeding("Emma", FeedingType::Bottle, None, None, 15, 8);
    assert!(!store.update_feeding(999, f));
}

#[test]
fn update_feeding_preserves_id_and_name() {
    let mut store = Store::new();
    let id = store.add_feeding(make_feeding("Emma", FeedingType::Bottle, None, None, 15, 8));
    let updated = make_feeding("Someone", FeedingType::Solid, None, None, 15, 10);
    store.update_feeding(id, updated);
    let list = store.list_feedings(None, 100);
    assert_eq!(list[0].id, id);
    assert_eq!(list[0].baby_name, "Emma");
}

// --- Dejection CRUD ---

#[test]
fn add_dejection_assigns_id() {
    let mut store = Store::new();
    let id = store.add_dejection(make_dejection("Emma", DejectionType::Urine, 15, 8));
    assert_eq!(id, 1);
}

#[test]
fn feeding_and_dejection_share_id_counter() {
    let mut store = Store::new();
    let id1 = store.add_feeding(make_feeding("Emma", FeedingType::Bottle, None, None, 15, 8));
    let id2 = store.add_dejection(make_dejection("Emma", DejectionType::Poop, 15, 9));
    let id3 = store.add_feeding(make_feeding("Emma", FeedingType::Bottle, None, None, 15, 10));
    assert_eq!(id1, 1);
    assert_eq!(id2, 2);
    assert_eq!(id3, 3);
}

#[test]
fn store_delete_dejection() {
    let mut store = Store::new();
    let id = store.add_dejection(make_dejection("Emma", DejectionType::Urine, 15, 8));
    assert!(store.delete_dejection(id));
    assert!(!store.delete_dejection(id));
}

#[test]
fn store_update_dejection() {
    let mut store = Store::new();
    let id = store.add_dejection(make_dejection("Emma", DejectionType::Urine, 15, 8));
    let updated =
        Dejection::new("Emma".to_string(), DejectionType::Poop, Some("Note".to_string()), ts(15, 9, 0))
            .unwrap();
    assert!(store.update_dejection(id, updated));
    let timeline = store.timeline_for_day(None, ts(15, 0, 0), Some(ts(16, 0, 0)));
    assert_eq!(timeline[0].subtype, "poop");
    assert_eq!(timeline[0].notes, Some("Note".to_string()));
}

#[test]
fn update_dejection_nonexistent() {
    let mut store = Store::new();
    let d = make_dejection("Emma", DejectionType::Urine, 15, 8);
    assert!(!store.update_dejection(999, d));
}

// --- Weight CRUD ---

#[test]
fn add_weight_assigns_id() {
    let mut store = Store::new();
    let id = store.add_weight(make_weight("Emma", 3500, 15, 8));
    assert_eq!(id, 1);
}

#[test]
fn weight_shares_id_counter() {
    let mut store = Store::new();
    let id1 = store.add_feeding(make_feeding("Emma", FeedingType::Bottle, None, None, 15, 8));
    let id2 = store.add_weight(make_weight("Emma", 3500, 15, 9));
    let id3 = store.add_dejection(make_dejection("Emma", DejectionType::Poop, 15, 10));
    assert_eq!(id1, 1);
    assert_eq!(id2, 2);
    assert_eq!(id3, 3);
}

#[test]
fn store_delete_weight() {
    let mut store = Store::new();
    let id = store.add_weight(make_weight("Emma", 3500, 15, 8));
    assert!(store.delete_weight(id));
    assert!(!store.delete_weight(id));
}

#[test]
fn store_update_weight() {
    let mut store = Store::new();
    let id = store.add_weight(make_weight("Emma", 3500, 15, 8));
    let updated =
        Weight::new("Emma".to_string(), 4000, Some("Gaining".to_string()), ts(15, 10, 0)).unwrap();
    assert!(store.update_weight(id, updated));
    let tl = store.timeline_for_day(None, ts(15, 0, 0), Some(ts(16, 0, 0)));
    assert_eq!(tl[0].weight_g, Some(4000));
    assert_eq!(tl[0].notes, Some("Gaining".to_string()));
}

#[test]
fn update_weight_preserves_name() {
    let mut store = Store::new();
    let id = store.add_weight(make_weight("Emma", 3500, 15, 8));
    let updated = Weight::new("Someone".to_string(), 4000, None, ts(15, 10, 0)).unwrap();
    store.update_weight(id, updated);
    let tl = store.timeline_for_day(None, ts(15, 0, 0), Some(ts(16, 0, 0)));
    assert_eq!(tl[0].baby_name, "Emma");
}

#[test]
fn update_weight_nonexistent() {
    let mut store = Store::new();
    let w = make_weight("Emma", 3500, 15, 8);
    assert!(!store.update_weight(999, w));
}

// --- Unified timeline ---

#[test]
fn timeline_merges_feedings_and_dejections() {
    let mut store = Store::new();
    store.add_feeding(make_feeding("Emma", FeedingType::Bottle, None, None, 15, 8));
    store.add_dejection(make_dejection("Emma", DejectionType::Urine, 15, 9));
    store.add_feeding(make_feeding("Emma", FeedingType::BreastLeft, None, None, 15, 10));
    store.add_dejection(make_dejection("Emma", DejectionType::Poop, 15, 11));

    let tl = store.timeline_for_day(None, ts(15, 0, 0), Some(ts(16, 0, 0)));
    assert_eq!(tl.len(), 4);
    assert_eq!(tl[0].kind, "feeding");
    assert_eq!(tl[0].timestamp.hour, 8);
    assert_eq!(tl[1].kind, "dejection");
    assert_eq!(tl[1].subtype, "urine");
    assert_eq!(tl[2].kind, "feeding");
    assert_eq!(tl[3].kind, "dejection");
    assert_eq!(tl[3].subtype, "poop");
}

#[test]
fn timeline_includes_weights() {
    let mut store = Store::new();
    store.add_feeding(make_feeding("Emma", FeedingType::Bottle, None, None, 15, 8));
    store.add_weight(make_weight("Emma", 4200, 15, 10));

    let tl = store.timeline_for_day(None, ts(15, 0, 0), Some(ts(16, 0, 0)));
    assert_eq!(tl.len(), 2);
    assert_eq!(tl[1].kind, "weight");
    assert_eq!(tl[1].weight_g, Some(4200));
}

#[test]
fn timeline_chronological_order() {
    let mut store = Store::new();
    store.add_dejection(make_dejection("Emma", DejectionType::Poop, 15, 14));
    store.add_feeding(make_feeding("Emma", FeedingType::Bottle, None, None, 15, 8));
    store.add_dejection(make_dejection("Emma", DejectionType::Urine, 15, 6));

    let tl = store.timeline_for_day(None, ts(15, 0, 0), Some(ts(16, 0, 0)));
    assert!(tl[0].timestamp < tl[1].timestamp);
    assert!(tl[1].timestamp < tl[2].timestamp);
}

#[test]
fn timeline_filters_by_day() {
    let mut store = Store::new();
    store.add_feeding(make_feeding("Emma", FeedingType::Bottle, None, None, 14, 20));
    store.add_dejection(make_dejection("Emma", DejectionType::Urine, 15, 8));
    store.add_feeding(make_feeding("Emma", FeedingType::Bottle, None, None, 16, 6));

    let tl = store.timeline_for_day(None, ts(15, 0, 0), Some(ts(16, 0, 0)));
    assert_eq!(tl.len(), 1);
    assert_eq!(tl[0].kind, "dejection");
}

#[test]
fn timeline_filters_by_name() {
    let mut store = Store::new();
    store.add_feeding(make_feeding("Emma", FeedingType::Bottle, None, None, 15, 8));
    store.add_dejection(make_dejection("Noah", DejectionType::Poop, 15, 9));

    let tl = store.timeline_for_day(Some("Emma"), ts(15, 0, 0), Some(ts(16, 0, 0)));
    assert_eq!(tl.len(), 1);
    assert_eq!(tl[0].baby_name, "Emma");
}

#[test]
fn timeline_empty() {
    let store = Store::new();
    let tl = store.timeline_for_day(None, ts(15, 0, 0), Some(ts(16, 0, 0)));
    assert!(tl.is_empty());
}

#[test]
fn timeline_stable_on_equal_timestamps() {
    let mut store = Store::new();
    store.add_weight(make_weight("Emma", 3500, 15, 9));
    store.add_feeding(make_feeding("Emma", FeedingType::Bottle, None, None, 15, 9));
    store.add_dejection(make_dejection("Emma", DejectionType::Poop, 15, 9));

    // equal timestamps keep scan order: feedings, dejections, weights
    let tl = store.timeline_for_day(None, ts(15, 0, 0), Some(ts(16, 0, 0)));
    assert_eq!(tl.len(), 3);
    assert_eq!(tl[0].kind, "feeding");
    assert_eq!(tl[1].kind, "dejection");
    assert_eq!(tl[2].kind, "weight");
}

// --- JSON persistence ---

#[test]
fn json_roundtrip_preserves_data() {
    let mut store = Store::new();
    store.add_feeding(make_feeding("Emma", FeedingType::BreastLeft, None, Some(15), 15, 8));
    store.add_dejection(make_dejection("Emma", DejectionType::Poop, 15, 9));
    store.add_weight(make_weight("Emma", 3500, 15, 10));

    let json = store.to_json();
    let restored = Store::from_json(&json).unwrap();
    let tl = restored.timeline_for_day(None, ts(15, 0, 0), Some(ts(16, 0, 0)));
    assert_eq!(tl.len(), 3);
    assert_eq!(tl[0].kind, "feeding");
    assert_eq!(tl[1].kind, "dejection");
    assert_eq!(tl[2].kind, "weight");
}

#[test]
fn json_roundtrip_preserves_next_id() {
    let mut store = Store::new();
    store.add_feeding(make_feeding("Emma", FeedingType::Bottle, None, None, 15, 8));
    store.add_dejection(make_dejection("Emma", DejectionType::Urine, 15, 9));

    let json = store.to_json();
    let mut restored = Store::from_json(&json).unwrap();
    let id3 = restored.add_feeding(make_feeding("Emma", FeedingType::Bottle, None, None, 15, 10));
    assert_eq!(id3, 3);
}

#[test]
fn json_roundtrip_preserves_notes_and_escapes() {
    let mut store = Store::new();
    let f = Feeding::new(
        "Emma".to_string(),
        FeedingType::Bottle,
        Some(120),
        None,
        Some("said \"more\", tab\there, back\\slash".to_string()),
        ts(15, 8, 0),
    )
    .unwrap();
    store.add_feeding(f);
    let json = store.to_json();
    let restored = Store::from_json(&json).unwrap();
    let list = restored.list_feedings(None, 10);
    assert_eq!(list[0].notes, Some("said \"more\", tab\there, back\\slash".to_string()));
}

#[test]
fn json_backwards_compat_no_dejections_field() {
    let json = r#"{"feedings":[],"next_id":1}"#;
    let store = Store::from_json(json).unwrap();
    assert!(store.timeline_for_day(None, ts(15, 0, 0), Some(ts(16, 0, 0))).is_empty());
}

#[test]
fn json_backwards_compat_no_weights_field() {
    let json = r#"{"feedings":[],"dejections":[],"next_id":1}"#;
    let store = Store::from_json(json).unwrap();
    assert!(store.timeline_for_day(None, ts(15, 0, 0), Some(ts(16, 0, 0))).is_empty());
}

#[test]
fn from_json_invalid_returns_error() {
    assert!(Store::from_json("not json").is_err());
}

#[test]
fn from_json_rejects_inconsistent_ids() {
    // two records share an id: the document is structurally valid JSON
    // but violates the store's id discipline
    let json = "{\"feedings\":[{\"id\":1,\"baby_name\":\"Emma\",\"feeding_type\":\"bottle\",\"amount_ml\":null,\"duration_minutes\":null,\"notes\":null,\"timestamp\":\"2026-02-15T08:00:00\"},{\"id\":1,\"baby_name\":\"Emma\",\"feeding_type\":\"solid\",\"amount_ml\":null,\"duration_minutes\":null,\"notes\":null,\"timestamp\":\"2026-02-15T09:00:00\"}],\"dejections\":[],\"weights\":[],\"next_id\":2}";
    assert!(Store::from_json(json).is_err());
}

#[test]
fn from_json_accepts_original_float_forms() {
    // documents written with floating-point fields carry a zero decimal
    // on whole amounts and a short decimal on weights
    let json = "{\"feedings\":[{\"id\":1,\"baby_name\":\"Emma\",\"feeding_type\":\"bottle\",\"amount_ml\":120.0,\"duration_minutes\":null,\"notes\":null,\"timestamp\":\"2026-02-15T08:00:00\"}],\"dejections\":[],\"weights\":[{\"id\":2,\"baby_name\":\"Emma\",\"weight_kg\":3.5,\"notes\":null,\"timestamp\":\"2026-02-15T10:00:00\"}],\"next_id\":3}";
    let store = Store::from_json(json).unwrap();
    let list = store.list_feedings(None, 10);
    assert_eq!(list[0].amount_ml, Some(120));
    let tl = store.timeline_for_day(None, ts(15, 0, 0), Some(ts(16, 0, 0)));
    assert_eq!(tl[1].weight_g, Some(3500));
}

// --- Summary (bounded) ---

#[test]
fn summary_includes_dejection_counts() {
    let mut store = Store::new();
    store.add_feeding(make_feeding("Emma", FeedingType::Bottle, Some(120), None, 15, 8));
    store.add_dejection(make_dejection("Emma", DejectionType::Urine, 15, 9));
    store.add_dejection(make_dejection("Emma", DejectionType::Urine, 15, 11));
    store.add_dejection(make_dejection("Emma", DejectionType::Poop, 15, 13));

    let s = store.summary(None, ts(15, 0, 0), Some(ts(16, 0, 0)));
    assert_eq!(s.total_feedings, 1);
    assert_eq!(s.total_urine, 2);
    assert_eq!(s.total_poop, 1);
}

#[test]
fn summary_bounded_excludes_other_days() {
    let mut store = Store::new();
    store.add_feeding(make_feeding("Emma", FeedingType::Bottle, Some(100), None, 14, 8));
    store.add_feeding(make_feeding("Emma", FeedingType::Bottle, Some(120), None, 15, 8));
    store.add_feeding(make_feeding("Emma", FeedingType::Bottle, Some(90), None, 16, 8));

    let s = store.summary(None, ts(15, 0, 0), Some(ts(16, 0, 0)));
    assert_eq!(s.total_feedings, 1);
    assert_eq!(s.total_ml, 120);
}

#[test]
fn summary_includes_latest_weight() {
    let mut store = Store::new();
    store.add_weight(make_weight("Emma", 3500, 15, 8));
    store.add_weight(make_weight("Emma", 3600, 15, 14));

    let s = store.summary(None, ts(15, 0, 0), Some(ts(16, 0, 0)));
    assert_eq!(s.latest_weight_g, Some(3600));
}

#[test]
fn summary_no_weight() {
    let store = Store::new();
    let s = store.summary(None, ts(15, 0, 0), Some(ts(16, 0, 0)));
    assert_eq!(s.latest_weight_g, None);
}

#[test]
fn summary_empty_store() {
    let store = Store::new();
    let s = store.summary(None, ts(15, 0, 0), Some(ts(16, 0, 0)));
    assert_eq!(s.total_feedings, 0);
    assert_eq!(s.total_ml, 0);
    assert_eq!(s.total_minutes, 0);
    assert_eq!(s.total_urine, 0);
    assert_eq!(s.total_poop, 0);
    assert_eq!(s.latest_weight_g, None);
}

#[test]
fn summary_filters_by_name() {
    let mut store = Store::new();
    store.add_dejection(make_dejection("Emma", DejectionType::Poop, 15, 8));
    store.add_dejection(make_dejection("Noah", DejectionType::Poop, 15, 9));

    let s = store.summary(Some("Emma"), ts(15, 0, 0), Some(ts(16, 0, 0)));
    assert_eq!(s.total_poop, 1);
}

#[test]
fn summary_by_type_omits_zero_counts() {
    let mut store = Store::new();
    store.add_feeding(make_feeding("Emma", FeedingType::Bottle, None, None, 15, 8));
    store.add_feeding(make_feeding("Emma", FeedingType::Bottle, None, None, 15, 9));
    store.add_feeding(make_feeding("Emma", FeedingType::Solid, None, None, 15, 10));

    let s = store.summary(None, ts(15, 0, 0), Some(ts(16, 0, 0)));
    assert_eq!(s.by_type.len(), 2);
    assert_eq!(s.by_type[0], (FeedingType::Bottle, 2));
    assert_eq!(s.by_type[1], (FeedingType::Solid, 1));
    assert_eq!(s.by_type.iter().map(|p| p.1).sum::<u64>(), s.total_feedings);
}

// --- Report ---

#[test]
fn report_aggregates_per_day() {
    let mut store = Store::new();
    store.add_feeding(make_feeding("Emma", FeedingType::Bottle, Some(120), None, 14, 8));
    store.add_feeding(make_feeding("Emma", FeedingType::BreastLeft, None, Some(15), 14, 12));
    store.add_dejection(make_dejection("Emma", DejectionType::Urine, 14, 10));
    store.add_weight(make_weight("Emma", 3500, 14, 9));

    store.add_feeding(make_feeding("Emma", FeedingType::Bottle, Some(90), None, 15, 8));
    store.add_dejection(make_dejection("Emma", DejectionType::Poop, 15, 10));

    let r = store.report(None, ts(14, 0, 0), ts(16, 0, 0));
    assert_eq!(r.len(), 2);

    assert_eq!(r[0].date, "2026-02-14");
    assert_eq!(r[0].total_feedings, 2);
    assert_eq!(r[0].total_ml, 120);
    assert_eq!(r[0].total_minutes, 15);
    assert_eq!(r[0].bottle, 1);
    assert_eq!(r[0].breast_left, 1);
    assert_eq!(r[0].total_urine, 1);
    assert_eq!(r[0].weight_g, Some(3500));

    assert_eq!(r[1].date, "2026-02-15");
    assert_eq!(r[1].total_feedings, 1);
    assert_eq!(r[1].total_ml, 90);
    assert_eq!(r[1].total_poop, 1);
    assert_eq!(r[1].weight_g, None);
}

#[test]
fn report_empty_days() {
    let store = Store::new();
    let r = store.report(None, ts(14, 0, 0), ts(16, 0, 0));
    assert_eq!(r.len(), 2);
    assert_eq!(r[0].total_feedings, 0);
    assert_eq!(r[1].total_feedings, 0);
}

#[test]
fn report_filters_by_name() {
    let mut store = Store::new();
    store.add_feeding(make_feeding("Emma", FeedingType::Bottle, Some(120), None, 15, 8));
    store.add_feeding(make_feeding("Noah", FeedingType::Bottle, Some(100), None, 15, 9));

    let r = store.report(Some("Emma"), ts(15, 0, 0), ts(16, 0, 0));
    assert_eq!(r[0].total_feedings, 1);
    assert_eq!(r[0].total_ml, 120);
}

#[test]
fn report_spans_month_boundary() {
    let mut store = Store::new();
    store.add_feeding(Feeding::new(
        "Emma".to_string(),
        FeedingType::Bottle,
        Some(50),
        None,
        None,
        Timestamp::new(2026, 3, 1, 6, 0, 0).unwrap(),
    )
    .unwrap());
    let r = store.report(
        None,
        Timestamp::new(2026, 2, 27, 0, 0, 0).unwrap(),
        Timestamp::new(2026, 3, 2, 0, 0, 0).unwrap(),
    );
    assert_eq!(r.len(), 3);
    assert_eq!(r[0].date, "2026-02-27");
    assert_eq!(r[1].date, "2026-02-28");
    assert_eq!(r[2].date, "2026-03-01");
    assert_eq!(r[2].total_ml, 50);
}

#[test]
fn from_json_tolerates_whitespace() {
    let json = "{ \"feedings\" : [ ] , \"next_id\" : 1 }";
    let store = Store::from_json(json).unwrap();
    assert!(store.timeline_for_day(None, ts(15, 0, 0), Some(ts(16, 0, 0))).is_empty());

    let spaced = "{\n  \"feedings\": [\n    {\"id\": 1, \"baby_name\": \"Emma\", \"feeding_type\": \"bottle\", \"amount_ml\": 120, \"duration_minutes\": null, \"notes\": null, \"timestamp\": \"2026-02-15T08:00:00\"}\n  ],\n  \"next_id\": 2\n}";
    let store = Store::from_json(spaced).unwrap();
    let list = store.list_feedings(None, 10);
    assert_eq!(list[0].amount_ml, Some(120));
}

#[test]
fn from_json_tolerates_key_order() {
    let json = "{\"next_id\":2,\"weights\":[],\"feedings\":[{\"timestamp\":\"2026-02-15T08:00:00\",\"id\":1,\"feeding_type\":\"solid\",\"baby_name\":\"Emma\"}],\"dejections\":[]}";
    let store = Store::from_json(json).unwrap();
    let list = store.list_feedings(None, 10);
    assert_eq!(list[0].baby_name, "Emma");
    assert_eq!(list[0].feeding_type, FeedingType::Solid);
    // an optional field may be omitted entirely
    assert_eq!(list[0].notes, None);
    assert_eq!(list[0].amount_ml, None);
}

#[test]
fn from_json_rejects_duplicate_keys() {
    let json = "{\"feedings\":[],\"feedings\":[],\"next_id\":1}";
    assert!(Store::from_json(json).is_err());
}
