//! Facade: validates external string and primitive input into domain
//! values, delegates to the store and the aggregation engine, and
//! serializes query results to the interchange format.

use vstd::prelude::*;
use vstd::string::StringExecFns;

use crate::agg::{
    by_type_spec, count_dejection_type, day_report_matches, is_latest_weight, spec_timeline_input,
    sum_ml, sum_minutes, DayReport, DayReportModel, Summary,
};
use crate::codec::{
    null_chars, spec_doc, spec_opt_dec, spec_opt_string, spec_parse_doc, lemma_join_snoc,
    spec_join,
};
use crate::json::{push_json_string, push_kg, spec_json_string, spec_kg_text};
use crate::models::{
    spec_feeding_tag, spec_normalize_notes, spec_parse_dejection_type, spec_parse_feeding_type,
    spec_dejection_type_error, spec_feeding_type_error, view_opt_str, Dejection, DejectionModel,
    DejectionType, Feeding, FeedingModel, FeedingType, TimelineEntry, TimelineEntryModel, Weight,
    WeightModel,
};
use crate::sort::{spec_sort, views_of};
use crate::store::{
    feeding_keep_pred, dejection_keep_pred, weight_keep_pred, feeding_name_pred, has_dejection_id,
    has_feeding_id, has_weight_id, view_filter, Store, StoreModel,
};
use crate::text::{push_dec, spec_dec, spec_trim, trim};
use crate::time::{
    parse_timestamp, spec_parse_timestamp, spec_timestamp_error, spec_ts_text, Timestamp,
};

verus! {

/// An optional gram count as a kilogram number, or `null`.
pub open spec fn spec_opt_kg(v: Option<u64>) -> Seq<char> {
    match v {
        Some(g) => spec_kg_text(g as int),
        None => null_chars(),
    }
}

fn push_null(out: &mut Vec<char>)
    ensures
        final(out)@ == old(out)@ + null_chars(),
{
    out.push('n');
    out.push('u');
    out.push('l');
    out.push('l');
    proof {
        assert(out@ =~= old(out)@ + null_chars());
    }
}

fn push_opt_dec(out: &mut Vec<char>, v: &Option<u32>)
    ensures
        final(out)@ == old(out)@ + spec_opt_dec(*v),
{
    match v {
        Some(x) => push_dec(out, *x as u64),
        None => push_null(out),
    }
}

fn push_opt_kg(out: &mut Vec<char>, v: &Option<u64>)
    ensures
        final(out)@ == old(out)@ + spec_opt_kg(*v),
{
    match v {
        Some(g) => push_kg(out, *g),
        None => push_null(out),
    }
}

fn push_opt_string(out: &mut Vec<char>, v: &Option<String>)
    ensures
        final(out)@ == old(out)@ + spec_opt_string(view_opt_str(*v)),
{
    match v {
        Some(x) => push_json_string(out, x.as_str()),
        None => push_null(out),
    }
}

fn push_str(out: &mut Vec<char>, s: &str)
    ensures
        final(out)@ == old(out)@ + s@,
{
    let n = s.unicode_len();
    let mut i: usize = 0;
    proof {
        assert(out@ =~= old(out)@ + s@.take(0));
    }
    while i < n
        invariant
            i <= n,
            n == s@.len(),
            out@ == old(out)@ + s@.take(i as int),
        decreases n - i,
    {
        out.push(s.get_char(i));
        i = i + 1;
        proof {
            assert(out@ =~= old(out)@ + s@.take(i as int));
        }
    }
    proof {
        assert(s@.take(n as int) =~= s@);
    }
}

/// One timeline entry, serialized.
pub open spec fn spec_entry_json(e: TimelineEntryModel) -> Seq<char> {
    "{\"id\":"@ + spec_dec(e.id as int) + ",\"kind\":"@ + spec_json_string(e.kind)
        + ",\"baby_name\":"@ + spec_json_string(e.baby_name) + ",\"subtype\":"@ + spec_json_string(
        e.subtype,
    ) + ",\"amount_ml\":"@ + spec_opt_dec(e.amount_ml) + ",\"duration_minutes\":"@ + spec_opt_dec(
        e.duration_minutes,
    ) + ",\"weight_kg\":"@ + spec_opt_kg(e.weight_g) + ",\"notes\":"@ + spec_opt_string(e.notes)
        + ",\"timestamp\":"@ + spec_json_string(spec_ts_text(e.timestamp)) + seq!['}']
}

/// The timeline-entry renderer, as a function value.
pub open spec fn entry_json_fn() -> spec_fn(TimelineEntryModel) -> Seq<char> {
    |e: TimelineEntryModel| spec_entry_json(e)
}

/// A serialized timeline: a JSON array of entries.
pub open spec fn spec_entries_json(es: Seq<TimelineEntryModel>) -> Seq<char> {
    seq!['['] + spec_join(es.map_values(entry_json_fn())) + seq![']']
}

#[verifier::rlimit(100)]
fn push_entry(out: &mut Vec<char>, e: &TimelineEntry)
    ensures
        final(out)@ == old(out)@ + spec_entry_json(e@),
{
    push_str(out, "{\"id\":");
    push_dec(out, e.id);
    push_str(out, ",\"kind\":");
    push_json_string(out, e.kind.as_str());
    push_str(out, ",\"baby_name\":");
    push_json_string(out, e.baby_name.as_str());
    push_str(out, ",\"subtype\":");
    push_json_string(out, e.subtype.as_str());
    push_str(out, ",\"amount_ml\":");
    push_opt_dec(out, &e.amount_ml);
    push_str(out, ",\"duration_minutes\":");
    push_opt_dec(out, &e.duration_minutes);
    let ghost half = "{\"id\":"@ + spec_dec(e@.id as int) + ",\"kind\":"@ + spec_json_string(
        e@.kind,
    ) + ",\"baby_name\":"@ + spec_json_string(e@.baby_name) + ",\"subtype\":"@
        + spec_json_string(e@.subtype) + ",\"amount_ml\":"@ + spec_opt_dec(e@.amount_ml)
        + ",\"duration_minutes\":"@ + spec_opt_dec(e@.duration_minutes);
    proof {
        assert(out@ =~= old(out)@ + half);
    }
    push_str(out, ",\"weight_kg\":");
    push_opt_kg(out, &e.weight_g);
    push_str(out, ",\"notes\":");
    push_opt_string(out, &e.notes);
    push_str(out, ",\"timestamp\":");
    let t = e.timestamp.format_text();
    push_json_string(out, t.as_str());
    out.push('}');
    proof {
        assert(out@ =~= old(out)@ + half + (",\"weight_kg\":"@ + spec_opt_kg(e@.weight_g)
            + ",\"notes\":"@ + spec_opt_string(e@.notes) + ",\"timestamp\":"@
            + spec_json_string(spec_ts_text(e@.timestamp)) + seq!['}']));
        assert(old(out)@ + half + (",\"weight_kg\":"@ + spec_opt_kg(e@.weight_g) + ",\"notes\":"@
            + spec_opt_string(e@.notes) + ",\"timestamp\":"@ + spec_json_string(
            spec_ts_text(e@.timestamp),
        ) + seq!['}']) =~= old(out)@ + spec_entry_json(e@));
    }
}

/// Serializes a list of timeline entries.
pub fn entries_to_json(entries: &Vec<TimelineEntry>) -> (r: String)
    ensures
        r@ == spec_entries_json(views_of(entries@)),
{
    let ghost ms = views_of(entries@);
    let mut out: Vec<char> = Vec::new();
    out.push('[');
    let n = entries.len();
    let mut i: usize = 0;
    proof {
        assert(ms.take(0).map_values(entry_json_fn()) =~= Seq::<Seq<char>>::empty());
        assert(out@ =~= seq!['['] + spec_join(ms.take(0).map_values(entry_json_fn())));
    }
    while i < n
        invariant
            i <= n,
            n == entries@.len(),
            ms == views_of(entries@),
            ms.len() == n,
            out@ == seq!['['] + spec_join(ms.take(i as int).map_values(entry_json_fn())),
        decreases n - i,
    {
        if i > 0 {
            out.push(',');
        }
        let ghost parts = ms.take(i as int).map_values(entry_json_fn());
        push_entry(&mut out, &entries[i]);
        i = i + 1;
        proof {
            assert(ms[i - 1] == entries@[i - 1]@);
            lemma_join_snoc(parts, spec_entry_json(ms[i - 1]));
            assert(ms.take(i as int) =~= ms.take(i - 1).push(ms[i - 1]));
            assert(ms.take(i as int).map_values(entry_json_fn()) =~= parts.push(
                spec_entry_json(ms[i - 1]),
            ));
            if i == 1 {
                assert(out@ =~= seq!['['] + spec_join(
                    ms.take(i as int).map_values(entry_json_fn()),
                ));
            } else {
                assert(out@ =~= seq!['['] + (spec_join(parts) + seq![','] + spec_entry_json(
                    ms[i - 1],
                )));
            }
        }
    }
    proof {
        assert(ms.take(n as int) =~= ms);
    }
    out.push(']');
    proof {
        assert(out@ =~= spec_entries_json(ms));
    }
    crate::text::chars_to_string(&out)
}

/// One by-type pair, serialized as a two-element array.
pub open spec fn spec_pair_json(p: (FeedingType, u64)) -> Seq<char> {
    seq!['['] + spec_json_string(spec_feeding_tag(p.0)) + seq![','] + spec_dec(p.1 as int)
        + seq![']']
}

pub open spec fn pair_json_fn() -> spec_fn((FeedingType, u64)) -> Seq<char> {
    |p: (FeedingType, u64)| spec_pair_json(p)
}

/// A serialized summary.
pub open spec fn spec_summary_json(
    total_feedings: u64,
    total_ml: u64,
    total_minutes: u64,
    by_type: Seq<(FeedingType, u64)>,
    total_urine: u64,
    total_poop: u64,
    latest_weight_g: Option<u64>,
) -> Seq<char> {
    "{\"total_feedings\":"@ + spec_dec(total_feedings as int) + ",\"total_ml\":"@ + spec_dec(
        total_ml as int,
    ) + ",\"total_minutes\":"@ + spec_dec(total_minutes as int) + ",\"by_type\":["@ + spec_join(
        by_type.map_values(pair_json_fn()),
    ) + "],\"total_urine\":"@ + spec_dec(total_urine as int) + ",\"total_poop\":"@ + spec_dec(
        total_poop as int,
    ) + ",\"latest_weight_kg\":"@ + spec_opt_kg(latest_weight_g) + seq!['}']
}

/// Serializes a summary.
#[verifier::rlimit(100)]
pub fn summary_to_json(s: &Summary) -> (r: String)
    ensures
        r@ == spec_summary_json(
            s.total_feedings,
            s.total_ml,
            s.total_minutes,
            s.by_type@,
            s.total_urine,
            s.total_poop,
            s.latest_weight_g,
        ),
{
    let mut out: Vec<char> = Vec::new();
    push_str(&mut out, "{\"total_feedings\":");
    push_dec(&mut out, s.total_feedings);
    push_str(&mut out, ",\"total_ml\":");
    push_dec(&mut out, s.total_ml);
    push_str(&mut out, ",\"total_minutes\":");
    push_dec(&mut out, s.total_minutes);
    push_str(&mut out, ",\"by_type\":[");
    let ghost base = "{\"total_feedings\":"@ + spec_dec(s.total_feedings as int)
        + ",\"total_ml\":"@ + spec_dec(s.total_ml as int) + ",\"total_minutes\":"@ + spec_dec(
        s.total_minutes as int,
    ) + ",\"by_type\":["@;
    let n = s.by_type.len();
    let mut i: usize = 0;
    proof {
        assert(s.by_type@.take(0).map_values(pair_json_fn()) =~= Seq::<Seq<char>>::empty());
        assert(out@ =~= base + spec_join(s.by_type@.take(0).map_values(pair_json_fn())));
    }
    while i < n
        invariant
            i <= n,
            n == s.by_type@.len(),
            base == "{\"total_feedings\":"@ + spec_dec(s.total_feedings as int)
                + ",\"total_ml\":"@ + spec_dec(s.total_ml as int) + ",\"total_minutes\":"@
                + spec_dec(s.total_minutes as int) + ",\"by_type\":["@,
            out@ == base + spec_join(s.by_type@.take(i as int).map_values(pair_json_fn())),
        decreases n - i,
    {
        if i > 0 {
            out.push(',');
        }
        let ghost parts = s.by_type@.take(i as int).map_values(pair_json_fn());
        let (ft, count) = s.by_type[i];
        out.push('[');
        push_json_string(&mut out, ft.tag());
        out.push(',');
        push_dec(&mut out, count);
        out.push(']');
        i = i + 1;
        proof {
            assert((ft, count) == s.by_type@[i - 1]);
            lemma_join_snoc(parts, spec_pair_json(s.by_type@[i - 1]));
            assert(s.by_type@.take(i as int) =~= s.by_type@.take(i - 1).push(s.by_type@[i - 1]));
            assert(s.by_type@.take(i as int).map_values(pair_json_fn()) =~= parts.push(
                spec_pair_json(s.by_type@[i - 1]),
            ));
            if i == 1 {
                assert(out@ =~= base + spec_join(
                    s.by_type@.take(i as int).map_values(pair_json_fn()),
                ));
            } else {
                assert(out@ =~= base + (spec_join(parts) + seq![','] + spec_pair_json(
                    s.by_type@[i - 1],
                )));
            }
        }
    }
    proof {
        assert(s.by_type@.take(n as int) =~= s.by_type@);
    }
    push_str(&mut out, "],\"total_urine\":");
    push_dec(&mut out, s.total_urine);
    push_str(&mut out, ",\"total_poop\":");
    push_dec(&mut out, s.total_poop);
    push_str(&mut out, ",\"latest_weight_kg\":");
    push_opt_kg(&mut out, &s.latest_weight_g);
    out.push('}');
    proof {
        assert(out@ =~= spec_summary_json(
            s.total_feedings,
            s.total_ml,
            s.total_minutes,
            s.by_type@,
            s.total_urine,
            s.total_poop,
            s.latest_weight_g,
        ));
    }
    crate::text::chars_to_string(&out)
}

/// One day report, serialized.
pub open spec fn spec_day_report_json(d: DayReportModel) -> Seq<char> {
    "{\"date\":"@ + spec_json_string(d.date) + ",\"total_feedings\":"@ + spec_dec(
        d.total_feedings as int,
    ) + ",\"total_ml\":"@ + spec_dec(d.total_ml as int) + ",\"total_minutes\":"@ + spec_dec(
        d.total_minutes as int,
    ) + ",\"breast_left\":"@ + spec_dec(d.breast_left as int) + ",\"breast_right\":"@ + spec_dec(
        d.breast_right as int,
    ) + ",\"bottle\":"@ + spec_dec(d.bottle as int) + ",\"solid\":"@ + spec_dec(d.solid as int)
        + ",\"total_urine\":"@ + spec_dec(d.total_urine as int) + ",\"total_poop\":"@ + spec_dec(
        d.total_poop as int,
    ) + ",\"weight_kg\":"@ + spec_opt_kg(d.weight_g) + seq!['}']
}

pub open spec fn day_report_json_fn() -> spec_fn(DayReportModel) -> Seq<char> {
    |d: DayReportModel| spec_day_report_json(d)
}

/// A serialized report: a JSON array of day reports.
pub open spec fn spec_reports_json(ds: Seq<DayReportModel>) -> Seq<char> {
    seq!['['] + spec_join(ds.map_values(day_report_json_fn())) + seq![']']
}

#[verifier::rlimit(100)]
fn push_day_report(out: &mut Vec<char>, d: &DayReport)
    ensures
        final(out)@ == old(out)@ + spec_day_report_json(d@),
{
    push_str(out, "{\"date\":");
    push_json_string(out, d.date.as_str());
    push_str(out, ",\"total_feedings\":");
    push_dec(out, d.total_feedings);
    push_str(out, ",\"total_ml\":");
    push_dec(out, d.total_ml);
    push_str(out, ",\"total_minutes\":");
    push_dec(out, d.total_minutes);
    push_str(out, ",\"breast_left\":");
    push_dec(out, d.breast_left);
    push_str(out, ",\"breast_right\":");
    push_dec(out, d.breast_right);
    push_str(out, ",\"bottle\":");
    push_dec(out, d.bottle);
    push_str(out, ",\"solid\":");
    push_dec(out, d.solid);
    let ghost half = "{\"date\":"@ + spec_json_string(d@.date) + ",\"total_feedings\":"@
        + spec_dec(d@.total_feedings as int) + ",\"total_ml\":"@ + spec_dec(d@.total_ml as int)
        + ",\"total_minutes\":"@ + spec_dec(d@.total_minutes as int) + ",\"breast_left\":"@
        + spec_dec(d@.breast_left as int) + ",\"breast_right\":"@ + spec_dec(
        d@.breast_right as int,
    ) + ",\"bottle\":"@ + spec_dec(d@.bottle as int) + ",\"solid\":"@ + spec_dec(
        d@.solid as int,
    );
    proof {
        assert(out@ =~= old(out)@ + half);
    }
    push_str(out, ",\"total_urine\":");
    push_dec(out, d.total_urine);
    push_str(out, ",\"total_poop\":");
    push_dec(out, d.total_poop);
    push_str(out, ",\"weight_kg\":");
    push_opt_kg(out, &d.weight_g);
    out.push('}');
    proof {
        assert(out@ =~= old(out)@ + half + (",\"total_urine\":"@ + spec_dec(d@.total_urine as int)
            + ",\"total_poop\":"@ + spec_dec(d@.total_poop as int) + ",\"weight_kg\":"@
            + spec_opt_kg(d@.weight_g) + seq!['}']));
        assert(old(out)@ + half + (",\"total_urine\":"@ + spec_dec(d@.total_urine as int)
            + ",\"total_poop\":"@ + spec_dec(d@.total_poop as int) + ",\"weight_kg\":"@
            + spec_opt_kg(d@.weight_g) + seq!['}']) =~= old(out)@ + spec_day_report_json(d@));
    }
}

/// Serializes a report.
pub fn reports_to_json(ds: &Vec<DayReport>) -> (r: String)
    ensures
        r@ == spec_reports_json(views_of(ds@)),
{
    let ghost ms = views_of(ds@);
    let mut out: Vec<char> = Vec::new();
    out.push('[');
    let n = ds.len();
    let mut i: usize = 0;
    proof {
        assert(ms.take(0).map_values(day_report_json_fn()) =~= Seq::<Seq<char>>::empty());
        assert(out@ =~= seq!['['] + spec_join(ms.take(0).map_values(day_report_json_fn())));
    }
    while i < n
        invariant
            i <= n,
            n == ds@.len(),
            ms == views_of(ds@),
            ms.len() == n,
            out@ == seq!['['] + spec_join(ms.take(i as int).map_values(day_report_json_fn())),
        decreases n - i,
    {
        if i > 0 {
            out.push(',');
        }
        let ghost parts = ms.take(i as int).map_values(day_report_json_fn());
        push_day_report(&mut out, &ds[i]);
        i = i + 1;
        proof {
            assert(ms[i - 1] == ds@[i - 1]@);
            lemma_join_snoc(parts, spec_day_report_json(ms[i - 1]));
            assert(ms.take(i as int) =~= ms.take(i - 1).push(ms[i - 1]));
            assert(ms.take(i as int).map_values(day_report_json_fn()) =~= parts.push(
                spec_day_report_json(ms[i - 1]),
            ));
            if i == 1 {
                assert(out@ =~= seq!['['] + spec_join(
                    ms.take(i as int).map_values(day_report_json_fn()),
                ));
            } else {
                assert(out@ =~= seq!['['] + (spec_join(parts) + seq![','] + spec_day_report_json(
                    ms[i - 1],
                )));
            }
        }
    }
    proof {
        assert(ms.take(n as int) =~= ms);
    }
    out.push(']');
    proof {
        assert(out@ =~= spec_reports_json(ms));
    }
    crate::text::chars_to_string(&out)
}

/// Checking an externally supplied amount: negative is rejected, and so
/// is anything beyond the store's milliliter range.
pub open spec fn spec_amount_check(a: Option<i64>) -> Result<Option<u32>, Seq<char>> {
    match a {
        None => Ok(None),
        Some(x) => if x < 0 {
            Err("Amount cannot be negative"@)
        } else if x > u32::MAX {
            Err("Amount too large"@)
        } else {
            Ok(Some(x as u32))
        },
    }
}

fn amount_check(a: &Option<i64>) -> (r: Result<Option<u32>, String>)
    ensures
        match spec_amount_check(*a) {
            Ok(v) => r == Ok::<Option<u32>, String>(v),
            Err(e) => r is Err && r->Err_0@ == e,
        },
{
    match a {
        None => Ok(None),
        Some(x) => {
            if *x < 0 {
                Err(String::from_str("Amount cannot be negative"))
            } else if *x > 0xffff_ffff {
                Err(String::from_str("Amount too large"))
            } else {
                Ok(Some(*x as u32))
            }
        },
    }
}

/// What an add-feeding call does: validate the type tag, the timestamp,
/// the name, and the amount, in that order; on success the new record
/// carries the next id and the trimmed name, and the counter advances.
pub open spec fn spec_add_feeding(
    m: StoreModel,
    baby_name: Seq<char>,
    feeding_type: Seq<char>,
    amount_ml: Option<i64>,
    duration_minutes: Option<u32>,
    notes: Option<Seq<char>>,
    timestamp: Seq<char>,
) -> Result<(StoreModel, u64), Seq<char>> {
    match spec_parse_feeding_type(feeding_type) {
        None => Err(spec_feeding_type_error(feeding_type)),
        Some(ft) => match spec_parse_timestamp(timestamp) {
            None => Err(spec_timestamp_error(timestamp)),
            Some(ts) => if spec_trim(baby_name).len() == 0 {
                Err("Baby name cannot be empty"@)
            } else {
                match spec_amount_check(amount_ml) {
                    Err(e) => Err(e),
                    Ok(amount) => {
                        let id = m.next_id as u64;
                        let f = FeedingModel {
                            id,
                            baby_name: spec_trim(baby_name),
                            feeding_type: ft,
                            amount_ml: amount,
                            duration_minutes,
                            notes: spec_normalize_notes(notes),
                            timestamp: ts,
                        };
                        Ok(
                            (StoreModel {
                                feedings: m.feedings.push(f),
                                next_id: (m.next_id + 1) as u32,
                                ..m
                            }, id),
                        )
                    },
                }
            },
        },
    }
}

/// What an add-dejection call does.
pub open spec fn spec_add_dejection(
    m: StoreModel,
    baby_name: Seq<char>,
    dejection_type: Seq<char>,
    notes: Option<Seq<char>>,
    timestamp: Seq<char>,
) -> Result<(StoreModel, u64), Seq<char>> {
    match spec_parse_dejection_type(dejection_type) {
        None => Err(spec_dejection_type_error(dejection_type)),
        Some(dt) => match spec_parse_timestamp(timestamp) {
            None => Err(spec_timestamp_error(timestamp)),
            Some(ts) => if spec_trim(baby_name).len() == 0 {
                Err("Baby name cannot be empty"@)
            } else {
                let id = m.next_id as u64;
                let d = DejectionModel {
                    id,
                    baby_name: spec_trim(baby_name),
                    dejection_type: dt,
                    notes: spec_normalize_notes(notes),
                    timestamp: ts,
                };
                Ok(
                    (StoreModel {
                        dejections: m.dejections.push(d),
                        next_id: (m.next_id + 1) as u32,
                        ..m
                    }, id),
                )
            },
        },
    }
}

/// What an add-weight call does; the weight arrives in grams and must be
/// positive.
pub open spec fn spec_add_weight(
    m: StoreModel,
    baby_name: Seq<char>,
    weight_g: i64,
    notes: Option<Seq<char>>,
    timestamp: Seq<char>,
) -> Result<(StoreModel, u64), Seq<char>> {
    match spec_parse_timestamp(timestamp) {
        None => Err(spec_timestamp_error(timestamp)),
        Some(ts) => if spec_trim(baby_name).len() == 0 {
            Err("Baby name cannot be empty"@)
        } else if weight_g <= 0 {
            Err("Weight must be positive"@)
        } else {
            let id = m.next_id as u64;
            let w = WeightModel {
                id,
                baby_name: spec_trim(baby_name),
                weight_g: weight_g as u64,
                notes: spec_normalize_notes(notes),
                timestamp: ts,
            };
            Ok(
                (StoreModel {
                    weights: m.weights.push(w),
                    next_id: (m.next_id + 1) as u32,
                    ..m
                }, id),
            )
        },
    }
}


/// What a serialized summary of the given window must hold: the counts
/// and sums of the matching records, and some maximal-timestamp weight
/// (the tie-break is deliberately unspecified).
pub open spec fn summary_output_matches(
    m: StoreModel,
    nm: Option<Seq<char>>,
    since: Timestamp,
    until: Option<Timestamp>,
    out: Seq<char>,
) -> bool {
    let fs = m.feedings.filter(crate::agg::feeding_window_pred(nm, since, until));
    let ds = m.dejections.filter(crate::agg::dejection_window_pred(nm, since, until));
    let ws = m.weights.filter(crate::agg::weight_window_pred(nm, since, until));
    exists|g: Option<u64>|
        {
            &&& (g is Some <==> ws.len() > 0)
            &&& match g {
                Some(gv) => is_latest_weight(ws, gv),
                None => true,
            }
            &&& out == #[trigger] spec_summary_json(
                fs.len() as u64,
                sum_ml(fs) as u64,
                sum_minutes(fs) as u64,
                by_type_spec(fs),
                count_dejection_type(ds, DejectionType::Urine) as u64,
                count_dejection_type(ds, DejectionType::Poop) as u64,
                g,
            )
        }
}

/// The tracker: a store behind a string-typed boundary.
#[derive(Debug)]
pub struct Tracker {
    store: Store,
}

impl View for Tracker {
    type V = StoreModel;

    closed spec fn view(&self) -> StoreModel {
        self.store@
    }
}

impl Tracker {
    /// An empty tracker.
    pub fn new() -> (r: Tracker)
        ensures
            r@.wf(),
            r@.feedings.len() == 0,
            r@.dejections.len() == 0,
            r@.weights.len() == 0,
            r@.next_id == 1,
    {
        Tracker { store: Store::new() }
    }

    /// Restores a tracker from an interchange document.
    pub fn from_json(json: &str) -> (r: Result<Tracker, String>)
        ensures
            r is Ok <==> (spec_parse_doc(json@) is Some && spec_parse_doc(json@)->0.wf()),
            r is Ok ==> r->Ok_0@ == spec_parse_doc(json@)->0 && r->Ok_0@.wf(),
    {
        match Store::from_json(json) {
            Ok(store) => Ok(Tracker { store }),
            Err(e) => Err(e),
        }
    }

    /// The whole store as one interchange document.
    pub fn export_data(&self) -> (r: String)
        ensures
            r@ == spec_doc(self@),
    {
        self.store.to_json()
    }

    /// Whether the identity sequence is exhausted.
    pub fn at_id_capacity(&self) -> (r: bool)
        ensures
            r == (self@.next_id == u32::MAX),
    {
        self.store.at_id_capacity()
    }

    /// Validates and records a feeding; returns the assigned id.
    pub fn add_feeding(
        &mut self,
        baby_name: &str,
        feeding_type: &str,
        amount_ml: Option<i64>,
        duration_minutes: Option<u32>,
        notes: Option<String>,
        timestamp: &str,
    ) -> (r: Result<u64, String>)
        requires
            old(self)@.wf(),
            old(self)@.next_id < u32::MAX,
        ensures
            final(self)@.wf(),
            match spec_add_feeding(
                old(self)@,
                baby_name@,
                feeding_type@,
                amount_ml,
                duration_minutes,
                view_opt_str(notes),
                timestamp@,
            ) {
                Ok((m2, id)) => r == Ok::<u64, String>(id) && final(self)@ == m2,
                Err(e) => r is Err && r->Err_0@ == e && final(self)@ == old(self)@,
            },
    {
        let ft = match FeedingType::parse(feeding_type) {
            Ok(ft) => ft,
            Err(e) => {
                return Err(e);
            },
        };
        let ts = match parse_timestamp(timestamp) {
            Ok(ts) => ts,
            Err(e) => {
                return Err(e);
            },
        };
        let name = trim(baby_name);
        if name.as_str().unicode_len() == 0 {
            return Err(String::from_str("Baby name cannot be empty"));
        }
        let amount = match amount_check(&amount_ml) {
            Ok(a) => a,
            Err(e) => {
                return Err(e);
            },
        };
        proof {
            crate::text::lemma_trim_idempotent(baby_name@);
        }
        let feeding = match Feeding::new(name, ft, amount, duration_minutes, notes, ts) {
            Ok(f) => f,
            Err(e) => {
                return Err(e);
            },
        };
        let id = self.store.add_feeding(feeding);
        proof {
            assert(self@ =~= (StoreModel {
                feedings: old(self)@.feedings.push(
                    FeedingModel {
                        id: id,
                        baby_name: spec_trim(baby_name@),
                        feeding_type: ft,
                        amount_ml: amount,
                        duration_minutes,
                        notes: spec_normalize_notes(view_opt_str(notes)),
                        timestamp: ts,
                    },
                ),
                next_id: (old(self)@.next_id + 1) as u32,
                ..old(self)@
            }));
        }
        Ok(id)
    }

    /// Validates and records a dejection; returns the assigned id.
    pub fn add_dejection(
        &mut self,
        baby_name: &str,
        dejection_type: &str,
        notes: Option<String>,
        timestamp: &str,
    ) -> (r: Result<u64, String>)
        requires
            old(self)@.wf(),
            old(self)@.next_id < u32::MAX,
        ensures
            final(self)@.wf(),
            match spec_add_dejection(
                old(self)@,
                baby_name@,
                dejection_type@,
                view_opt_str(notes),
                timestamp@,
            ) {
                Ok((m2, id)) => r == Ok::<u64, String>(id) && final(self)@ == m2,
                Err(e) => r is Err && r->Err_0@ == e && final(self)@ == old(self)@,
            },
    {
        let dt = match DejectionType::parse(dejection_type) {
            Ok(dt) => dt,
            Err(e) => {
                return Err(e);
            },
        };
        let ts = match parse_timestamp(timestamp) {
            Ok(ts) => ts,
            Err(e) => {
                return Err(e);
            },
        };
        let name = trim(baby_name);
        if name.as_str().unicode_len() == 0 {
            return Err(String::from_str("Baby name cannot be empty"));
        }
        proof {
            crate::text::lemma_trim_idempotent(baby_name@);
        }
        let dejection = match Dejection::new(name, dt, notes, ts) {
            Ok(d) => d,
            Err(e) => {
                return Err(e);
            },
        };
        let id = self.store.add_dejection(dejection);
        proof {
            assert(self@ =~= (StoreModel {
                dejections: old(self)@.dejections.push(
                    DejectionModel {
                        id: id,
                        baby_name: spec_trim(baby_name@),
                        dejection_type: dt,
                        notes: spec_normalize_notes(view_opt_str(notes)),
                        timestamp: ts,
                    },
                ),
                next_id: (old(self)@.next_id + 1) as u32,
                ..old(self)@
            }));
        }
        Ok(id)
    }

    /// Validates and records a weight measurement, given in grams;
    /// returns the assigned id.
    pub fn add_weight(
        &mut self,
        baby_name: &str,
        weight_g: i64,
        notes: Option<String>,
        timestamp: &str,
    ) -> (r: Result<u64, String>)
        requires
            old(self)@.wf(),
            old(self)@.next_id < u32::MAX,
        ensures
            final(self)@.wf(),
            match spec_add_weight(
                old(self)@,
                baby_name@,
                weight_g,
                view_opt_str(notes),
                timestamp@,
            ) {
                Ok((m2, id)) => r == Ok::<u64, String>(id) && final(self)@ == m2,
                Err(e) => r is Err && r->Err_0@ == e && final(self)@ == old(self)@,
            },
    {
        let ts = match parse_timestamp(timestamp) {
            Ok(ts) => ts,
            Err(e) => {
                return Err(e);
            },
        };
        let name = trim(baby_name);
        if name.as_str().unicode_len() == 0 {
            return Err(String::from_str("Baby name cannot be empty"));
        }
        if weight_g <= 0 {
            return Err(String::from_str("Weight must be positive"));
        }
        proof {
            crate::text::lemma_trim_idempotent(baby_name@);
        }
        let weight = match Weight::new(name, weight_g as u64, notes, ts) {
            Ok(w) => w,
            Err(e) => {
                return Err(e);
            },
        };
        let id = self.store.add_weight(weight);
        proof {
            assert(self@ =~= (StoreModel {
                weights: old(self)@.weights.push(
                    WeightModel {
                        id: id,
                        baby_name: spec_trim(baby_name@),
                        weight_g: weight_g as u64,
                        notes: spec_normalize_notes(view_opt_str(notes)),
                        timestamp: ts,
                    },
                ),
                next_id: (old(self)@.next_id + 1) as u32,
                ..old(self)@
            }));
        }
        Ok(id)
    }

    /// Removes the feeding with the given id, if present.
    pub fn delete_feeding(&mut self, id: u64) -> (r: bool)
        requires
            old(self)@.wf(),
        ensures
            final(self)@.wf(),
            final(self)@.feedings == old(self)@.feedings.filter(feeding_keep_pred(id)),
            final(self)@.dejections == old(self)@.dejections,
            final(self)@.weights == old(self)@.weights,
            final(self)@.next_id == old(self)@.next_id,
            r == has_feeding_id(old(self)@.feedings, id),
    {
        self.store.delete_feeding(id)
    }

    /// Removes the dejection with the given id, if present.
    pub fn delete_dejection(&mut self, id: u64) -> (r: bool)
        requires
            old(self)@.wf(),
        ensures
            final(self)@.wf(),
            final(self)@.dejections == old(self)@.dejections.filter(dejection_keep_pred(id)),
            final(self)@.feedings == old(self)@.feedings,
            final(self)@.weights == old(self)@.weights,
            final(self)@.next_id == old(self)@.next_id,
            r == has_dejection_id(old(self)@.dejections, id),
    {
        self.store.delete_dejection(id)
    }

    /// Removes the weight with the given id, if present.
    pub fn delete_weight(&mut self, id: u64) -> (r: bool)
        requires
            old(self)@.wf(),
        ensures
            final(self)@.wf(),
            final(self)@.weights == old(self)@.weights.filter(weight_keep_pred(id)),
            final(self)@.feedings == old(self)@.feedings,
            final(self)@.dejections == old(self)@.dejections,
            final(self)@.next_id == old(self)@.next_id,
            r == has_weight_id(old(self)@.weights, id),
    {
        self.store.delete_weight(id)
    }
}

/// Validation shared by the update calls: the type tag, the timestamp,
/// and the amount, in that order.
pub open spec fn spec_feeding_update_args(
    feeding_type: Seq<char>,
    timestamp: Seq<char>,
    amount_ml: Option<i64>,
) -> Result<(FeedingType, Timestamp, Option<u32>), Seq<char>> {
    match spec_parse_feeding_type(feeding_type) {
        None => Err(spec_feeding_type_error(feeding_type)),
        Some(ft) => match spec_parse_timestamp(timestamp) {
            None => Err(spec_timestamp_error(timestamp)),
            Some(ts) => match spec_amount_check(amount_ml) {
                Err(e) => Err(e),
                Ok(amount) => Ok((ft, ts, amount)),
            },
        },
    }
}

impl Tracker {
    /// Validates the new values and replaces every field except id and
    /// name of the feeding with the given id; reports whether it existed.
    pub fn update_feeding(
        &mut self,
        id: u64,
        feeding_type: &str,
        amount_ml: Option<i64>,
        duration_minutes: Option<u32>,
        notes: Option<String>,
        timestamp: &str,
    ) -> (r: Result<bool, String>)
        requires
            old(self)@.wf(),
        ensures
            final(self)@.wf(),
            match spec_feeding_update_args(feeding_type@, timestamp@, amount_ml) {
                Err(e) => r is Err && r->Err_0@ == e && final(self)@ == old(self)@,
                Ok((ft, ts, amount)) => {
                    &&& r == Ok::<bool, String>(has_feeding_id(old(self)@.feedings, id))
                    &&& final(self)@.dejections == old(self)@.dejections
                    &&& final(self)@.weights == old(self)@.weights
                    &&& final(self)@.next_id == old(self)@.next_id
                    &&& (!has_feeding_id(old(self)@.feedings, id) ==> final(self)@ == old(self)@)
                    &&& forall|k: int|
                        0 <= k < old(self)@.feedings.len() && old(self)@.feedings[k].id == id
                            ==> final(self)@.feedings == old(self)@.feedings.update(
                            k,
                            FeedingModel {
                                id: id,
                                baby_name: old(self)@.feedings[k].baby_name,
                                feeding_type: ft,
                                amount_ml: amount,
                                duration_minutes,
                                notes: spec_normalize_notes(view_opt_str(notes)),
                                timestamp: ts,
                            },
                        )
                },
            },
    {
        let ft = match FeedingType::parse(feeding_type) {
            Ok(ft) => ft,
            Err(e) => {
                return Err(e);
            },
        };
        let ts = match parse_timestamp(timestamp) {
            Ok(ts) => ts,
            Err(e) => {
                return Err(e);
            },
        };
        let amount = match amount_check(&amount_ml) {
            Ok(a) => a,
            Err(e) => {
                return Err(e);
            },
        };
        proof {
            reveal_strlit("x");
            assert("x"@.len() == 1);
            assert(!crate::text::spec_is_space("x"@[0]));
            assert(crate::text::spec_trim("x"@) == "x"@);
        }
        let updated = match Feeding::new(
            String::from_str("x"),
            ft,
            amount,
            duration_minutes,
            notes,
            ts,
        ) {
            Ok(f) => f,
            Err(e) => {
                return Err(e);
            },
        };
        Ok(self.store.update_feeding(id, updated))
    }

    /// Validates the new values and replaces every field except id and
    /// name of the dejection with the given id.
    pub fn update_dejection(
        &mut self,
        id: u64,
        dejection_type: &str,
        notes: Option<String>,
        timestamp: &str,
    ) -> (r: Result<bool, String>)
        requires
            old(self)@.wf(),
        ensures
            final(self)@.wf(),
            match spec_parse_dejection_type(dejection_type@) {
                None => r is Err && r->Err_0@ == spec_dejection_type_error(dejection_type@)
                    && final(self)@ == old(self)@,
                Some(dt) => match spec_parse_timestamp(timestamp@) {
                    None => r is Err && r->Err_0@ == spec_timestamp_error(timestamp@) && final(self)@ == old(self)@,
                    Some(ts) => {
                        &&& r == Ok::<bool, String>(has_dejection_id(old(self)@.dejections, id))
                        &&& final(self)@.feedings == old(self)@.feedings
                        &&& final(self)@.weights == old(self)@.weights
                        &&& final(self)@.next_id == old(self)@.next_id
                        &&& (!has_dejection_id(old(self)@.dejections, id) ==> final(self)@ == old(self)@)
                        &&& forall|k: int|
                            0 <= k < old(self)@.dejections.len() && old(self)@.dejections[k].id
                                == id ==> final(self)@.dejections == old(self)@.dejections.update(
                                k,
                                DejectionModel {
                                    id: id,
                                    baby_name: old(self)@.dejections[k].baby_name,
                                    dejection_type: dt,
                                    notes: spec_normalize_notes(view_opt_str(notes)),
                                    timestamp: ts,
                                },
                            )
                    },
                },
            },
    {
        let dt = match DejectionType::parse(dejection_type) {
            Ok(dt) => dt,
            Err(e) => {
                return Err(e);
            },
        };
        let ts = match parse_timestamp(timestamp) {
            Ok(ts) => ts,
            Err(e) => {
                return Err(e);
            },
        };
        proof {
            reveal_strlit("x");
            assert("x"@.len() == 1);
            assert(!crate::text::spec_is_space("x"@[0]));
            assert(crate::text::spec_trim("x"@) == "x"@);
        }
        let updated = match Dejection::new(String::from_str("x"), dt, notes, ts) {
            Ok(d) => d,
            Err(e) => {
                return Err(e);
            },
        };
        Ok(self.store.update_dejection(id, updated))
    }

    /// Validates the new values and replaces every field except id and
    /// name of the weight with the given id.
    pub fn update_weight(
        &mut self,
        id: u64,
        weight_g: i64,
        notes: Option<String>,
        timestamp: &str,
    ) -> (r: Result<bool, String>)
        requires
            old(self)@.wf(),
        ensures
            final(self)@.wf(),
            match spec_parse_timestamp(timestamp@) {
                None => r is Err && r->Err_0@ == spec_timestamp_error(timestamp@) && final(self)@
                    == old(self)@,
                Some(ts) => if weight_g <= 0 {
                    r is Err && r->Err_0@ == "Weight must be positive"@ && final(self)@ == old(self)@
                } else {
                    &&& r == Ok::<bool, String>(has_weight_id(old(self)@.weights, id))
                    &&& final(self)@.feedings == old(self)@.feedings
                    &&& final(self)@.dejections == old(self)@.dejections
                    &&& final(self)@.next_id == old(self)@.next_id
                    &&& (!has_weight_id(old(self)@.weights, id) ==> final(self)@ == old(self)@)
                    &&& forall|k: int|
                        0 <= k < old(self)@.weights.len() && old(self)@.weights[k].id == id
                            ==> final(self)@.weights == old(self)@.weights.update(
                            k,
                            WeightModel {
                                id: id,
                                baby_name: old(self)@.weights[k].baby_name,
                                weight_g: weight_g as u64,
                                notes: spec_normalize_notes(view_opt_str(notes)),
                                timestamp: ts,
                            },
                        )
                },
            },
    {
        let ts = match parse_timestamp(timestamp) {
            Ok(ts) => ts,
            Err(e) => {
                return Err(e);
            },
        };
        if weight_g <= 0 {
            return Err(String::from_str("Weight must be positive"));
        }
        proof {
            reveal_strlit("x");
            assert("x"@.len() == 1);
            assert(!crate::text::spec_is_space("x"@[0]));
            assert(crate::text::spec_trim("x"@) == "x"@);
        }
        let updated = match Weight::new(String::from_str("x"), weight_g as u64, notes, ts) {
            Ok(w) => w,
            Err(e) => {
                return Err(e);
            },
        };
        Ok(self.store.update_weight(id, updated))
    }

    /// The feedings matching the optional name filter, newest first,
    /// truncated to `limit` entries.
    pub fn list_feedings(&self, baby_name: Option<&str>, limit: usize) -> (r: Vec<Feeding>)
        ensures
            ({
                let filtered = self@.feedings.filter(feeding_name_pred(view_filter(baby_name)));
                let sorted = spec_sort::<Feeding>(filtered);
                views_of(r@) == sorted.take(
                    if limit as int <= sorted.len() {
                        limit as int
                    } else {
                        sorted.len() as int
                    },
                )
            }),
    {
        self.store.list_feedings(baby_name, limit)
    }

    /// The serialized timeline of one calendar day. On the last
    /// representable date the day's window is unbounded above, since the
    /// following midnight does not exist in the calendar.
    pub fn timeline_for_day(&self, baby_name: Option<&str>, date: &str) -> (r: Result<
        String,
        String,
    >)
        ensures
            ({
                let ts_s = date@ + "T00:00:00"@;
                match spec_parse_timestamp(ts_s) {
                    None => r is Err && r->Err_0@ == spec_timestamp_error(ts_s),
                    Some(start) => {
                        let hi = if start.spec_is_max_date() {
                            None
                        } else {
                            Some(start.spec_next_day())
                        };
                        r is Ok && r->Ok_0@ == spec_entries_json(
                            spec_sort::<TimelineEntry>(
                                spec_timeline_input(self@, view_filter(baby_name), start, hi),
                            ),
                        )
                    },
                }
            }),
    {
        let mut ds = String::new();
        ds.append(date);
        ds.append("T00:00:00");
        let start = match parse_timestamp(ds.as_str()) {
            Ok(ts) => ts,
            Err(e) => {
                return Err(e);
            },
        };
        let day_end: Option<Timestamp> = if start.is_max_date() {
            None
        } else {
            Some(start.next_day())
        };
        let entries = self.store.timeline_for_day(baby_name, start, day_end);
        Ok(entries_to_json(&entries))
    }

    /// The serialized bounded summary of one calendar day. On the last
    /// representable date the day's window is unbounded above, since the
    /// following midnight does not exist in the calendar.
    pub fn get_summary(&self, baby_name: Option<&str>, date: &str) -> (r: Result<String, String>)
        requires
            self@.wf(),
        ensures
            ({
                let ts_s = date@ + "T00:00:00"@;
                match spec_parse_timestamp(ts_s) {
                    None => r is Err && r->Err_0@ == spec_timestamp_error(ts_s),
                    Some(since) => {
                        let until = if since.spec_is_max_date() {
                            None
                        } else {
                            Some(since.spec_next_day())
                        };
                        r is Ok && summary_output_matches(
                            self@,
                            view_filter(baby_name),
                            since,
                            until,
                            r->Ok_0@,
                        )
                    },
                }
            }),
    {
        let mut ds = String::new();
        ds.append(date);
        ds.append("T00:00:00");
        let since = match parse_timestamp(ds.as_str()) {
            Ok(ts) => ts,
            Err(e) => {
                return Err(e);
            },
        };
        let until: Option<Timestamp> = if since.is_max_date() {
            None
        } else {
            Some(since.next_day())
        };
        let s = self.store.summary(baby_name, since, until);
        let out = summary_to_json(&s);
        proof {
            assert(until == (if since.spec_is_max_date() {
                None
            } else {
                Some(since.spec_next_day())
            }));
            let nm = view_filter(baby_name);
            let fs = self@.feedings.filter(crate::agg::feeding_window_pred(nm, since, until));
            let ds2 = self@.dejections.filter(
                crate::agg::dejection_window_pred(nm, since, until),
            );
            let ws = self@.weights.filter(crate::agg::weight_window_pred(nm, since, until));
            crate::agg::lemma_sum_ml_bounds(fs);
            crate::agg::lemma_sum_minutes_bounds(fs);
            crate::agg::lemma_count_dejection_type_bounds(ds2, DejectionType::Urine);
            crate::agg::lemma_count_dejection_type_bounds(ds2, DejectionType::Poop);
            let g = s.latest_weight_g;
            assert((g is Some <==> ws.len() > 0) && match g {
                Some(gv) => is_latest_weight(ws, gv),
                None => true,
            } && out@ == spec_summary_json(
                fs.len() as u64,
                sum_ml(fs) as u64,
                sum_minutes(fs) as u64,
                by_type_spec(fs),
                count_dejection_type(ds2, DejectionType::Urine) as u64,
                count_dejection_type(ds2, DejectionType::Poop) as u64,
                g,
            ));
            assert(summary_output_matches(self@, nm, since, until, out@));
        }
        Ok(out)
    }

    /// The serialized per-day report over a date range.
    pub fn report(&self, baby_name: Option<&str>, start_date: &str, end_date: &str) -> (r: Result<
        String,
        String,
    >)
        requires
            self@.wf(),
        ensures
            ({
                let ss = start_date@ + "T00:00:00"@;
                let es = end_date@ + "T00:00:00"@;
                match spec_parse_timestamp(ss) {
                    None => r is Err && r->Err_0@ == spec_timestamp_error(ss),
                    Some(start) => match spec_parse_timestamp(es) {
                        None => r is Err && r->Err_0@ == spec_timestamp_error(es),
                        Some(end) => r is Ok && exists|rs: Seq<DayReportModel>|
                            {
                                &&& rs.len() == crate::time::day_count(start, end)
                                &&& (forall|q: int|
                                    0 <= q < rs.len() ==> day_report_matches(
                                        self@,
                                        view_filter(baby_name),
                                        crate::time::spec_add_days(start, q as nat),
                                        #[trigger] rs[q],
                                    ))
                                &&& r->Ok_0@ == #[trigger] spec_reports_json(rs)
                            },
                    },
                }
            }),
    {
        let mut ss = String::new();
        ss.append(start_date);
        ss.append("T00:00:00");
        let start = match parse_timestamp(ss.as_str()) {
            Ok(ts) => ts,
            Err(e) => {
                return Err(e);
            },
        };
        let mut es = String::new();
        es.append(end_date);
        es.append("T00:00:00");
        let end = match parse_timestamp(es.as_str()) {
            Ok(ts) => ts,
            Err(e) => {
                return Err(e);
            },
        };
        let reports = self.store.report(baby_name, start, end);
        let out = reports_to_json(&reports);
        proof {
            let rs = views_of(reports@);
            assert(rs.len() == crate::time::day_count(start, end));
        }
        Ok(out)
    }
}

} // verus!
