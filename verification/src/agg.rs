//! Aggregation engine: pure, read-only queries over the store's
//! collections — the merged timeline, the bounded summary, and the
//! per-day report.

use vstd::prelude::*;

use crate::models::{
    spec_entry_of_dejection, spec_entry_of_feeding, spec_entry_of_weight, Dejection,
    DejectionModel, DejectionType, Feeding, FeedingModel, FeedingType, TimelineEntry,
    TimelineEntryModel, Weight, WeightModel,
};
use crate::sort::{lemma_filter_push, sort_by_key, spec_sort, views_of, SortKey};
use crate::store::{name_matches, opt_name_matches, view_filter, Store, StoreModel};
use crate::time::{day_count, lemma_add_days_next, spec_add_days, spec_date_label, Timestamp};

verus! {

/// Whether a timestamp lies in `[start, end)`; an absent end bounds
/// nothing.
pub open spec fn spec_in_window(ts: Timestamp, start: Timestamp, end: Option<Timestamp>) -> bool {
    start.spec_le(ts) && match end {
        None => true,
        Some(e) => ts.spec_lt(e),
    }
}

fn in_window(ts: &Timestamp, start: &Timestamp, end: &Option<Timestamp>) -> (r: bool)
    ensures
        r == spec_in_window(*ts, *start, match *end {
            None => None,
            Some(e) => Some(e),
        }),
{
    start.le(ts) && match end {
        None => true,
        Some(e) => ts.lt(e),
    }
}

/// Feedings a windowed query keeps, as a function value.
pub open spec fn feeding_window_pred(
    nm: Option<Seq<char>>,
    start: Timestamp,
    end: Option<Timestamp>,
) -> spec_fn(FeedingModel) -> bool {
    |f: FeedingModel| spec_in_window(f.timestamp, start, end) && name_matches(f.baby_name, nm)
}

/// Dejections a windowed query keeps, as a function value.
pub open spec fn dejection_window_pred(
    nm: Option<Seq<char>>,
    start: Timestamp,
    end: Option<Timestamp>,
) -> spec_fn(DejectionModel) -> bool {
    |d: DejectionModel| spec_in_window(d.timestamp, start, end) && name_matches(d.baby_name, nm)
}

/// Weights a windowed query keeps, as a function value.
pub open spec fn weight_window_pred(
    nm: Option<Seq<char>>,
    start: Timestamp,
    end: Option<Timestamp>,
) -> spec_fn(WeightModel) -> bool {
    |w: WeightModel| spec_in_window(w.timestamp, start, end) && name_matches(w.baby_name, nm)
}

/// The timeline projection of a feeding, as a function value.
pub open spec fn feeding_entry_fn() -> spec_fn(FeedingModel) -> TimelineEntryModel {
    |f: FeedingModel| spec_entry_of_feeding(f)
}

pub open spec fn dejection_entry_fn() -> spec_fn(DejectionModel) -> TimelineEntryModel {
    |d: DejectionModel| spec_entry_of_dejection(d)
}

pub open spec fn weight_entry_fn() -> spec_fn(WeightModel) -> TimelineEntryModel {
    |w: WeightModel| spec_entry_of_weight(w)
}

/// Timeline entries sort by their timestamp's order encoding, which
/// never exceeds `u64::MAX`.
impl SortKey for TimelineEntry {
    open spec fn skey(v: TimelineEntryModel) -> u64 {
        v.timestamp.enc() as u64
    }

    fn exec_key(&self) -> (k: u64) {
        self.timestamp.enc_u64()
    }
}

/// The unsorted merge feeding the timeline: matching feedings, then
/// matching dejections, then matching weights, each projected.
pub open spec fn spec_timeline_input(
    m: StoreModel,
    nm: Option<Seq<char>>,
    start: Timestamp,
    end: Option<Timestamp>,
) -> Seq<TimelineEntryModel> {
    m.feedings.filter(feeding_window_pred(nm, start, end)).map_values(feeding_entry_fn())
        + m.dejections.filter(dejection_window_pred(nm, start, end)).map_values(
        dejection_entry_fn(),
    ) + m.weights.filter(weight_window_pred(nm, start, end)).map_values(weight_entry_fn())
}

impl Store {
    /// Every record in `[day_start, day_end)` matching the optional name
    /// filter, projected and merged, ascending by timestamp; a stable
    /// sort: entries with equal timestamps keep scan order (feedings,
    /// then dejections, then weights, each in store order). An absent
    /// `day_end` leaves the window unbounded above, which covers a day
    /// whose following midnight the calendar cannot represent.
    pub fn timeline_for_day(
        &self,
        baby_name: Option<&str>,
        day_start: Timestamp,
        day_end: Option<Timestamp>,
    ) -> (r: Vec<TimelineEntry>)
        ensures
            views_of(r@) == spec_sort::<TimelineEntry>(
                spec_timeline_input(self@, view_filter(baby_name), day_start, day_end),
            ),
    {
        let ghost nm = view_filter(baby_name);
        let ghost fp = feeding_window_pred(nm, day_start, day_end);
        let ghost dp = dejection_window_pred(nm, day_start, day_end);
        let ghost wp = weight_window_pred(nm, day_start, day_end);
        let ghost mf = self@.feedings;
        let ghost md = self@.dejections;
        let ghost mw = self@.weights;
        let end_opt: Option<Timestamp> = day_end;

        let mut entries: Vec<TimelineEntry> = Vec::new();

        let feedings = self.feedings_ref();
        let nf = feedings.len();
        let mut i: usize = 0;
        proof {
            assert(mf.take(0).filter(fp) =~= Seq::<FeedingModel>::empty());
            assert(views_of(entries@) =~= mf.take(0).filter(fp).map_values(feeding_entry_fn()));
        }
        while i < nf
            invariant
                i <= nf,
                nf == feedings@.len(),
                mf == views_of(feedings@),
                mf.len() == nf,
                end_opt == day_end,
                nm == view_filter(baby_name),
                fp == feeding_window_pred(nm, day_start, day_end),
                views_of(entries@) == mf.take(i as int).filter(fp).map_values(feeding_entry_fn()),
            decreases nf - i,
        {
            let ghost pre = mf.take(i as int);
            proof {
                lemma_filter_push(pre, fp, mf[i as int]);
                assert(mf.take(i as int + 1).drop_last() =~= pre);
                assert(mf.take(i as int + 1) =~= pre.push(mf[i as int]));
                assert(mf[i as int] == feedings@[i as int]@);
            }
            let ghost epre = views_of(entries@);
            let f = &feedings[i];
            if in_window(&f.timestamp, &day_start, &end_opt) && opt_name_matches(
                &f.baby_name,
                &baby_name,
            ) {
                entries.push(TimelineEntry::from_feeding(f));
                proof {
                    assert(fp(mf[i as int]));
                    assert(views_of(entries@) =~= epre.push(spec_entry_of_feeding(mf[i as int])));
                    assert(pre.filter(fp).push(mf[i as int]).map_values(feeding_entry_fn())
                        =~= pre.filter(fp).map_values(feeding_entry_fn()).push(
                        spec_entry_of_feeding(mf[i as int]),
                    ));
                }
            } else {
                proof {
                    assert(!fp(mf[i as int]));
                }
            }
            i = i + 1;
            proof {
                assert(mf.take(i as int) == pre.push(mf[i as int - 1]));
                assert(views_of(entries@) == mf.take(i as int).filter(fp).map_values(
                    feeding_entry_fn(),
                ));
            }
        }
        proof {
            assert(mf.take(nf as int) =~= mf);
        }
        let ghost part_f = mf.filter(fp).map_values(feeding_entry_fn());

        let dejections = self.dejections_ref();
        let nd = dejections.len();
        let mut j: usize = 0;
        proof {
            assert(md.take(0).filter(dp) =~= Seq::<DejectionModel>::empty());
            assert(views_of(entries@) =~= part_f + md.take(0).filter(dp).map_values(
                dejection_entry_fn(),
            ));
        }
        while j < nd
            invariant
                j <= nd,
                nd == dejections@.len(),
                md == views_of(dejections@),
                md.len() == nd,
                end_opt == day_end,
                nm == view_filter(baby_name),
                dp == dejection_window_pred(nm, day_start, day_end),
                views_of(entries@) == part_f + md.take(j as int).filter(dp).map_values(
                    dejection_entry_fn(),
                ),
            decreases nd - j,
        {
            let ghost pre = md.take(j as int);
            proof {
                lemma_filter_push(pre, dp, md[j as int]);
                assert(md.take(j as int + 1).drop_last() =~= pre);
                assert(md.take(j as int + 1) =~= pre.push(md[j as int]));
                assert(md[j as int] == dejections@[j as int]@);
            }
            let ghost epre = views_of(entries@);
            let d = &dejections[j];
            if in_window(&d.timestamp, &day_start, &end_opt) && opt_name_matches(
                &d.baby_name,
                &baby_name,
            ) {
                entries.push(TimelineEntry::from_dejection(d));
                proof {
                    assert(dp(md[j as int]));
                    assert(views_of(entries@) =~= epre.push(spec_entry_of_dejection(md[j as int])));
                    assert(pre.filter(dp).push(md[j as int]).map_values(dejection_entry_fn())
                        =~= pre.filter(dp).map_values(dejection_entry_fn()).push(
                        spec_entry_of_dejection(md[j as int]),
                    ));
                    assert(views_of(entries@) =~= part_f + md.take(j as int + 1).filter(
                        dp,
                    ).map_values(dejection_entry_fn()));
                }
            } else {
                proof {
                    assert(!dp(md[j as int]));
                }
            }
            j = j + 1;
            proof {
                assert(md.take(j as int) == pre.push(md[j as int - 1]));
                assert(views_of(entries@) == part_f + md.take(j as int).filter(dp).map_values(
                    dejection_entry_fn(),
                ));
            }
        }
        proof {
            assert(md.take(nd as int) =~= md);
        }
        let ghost part_fd = part_f + md.filter(dp).map_values(dejection_entry_fn());

        let weights = self.weights_ref();
        let nw = weights.len();
        let mut k: usize = 0;
        proof {
            assert(mw.take(0).filter(wp) =~= Seq::<WeightModel>::empty());
            assert(views_of(entries@) =~= part_fd + mw.take(0).filter(wp).map_values(
                weight_entry_fn(),
            ));
        }
        while k < nw
            invariant
                k <= nw,
                nw == weights@.len(),
                mw == views_of(weights@),
                mw.len() == nw,
                end_opt == day_end,
                nm == view_filter(baby_name),
                wp == weight_window_pred(nm, day_start, day_end),
                views_of(entries@) == part_fd + mw.take(k as int).filter(wp).map_values(
                    weight_entry_fn(),
                ),
            decreases nw - k,
        {
            let ghost pre = mw.take(k as int);
            proof {
                lemma_filter_push(pre, wp, mw[k as int]);
                assert(mw.take(k as int + 1).drop_last() =~= pre);
                assert(mw.take(k as int + 1) =~= pre.push(mw[k as int]));
                assert(mw[k as int] == weights@[k as int]@);
            }
            let ghost epre = views_of(entries@);
            let w = &weights[k];
            if in_window(&w.timestamp, &day_start, &end_opt) && opt_name_matches(
                &w.baby_name,
                &baby_name,
            ) {
                entries.push(TimelineEntry::from_weight(w));
                proof {
                    assert(wp(mw[k as int]));
                    assert(views_of(entries@) =~= epre.push(spec_entry_of_weight(mw[k as int])));
                    assert(pre.filter(wp).push(mw[k as int]).map_values(weight_entry_fn())
                        =~= pre.filter(wp).map_values(weight_entry_fn()).push(
                        spec_entry_of_weight(mw[k as int]),
                    ));
                    assert(views_of(entries@) =~= part_fd + mw.take(k as int + 1).filter(
                        wp,
                    ).map_values(weight_entry_fn()));
                }
            } else {
                proof {
                    assert(!wp(mw[k as int]));
                }
            }
            k = k + 1;
            proof {
                assert(mw.take(k as int) == pre.push(mw[k as int - 1]));
                assert(views_of(entries@) == part_fd + mw.take(k as int).filter(wp).map_values(
                    weight_entry_fn(),
                ));
            }
        }
        proof {
            assert(mw.take(nw as int) =~= mw);
            assert(views_of(entries@) == spec_timeline_input(
                self@,
                view_filter(baby_name),
                day_start,
                day_end,
            ));
        }
        sort_by_key(entries)
    }
}

/// The value of an optional amount, absent meaning zero.
pub open spec fn opt_u32_val(v: Option<u32>) -> int {
    match v {
        Some(x) => x as int,
        None => 0,
    }
}

/// Sum of `amount_ml` over a sequence of feedings, absent counting as zero.
pub open spec fn sum_ml(s: Seq<FeedingModel>) -> int
    decreases s.len(),
{
    if s.len() == 0 {
        0
    } else {
        sum_ml(s.drop_last()) + opt_u32_val(s.last().amount_ml)
    }
}

/// Sum of `duration_minutes` over a sequence of feedings.
pub open spec fn sum_minutes(s: Seq<FeedingModel>) -> int
    decreases s.len(),
{
    if s.len() == 0 {
        0
    } else {
        sum_minutes(s.drop_last()) + opt_u32_val(s.last().duration_minutes)
    }
}

/// How many feedings have the given type.
pub open spec fn count_feeding_type(s: Seq<FeedingModel>, t: FeedingType) -> int
    decreases s.len(),
{
    if s.len() == 0 {
        0
    } else {
        count_feeding_type(s.drop_last(), t) + if s.last().feeding_type == t {
            1int
        } else {
            0int
        }
    }
}

/// How many dejections have the given type.
pub open spec fn count_dejection_type(s: Seq<DejectionModel>, t: DejectionType) -> int
    decreases s.len(),
{
    if s.len() == 0 {
        0
    } else {
        count_dejection_type(s.drop_last(), t) + if s.last().dejection_type == t {
            1int
        } else {
            0int
        }
    }
}

/// `g` is the weight of some record whose timestamp is maximal in the
/// sequence. When several records share the maximal timestamp, any of
/// their weights qualifies: the tie-break is deliberately unspecified.
pub open spec fn is_latest_weight(ws: Seq<WeightModel>, g: u64) -> bool {
    exists|i: int|
        0 <= i < ws.len() && (#[trigger] ws[i]).weight_g == g && (forall|j: int|
            0 <= j < ws.len() ==> (#[trigger] ws[j]).timestamp.enc() <= ws[i].timestamp.enc())
}

pub proof fn lemma_sum_ml_bounds(s: Seq<FeedingModel>)
    ensures
        0 <= sum_ml(s) <= s.len() * 0xffff_ffff,
    decreases s.len(),
{
    if s.len() > 0 {
        lemma_sum_ml_bounds(s.drop_last());
    }
}

pub proof fn lemma_sum_minutes_bounds(s: Seq<FeedingModel>)
    ensures
        0 <= sum_minutes(s) <= s.len() * 0xffff_ffff,
    decreases s.len(),
{
    if s.len() > 0 {
        lemma_sum_minutes_bounds(s.drop_last());
    }
}

pub proof fn lemma_count_feeding_type_bounds(s: Seq<FeedingModel>, t: FeedingType)
    ensures
        0 <= count_feeding_type(s, t) <= s.len(),
    decreases s.len(),
{
    if s.len() > 0 {
        lemma_count_feeding_type_bounds(s.drop_last(), t);
    }
}

pub proof fn lemma_count_dejection_type_bounds(s: Seq<DejectionModel>, t: DejectionType)
    ensures
        0 <= count_dejection_type(s, t) <= s.len(),
    decreases s.len(),
{
    if s.len() > 0 {
        lemma_count_dejection_type_bounds(s.drop_last(), t);
    }
}

/// The per-window aggregates shared by the bounded summary and the
/// per-day report.
struct WindowStats {
    total_feedings: u64,
    total_ml: u64,
    total_minutes: u64,
    breast_left: u64,
    breast_right: u64,
    bottle: u64,
    solid: u64,
    total_urine: u64,
    total_poop: u64,
    latest_weight_g: Option<u64>,
}

impl Store {
    /// Computes every aggregate of one window in a single pass per
    /// collection.
    fn window_stats(
        &self,
        baby_name: &Option<&str>,
        start: &Timestamp,
        end: &Option<Timestamp>,
    ) -> (r: WindowStats)
        requires
            self@.wf(),
        ensures
            ({
                let nm = view_filter(*baby_name);
                let fs = self@.feedings.filter(feeding_window_pred(nm, *start, *end));
                let ds = self@.dejections.filter(dejection_window_pred(nm, *start, *end));
                let ws = self@.weights.filter(weight_window_pred(nm, *start, *end));
                &&& r.total_feedings == fs.len()
                &&& r.total_ml == sum_ml(fs)
                &&& r.total_minutes == sum_minutes(fs)
                &&& r.breast_left == count_feeding_type(fs, FeedingType::BreastLeft)
                &&& r.breast_right == count_feeding_type(fs, FeedingType::BreastRight)
                &&& r.bottle == count_feeding_type(fs, FeedingType::Bottle)
                &&& r.solid == count_feeding_type(fs, FeedingType::Solid)
                &&& r.total_urine == count_dejection_type(ds, DejectionType::Urine)
                &&& r.total_poop == count_dejection_type(ds, DejectionType::Poop)
                &&& (r.latest_weight_g is Some <==> ws.len() > 0)
                &&& match r.latest_weight_g {
                    Some(g) => is_latest_weight(ws, g),
                    None => true,
                }
            }),
    {
        broadcast use vstd::seq_lib::group_filter_ensures;

        let ghost nm = view_filter(*baby_name);
        let ghost fp = feeding_window_pred(nm, *start, *end);
        let ghost dp = dejection_window_pred(nm, *start, *end);
        let ghost wp = weight_window_pred(nm, *start, *end);
        let ghost mf = self@.feedings;
        let ghost md = self@.dejections;
        let ghost mw = self@.weights;
        proof {
            crate::store::lemma_wf_feedings_len(self@);
        }

        let feedings = self.feedings_ref();
        let nf = feedings.len();
        let mut total_feedings: u64 = 0;
        let mut total_ml: u64 = 0;
        let mut total_minutes: u64 = 0;
        let mut breast_left: u64 = 0;
        let mut breast_right: u64 = 0;
        let mut bottle: u64 = 0;
        let mut solid: u64 = 0;
        let mut i: usize = 0;
        proof {
            assert(mf.take(0).filter(fp) =~= Seq::<FeedingModel>::empty());
        }
        while i < nf
            invariant
                i <= nf,
                nf == feedings@.len(),
                mf == views_of(feedings@),
                mf.len() == nf,
                mf.len() < 0xffff_ffff,
                fp == feeding_window_pred(view_filter(*baby_name), *start, *end),
                total_feedings == mf.take(i as int).filter(fp).len(),
                total_ml == sum_ml(mf.take(i as int).filter(fp)),
                total_minutes == sum_minutes(mf.take(i as int).filter(fp)),
                breast_left == count_feeding_type(
                    mf.take(i as int).filter(fp),
                    FeedingType::BreastLeft,
                ),
                breast_right == count_feeding_type(
                    mf.take(i as int).filter(fp),
                    FeedingType::BreastRight,
                ),
                bottle == count_feeding_type(mf.take(i as int).filter(fp), FeedingType::Bottle),
                solid == count_feeding_type(mf.take(i as int).filter(fp), FeedingType::Solid),
            decreases nf - i,
        {
            broadcast use vstd::seq_lib::group_filter_ensures;

            let ghost pre = mf.take(i as int);
            let ghost fpre = pre.filter(fp);
            proof {
                lemma_filter_push(pre, fp, mf[i as int]);
                assert(mf.take(i as int + 1).drop_last() =~= pre);
                assert(mf.take(i as int + 1) =~= pre.push(mf[i as int]));
                assert(mf[i as int] == feedings@[i as int]@);
                lemma_sum_ml_bounds(fpre);
                lemma_sum_minutes_bounds(fpre);
                lemma_count_feeding_type_bounds(fpre, FeedingType::BreastLeft);
                lemma_count_feeding_type_bounds(fpre, FeedingType::BreastRight);
                lemma_count_feeding_type_bounds(fpre, FeedingType::Bottle);
                lemma_count_feeding_type_bounds(fpre, FeedingType::Solid);
                assert(fpre.len() <= pre.len());
                assert(fpre.push(mf[i as int]).drop_last() =~= fpre);
            }
            let f = &feedings[i];
            if in_window(&f.timestamp, start, end) && opt_name_matches(&f.baby_name, baby_name) {
                proof {
                    assert(fp(mf[i as int]));
                }
                total_feedings = total_feedings + 1;
                match f.amount_ml {
                    Some(v) => {
                        proof {
                            assert(sum_ml(fpre.push(mf[i as int])) == sum_ml(fpre) + v);
                            assert(fpre.len() + 1 <= mf.len());
                            assert(sum_ml(fpre) + v <= (mf.len() - 1) * 0xffff_ffff
                                + 0xffff_ffff) by (nonlinear_arith)
                                requires
                                    sum_ml(fpre) <= fpre.len() * 0xffff_ffff,
                                    fpre.len() + 1 <= mf.len(),
                                    v <= 0xffff_ffff,
                                    0 <= fpre.len(),
                            ;
                            assert((mf.len() - 1) * 0xffff_ffff + 0xffff_ffff == mf.len()
                                * 0xffff_ffff) by (nonlinear_arith);
                            assert(mf.len() * 0xffff_ffff < 0xffff_ffff * 0xffff_ffff) by (nonlinear_arith)
                                requires
                                    mf.len() < 0xffff_ffff,
                            ;
                        }
                        total_ml = total_ml + v as u64;
                    },
                    None => {
                        proof {
                            assert(sum_ml(fpre.push(mf[i as int])) == sum_ml(fpre));
                        }
                    },
                }
                match f.duration_minutes {
                    Some(v) => {
                        proof {
                            assert(sum_minutes(fpre.push(mf[i as int])) == sum_minutes(fpre) + v);
                            assert(fpre.len() + 1 <= mf.len());
                            assert(sum_minutes(fpre) + v <= (mf.len() - 1) * 0xffff_ffff
                                + 0xffff_ffff) by (nonlinear_arith)
                                requires
                                    sum_minutes(fpre) <= fpre.len() * 0xffff_ffff,
                                    fpre.len() + 1 <= mf.len(),
                                    v <= 0xffff_ffff,
                                    0 <= fpre.len(),
                            ;
                            assert((mf.len() - 1) * 0xffff_ffff + 0xffff_ffff == mf.len()
                                * 0xffff_ffff) by (nonlinear_arith);
                            assert(mf.len() * 0xffff_ffff < 0xffff_ffff * 0xffff_ffff) by (nonlinear_arith)
                                requires
                                    mf.len() < 0xffff_ffff,
                            ;
                        }
                        total_minutes = total_minutes + v as u64;
                    },
                    None => {
                        proof {
                            assert(sum_minutes(fpre.push(mf[i as int])) == sum_minutes(fpre));
                        }
                    },
                }
                match f.feeding_type {
                    FeedingType::BreastLeft => breast_left = breast_left + 1,
                    FeedingType::BreastRight => breast_right = breast_right + 1,
                    FeedingType::Bottle => bottle = bottle + 1,
                    FeedingType::Solid => solid = solid + 1,
                }
            } else {
                proof {
                    assert(!fp(mf[i as int]));
                }
            }
            i = i + 1;
            proof {
                assert(mf.take(i as int) == pre.push(mf[i as int - 1]));
            }
        }
        proof {
            assert(mf.take(nf as int) =~= mf);
        }

        let dejections = self.dejections_ref();
        let nd = dejections.len();
        let mut total_urine: u64 = 0;
        let mut total_poop: u64 = 0;
        let mut j: usize = 0;
        proof {
            assert(md.take(0).filter(dp) =~= Seq::<DejectionModel>::empty());
        }
        while j < nd
            invariant
                j <= nd,
                nd == dejections@.len(),
                md == views_of(dejections@),
                md.len() == nd,
                dp == dejection_window_pred(view_filter(*baby_name), *start, *end),
                total_urine == count_dejection_type(
                    md.take(j as int).filter(dp),
                    DejectionType::Urine,
                ),
                total_poop == count_dejection_type(
                    md.take(j as int).filter(dp),
                    DejectionType::Poop,
                ),
            decreases nd - j,
        {
            broadcast use vstd::seq_lib::group_filter_ensures;

            let ghost pre = md.take(j as int);
            let ghost dpre = pre.filter(dp);
            proof {
                lemma_filter_push(pre, dp, md[j as int]);
                assert(md.take(j as int + 1).drop_last() =~= pre);
                assert(md.take(j as int + 1) =~= pre.push(md[j as int]));
                assert(md[j as int] == dejections@[j as int]@);
                lemma_count_dejection_type_bounds(dpre, DejectionType::Urine);
                lemma_count_dejection_type_bounds(dpre, DejectionType::Poop);
                assert(dpre.len() <= pre.len());
                assert(dpre.push(md[j as int]).drop_last() =~= dpre);
            }
            let d = &dejections[j];
            if in_window(&d.timestamp, start, end) && opt_name_matches(&d.baby_name, baby_name) {
                proof {
                    assert(dp(md[j as int]));
                }
                match d.dejection_type {
                    DejectionType::Urine => total_urine = total_urine + 1,
                    DejectionType::Poop => total_poop = total_poop + 1,
                }
            } else {
                proof {
                    assert(!dp(md[j as int]));
                }
            }
            j = j + 1;
            proof {
                assert(md.take(j as int) == pre.push(md[j as int - 1]));
            }
        }
        proof {
            assert(md.take(nd as int) =~= md);
        }

        let weights = self.weights_ref();
        let nw = weights.len();
        let mut have: bool = false;
        let mut best_g: u64 = 0;
        let mut best_enc: u64 = 0;
        let ghost best_idx: int = 0;
        let mut k: usize = 0;
        proof {
            assert(mw.take(0).filter(wp) =~= Seq::<WeightModel>::empty());
        }
        while k < nw
            invariant
                k <= nw,
                nw == weights@.len(),
                mw == views_of(weights@),
                mw.len() == nw,
                wp == weight_window_pred(view_filter(*baby_name), *start, *end),
                have <==> mw.take(k as int).filter(wp).len() > 0,
                have ==> ({
                    let wpre = mw.take(k as int).filter(wp);
                    &&& 0 <= best_idx < wpre.len()
                    &&& wpre[best_idx].weight_g == best_g
                    &&& wpre[best_idx].timestamp.enc() == best_enc
                    &&& forall|q: int|
                        0 <= q < wpre.len() ==> (#[trigger] wpre[q]).timestamp.enc() <= best_enc
                }),
            decreases nw - k,
        {
            let ghost pre = mw.take(k as int);
            let ghost wpre = pre.filter(wp);
            proof {
                lemma_filter_push(pre, wp, mw[k as int]);
                assert(mw.take(k as int + 1).drop_last() =~= pre);
                assert(mw.take(k as int + 1) =~= pre.push(mw[k as int]));
                assert(mw[k as int] == weights@[k as int]@);
            }
            let w = &weights[k];
            if in_window(&w.timestamp, start, end) && opt_name_matches(&w.baby_name, baby_name) {
                proof {
                    assert(wp(mw[k as int]));
                }
                let e = w.timestamp.enc_u64();
                if !have || e >= best_enc {
                    have = true;
                    best_g = w.weight_g;
                    best_enc = e;
                    proof {
                        best_idx = wpre.len() as int;
                    }
                }
            } else {
                proof {
                    assert(!wp(mw[k as int]));
                }
            }
            k = k + 1;
            proof {
                assert(mw.take(k as int) == pre.push(mw[k as int - 1]));
            }
        }
        proof {
            assert(mw.take(nw as int) =~= mw);
        }
        let latest_weight_g: Option<u64> = if have {
            Some(best_g)
        } else {
            None
        };

        WindowStats {
            total_feedings,
            total_ml,
            total_minutes,
            breast_left,
            breast_right,
            bottle,
            solid,
            total_urine,
            total_poop,
            latest_weight_g,
        }
    }
}

/// The bounded summary of one window.
#[derive(Debug)]
pub struct Summary {
    pub total_feedings: u64,
    pub total_ml: u64,
    pub total_minutes: u64,
    pub by_type: Vec<(FeedingType, u64)>,
    pub total_urine: u64,
    pub total_poop: u64,
    pub latest_weight_g: Option<u64>,
}

/// Per-type counts in fixed declared order, types with zero matches
/// omitted.
pub open spec fn by_type_spec(s: Seq<FeedingModel>) -> Seq<(FeedingType, u64)> {
    (if count_feeding_type(s, FeedingType::BreastLeft) > 0 {
        seq![(FeedingType::BreastLeft, count_feeding_type(s, FeedingType::BreastLeft) as u64)]
    } else {
        Seq::empty()
    }) + (if count_feeding_type(s, FeedingType::BreastRight) > 0 {
        seq![(FeedingType::BreastRight, count_feeding_type(s, FeedingType::BreastRight) as u64)]
    } else {
        Seq::empty()
    }) + (if count_feeding_type(s, FeedingType::Bottle) > 0 {
        seq![(FeedingType::Bottle, count_feeding_type(s, FeedingType::Bottle) as u64)]
    } else {
        Seq::empty()
    }) + (if count_feeding_type(s, FeedingType::Solid) > 0 {
        seq![(FeedingType::Solid, count_feeding_type(s, FeedingType::Solid) as u64)]
    } else {
        Seq::empty()
    })
}

/// One per-day bucket of the report.
#[derive(Debug)]
pub struct DayReport {
    pub date: String,
    pub total_feedings: u64,
    pub total_ml: u64,
    pub total_minutes: u64,
    pub breast_left: u64,
    pub breast_right: u64,
    pub bottle: u64,
    pub solid: u64,
    pub total_urine: u64,
    pub total_poop: u64,
    pub weight_g: Option<u64>,
}

/// The mathematical value of a `DayReport`.
#[verifier::ext_equal]
pub struct DayReportModel {
    pub date: Seq<char>,
    pub total_feedings: u64,
    pub total_ml: u64,
    pub total_minutes: u64,
    pub breast_left: u64,
    pub breast_right: u64,
    pub bottle: u64,
    pub solid: u64,
    pub total_urine: u64,
    pub total_poop: u64,
    pub weight_g: Option<u64>,
}

impl View for DayReport {
    type V = DayReportModel;

    open spec fn view(&self) -> DayReportModel {
        DayReportModel {
            date: self.date@,
            total_feedings: self.total_feedings,
            total_ml: self.total_ml,
            total_minutes: self.total_minutes,
            breast_left: self.breast_left,
            breast_right: self.breast_right,
            bottle: self.bottle,
            solid: self.solid,
            total_urine: self.total_urine,
            total_poop: self.total_poop,
            weight_g: self.weight_g,
        }
    }
}

/// What the report bucket of a given day must hold: the bucket's window
/// is `[day, next day)`, unbounded above on the last representable date.
pub open spec fn day_report_matches(
    m: StoreModel,
    nm: Option<Seq<char>>,
    day: Timestamp,
    r: DayReportModel,
) -> bool {
    let hi = if day.spec_is_max_date() {
        None
    } else {
        Some(day.spec_next_day())
    };
    let fs = m.feedings.filter(feeding_window_pred(nm, day, hi));
    let ds = m.dejections.filter(dejection_window_pred(nm, day, hi));
    let ws = m.weights.filter(weight_window_pred(nm, day, hi));
    &&& r.date == spec_date_label(day)
    &&& r.total_feedings == fs.len()
    &&& r.total_ml == sum_ml(fs)
    &&& r.total_minutes == sum_minutes(fs)
    &&& r.breast_left == count_feeding_type(fs, FeedingType::BreastLeft)
    &&& r.breast_right == count_feeding_type(fs, FeedingType::BreastRight)
    &&& r.bottle == count_feeding_type(fs, FeedingType::Bottle)
    &&& r.solid == count_feeding_type(fs, FeedingType::Solid)
    &&& r.total_urine == count_dejection_type(ds, DejectionType::Urine)
    &&& r.total_poop == count_dejection_type(ds, DejectionType::Poop)
    &&& (r.weight_g is Some <==> ws.len() > 0)
    &&& match r.weight_g {
        Some(g) => is_latest_weight(ws, g),
        None => true,
    }
}

impl Store {
    /// The bounded summary over `[since, until)` with an optional name
    /// filter; an absent `until` leaves the window unbounded above. When
    /// several in-window weights share the maximal timestamp, which one
    /// supplies `latest_weight_g` is deliberately unspecified; this
    /// implementation keeps the one scanned last.
    pub fn summary(&self, baby_name: Option<&str>, since: Timestamp, until: Option<Timestamp>) -> (
        r: Summary)
        requires
            self@.wf(),
        ensures
            ({
                let nm = view_filter(baby_name);
                let fs = self@.feedings.filter(feeding_window_pred(nm, since, until));
                let ds = self@.dejections.filter(dejection_window_pred(nm, since, until));
                let ws = self@.weights.filter(weight_window_pred(nm, since, until));
                &&& r.total_feedings == fs.len()
                &&& r.total_ml == sum_ml(fs)
                &&& r.total_minutes == sum_minutes(fs)
                &&& r.by_type@ == by_type_spec(fs)
                &&& r.total_urine == count_dejection_type(ds, DejectionType::Urine)
                &&& r.total_poop == count_dejection_type(ds, DejectionType::Poop)
                &&& (r.latest_weight_g is Some <==> ws.len() > 0)
                &&& match r.latest_weight_g {
                    Some(g) => is_latest_weight(ws, g),
                    None => true,
                }
            }),
    {
        let st = self.window_stats(&baby_name, &since, &until);
        let ghost fs = self@.feedings.filter(
            feeding_window_pred(view_filter(baby_name), since, until),
        );
        let mut by_type: Vec<(FeedingType, u64)> = Vec::new();
        if st.breast_left > 0 {
            by_type.push((FeedingType::BreastLeft, st.breast_left));
        }
        if st.breast_right > 0 {
            by_type.push((FeedingType::BreastRight, st.breast_right));
        }
        if st.bottle > 0 {
            by_type.push((FeedingType::Bottle, st.bottle));
        }
        if st.solid > 0 {
            by_type.push((FeedingType::Solid, st.solid));
        }
        proof {
            assert(by_type@ =~= by_type_spec(fs));
        }
        Summary {
            total_feedings: st.total_feedings,
            total_ml: st.total_ml,
            total_minutes: st.total_minutes,
            by_type,
            total_urine: st.total_urine,
            total_poop: st.total_poop,
            latest_weight_g: st.latest_weight_g,
        }
    }

    /// One bucket per calendar day of `[start, end)`, in date order,
    /// each aggregating its own 24-hour window; a bucket appears even
    /// when no record falls in it. Every started day is scanned in full:
    /// an `end` inside a day does not clip that day's bucket, a
    /// deliberate day-granular reading (see `day_report_matches`).
    #[verifier::rlimit(80)]
    pub fn report(&self, baby_name: Option<&str>, start: Timestamp, end: Timestamp) -> (r: Vec<
        DayReport,
    >)
        requires
            self@.wf(),
            start.wf(),
        ensures
            r@.len() == day_count(start, end),
            forall|q: int|
                0 <= q < r@.len() ==> day_report_matches(
                    self@,
                    view_filter(baby_name),
                    spec_add_days(start, q as nat),
                    #[trigger] views_of(r@)[q],
                ),
    {
        let ghost nm = view_filter(baby_name);
        let mut out: Vec<DayReport> = Vec::new();
        let mut day = start;
        let ghost k: int = 0;
        while day.lt(&end)
            invariant_except_break
                self@.wf(),
                start.wf(),
                day.wf(),
                0 <= k,
                out@.len() == k,
                nm == view_filter(baby_name),
                day == spec_add_days(start, k as nat),
                day_count(start, end) == k + day_count(day, end),
                forall|q: int|
                    0 <= q < k ==> day_report_matches(
                        self@,
                        nm,
                        spec_add_days(start, q as nat),
                        #[trigger] views_of(out@)[q],
                    ),
            ensures
                out@.len() == day_count(start, end),
                forall|q: int|
                    0 <= q < out@.len() ==> day_report_matches(
                        self@,
                        nm,
                        spec_add_days(start, q as nat),
                        #[trigger] views_of(out@)[q],
                    ),
            decreases (if day.spec_lt(end) {
                end.enc() - day.enc()
            } else {
                0int
            }),
        {
            let is_max = day.is_max_date();
            let hi: Option<Timestamp> = if is_max {
                None
            } else {
                Some(day.next_day())
            };
            let st = self.window_stats(&baby_name, &day, &hi);
            let rep = DayReport {
                date: day.format_date(),
                total_feedings: st.total_feedings,
                total_ml: st.total_ml,
                total_minutes: st.total_minutes,
                breast_left: st.breast_left,
                breast_right: st.breast_right,
                bottle: st.bottle,
                solid: st.solid,
                total_urine: st.total_urine,
                total_poop: st.total_poop,
                weight_g: st.latest_weight_g,
            };
            let ghost repm = rep@;
            let ghost opre = views_of(out@);
            out.push(rep);
            proof {
                assert(views_of(out@) =~= opre.push(repm));
                assert(day_report_matches(self@, nm, day, repm));
                k = k + 1;
            }
            match hi {
                None => {
                    proof {
                        assert(day_count(day, end) == 1);
                        assert(out@.len() == day_count(start, end));
                    }
                    break;
                },
                Some(nd) => {
                    proof {
                        assert(day_count(day, end) == 1 + day_count(nd, end));
                        lemma_add_days_next(start, (k - 1) as nat);
                    }
                    day = nd;
                },
            }
        }
        out
    }
}

} // verus!
