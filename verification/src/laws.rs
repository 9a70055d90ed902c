//! The laws the store and the aggregation engine commit to, stated over
//! the same models and spec functions the public contracts use.

use vstd::prelude::*;

use crate::agg::{by_type_spec, count_feeding_type, spec_in_window, spec_timeline_input, sum_ml};
use crate::models::{DejectionModel, FeedingModel, FeedingType, WeightModel};
use crate::sort::{lemma_sort_elems, lemma_sort_len, lemma_sort_sorted, spec_sort, SortKey};
use crate::store::{
    feeding_keep_pred, feeding_name_pred, has_feeding_id, name_matches, StoreModel,
};
use crate::time::{day_count, lemma_next_day, spec_add_days, Timestamp};

verus! {

/// One record arriving at the store, of any of the three kinds.
pub enum AddEvent {
    Feeding(FeedingModel),
    Dejection(DejectionModel),
    Weight(WeightModel),
}

/// What one `add` call does to the store model, mirroring the `ensures`
/// of the three add operations: the record takes the counter's value as
/// its id, joins its collection, and the counter advances.
pub open spec fn spec_apply_add(m: StoreModel, e: AddEvent) -> StoreModel {
    match e {
        AddEvent::Feeding(f) => StoreModel {
            feedings: m.feedings.push(FeedingModel { id: m.next_id as u64, ..f }),
            next_id: (m.next_id + 1) as u32,
            ..m
        },
        AddEvent::Dejection(d) => StoreModel {
            dejections: m.dejections.push(DejectionModel { id: m.next_id as u64, ..d }),
            next_id: (m.next_id + 1) as u32,
            ..m
        },
        AddEvent::Weight(w) => StoreModel {
            weights: m.weights.push(WeightModel { id: m.next_id as u64, ..w }),
            next_id: (m.next_id + 1) as u32,
            ..m
        },
    }
}

/// The ids a sequence of adds hands back, in call order.
pub open spec fn spec_add_ids(m: StoreModel, es: Seq<AddEvent>) -> Seq<u64>
    decreases es.len(),
{
    if es.len() == 0 {
        Seq::empty()
    } else {
        seq![m.next_id as u64] + spec_add_ids(spec_apply_add(m, es[0]), es.drop_first())
    }
}

/// Shared identity sequence: over any interleaving of adds across the
/// three kinds, the `k`-th call returns exactly `next_id + k`, so the
/// returned ids are strictly increasing, pairwise distinct, and distinct
/// from every id the store already holds.
pub proof fn lemma_shared_id_sequence(m: StoreModel, es: Seq<AddEvent>)
    requires
        m.wf(),
        m.next_id + es.len() <= u32::MAX,
    ensures
        spec_add_ids(m, es).len() == es.len(),
        forall|k: int|
            0 <= k < es.len() ==> spec_add_ids(m, es)[k] == m.next_id + k,
        forall|i: int, j: int|
            0 <= i < j < es.len() ==> spec_add_ids(m, es)[i] < spec_add_ids(m, es)[j],
        forall|k: int|
            0 <= k < es.len() ==> !has_feeding_id(m.feedings, spec_add_ids(m, es)[k])
                && !crate::store::has_dejection_id(m.dejections, spec_add_ids(m, es)[k])
                && !crate::store::has_weight_id(m.weights, spec_add_ids(m, es)[k]),
    decreases es.len(),
{
    if es.len() > 0 {
        let m1 = spec_apply_add(m, es[0]);
        assert(m1.next_id == m.next_id + 1);
        lemma_ids_are_offsets(m1, es.drop_first());
        assert forall|k: int| 0 <= k < es.len() implies spec_add_ids(m, es)[k] == m.next_id
            + k by {
            if k > 0 {
                assert(spec_add_ids(m, es)[k] == spec_add_ids(m1, es.drop_first())[k - 1]);
            }
        }
    }
    assert forall|k: int|
        0 <= k < es.len() implies !has_feeding_id(m.feedings, spec_add_ids(m, es)[k])
        && !crate::store::has_dejection_id(m.dejections, spec_add_ids(m, es)[k])
        && !crate::store::has_weight_id(m.weights, spec_add_ids(m, es)[k]) by {
        lemma_ids_are_offsets(m, es);
        assert(spec_add_ids(m, es)[k] >= m.next_id);
    }
}

/// Every assigned id is the counter plus the call's position.
proof fn lemma_ids_are_offsets(m: StoreModel, es: Seq<AddEvent>)
    requires
        m.next_id + es.len() <= u32::MAX,
    ensures
        spec_add_ids(m, es).len() == es.len(),
        forall|k: int| 0 <= k < es.len() ==> spec_add_ids(m, es)[k] == m.next_id + k,
    decreases es.len(),
{
    if es.len() > 0 {
        let m1 = spec_apply_add(m, es[0]);
        assert(m1.next_id == m.next_id + 1);
        lemma_ids_are_offsets(m1, es.drop_first());
        assert forall|k: int| 0 <= k < es.len() implies spec_add_ids(m, es)[k] == m.next_id
            + k by {
            if k > 0 {
                assert(spec_add_ids(m, es)[k] == spec_add_ids(m1, es.drop_first())[k - 1]);
            }
        }
    }
}

/// List ordering: the `list` result holds at most `limit` feedings, all
/// matching the name filter, in non-increasing timestamp order.
pub proof fn lemma_list_ordering(
    feedings: Seq<FeedingModel>,
    nm: Option<Seq<char>>,
    limit: int,
)
    requires
        0 <= limit,
    ensures
        ({
            let filtered = feedings.filter(feeding_name_pred(nm));
            let sorted = spec_sort::<crate::models::Feeding>(filtered);
            let taken = sorted.take(
                if limit <= sorted.len() {
                    limit
                } else {
                    sorted.len() as int
                },
            );
            &&& taken.len() <= limit
            &&& forall|i: int|
                0 <= i < taken.len() ==> name_matches((#[trigger] taken[i]).baby_name, nm)
            &&& forall|i: int, j: int|
                0 <= i < j < taken.len() ==> taken[j].timestamp.enc() <= taken[i].timestamp.enc()
        }),
{
    broadcast use vstd::seq_lib::group_filter_ensures;

    let filtered = feedings.filter(feeding_name_pred(nm));
    let sorted = spec_sort::<crate::models::Feeding>(filtered);
    lemma_sort_len::<crate::models::Feeding>(filtered);
    lemma_sort_sorted::<crate::models::Feeding>(filtered);
    lemma_sort_elems::<crate::models::Feeding>(filtered);
    let taken = sorted.take(
        if limit <= sorted.len() {
            limit
        } else {
            sorted.len() as int
        },
    );
    assert forall|i: int|
        0 <= i < taken.len() implies name_matches((#[trigger] taken[i]).baby_name, nm) by {
        assert(taken[i] == sorted[i]);
        let k = choose|k: int| 0 <= k < filtered.len() && filtered[k] == sorted[i];
        assert(feeding_name_pred(nm)(filtered[k]));
    }
    assert forall|i: int, j: int|
        0 <= i < j < taken.len() implies taken[j].timestamp.enc() <= taken[i].timestamp.enc() by {
        assert(taken[i] == sorted[i] && taken[j] == sorted[j]);
        assert(crate::models::Feeding::skey(sorted[i]) <= crate::models::Feeding::skey(sorted[j]));
    }
}

/// Timeline ordering and filtering: every timeline entry lies in the
/// window and matches the name filter, and the sequence is non-decreasing
/// by timestamp.
pub proof fn lemma_timeline_ordering_and_filtering(
    m: StoreModel,
    nm: Option<Seq<char>>,
    start: Timestamp,
    end: Option<Timestamp>,
)
    ensures
        ({
            let r = spec_sort::<crate::models::TimelineEntry>(
                spec_timeline_input(m, nm, start, end),
            );
            &&& forall|i: int|
                0 <= i < r.len() ==> spec_in_window(
                    (#[trigger] r[i]).timestamp,
                    start,
                    end,
                ) && name_matches(r[i].baby_name, nm)
            &&& forall|i: int, j: int|
                0 <= i < j < r.len() ==> r[i].timestamp.enc() <= r[j].timestamp.enc()
        }),
{
    broadcast use vstd::seq_lib::group_filter_ensures;

    let input = spec_timeline_input(m, nm, start, end);
    let r = spec_sort::<crate::models::TimelineEntry>(input);
    lemma_sort_sorted::<crate::models::TimelineEntry>(input);
    lemma_sort_elems::<crate::models::TimelineEntry>(input);
    let pf = m.feedings.filter(crate::agg::feeding_window_pred(nm, start, end)).map_values(
        crate::agg::feeding_entry_fn(),
    );
    let pd = m.dejections.filter(
        crate::agg::dejection_window_pred(nm, start, end),
    ).map_values(crate::agg::dejection_entry_fn());
    let pw = m.weights.filter(crate::agg::weight_window_pred(nm, start, end)).map_values(
        crate::agg::weight_entry_fn(),
    );
    assert forall|q: int|
        0 <= q < input.len() implies spec_in_window(
        (#[trigger] input[q]).timestamp,
        start,
        end,
    ) && name_matches(input[q].baby_name, nm) by {
        if q < pf.len() {
            assert(input[q] == pf[q]);
            assert(pf[q] == crate::agg::feeding_entry_fn()(
                m.feedings.filter(crate::agg::feeding_window_pred(nm, start, end))[q],
            ));
        } else if q < pf.len() + pd.len() {
            assert(input[q] == pd[q - pf.len()]);
            assert(pd[q - pf.len()] == crate::agg::dejection_entry_fn()(
                m.dejections.filter(crate::agg::dejection_window_pred(nm, start, end))[q
                    - pf.len()],
            ));
        } else {
            assert(input[q] == pw[q - pf.len() - pd.len()]);
            assert(pw[q - pf.len() - pd.len()] == crate::agg::weight_entry_fn()(
                m.weights.filter(crate::agg::weight_window_pred(nm, start, end))[q - pf.len()
                    - pd.len()],
            ));
        }
    }
    assert forall|i: int| 0 <= i < r.len() implies spec_in_window(
        (#[trigger] r[i]).timestamp,
        start,
        end,
    ) && name_matches(r[i].baby_name, nm) by {
        let k = choose|k: int| 0 <= k < input.len() && input[k] == r[i];
    }
    assert forall|i: int, j: int| 0 <= i < j < r.len() implies r[i].timestamp.enc() <= r[j].timestamp.enc() by {
        assert(crate::models::TimelineEntry::skey(r[i]) <= crate::models::TimelineEntry::skey(
            r[j],
        ));
    }
}

/// Summary consistency: the four per-type counts partition the matching
/// feedings, so the emitted by-type counts sum to the total; and an empty
/// match yields a zero volume and an empty by-type list.
pub proof fn lemma_summary_consistency(fs: Seq<FeedingModel>)
    requires
        fs.len() <= u32::MAX,
    ensures
        count_feeding_type(fs, FeedingType::BreastLeft) + count_feeding_type(
            fs,
            FeedingType::BreastRight,
        ) + count_feeding_type(fs, FeedingType::Bottle) + count_feeding_type(
            fs,
            FeedingType::Solid,
        ) == fs.len(),
        sum_counts(by_type_spec(fs)) == fs.len(),
        fs.len() == 0 ==> sum_ml(fs) == 0 && by_type_spec(fs) == Seq::<(FeedingType, u64)>::empty(),
    decreases fs.len(),
{
    if fs.len() > 0 {
        lemma_summary_consistency(fs.drop_last());
        lemma_sum_counts_of_by_type(fs);
    } else {
        assert(by_type_spec(fs) =~= Seq::<(FeedingType, u64)>::empty());
    }
}

/// The sum of the counts in a by-type list.
pub open spec fn sum_counts(s: Seq<(FeedingType, u64)>) -> int
    decreases s.len(),
{
    if s.len() == 0 {
        0
    } else {
        sum_counts(s.drop_last()) + s.last().1
    }
}

/// The emitted by-type counts sum to the four per-type counts.
proof fn lemma_sum_counts_of_by_type(fs: Seq<FeedingModel>)
    requires
        fs.len() <= u32::MAX,
    ensures
        sum_counts(by_type_spec(fs)) == count_feeding_type(fs, FeedingType::BreastLeft)
            + count_feeding_type(fs, FeedingType::BreastRight) + count_feeding_type(
            fs,
            FeedingType::Bottle,
        ) + count_feeding_type(fs, FeedingType::Solid),
{
    crate::agg::lemma_count_feeding_type_bounds(fs, FeedingType::BreastLeft);
    crate::agg::lemma_count_feeding_type_bounds(fs, FeedingType::BreastRight);
    crate::agg::lemma_count_feeding_type_bounds(fs, FeedingType::Bottle);
    crate::agg::lemma_count_feeding_type_bounds(fs, FeedingType::Solid);
    let bl = count_feeding_type(fs, FeedingType::BreastLeft);
    let br = count_feeding_type(fs, FeedingType::BreastRight);
    let bo = count_feeding_type(fs, FeedingType::Bottle);
    let so = count_feeding_type(fs, FeedingType::Solid);
    let p1: Seq<(FeedingType, u64)> = if bl > 0 {
        seq![(FeedingType::BreastLeft, bl as u64)]
    } else {
        Seq::empty()
    };
    let p2: Seq<(FeedingType, u64)> = if br > 0 {
        seq![(FeedingType::BreastRight, br as u64)]
    } else {
        Seq::empty()
    };
    let p3: Seq<(FeedingType, u64)> = if bo > 0 {
        seq![(FeedingType::Bottle, bo as u64)]
    } else {
        Seq::empty()
    };
    let p4: Seq<(FeedingType, u64)> = if so > 0 {
        seq![(FeedingType::Solid, so as u64)]
    } else {
        Seq::empty()
    };
    lemma_sum_counts_concat(p1, p2);
    lemma_sum_counts_concat(p1 + p2, p3);
    lemma_sum_counts_concat(p1 + p2 + p3, p4);
    assert(sum_counts(p1) == bl) by {
        if bl > 0 {
            assert(p1.len() == 1);
            assert(p1.last() == (FeedingType::BreastLeft, bl as u64));
            assert(p1.drop_last() =~= Seq::<(FeedingType, u64)>::empty());
            assert(sum_counts(p1.drop_last()) == 0);
            assert(sum_counts(p1) == sum_counts(p1.drop_last()) + p1.last().1);
        } else {
            assert(sum_counts(p1) == 0);
        }
    }
    assert(sum_counts(p2) == br) by {
        if br > 0 {
            assert(p2.len() == 1);
            assert(p2.last() == (FeedingType::BreastRight, br as u64));
            assert(p2.drop_last() =~= Seq::<(FeedingType, u64)>::empty());
            assert(sum_counts(p2.drop_last()) == 0);
            assert(sum_counts(p2) == sum_counts(p2.drop_last()) + p2.last().1);
        } else {
            assert(sum_counts(p2) == 0);
        }
    }
    assert(sum_counts(p3) == bo) by {
        if bo > 0 {
            assert(p3.len() == 1);
            assert(p3.last() == (FeedingType::Bottle, bo as u64));
            assert(p3.drop_last() =~= Seq::<(FeedingType, u64)>::empty());
            assert(sum_counts(p3.drop_last()) == 0);
            assert(sum_counts(p3) == sum_counts(p3.drop_last()) + p3.last().1);
        } else {
            assert(sum_counts(p3) == 0);
        }
    }
    assert(sum_counts(p4) == so) by {
        if so > 0 {
            assert(p4.len() == 1);
            assert(p4.last() == (FeedingType::Solid, so as u64));
            assert(p4.drop_last() =~= Seq::<(FeedingType, u64)>::empty());
            assert(sum_counts(p4.drop_last()) == 0);
            assert(sum_counts(p4) == sum_counts(p4.drop_last()) + p4.last().1);
        } else {
            assert(sum_counts(p4) == 0);
        }
    }
}

proof fn lemma_sum_counts_concat(a: Seq<(FeedingType, u64)>, b: Seq<(FeedingType, u64)>)
    ensures
        sum_counts(a + b) == sum_counts(a) + sum_counts(b),
    decreases b.len(),
{
    if b.len() == 0 {
        assert(a + b =~= a);
    } else {
        lemma_sum_counts_concat(a, b.drop_last());
        assert((a + b).drop_last() =~= a + b.drop_last());
        assert((a + b).last() == b.last());
    }
}

/// Report completeness: a range of exactly `n` calendar days yields
/// exactly `n` buckets — `day_count`, which the report's length equals,
/// counts `n` over `[start, start + n days)`.
pub proof fn lemma_report_completeness(start: Timestamp, n: nat)
    requires
        start.wf(),
        forall|k: nat| k < n ==> !(#[trigger] spec_add_days(start, k)).spec_is_max_date(),
    ensures
        day_count(start, spec_add_days(start, n)) == n,
    decreases n,
{
    lemma_add_days_wf(start, n);
    if n == 0 {
    } else {
        assert(!start.spec_is_max_date()) by {
            assert(spec_add_days(start, 0) == start);
        }
        lemma_next_day(start);
        let s1 = start.spec_next_day();
        assert forall|k: nat| k < (n - 1) as nat implies !(#[trigger] spec_add_days(
            s1,
            k,
        )).spec_is_max_date() by {
            lemma_add_days_shift(start, k);
            assert(spec_add_days(start, (k + 1) as nat) == spec_add_days(s1, k));
        }
        lemma_report_completeness(s1, (n - 1) as nat);
        assert(spec_add_days(start, n) == spec_add_days(s1, (n - 1) as nat));
        lemma_add_days_wf(s1, (n - 1) as nat);
        assert(start.spec_lt(spec_add_days(start, n))) by {
            lemma_add_days_grows(start, n);
        }
    }
}

/// Adding days shifts through the first step.
proof fn lemma_add_days_shift(start: Timestamp, k: nat)
    ensures
        spec_add_days(start, (k + 1) as nat) == spec_add_days(start.spec_next_day(), k),
{
}

/// A day chain that avoids the last representable date stays valid.
proof fn lemma_add_days_wf(start: Timestamp, n: nat)
    requires
        start.wf(),
        forall|k: nat| k < n ==> !(#[trigger] spec_add_days(start, k)).spec_is_max_date(),
    ensures
        spec_add_days(start, n).wf(),
    decreases n,
{
    if n > 0 {
        assert(!start.spec_is_max_date()) by {
            assert(spec_add_days(start, 0) == start);
        }
        lemma_next_day(start);
        let s1 = start.spec_next_day();
        assert forall|k: nat| k < (n - 1) as nat implies !(#[trigger] spec_add_days(
            s1,
            k,
        )).spec_is_max_date() by {
            lemma_add_days_shift(start, k);
        }
        lemma_add_days_wf(s1, (n - 1) as nat);
        assert(spec_add_days(start, n) == spec_add_days(s1, (n - 1) as nat));
    }
}

/// Adding at least one day strictly advances the order encoding.
proof fn lemma_add_days_grows(start: Timestamp, n: nat)
    requires
        start.wf(),
        n > 0,
        forall|k: nat| k < n ==> !(#[trigger] spec_add_days(start, k)).spec_is_max_date(),
    ensures
        start.enc() < spec_add_days(start, n).enc(),
    decreases n,
{
    assert(!start.spec_is_max_date()) by {
        assert(spec_add_days(start, 0) == start);
    }
    lemma_next_day(start);
    let s1 = start.spec_next_day();
    if n == 1 {
        assert(spec_add_days(start, 1) == spec_add_days(s1, 0));
        assert(spec_add_days(s1, 0) == s1);
    } else {
        assert forall|k: nat| k < (n - 1) as nat implies !(#[trigger] spec_add_days(
            s1,
            k,
        )).spec_is_max_date() by {
            lemma_add_days_shift(start, k);
        }
        lemma_add_days_grows(s1, (n - 1) as nat);
        assert(spec_add_days(start, n) == spec_add_days(s1, (n - 1) as nat));
    }
}

/// Delete idempotence: deleting an absent id leaves the collection as it
/// was; deleting a present id removes exactly that one record.
pub proof fn lemma_delete_exact(fs: Seq<FeedingModel>, id: u64)
    requires
        forall|i: int, j: int|
            0 <= i < j < fs.len() ==> (#[trigger] fs[i].id) != (#[trigger] fs[j].id),
    ensures
        !has_feeding_id(fs, id) ==> fs.filter(feeding_keep_pred(id)) == fs,
        has_feeding_id(fs, id) ==> exists|i: int|
            0 <= i < fs.len() && (#[trigger] fs[i]).id == id && fs.filter(feeding_keep_pred(id))
                == fs.remove(i),
    decreases fs.len(),
{
    reveal(Seq::filter);
    let p = feeding_keep_pred(id);
    if fs.len() > 0 {
        let dl = fs.drop_last();
        lemma_delete_exact(dl, id);
        if fs.last().id == id {
            // the unique match is the last element
            assert(!has_feeding_id(dl, id)) by {
                if has_feeding_id(dl, id) {
                    let k = choose|k: int| 0 <= k < dl.len() && dl[k].id == id;
                    assert(fs[k].id != fs[fs.len() - 1].id);
                }
            }
            assert(fs.filter(p) == dl.filter(p));
            assert(dl.filter(p) == dl);
            assert(fs.remove(fs.len() - 1) =~= dl);
            assert(fs[fs.len() - 1].id == id);
        } else {
            assert(fs.filter(p) == dl.filter(p).push(fs.last()));
            if has_feeding_id(fs, id) {
                assert(has_feeding_id(dl, id)) by {
                    let k = choose|k: int| 0 <= k < fs.len() && fs[k].id == id;
                    assert(dl[k].id == id);
                }
                let i = choose|i: int|
                    0 <= i < dl.len() && (#[trigger] dl[i]).id == id && dl.filter(p) == dl.remove(
                        i,
                    );
                assert(fs.filter(p) =~= fs.remove(i)) by {
                    assert(dl.remove(i).push(fs.last()) =~= fs.remove(i));
                }
                assert(fs[i].id == id);
            } else {
                assert(!has_feeding_id(dl, id)) by {
                    if has_feeding_id(dl, id) {
                        let k = choose|k: int| 0 <= k < dl.len() && dl[k].id == id;
                        assert(fs[k].id == id);
                    }
                }
                assert(fs.filter(p) =~= fs) by {
                    assert(dl.filter(p) == dl);
                    assert(dl.push(fs.last()) =~= fs);
                }
            }
        }
    }
}

} // verus!
