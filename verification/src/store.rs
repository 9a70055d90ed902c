//! Event Store: three ordered collections and one shared identity
//! sequence. Ids interleave across the three kinds in a single
//! monotonically increasing space and are never reused.

use vstd::prelude::*;

use crate::models::{Dejection, DejectionModel, Feeding, FeedingModel, Weight, WeightModel};
use crate::sort::{
    lemma_filter_distinct, lemma_filter_elems, lemma_filter_push, sort_by_key, spec_sort, views_of,
    SortKey,
};
use crate::text::str_eq;
use crate::time::Timestamp;

verus! {

/// The event store.
#[derive(Debug)]
pub struct Store {
    feedings: Vec<Feeding>,
    dejections: Vec<Dejection>,
    weights: Vec<Weight>,
    next_id: u32,
}

/// The mathematical value of a `Store`.
#[verifier::ext_equal]
pub struct StoreModel {
    pub feedings: Seq<FeedingModel>,
    pub dejections: Seq<DejectionModel>,
    pub weights: Seq<WeightModel>,
    pub next_id: u32,
}

impl View for Store {
    type V = StoreModel;

    closed spec fn view(&self) -> StoreModel {
        StoreModel {
            feedings: views_of(self.feedings@),
            dejections: views_of(self.dejections@),
            weights: views_of(self.weights@),
            next_id: self.next_id,
        }
    }
}

impl StoreModel {
    pub open spec fn feedings_ok(self) -> bool {
        &&& forall|i: int|
            0 <= i < self.feedings.len() ==> {
                let f = #[trigger] self.feedings[i];
                1 <= f.id && f.id < self.next_id && f.timestamp.wf()
            }
        &&& forall|i: int, j: int|
            0 <= i < j < self.feedings.len() ==> (#[trigger] self.feedings[i].id)
                != (#[trigger] self.feedings[j].id)
    }

    pub open spec fn dejections_ok(self) -> bool {
        &&& forall|i: int|
            0 <= i < self.dejections.len() ==> {
                let d = #[trigger] self.dejections[i];
                1 <= d.id && d.id < self.next_id && d.timestamp.wf()
            }
        &&& forall|i: int, j: int|
            0 <= i < j < self.dejections.len() ==> (#[trigger] self.dejections[i].id)
                != (#[trigger] self.dejections[j].id)
    }

    pub open spec fn weights_ok(self) -> bool {
        &&& forall|i: int|
            0 <= i < self.weights.len() ==> {
                let w = #[trigger] self.weights[i];
                1 <= w.id && w.id < self.next_id && w.timestamp.wf()
            }
        &&& forall|i: int, j: int|
            0 <= i < j < self.weights.len() ==> (#[trigger] self.weights[i].id)
                != (#[trigger] self.weights[j].id)
    }

    /// No id is shared between two kinds.
    pub open spec fn cross_ok(self) -> bool {
        &&& forall|i: int, j: int|
            0 <= i < self.feedings.len() && 0 <= j < self.dejections.len() ==> (
            #[trigger] self.feedings[i].id) != (#[trigger] self.dejections[j].id)
        &&& forall|i: int, j: int|
            0 <= i < self.feedings.len() && 0 <= j < self.weights.len() ==> (
            #[trigger] self.feedings[i].id) != (#[trigger] self.weights[j].id)
        &&& forall|i: int, j: int|
            0 <= i < self.dejections.len() && 0 <= j < self.weights.len() ==> (
            #[trigger] self.dejections[i].id) != (#[trigger] self.weights[j].id)
    }

    /// Well-formedness: ids are nonzero, below the counter, and globally
    /// unique across all three kinds; timestamps are valid.
    pub open spec fn wf(self) -> bool {
        &&& self.next_id >= 1
        &&& self.feedings_ok()
        &&& self.dejections_ok()
        &&& self.weights_ok()
        &&& self.cross_ok()
    }
}

/// Whether a feeding with the given id is present.
pub open spec fn has_feeding_id(s: Seq<FeedingModel>, id: u64) -> bool {
    exists|i: int| 0 <= i < s.len() && s[i].id == id
}

/// Whether a dejection with the given id is present.
pub open spec fn has_dejection_id(s: Seq<DejectionModel>, id: u64) -> bool {
    exists|i: int| 0 <= i < s.len() && s[i].id == id
}

/// Whether a weight with the given id is present.
pub open spec fn has_weight_id(s: Seq<WeightModel>, id: u64) -> bool {
    exists|i: int| 0 <= i < s.len() && s[i].id == id
}

/// Keeping everything but one id, as a function value.
pub open spec fn feeding_keep_pred(id: u64) -> spec_fn(FeedingModel) -> bool {
    |f: FeedingModel| f.id != id
}

pub open spec fn dejection_keep_pred(id: u64) -> spec_fn(DejectionModel) -> bool {
    |d: DejectionModel| d.id != id
}

pub open spec fn weight_keep_pred(id: u64) -> spec_fn(WeightModel) -> bool {
    |w: WeightModel| w.id != id
}

/// Whether a record's name passes an optional name filter.
pub open spec fn name_matches(name: Seq<char>, filter: Option<Seq<char>>) -> bool {
    match filter {
        None => true,
        Some(n) => name == n,
    }
}

/// The mathematical value of an optional name filter.
pub open spec fn view_filter(filter: Option<&str>) -> Option<Seq<char>> {
    match filter {
        None => None,
        Some(n) => Some(n@),
    }
}

/// Matching a name filter, as a function value.
pub open spec fn feeding_name_pred(filter: Option<Seq<char>>) -> spec_fn(FeedingModel) -> bool {
    |f: FeedingModel| name_matches(f.baby_name, filter)
}

pub(crate) fn opt_name_matches(name: &String, filter: &Option<&str>) -> (r: bool)
    ensures
        r == name_matches(name@, view_filter(*filter)),
{
    match filter {
        None => true,
        Some(n) => str_eq(name.as_str(), n),
    }
}

/// Feedings are listed newest first: the sort key inverts the timestamp
/// encoding, which never exceeds `u64::MAX`.
impl SortKey for Feeding {
    open spec fn skey(v: FeedingModel) -> u64 {
        (u64::MAX - v.timestamp.enc()) as u64
    }

    fn exec_key(&self) -> (k: u64) {
        u64::MAX - self.timestamp.enc_u64()
    }
}


/// A record found in a prefix is found in any longer prefix.
pub proof fn lemma_has_feeding_id_take(s: Seq<FeedingModel>, a: int, b: int, id: u64)
    requires
        0 <= a <= b <= s.len(),
        has_feeding_id(s.take(a), id),
    ensures
        has_feeding_id(s.take(b), id),
{
    let ta = s.take(a);
    let k = choose|k: int| 0 <= k < ta.len() && ta[k].id == id;
    assert(s.take(b)[k].id == id);
}

pub proof fn lemma_has_dejection_id_take(s: Seq<DejectionModel>, a: int, b: int, id: u64)
    requires
        0 <= a <= b <= s.len(),
        has_dejection_id(s.take(a), id),
    ensures
        has_dejection_id(s.take(b), id),
{
    let ta = s.take(a);
    let k = choose|k: int| 0 <= k < ta.len() && ta[k].id == id;
    assert(s.take(b)[k].id == id);
}

pub proof fn lemma_has_weight_id_take(s: Seq<WeightModel>, a: int, b: int, id: u64)
    requires
        0 <= a <= b <= s.len(),
        has_weight_id(s.take(a), id),
    ensures
        has_weight_id(s.take(b), id),
{
    let ta = s.take(a);
    let k = choose|k: int| 0 <= k < ta.len() && ta[k].id == id;
    assert(s.take(b)[k].id == id);
}


/// Under well-formedness a collection's ids are distinct values in
/// `[1, next_id)`, so it holds at most `next_id - 1` records.
pub proof fn lemma_wf_feedings_len(m: StoreModel)
    requires
        m.wf(),
    ensures
        m.feedings.len() < m.next_id,
{
    broadcast use vstd::seq_lib::seq_to_set_is_finite;

    let ids = m.feedings.map_values(|f: FeedingModel| f.id as int);
    assert forall|i: int, j: int|
        0 <= i < ids.len() && 0 <= j < ids.len() && i != j implies ids[i] != ids[j] by {
        if i < j {
            assert(m.feedings[i].id != m.feedings[j].id);
        } else {
            assert(m.feedings[j].id != m.feedings[i].id);
        }
    }
    ids.unique_seq_to_set();
    let rng = vstd::set_lib::set_int_range(1, m.next_id as int);
    vstd::set_lib::lemma_int_range(1, m.next_id as int);
    assert forall|x: int| ids.to_set().contains(x) implies rng.contains(x) by {
        let k = choose|k: int| 0 <= k < ids.len() && ids[k] == x;
        assert(1 <= m.feedings[k].id < m.next_id);
    }
    vstd::set_lib::lemma_len_subset(ids.to_set(), rng);
}


/// Whether parsed collections satisfy the store invariant: nonzero,
/// unique ids below the counter, and valid timestamps.
pub(crate) fn check_wf(
    feedings: &Vec<Feeding>,
    dejections: &Vec<Dejection>,
    weights: &Vec<Weight>,
    next_id: u32,
) -> (r: bool)
    ensures
        r == (StoreModel {
            feedings: views_of(feedings@),
            dejections: views_of(dejections@),
            weights: views_of(weights@),
            next_id,
        }).wf(),
{
    let ghost m = StoreModel {
        feedings: views_of(feedings@),
        dejections: views_of(dejections@),
        weights: views_of(weights@),
        next_id,
    };
    if next_id < 1 {
        return false;
    }
    let nf = feedings.len();
    let nd = dejections.len();
    let nw = weights.len();
    let mut i: usize = 0;
    while i < nf
        invariant
            m == (StoreModel {
                feedings: views_of(feedings@),
                dejections: views_of(dejections@),
                weights: views_of(weights@),
                next_id,
            }),
            i <= nf,
            nf == feedings@.len(),
            m.feedings == views_of(feedings@),
            m.dejections == views_of(dejections@),
            m.weights == views_of(weights@),
            m.next_id == next_id,
            forall|a: int|
                0 <= a < i ==> {
                    let f = #[trigger] m.feedings[a];
                    1 <= f.id && f.id < next_id && f.timestamp.wf()
                },
            forall|a: int, b: int|
                0 <= a < b < i ==> (#[trigger] m.feedings[a].id) != (#[trigger] m.feedings[b].id),
        decreases nf - i,
    {
        proof {
            assert(m.feedings[i as int] == feedings@[i as int]@);
        }
        let f = &feedings[i];
        if f.id < 1 || f.id >= next_id as u64 || !f.timestamp.is_valid() {
            proof {
                if m.wf() {
                    assert(1 <= m.feedings[i as int].id && m.feedings[i as int].id < next_id
                        && m.feedings[i as int].timestamp.wf());
                }
            }
            return false;
        }
        let mut j: usize = 0;
        while j < i
            invariant
                m == (StoreModel {
                feedings: views_of(feedings@),
                dejections: views_of(dejections@),
                weights: views_of(weights@),
                next_id,
            }),
            m == (StoreModel {
                feedings: views_of(feedings@),
                dejections: views_of(dejections@),
                weights: views_of(weights@),
                next_id,
            }),
                j <= i < nf,
                nf == feedings@.len(),
                m.feedings == views_of(feedings@),
                m.feedings[i as int] == feedings@[i as int]@,
                f.id == m.feedings[i as int].id,
                forall|b: int| 0 <= b < j ==> (#[trigger] m.feedings[b].id) != m.feedings[i as int].id,
            decreases i - j,
        {
            proof {
                assert(m.feedings[j as int] == feedings@[j as int]@);
            }
            if feedings[j].id == f.id {
                proof {
                    if m.wf() {
                        assert(m.feedings[j as int].id != m.feedings[i as int].id);
                    }
                }
                return false;
            }
            j = j + 1;
        }
        i = i + 1;
    }
    let mut i: usize = 0;
    while i < nd
        invariant
            m == (StoreModel {
                feedings: views_of(feedings@),
                dejections: views_of(dejections@),
                weights: views_of(weights@),
                next_id,
            }),
            i <= nd,
            nd == dejections@.len(),
            m.dejections == views_of(dejections@),
            m.next_id == next_id,
            forall|a: int|
                0 <= a < i ==> {
                    let d = #[trigger] m.dejections[a];
                    1 <= d.id && d.id < next_id && d.timestamp.wf()
                },
            forall|a: int, b: int|
                0 <= a < b < i ==> (#[trigger] m.dejections[a].id) != (
                #[trigger] m.dejections[b].id),
        decreases nd - i,
    {
        proof {
            assert(m.dejections[i as int] == dejections@[i as int]@);
        }
        let d = &dejections[i];
        if d.id < 1 || d.id >= next_id as u64 || !d.timestamp.is_valid() {
            proof {
                if m.wf() {
                    assert(1 <= m.dejections[i as int].id && m.dejections[i as int].id < next_id
                        && m.dejections[i as int].timestamp.wf());
                }
            }
            return false;
        }
        let mut j: usize = 0;
        while j < i
            invariant
                m == (StoreModel {
                feedings: views_of(feedings@),
                dejections: views_of(dejections@),
                weights: views_of(weights@),
                next_id,
            }),
            m == (StoreModel {
                feedings: views_of(feedings@),
                dejections: views_of(dejections@),
                weights: views_of(weights@),
                next_id,
            }),
                j <= i < nd,
                nd == dejections@.len(),
                m.dejections == views_of(dejections@),
                m.dejections[i as int] == dejections@[i as int]@,
                d.id == m.dejections[i as int].id,
                forall|b: int|
                    0 <= b < j ==> (#[trigger] m.dejections[b].id) != m.dejections[i as int].id,
            decreases i - j,
        {
            proof {
                assert(m.dejections[j as int] == dejections@[j as int]@);
            }
            if dejections[j].id == d.id {
                proof {
                    if m.wf() {
                        assert(m.dejections[j as int].id != m.dejections[i as int].id);
                    }
                }
                return false;
            }
            j = j + 1;
        }
        i = i + 1;
    }
    let mut i: usize = 0;
    while i < nw
        invariant
            m == (StoreModel {
                feedings: views_of(feedings@),
                dejections: views_of(dejections@),
                weights: views_of(weights@),
                next_id,
            }),
            i <= nw,
            nw == weights@.len(),
            m.weights == views_of(weights@),
            m.next_id == next_id,
            forall|a: int|
                0 <= a < i ==> {
                    let w = #[trigger] m.weights[a];
                    1 <= w.id && w.id < next_id && w.timestamp.wf()
                },
            forall|a: int, b: int|
                0 <= a < b < i ==> (#[trigger] m.weights[a].id) != (#[trigger] m.weights[b].id),
        decreases nw - i,
    {
        proof {
            assert(m.weights[i as int] == weights@[i as int]@);
        }
        let w = &weights[i];
        if w.id < 1 || w.id >= next_id as u64 || !w.timestamp.is_valid() {
            proof {
                if m.wf() {
                    assert(1 <= m.weights[i as int].id && m.weights[i as int].id < next_id
                        && m.weights[i as int].timestamp.wf());
                }
            }
            return false;
        }
        let mut j: usize = 0;
        while j < i
            invariant
                m == (StoreModel {
                feedings: views_of(feedings@),
                dejections: views_of(dejections@),
                weights: views_of(weights@),
                next_id,
            }),
            m == (StoreModel {
                feedings: views_of(feedings@),
                dejections: views_of(dejections@),
                weights: views_of(weights@),
                next_id,
            }),
                j <= i < nw,
                nw == weights@.len(),
                m.weights == views_of(weights@),
                m.weights[i as int] == weights@[i as int]@,
                w.id == m.weights[i as int].id,
                forall|b: int| 0 <= b < j ==> (#[trigger] m.weights[b].id) != m.weights[i as int].id,
            decreases i - j,
        {
            proof {
                assert(m.weights[j as int] == weights@[j as int]@);
            }
            if weights[j].id == w.id {
                proof {
                    if m.wf() {
                        assert(m.weights[j as int].id != m.weights[i as int].id);
                    }
                }
                return false;
            }
            j = j + 1;
        }
        i = i + 1;
    }
    // cross-kind uniqueness
    let mut i: usize = 0;
    while i < nf
        invariant
            m == (StoreModel {
                feedings: views_of(feedings@),
                dejections: views_of(dejections@),
                weights: views_of(weights@),
                next_id,
            }),
            i <= nf,
            nf == feedings@.len(),
            nd == dejections@.len(),
            m.feedings == views_of(feedings@),
            m.dejections == views_of(dejections@),
            forall|a: int, b: int|
                0 <= a < i && 0 <= b < nd ==> (#[trigger] m.feedings[a].id) != (
                #[trigger] m.dejections[b].id),
        decreases nf - i,
    {
        proof {
            assert(m.feedings[i as int] == feedings@[i as int]@);
        }
        let fid = feedings[i].id;
        let mut j: usize = 0;
        while j < nd
            invariant
                m == (StoreModel {
                feedings: views_of(feedings@),
                dejections: views_of(dejections@),
                weights: views_of(weights@),
                next_id,
            }),
            m == (StoreModel {
                feedings: views_of(feedings@),
                dejections: views_of(dejections@),
                weights: views_of(weights@),
                next_id,
            }),
                j <= nd,
                i < nf,
                nf == feedings@.len(),
                nd == dejections@.len(),
                m.feedings == views_of(feedings@),
                m.dejections == views_of(dejections@),
                fid == m.feedings[i as int].id,
                forall|b: int| 0 <= b < j ==> (#[trigger] m.dejections[b].id) != fid,
            decreases nd - j,
        {
            proof {
                assert(m.dejections[j as int] == dejections@[j as int]@);
            }
            if dejections[j].id == fid {
                proof {
                    if m.wf() {
                        assert(m.feedings[i as int].id != m.dejections[j as int].id);
                    }
                }
                return false;
            }
            j = j + 1;
        }
        i = i + 1;
    }
    let mut i: usize = 0;
    while i < nf
        invariant
            m == (StoreModel {
                feedings: views_of(feedings@),
                dejections: views_of(dejections@),
                weights: views_of(weights@),
                next_id,
            }),
            i <= nf,
            nf == feedings@.len(),
            nw == weights@.len(),
            m.feedings == views_of(feedings@),
            m.weights == views_of(weights@),
            forall|a: int, b: int|
                0 <= a < i && 0 <= b < nw ==> (#[trigger] m.feedings[a].id) != (
                #[trigger] m.weights[b].id),
        decreases nf - i,
    {
        proof {
            assert(m.feedings[i as int] == feedings@[i as int]@);
        }
        let fid = feedings[i].id;
        let mut j: usize = 0;
        while j < nw
            invariant
                m == (StoreModel {
                feedings: views_of(feedings@),
                dejections: views_of(dejections@),
                weights: views_of(weights@),
                next_id,
            }),
            m == (StoreModel {
                feedings: views_of(feedings@),
                dejections: views_of(dejections@),
                weights: views_of(weights@),
                next_id,
            }),
                j <= nw,
                i < nf,
                nf == feedings@.len(),
                nw == weights@.len(),
                m.feedings == views_of(feedings@),
                m.weights == views_of(weights@),
                fid == m.feedings[i as int].id,
                forall|b: int| 0 <= b < j ==> (#[trigger] m.weights[b].id) != fid,
            decreases nw - j,
        {
            proof {
                assert(m.weights[j as int] == weights@[j as int]@);
            }
            if weights[j].id == fid {
                proof {
                    if m.wf() {
                        assert(m.feedings[i as int].id != m.weights[j as int].id);
                    }
                }
                return false;
            }
            j = j + 1;
        }
        i = i + 1;
    }
    let mut i: usize = 0;
    while i < nd
        invariant
            m == (StoreModel {
                feedings: views_of(feedings@),
                dejections: views_of(dejections@),
                weights: views_of(weights@),
                next_id,
            }),
            i <= nd,
            nd == dejections@.len(),
            nw == weights@.len(),
            m.dejections == views_of(dejections@),
            m.weights == views_of(weights@),
            forall|a: int, b: int|
                0 <= a < i && 0 <= b < nw ==> (#[trigger] m.dejections[a].id) != (
                #[trigger] m.weights[b].id),
        decreases nd - i,
    {
        proof {
            assert(m.dejections[i as int] == dejections@[i as int]@);
        }
        let did = dejections[i].id;
        let mut j: usize = 0;
        while j < nw
            invariant
                m == (StoreModel {
                feedings: views_of(feedings@),
                dejections: views_of(dejections@),
                weights: views_of(weights@),
                next_id,
            }),
            m == (StoreModel {
                feedings: views_of(feedings@),
                dejections: views_of(dejections@),
                weights: views_of(weights@),
                next_id,
            }),
                j <= nw,
                i < nd,
                nd == dejections@.len(),
                nw == weights@.len(),
                m.dejections == views_of(dejections@),
                m.weights == views_of(weights@),
                did == m.dejections[i as int].id,
                forall|b: int| 0 <= b < j ==> (#[trigger] m.weights[b].id) != did,
            decreases nw - j,
        {
            proof {
                assert(m.weights[j as int] == weights@[j as int]@);
            }
            if weights[j].id == did {
                proof {
                    if m.wf() {
                        assert(m.dejections[i as int].id != m.weights[j as int].id);
                    }
                }
                return false;
            }
            j = j + 1;
        }
        i = i + 1;
    }
    true
}

impl Store {
    /// An empty store; the identity sequence starts at 1.
    pub fn new() -> (r: Store)
        ensures
            r@ == (StoreModel {
                feedings: Seq::<FeedingModel>::empty(),
                dejections: Seq::<DejectionModel>::empty(),
                weights: Seq::<WeightModel>::empty(),
                next_id: 1u32,
            }),
            r@.wf(),
    {
        let s = Store { feedings: Vec::new(), dejections: Vec::new(), weights: Vec::new(), next_id: 1 };
        proof {
            assert(views_of(s.feedings@) =~= Seq::<FeedingModel>::empty());
            assert(views_of(s.dejections@) =~= Seq::<DejectionModel>::empty());
            assert(views_of(s.weights@) =~= Seq::<WeightModel>::empty());
        }
        s
    }

    /// Whether the identity sequence is exhausted; no more records can be
    /// added once it is.
    pub fn at_id_capacity(&self) -> (r: bool)
        ensures
            r == (self@.next_id == u32::MAX),
    {
        self.next_id == u32::MAX
    }

    /// Assigns the next id to the feeding, appends it, and returns the id.
    pub fn add_feeding(&mut self, feeding: Feeding) -> (id: u64)
        requires
            old(self)@.wf(),
            old(self)@.next_id < u32::MAX,
            feeding@.timestamp.wf(),
        ensures
            final(self)@.wf(),
            id == old(self)@.next_id as u64,
            final(self)@.next_id == old(self)@.next_id + 1,
            final(self)@.feedings == old(self)@.feedings.push(
                FeedingModel { id: id, ..feeding@ },
            ),
            final(self)@.dejections == old(self)@.dejections,
            final(self)@.weights == old(self)@.weights,
    {
        let id = self.next_id as u64;
        let mut f = feeding;
        f.id = id;
        self.next_id = self.next_id + 1;
        self.feedings.push(f);
        proof {
            assert(views_of(self.feedings@) =~= views_of(old(self).feedings@).push(f@));
            assert(f@ =~= (FeedingModel { id: id, ..feeding@ }));
        }
        id
    }

    /// Assigns the next id to the dejection, appends it, and returns the id.
    pub fn add_dejection(&mut self, dejection: Dejection) -> (id: u64)
        requires
            old(self)@.wf(),
            old(self)@.next_id < u32::MAX,
            dejection@.timestamp.wf(),
        ensures
            final(self)@.wf(),
            id == old(self)@.next_id as u64,
            final(self)@.next_id == old(self)@.next_id + 1,
            final(self)@.dejections == old(self)@.dejections.push(
                DejectionModel { id: id, ..dejection@ },
            ),
            final(self)@.feedings == old(self)@.feedings,
            final(self)@.weights == old(self)@.weights,
    {
        let id = self.next_id as u64;
        let mut d = dejection;
        d.id = id;
        self.next_id = self.next_id + 1;
        self.dejections.push(d);
        proof {
            assert(views_of(self.dejections@) =~= views_of(old(self).dejections@).push(d@));
            assert(d@ =~= (DejectionModel { id: id, ..dejection@ }));
        }
        id
    }

    /// Assigns the next id to the weight, appends it, and returns the id.
    pub fn add_weight(&mut self, weight: Weight) -> (id: u64)
        requires
            old(self)@.wf(),
            old(self)@.next_id < u32::MAX,
            weight@.timestamp.wf(),
        ensures
            final(self)@.wf(),
            id == old(self)@.next_id as u64,
            final(self)@.next_id == old(self)@.next_id + 1,
            final(self)@.weights == old(self)@.weights.push(WeightModel { id: id, ..weight@ }),
            final(self)@.feedings == old(self)@.feedings,
            final(self)@.dejections == old(self)@.dejections,
    {
        let id = self.next_id as u64;
        let mut w = weight;
        w.id = id;
        self.next_id = self.next_id + 1;
        self.weights.push(w);
        proof {
            assert(views_of(self.weights@) =~= views_of(old(self).weights@).push(w@));
            assert(w@ =~= (WeightModel { id: id, ..weight@ }));
        }
        id
    }

    /// Removes the feeding with the given id, if present; reports whether
    /// a removal occurred.
    pub fn delete_feeding(&mut self, id: u64) -> (r: bool)
        requires
            old(self)@.wf(),
        ensures
            final(self)@.wf(),
            final(self)@.feedings == old(self)@.feedings.filter(feeding_keep_pred(id)),
            final(self)@.dejections == old(self)@.dejections,
            final(self)@.weights == old(self)@.weights,
            final(self)@.next_id == old(self)@.next_id,
            r == has_feeding_id(old(self)@.feedings, id),
    {
        let ghost m = self@.feedings;
        let ghost p = feeding_keep_pred(id);
        let n = self.feedings.len();
        let mut kept: Vec<Feeding> = Vec::new();
        let mut found = false;
        let mut i: usize = 0;
        proof {
            assert(m.take(0).filter(p) =~= views_of(kept@));
        }
        while i < n
            invariant
                i <= n,
            n == self.feedings@.len(),
                m == views_of(self.feedings@),
                m.len() == n,
                p == feeding_keep_pred(id),
                views_of(kept@) == m.take(i as int).filter(p),
                found == has_feeding_id(m.take(i as int), id),
            decreases n - i,
    {
            let ghost pre = m.take(i as int);
            proof {
                lemma_filter_push(pre, p, m[i as int]);
                assert(m.take(i as int + 1).drop_last() =~= pre);
                assert(m.take(i as int + 1) =~= pre.push(m[i as int]));
            }
            let ghost kpre = views_of(kept@);
            let f = &self.feedings[i];
            proof {
                assert(m[i as int] == self.feedings@[i as int]@);
            }
            if f.id == id {
                found = true;
                proof {
                    assert(!p(m[i as int]));
                }
            } else {
                kept.push(f.clone());
                proof {
                    assert(p(m[i as int]));
                    assert(views_of(kept@) =~= kpre.push(m[i as int]));
                }
            }
            i = i + 1;
            proof {
                assert(m.take(i as int) == pre.push(m[i as int - 1]));
                assert(views_of(kept@) == m.take(i as int).filter(p));
                if found {
                    if has_feeding_id(m.take(i as int - 1), id) {
                        lemma_has_feeding_id_take(m, i as int - 1, i as int, id);
                    } else {
                        assert(m.take(i as int)[i as int - 1].id == id);
                    }
                }
            }
        }
        proof {
            assert(m.take(n as int) =~= m);
        }
        self.feedings = kept;
        proof {
            lemma_filter_elems(m, p);
            lemma_filter_distinct(m, p, |f: FeedingModel| f.id);
            let fm = m.filter(p);
            assert forall|k: int| 0 <= k < fm.len() implies {
                let f = #[trigger] fm[k];
                1 <= f.id && f.id < self@.next_id && f.timestamp.wf()
            } by {
                let ghost k0 = choose|k0: int| 0 <= k0 < m.len() && m[k0] == fm[k];
            }
            assert(self@.feedings_ok());
            assert forall|a: int, b: int|
                0 <= a < self@.feedings.len() && 0 <= b < self@.dejections.len() implies (
            #[trigger] self@.feedings[a].id) != (#[trigger] self@.dejections[b].id) by {
                let ghost k0 = choose|k0: int| 0 <= k0 < m.len() && m[k0] == fm[a];
            }
            assert forall|a: int, b: int|
                0 <= a < self@.feedings.len() && 0 <= b < self@.weights.len() implies (
            #[trigger] self@.feedings[a].id) != (#[trigger] self@.weights[b].id) by {
                let ghost k0 = choose|k0: int| 0 <= k0 < m.len() && m[k0] == fm[a];
            }
        }
        found
    }

    /// Removes the dejection with the given id, if present.
    pub fn delete_dejection(&mut self, id: u64) -> (r: bool)
        requires
            old(self)@.wf(),
        ensures
            final(self)@.wf(),
            final(self)@.dejections == old(self)@.dejections.filter(dejection_keep_pred(id)),
            final(self)@.feedings == old(self)@.feedings,
            final(self)@.weights == old(self)@.weights,
            final(self)@.next_id == old(self)@.next_id,
            r == has_dejection_id(old(self)@.dejections, id),
    {
        let ghost m = self@.dejections;
        let ghost p = dejection_keep_pred(id);
        let n = self.dejections.len();
        let mut kept: Vec<Dejection> = Vec::new();
        let mut found = false;
        let mut i: usize = 0;
        proof {
            assert(m.take(0).filter(p) =~= views_of(kept@));
        }
        while i < n
            invariant
                i <= n,
                n == self.dejections@.len(),
                m == views_of(self.dejections@),
                m.len() == n,
                p == dejection_keep_pred(id),
                views_of(kept@) == m.take(i as int).filter(p),
                found == has_dejection_id(m.take(i as int), id),
            decreases n - i,
        {
            let ghost pre = m.take(i as int);
            proof {
                lemma_filter_push(pre, p, m[i as int]);
                assert(m.take(i as int + 1).drop_last() =~= pre);
                assert(m.take(i as int + 1) =~= pre.push(m[i as int]));
            }
            let ghost kpre = views_of(kept@);
            let d = &self.dejections[i];
            proof {
                assert(m[i as int] == self.dejections@[i as int]@);
            }
            if d.id == id {
                found = true;
                proof {
                    assert(!p(m[i as int]));
                }
            } else {
                kept.push(d.clone());
                proof {
                    assert(p(m[i as int]));
                    assert(views_of(kept@) =~= kpre.push(m[i as int]));
                }
            }
            i = i + 1;
            proof {
                assert(m.take(i as int) == pre.push(m[i as int - 1]));
                assert(views_of(kept@) == m.take(i as int).filter(p));
                if found {
                    if has_dejection_id(m.take(i as int - 1), id) {
                        lemma_has_dejection_id_take(m, i as int - 1, i as int, id);
                    } else {
                        assert(m.take(i as int)[i as int - 1].id == id);
                    }
                }
            }
        }
        proof {
            assert(m.take(n as int) =~= m);
        }
        self.dejections = kept;
        proof {
            lemma_filter_elems(m, p);
            lemma_filter_distinct(m, p, |d: DejectionModel| d.id);
            let dm = m.filter(p);
            assert forall|k: int| 0 <= k < dm.len() implies {
                let d = #[trigger] dm[k];
                1 <= d.id && d.id < self@.next_id && d.timestamp.wf()
            } by {
                let ghost k0 = choose|k0: int| 0 <= k0 < m.len() && m[k0] == dm[k];
            }
            assert(self@.dejections_ok());
            assert forall|a: int, b: int|
                0 <= a < self@.feedings.len() && 0 <= b < self@.dejections.len() implies (
            #[trigger] self@.feedings[a].id) != (#[trigger] self@.dejections[b].id) by {
                let ghost k0 = choose|k0: int| 0 <= k0 < m.len() && m[k0] == dm[b];
            }
            assert forall|a: int, b: int|
                0 <= a < self@.dejections.len() && 0 <= b < self@.weights.len() implies (
            #[trigger] self@.dejections[a].id) != (#[trigger] self@.weights[b].id) by {
                let ghost k0 = choose|k0: int| 0 <= k0 < m.len() && m[k0] == dm[a];
            }
        }
        found
    }

    /// Removes the weight with the given id, if present.
    pub fn delete_weight(&mut self, id: u64) -> (r: bool)
        requires
            old(self)@.wf(),
        ensures
            final(self)@.wf(),
            final(self)@.weights == old(self)@.weights.filter(weight_keep_pred(id)),
            final(self)@.feedings == old(self)@.feedings,
            final(self)@.dejections == old(self)@.dejections,
            final(self)@.next_id == old(self)@.next_id,
            r == has_weight_id(old(self)@.weights, id),
    {
        let ghost m = self@.weights;
        let ghost p = weight_keep_pred(id);
        let n = self.weights.len();
        let mut kept: Vec<Weight> = Vec::new();
        let mut found = false;
        let mut i: usize = 0;
        proof {
            assert(m.take(0).filter(p) =~= views_of(kept@));
        }
        while i < n
            invariant
                i <= n,
                n == self.weights@.len(),
                m == views_of(self.weights@),
                m.len() == n,
                p == weight_keep_pred(id),
                views_of(kept@) == m.take(i as int).filter(p),
                found == has_weight_id(m.take(i as int), id),
            decreases n - i,
        {
            let ghost pre = m.take(i as int);
            proof {
                lemma_filter_push(pre, p, m[i as int]);
                assert(m.take(i as int + 1).drop_last() =~= pre);
                assert(m.take(i as int + 1) =~= pre.push(m[i as int]));
            }
            let ghost kpre = views_of(kept@);
            let w = &self.weights[i];
            proof {
                assert(m[i as int] == self.weights@[i as int]@);
            }
            if w.id == id {
                found = true;
                proof {
                    assert(!p(m[i as int]));
                }
            } else {
                kept.push(w.clone());
                proof {
                    assert(p(m[i as int]));
                    assert(views_of(kept@) =~= kpre.push(m[i as int]));
                }
            }
            i = i + 1;
            proof {
                assert(m.take(i as int) == pre.push(m[i as int - 1]));
                assert(views_of(kept@) == m.take(i as int).filter(p));
                if found {
                    if has_weight_id(m.take(i as int - 1), id) {
                        lemma_has_weight_id_take(m, i as int - 1, i as int, id);
                    } else {
                        assert(m.take(i as int)[i as int - 1].id == id);
                    }
                }
            }
        }
        proof {
            assert(m.take(n as int) =~= m);
        }
        self.weights = kept;
        proof {
            lemma_filter_elems(m, p);
            lemma_filter_distinct(m, p, |w: WeightModel| w.id);
            let wm = m.filter(p);
            assert forall|k: int| 0 <= k < wm.len() implies {
                let w = #[trigger] wm[k];
                1 <= w.id && w.id < self@.next_id && w.timestamp.wf()
            } by {
                let ghost k0 = choose|k0: int| 0 <= k0 < m.len() && m[k0] == wm[k];
            }
            assert(self@.weights_ok());
            assert forall|a: int, b: int|
                0 <= a < self@.feedings.len() && 0 <= b < self@.weights.len() implies (
            #[trigger] self@.feedings[a].id) != (#[trigger] self@.weights[b].id) by {
                let ghost k0 = choose|k0: int| 0 <= k0 < m.len() && m[k0] == wm[b];
            }
            assert forall|a: int, b: int|
                0 <= a < self@.dejections.len() && 0 <= b < self@.weights.len() implies (
            #[trigger] self@.dejections[a].id) != (#[trigger] self@.weights[b].id) by {
                let ghost k0 = choose|k0: int| 0 <= k0 < m.len() && m[k0] == wm[b];
            }
        }
        found
    }

    /// Replaces every field except `id` and `baby_name` of the feeding
    /// with the given id, if present; reports whether the target existed.
    pub fn update_feeding(&mut self, id: u64, updated: Feeding) -> (r: bool)
        requires
            old(self)@.wf(),
            updated@.timestamp.wf(),
        ensures
            final(self)@.wf(),
            r == has_feeding_id(old(self)@.feedings, id),
            !r ==> final(self)@ == old(self)@,
            final(self)@.next_id == old(self)@.next_id,
            forall|k: int|
                0 <= k < old(self)@.feedings.len() && old(self)@.feedings[k].id == id
                    ==> final(self)@.feedings == old(self)@.feedings.update(
                    k,
                    FeedingModel {
                        id: id,
                        baby_name: old(self)@.feedings[k].baby_name,
                    feeding_type: updated@.feeding_type,
                    amount_ml: updated@.amount_ml,
                    duration_minutes: updated@.duration_minutes,
                    notes: updated@.notes,
                    timestamp: updated@.timestamp,
                    },
                ),
            final(self)@.dejections == old(self)@.dejections,
            final(self)@.weights == old(self)@.weights,
    {
        let ghost m = self@.feedings;
        let n = self.feedings.len();
        let mut i: usize = 0;
        while i < n
            invariant
                i <= n,
                n == self.feedings@.len(),
                self@ == old(self)@,
                old(self)@.wf(),
                updated@.timestamp.wf(),
                m == self@.feedings,
                forall|k: int| 0 <= k < i ==> (#[trigger] m[k]).id != id,
            decreases n - i,
        {
            proof {
                assert(m[i as int] == self.feedings@[i as int]@);
            }
            if self.feedings[i].id == id {
                let prev = self.feedings.remove(i);
                let replaced = Feeding {
                    id: prev.id,
                    baby_name: prev.baby_name,
                    feeding_type: updated.feeding_type,
                    amount_ml: updated.amount_ml,
                    duration_minutes: updated.duration_minutes,
                    notes: updated.notes,
                    timestamp: updated.timestamp,
                };
                self.feedings.insert(i, replaced);
                proof {
                    assert(views_of(self.feedings@) =~= m.update(
                        i as int,
                        FeedingModel {
                            id: id,
                            baby_name: m[i as int].baby_name,
                            feeding_type: updated@.feeding_type,
                            amount_ml: updated@.amount_ml,
                            duration_minutes: updated@.duration_minutes,
                            notes: updated@.notes,
                            timestamp: updated@.timestamp,
                        },
                    ));
                    assert(has_feeding_id(old(self)@.feedings, id)) by {
                        assert(old(self)@.feedings[i as int].id == id);
                    }
                    assert forall|a: int, b: int|
                        0 <= a < self@.feedings.len() && 0 <= b < self@.feedings.len() && a != b
                        implies (#[trigger] self@.feedings[a].id) != (#[trigger] self@.feedings[b].id) by {
                        assert(self@.feedings[a].id == old(self)@.feedings[a].id);
                        assert(self@.feedings[b].id == old(self)@.feedings[b].id);
                    }
                    assert forall|k: int|
                        0 <= k < old(self)@.feedings.len() && old(self)@.feedings[k].id == id
                        implies final(self)@.feedings == old(self)@.feedings.update(
                        k,
                        FeedingModel {
                            id: id,
                            baby_name: old(self)@.feedings[k].baby_name,
                            feeding_type: updated@.feeding_type,
                            amount_ml: updated@.amount_ml,
                            duration_minutes: updated@.duration_minutes,
                            notes: updated@.notes,
                            timestamp: updated@.timestamp,
                        },
                    ) by {
                        if k != i as int {
                            assert(old(self)@.feedings[k].id != old(self)@.feedings[i as int].id);
                            assert(false);
                        }
                    }
                }
                return true;
            }
            i = i + 1;
        }
        proof {
            if has_feeding_id(m, id) {
                let ghost k0 = choose|k0: int| 0 <= k0 < m.len() && m[k0].id == id;
                assert(m[k0].id != id);
            }
        }
        false
    }

    /// Replaces every field except `id` and `baby_name` of the dejection
    /// with the given id, if present; reports whether the target existed.
    pub fn update_dejection(&mut self, id: u64, updated: Dejection) -> (r: bool)
        requires
            old(self)@.wf(),
            updated@.timestamp.wf(),
        ensures
            final(self)@.wf(),
            r == has_dejection_id(old(self)@.dejections, id),
            !r ==> final(self)@ == old(self)@,
            final(self)@.next_id == old(self)@.next_id,
            forall|k: int|
                0 <= k < old(self)@.dejections.len() && old(self)@.dejections[k].id == id
                    ==> final(self)@.dejections == old(self)@.dejections.update(
                    k,
                    DejectionModel {
                        id: id,
                        baby_name: old(self)@.dejections[k].baby_name,
                    dejection_type: updated@.dejection_type,
                    notes: updated@.notes,
                    timestamp: updated@.timestamp,
                    },
                ),
            final(self)@.feedings == old(self)@.feedings,
            final(self)@.weights == old(self)@.weights,
    {
        let ghost m = self@.dejections;
        let n = self.dejections.len();
        let mut i: usize = 0;
        while i < n
            invariant
                i <= n,
                n == self.dejections@.len(),
                self@ == old(self)@,
                old(self)@.wf(),
                updated@.timestamp.wf(),
                m == self@.dejections,
                forall|k: int| 0 <= k < i ==> (#[trigger] m[k]).id != id,
            decreases n - i,
        {
            proof {
                assert(m[i as int] == self.dejections@[i as int]@);
            }
            if self.dejections[i].id == id {
                let prev = self.dejections.remove(i);
                let replaced = Dejection {
                    id: prev.id,
                    baby_name: prev.baby_name,
                    dejection_type: updated.dejection_type,
                    notes: updated.notes,
                    timestamp: updated.timestamp,
                };
                self.dejections.insert(i, replaced);
                proof {
                    assert(views_of(self.dejections@) =~= m.update(
                        i as int,
                        DejectionModel {
                            id: id,
                            baby_name: m[i as int].baby_name,
                            dejection_type: updated@.dejection_type,
                            notes: updated@.notes,
                            timestamp: updated@.timestamp,
                        },
                    ));
                    assert(has_dejection_id(old(self)@.dejections, id)) by {
                        assert(old(self)@.dejections[i as int].id == id);
                    }
                    assert forall|a: int, b: int|
                        0 <= a < self@.dejections.len() && 0 <= b < self@.dejections.len() && a != b
                        implies (#[trigger] self@.dejections[a].id) != (#[trigger] self@.dejections[b].id) by {
                        assert(self@.dejections[a].id == old(self)@.dejections[a].id);
                        assert(self@.dejections[b].id == old(self)@.dejections[b].id);
                    }
                    assert forall|k: int|
                        0 <= k < old(self)@.dejections.len() && old(self)@.dejections[k].id == id
                        implies final(self)@.dejections == old(self)@.dejections.update(
                        k,
                        DejectionModel {
                            id: id,
                            baby_name: old(self)@.dejections[k].baby_name,
                            dejection_type: updated@.dejection_type,
                            notes: updated@.notes,
                            timestamp: updated@.timestamp,
                        },
                    ) by {
                        if k != i as int {
                            assert(old(self)@.dejections[k].id != old(self)@.dejections[i as int].id);
                            assert(false);
                        }
                    }
                }
                return true;
            }
            i = i + 1;
        }
        proof {
            if has_dejection_id(m, id) {
                let ghost k0 = choose|k0: int| 0 <= k0 < m.len() && m[k0].id == id;
                assert(m[k0].id != id);
            }
        }
        false
    }

    /// Replaces every field except `id` and `baby_name` of the weight
    /// with the given id, if present; reports whether the target existed.
    pub fn update_weight(&mut self, id: u64, updated: Weight) -> (r: bool)
        requires
            old(self)@.wf(),
            updated@.timestamp.wf(),
        ensures
            final(self)@.wf(),
            r == has_weight_id(old(self)@.weights, id),
            !r ==> final(self)@ == old(self)@,
            final(self)@.next_id == old(self)@.next_id,
            forall|k: int|
                0 <= k < old(self)@.weights.len() && old(self)@.weights[k].id == id
                    ==> final(self)@.weights == old(self)@.weights.update(
                    k,
                    WeightModel {
                        id: id,
                        baby_name: old(self)@.weights[k].baby_name,
                    weight_g: updated@.weight_g,
                    notes: updated@.notes,
                    timestamp: updated@.timestamp,
                    },
                ),
            final(self)@.feedings == old(self)@.feedings,
            final(self)@.dejections == old(self)@.dejections,
    {
        let ghost m = self@.weights;
        let n = self.weights.len();
        let mut i: usize = 0;
        while i < n
            invariant
                i <= n,
                n == self.weights@.len(),
                self@ == old(self)@,
                old(self)@.wf(),
                updated@.timestamp.wf(),
                m == self@.weights,
                forall|k: int| 0 <= k < i ==> (#[trigger] m[k]).id != id,
            decreases n - i,
        {
            proof {
                assert(m[i as int] == self.weights@[i as int]@);
            }
            if self.weights[i].id == id {
                let prev = self.weights.remove(i);
                let replaced = Weight {
                    id: prev.id,
                    baby_name: prev.baby_name,
                    weight_g: updated.weight_g,
                    notes: updated.notes,
                    timestamp: updated.timestamp,
                };
                self.weights.insert(i, replaced);
                proof {
                    assert(views_of(self.weights@) =~= m.update(
                        i as int,
                        WeightModel {
                            id: id,
                            baby_name: m[i as int].baby_name,
                            weight_g: updated@.weight_g,
                            notes: updated@.notes,
                            timestamp: updated@.timestamp,
                        },
                    ));
                    assert(has_weight_id(old(self)@.weights, id)) by {
                        assert(old(self)@.weights[i as int].id == id);
                    }
                    assert forall|a: int, b: int|
                        0 <= a < self@.weights.len() && 0 <= b < self@.weights.len() && a != b
                        implies (#[trigger] self@.weights[a].id) != (#[trigger] self@.weights[b].id) by {
                        assert(self@.weights[a].id == old(self)@.weights[a].id);
                        assert(self@.weights[b].id == old(self)@.weights[b].id);
                    }
                    assert forall|k: int|
                        0 <= k < old(self)@.weights.len() && old(self)@.weights[k].id == id
                        implies final(self)@.weights == old(self)@.weights.update(
                        k,
                        WeightModel {
                            id: id,
                            baby_name: old(self)@.weights[k].baby_name,
                            weight_g: updated@.weight_g,
                            notes: updated@.notes,
                            timestamp: updated@.timestamp,
                        },
                    ) by {
                        if k != i as int {
                            assert(old(self)@.weights[k].id != old(self)@.weights[i as int].id);
                            assert(false);
                        }
                    }
                }
                return true;
            }
            i = i + 1;
        }
        proof {
            if has_weight_id(m, id) {
                let ghost k0 = choose|k0: int| 0 <= k0 < m.len() && m[k0].id == id;
                assert(m[k0].id != id);
            }
        }
        false
    }

    /// Feedings matching the optional name filter, newest first (stable:
    /// equal timestamps keep store order), truncated to `limit` entries.
    pub fn list_feedings(&self, baby_name: Option<&str>, limit: usize) -> (r: Vec<Feeding>)
        ensures
            ({
                let filtered = self@.feedings.filter(feeding_name_pred(view_filter(baby_name)));
                let sorted = spec_sort::<Feeding>(filtered);
                views_of(r@) == sorted.take(
                    if limit as int <= sorted.len() {
                        limit as int
                    } else {
                        sorted.len() as int
                    },
                )
            }),
    {
        let ghost m = self@.feedings;
        let ghost p = feeding_name_pred(view_filter(baby_name));
        let n = self.feedings.len();
        let mut matching: Vec<Feeding> = Vec::new();
        let mut i: usize = 0;
        proof {
            assert(m.take(0).filter(p) =~= views_of(matching@));
        }
        while i < n
            invariant
                i <= n,
                n == self.feedings@.len(),
                m == views_of(self.feedings@),
                m.len() == n,
                p == feeding_name_pred(view_filter(baby_name)),
                views_of(matching@) == m.take(i as int).filter(p),
            decreases n - i,
        {
            let ghost pre = m.take(i as int);
            proof {
                lemma_filter_push(pre, p, m[i as int]);
                assert(m.take(i as int + 1).drop_last() =~= pre);
                assert(m.take(i as int + 1) =~= pre.push(m[i as int]));
                assert(m[i as int] == self.feedings@[i as int]@);
            }
            let ghost kpre = views_of(matching@);
            let f = &self.feedings[i];
            if opt_name_matches(&f.baby_name, &baby_name) {
                matching.push(f.clone());
                proof {
                    assert(p(m[i as int]));
                    assert(views_of(matching@) =~= kpre.push(m[i as int]));
                }
            } else {
                proof {
                    assert(!p(m[i as int]));
                }
            }
            i = i + 1;
            proof {
                assert(m.take(i as int) == pre.push(m[i as int - 1]));
                assert(views_of(matching@) == m.take(i as int).filter(p));
            }
        }
        proof {
            assert(m.take(n as int) =~= m);
        }
        let mut result = sort_by_key(matching);
        let ghost sorted = spec_sort::<Feeding>(m.filter(p));
        proof {
            assert(sorted.take(sorted.len() as int) =~= sorted);
        }
        while result.len() > limit
            invariant
                sorted == spec_sort::<Feeding>(m.filter(p)),
                views_of(result@) == sorted.take(result@.len() as int),
                result@.len() <= sorted.len(),
                limit as int <= result@.len() || result@.len() == sorted.len(),
            decreases result@.len(),
        {
            let ghost rpre = views_of(result@);
            result.pop();
            proof {
                assert(views_of(result@) =~= rpre.drop_last());
                assert(sorted.take(result@.len() as int) =~= rpre.drop_last());
            }
        }
        result
    }

    /// The feedings collection, for read-only queries.
    pub(crate) fn feedings_ref(&self) -> (r: &Vec<Feeding>)
        ensures
            views_of(r@) == self@.feedings,
    {
        &self.feedings
    }

    /// The dejections collection, for read-only queries.
    pub(crate) fn dejections_ref(&self) -> (r: &Vec<Dejection>)
        ensures
            views_of(r@) == self@.dejections,
    {
        &self.dejections
    }

    /// The weights collection, for read-only queries.
    pub(crate) fn weights_ref(&self) -> (r: &Vec<Weight>)
        ensures
            views_of(r@) == self@.weights,
    {
        &self.weights
    }

    /// The identity counter, for persistence.
    pub(crate) fn next_id_value(&self) -> (r: u32)
        ensures
            r == self@.next_id,
    {
        self.next_id
    }

    /// Assembles a store from parsed parts; the caller establishes
    /// well-formedness separately.
    pub(crate) fn from_parts(
        feedings: Vec<Feeding>,
        dejections: Vec<Dejection>,
        weights: Vec<Weight>,
        next_id: u32,
    ) -> (r: Store)
        ensures
            r@ == (StoreModel {
                feedings: views_of(feedings@),
                dejections: views_of(dejections@),
                weights: views_of(weights@),
                next_id,
            }),
    {
        Store { feedings, dejections, weights, next_id }
    }
}

} // verus!
