//! Whole-document persistence: the store serializes to one compact JSON
//! document and is reconstructed from one. The document holds the three
//! collections and the identity counter; a document written before the
//! dejection or weight collections existed simply lacks those keys and
//! loads with the missing collections empty.

use vstd::prelude::*;
use vstd::string::StringExecFns;

use crate::json::{push_json_string, spec_json_string, spec_kg_text};
use crate::models::{
    spec_feeding_tag, spec_dejection_tag, Dejection, DejectionModel, Feeding, FeedingModel,
    Weight, WeightModel,
};
use crate::sort::views_of;
use crate::store::{Store, StoreModel};
use crate::text::{chars_to_string, push_dec, spec_dec, spec_pad3};
use crate::time::spec_ts_text;

verus! {

/// `null`, as characters.
pub open spec fn null_chars() -> Seq<char> {
    seq!['n', 'u', 'l', 'l']
}

/// An optional count: its decimal digits, or `null`.
pub open spec fn spec_opt_dec(v: Option<u32>) -> Seq<char> {
    match v {
        Some(x) => spec_dec(x as int),
        None => null_chars(),
    }
}

/// An optional string: a JSON string token, or `null`.
pub open spec fn spec_opt_string(v: Option<Seq<char>>) -> Seq<char> {
    match v {
        Some(x) => spec_json_string(x),
        None => null_chars(),
    }
}

/// One feeding, as a JSON object.
pub open spec fn spec_feeding_json(f: FeedingModel) -> Seq<char> {
    "{\"id\":"@ + spec_dec(f.id as int) + ",\"baby_name\":"@ + spec_json_string(f.baby_name)
        + ",\"feeding_type\":"@ + spec_json_string(spec_feeding_tag(f.feeding_type))
        + ",\"amount_ml\":"@ + spec_opt_dec(f.amount_ml) + ",\"duration_minutes\":"@
        + spec_opt_dec(f.duration_minutes) + ",\"notes\":"@ + spec_opt_string(f.notes)
        + ",\"timestamp\":"@ + spec_json_string(spec_ts_text(f.timestamp)) + seq!['}']
}

/// One dejection, as a JSON object.
pub open spec fn spec_dejection_json(d: DejectionModel) -> Seq<char> {
    "{\"id\":"@ + spec_dec(d.id as int) + ",\"baby_name\":"@ + spec_json_string(d.baby_name)
        + ",\"dejection_type\":"@ + spec_json_string(spec_dejection_tag(d.dejection_type))
        + ",\"notes\":"@ + spec_opt_string(d.notes) + ",\"timestamp\":"@ + spec_json_string(
        spec_ts_text(d.timestamp),
    ) + seq!['}']
}

/// One weight, as a JSON object; the grams are written as kilograms
/// with three decimals.
pub open spec fn spec_weight_json(w: WeightModel) -> Seq<char> {
    "{\"id\":"@ + spec_dec(w.id as int) + ",\"baby_name\":"@ + spec_json_string(w.baby_name)
        + ",\"weight_kg\":"@ + spec_kg_text(w.weight_g as int) + ",\"notes\":"@ + spec_opt_string(
        w.notes,
    ) + ",\"timestamp\":"@ + spec_json_string(spec_ts_text(w.timestamp)) + seq!['}']
}

/// Comma-joined items.
pub open spec fn spec_join(parts: Seq<Seq<char>>) -> Seq<char>
    decreases parts.len(),
{
    if parts.len() == 0 {
        Seq::empty()
    } else if parts.len() == 1 {
        parts[0]
    } else {
        parts[0] + seq![','] + spec_join(parts.drop_first())
    }
}

/// A JSON array of the given rendered items.
pub open spec fn spec_array(parts: Seq<Seq<char>>) -> Seq<char> {
    seq!['['] + spec_join(parts) + seq![']']
}

/// The feeding-object renderer, as a function value.
pub open spec fn feeding_json_fn() -> spec_fn(FeedingModel) -> Seq<char> {
    |f: FeedingModel| spec_feeding_json(f)
}

pub open spec fn dejection_json_fn() -> spec_fn(DejectionModel) -> Seq<char> {
    |d: DejectionModel| spec_dejection_json(d)
}

pub open spec fn weight_json_fn() -> spec_fn(WeightModel) -> Seq<char> {
    |w: WeightModel| spec_weight_json(w)
}

/// The whole interchange document of a store.
pub open spec fn spec_doc(m: StoreModel) -> Seq<char> {
    "{\"feedings\":"@ + spec_array(m.feedings.map_values(feeding_json_fn()))
        + ",\"dejections\":"@ + spec_array(m.dejections.map_values(dejection_json_fn()))
        + ",\"weights\":"@ + spec_array(m.weights.map_values(weight_json_fn())) + ",\"next_id\":"@
        + spec_dec(m.next_id as int) + seq!['}']
}

/// Appends every character of a string slice.
fn push_str(out: &mut Vec<char>, s: &str)
    ensures
        final(out)@ == old(out)@ + s@,
{
    let n = s.unicode_len();
    let mut i: usize = 0;
    proof {
        assert(out@ =~= old(out)@ + s@.take(0));
    }
    while i < n
        invariant
            i <= n,
            n == s@.len(),
            out@ == old(out)@ + s@.take(i as int),
        decreases n - i,
    {
        out.push(s.get_char(i));
        i = i + 1;
        proof {
            assert(out@ =~= old(out)@ + s@.take(i as int));
        }
    }
    proof {
        assert(s@.take(n as int) =~= s@);
    }
}

fn push_null(out: &mut Vec<char>)
    ensures
        final(out)@ == old(out)@ + null_chars(),
{
    out.push('n');
    out.push('u');
    out.push('l');
    out.push('l');
    proof {
        assert(out@ =~= old(out)@ + null_chars());
    }
}

fn push_opt_dec(out: &mut Vec<char>, v: &Option<u32>)
    ensures
        final(out)@ == old(out)@ + spec_opt_dec(*v),
{
    match v {
        Some(x) => push_dec(out, *x as u64),
        None => push_null(out),
    }
}

fn push_opt_string(out: &mut Vec<char>, v: &Option<String>)
    ensures
        final(out)@ == old(out)@ + spec_opt_string(crate::models::view_opt_str(*v)),
{
    match v {
        Some(x) => push_json_string(out, x.as_str()),
        None => push_null(out),
    }
}

#[verifier::rlimit(80)]
fn push_feeding(out: &mut Vec<char>, f: &Feeding)
    ensures
        final(out)@ == old(out)@ + spec_feeding_json(f@),
{
    push_str(out, "{\"id\":");
    push_dec(out, f.id);
    push_str(out, ",\"baby_name\":");
    push_json_string(out, f.baby_name.as_str());
    push_str(out, ",\"feeding_type\":");
    push_json_string(out, f.feeding_type.tag());
    push_str(out, ",\"amount_ml\":");
    push_opt_dec(out, &f.amount_ml);
    push_str(out, ",\"duration_minutes\":");
    push_opt_dec(out, &f.duration_minutes);
    push_str(out, ",\"notes\":");
    push_opt_string(out, &f.notes);
    push_str(out, ",\"timestamp\":");
    let ts_text = f.timestamp.format_text();
    push_json_string(out, ts_text.as_str());
    out.push('}');
    proof {
        assert(out@ =~= old(out)@ + spec_feeding_json(f@));
    }
}

#[verifier::rlimit(80)]
fn push_dejection(out: &mut Vec<char>, d: &Dejection)
    ensures
        final(out)@ == old(out)@ + spec_dejection_json(d@),
{
    push_str(out, "{\"id\":");
    push_dec(out, d.id);
    push_str(out, ",\"baby_name\":");
    push_json_string(out, d.baby_name.as_str());
    push_str(out, ",\"dejection_type\":");
    push_json_string(out, d.dejection_type.tag());
    push_str(out, ",\"notes\":");
    push_opt_string(out, &d.notes);
    push_str(out, ",\"timestamp\":");
    let ts_text = d.timestamp.format_text();
    push_json_string(out, ts_text.as_str());
    out.push('}');
    proof {
        assert(out@ =~= old(out)@ + spec_dejection_json(d@));
    }
}

#[verifier::rlimit(80)]
fn push_weight(out: &mut Vec<char>, w: &Weight)
    ensures
        final(out)@ == old(out)@ + spec_weight_json(w@),
{
    push_str(out, "{\"id\":");
    push_dec(out, w.id);
    push_str(out, ",\"baby_name\":");
    push_json_string(out, w.baby_name.as_str());
    push_str(out, ",\"weight_kg\":");
    crate::json::push_kg(out, w.weight_g);
    push_str(out, ",\"notes\":");
    push_opt_string(out, &w.notes);
    push_str(out, ",\"timestamp\":");
    let ts_text = w.timestamp.format_text();
    push_json_string(out, ts_text.as_str());
    out.push('}');
    proof {
        assert(out@ =~= old(out)@ + spec_weight_json(w@));
    }
}

/// Appending one more rendered item extends a comma-joined list.
pub proof fn lemma_join_snoc(parts: Seq<Seq<char>>, x: Seq<char>)
    ensures
        spec_join(parts.push(x)) == if parts.len() == 0 {
            x
        } else {
            spec_join(parts) + seq![','] + x
        },
    decreases parts.len(),
{
    if parts.len() == 0 {
        assert(parts.push(x)[0] == x);
        assert(spec_join(parts.push(x)) == x);
    } else {
        lemma_join_snoc(parts.drop_first(), x);
        assert(parts.push(x).drop_first() =~= parts.drop_first().push(x));
        assert(parts.push(x)[0] == parts[0]);
        if parts.len() == 1 {
            assert(spec_join(parts.push(x)) == parts[0] + seq![','] + spec_join(
                parts.drop_first().push(x),
            ));
            assert(parts.drop_first().len() == 0);
            assert(spec_join(parts) == parts[0]);
        } else {
            assert(spec_join(parts.push(x)) == parts[0] + seq![','] + spec_join(
                parts.drop_first().push(x),
            ));
            assert(spec_join(parts.drop_first().push(x)) == spec_join(parts.drop_first())
                + seq![','] + x);
            assert(parts[0] + seq![','] + (spec_join(parts.drop_first()) + seq![','] + x) =~= (
            parts[0] + seq![','] + spec_join(parts.drop_first())) + seq![','] + x);
        }
    }
}

impl Store {
    /// The whole store as one interchange document.
    #[verifier::rlimit(80)]
    pub fn to_json(&self) -> (r: String)
        ensures
            r@ == spec_doc(self@),
    {
        let mut out: Vec<char> = Vec::new();
        push_str(&mut out, "{\"feedings\":");
        out.push('[');
        let feedings = self.feedings_ref();
        let nf = feedings.len();
        let ghost mf = self@.feedings;
        let mut i: usize = 0;
        proof {
            assert(mf.take(0).map_values(feeding_json_fn()) =~= Seq::<Seq<char>>::empty());
            assert(out@ =~= "{\"feedings\":"@ + seq!['['] + spec_join(
                mf.take(0).map_values(feeding_json_fn()),
            ));
        }
        while i < nf
            invariant
                i <= nf,
                nf == feedings@.len(),
                mf == views_of(feedings@),
                mf.len() == nf,
                out@ == "{\"feedings\":"@ + seq!['['] + spec_join(
                    mf.take(i as int).map_values(feeding_json_fn()),
                ),
            decreases nf - i,
        {
            if i > 0 {
                out.push(',');
            }
            let ghost parts = mf.take(i as int).map_values(feeding_json_fn());
            push_feeding(&mut out, &feedings[i]);
            i = i + 1;
            proof {
                assert(mf[i - 1] == feedings@[i - 1]@);
                lemma_join_snoc(parts, spec_feeding_json(mf[i - 1]));
                assert(mf.take(i as int) =~= mf.take(i - 1).push(mf[i - 1]));
                assert(mf.take(i as int).map_values(feeding_json_fn()) =~= parts.push(
                    spec_feeding_json(mf[i - 1]),
                ));
                if i == 1 {
                    assert(out@ =~= "{\"feedings\":"@ + seq!['['] + spec_join(
                        mf.take(i as int).map_values(feeding_json_fn()),
                    ));
                } else {
                    assert(out@ =~= "{\"feedings\":"@ + seq!['['] + (spec_join(parts) + seq![',']
                        + spec_feeding_json(mf[i - 1])));
                }
            }
        }
        proof {
            assert(mf.take(nf as int) =~= mf);
        }
        out.push(']');
        push_str(&mut out, ",\"dejections\":");
        out.push('[');
        let ghost base_d = "{\"feedings\":"@ + spec_array(mf.map_values(feeding_json_fn()))
            + ",\"dejections\":"@ + seq!['['];
        proof {
            assert(out@ =~= base_d + spec_join(
                self@.dejections.take(0).map_values(dejection_json_fn()),
            ));
        }
        let dejections = self.dejections_ref();
        let nd = dejections.len();
        let ghost md = self@.dejections;
        let mut j: usize = 0;
        while j < nd
            invariant
                j <= nd,
                nd == dejections@.len(),
                md == views_of(dejections@),
                md.len() == nd,
                out@ == base_d + spec_join(md.take(j as int).map_values(dejection_json_fn())),
            decreases nd - j,
        {
            if j > 0 {
                out.push(',');
            }
            let ghost parts = md.take(j as int).map_values(dejection_json_fn());
            push_dejection(&mut out, &dejections[j]);
            j = j + 1;
            proof {
                assert(md[j - 1] == dejections@[j - 1]@);
                lemma_join_snoc(parts, spec_dejection_json(md[j - 1]));
                assert(md.take(j as int) =~= md.take(j - 1).push(md[j - 1]));
                assert(md.take(j as int).map_values(dejection_json_fn()) =~= parts.push(
                    spec_dejection_json(md[j - 1]),
                ));
                if j == 1 {
                    assert(out@ =~= base_d + spec_join(
                        md.take(j as int).map_values(dejection_json_fn()),
                    ));
                } else {
                    assert(out@ =~= base_d + (spec_join(parts) + seq![','] + spec_dejection_json(
                        md[j - 1],
                    )));
                }
            }
        }
        proof {
            assert(md.take(nd as int) =~= md);
        }
        out.push(']');
        push_str(&mut out, ",\"weights\":");
        out.push('[');
        let ghost base_w = base_d + spec_join(md.map_values(dejection_json_fn())) + seq![']']
            + ",\"weights\":"@ + seq!['['];
        proof {
            assert(out@ =~= base_w + spec_join(
                self@.weights.take(0).map_values(weight_json_fn()),
            ));
        }
        let weights = self.weights_ref();
        let nw = weights.len();
        let ghost mw = self@.weights;
        let mut k: usize = 0;
        while k < nw
            invariant
                k <= nw,
                nw == weights@.len(),
                mw == views_of(weights@),
                mw.len() == nw,
                out@ == base_w + spec_join(mw.take(k as int).map_values(weight_json_fn())),
            decreases nw - k,
        {
            if k > 0 {
                out.push(',');
            }
            let ghost parts = mw.take(k as int).map_values(weight_json_fn());
            push_weight(&mut out, &weights[k]);
            k = k + 1;
            proof {
                assert(mw[k - 1] == weights@[k - 1]@);
                lemma_join_snoc(parts, spec_weight_json(mw[k - 1]));
                assert(mw.take(k as int) =~= mw.take(k - 1).push(mw[k - 1]));
                assert(mw.take(k as int).map_values(weight_json_fn()) =~= parts.push(
                    spec_weight_json(mw[k - 1]),
                ));
                if k == 1 {
                    assert(out@ =~= base_w + spec_join(
                        mw.take(k as int).map_values(weight_json_fn()),
                    ));
                } else {
                    assert(out@ =~= base_w + (spec_join(parts) + seq![','] + spec_weight_json(
                        mw[k - 1],
                    )));
                }
            }
        }
        proof {
            assert(mw.take(nw as int) =~= mw);
        }
        out.push(']');
        push_str(&mut out, ",\"next_id\":");
        push_dec(&mut out, self.next_id_value() as u64);
        out.push('}');
        proof {
            assert(out@ =~= spec_doc(self@));
        }
        chars_to_string(&out)
    }
}

/// The position after a literal, when the text carries it at `i`.
pub open spec fn spec_expect(s: Seq<char>, i: int, lit: Seq<char>) -> Option<int> {
    if 0 <= i && i + lit.len() <= s.len() && s.subrange(i, i + lit.len()) == lit {
        Some(i + lit.len())
    } else {
        None
    }
}

fn expect_lit(v: &Vec<char>, i: usize, lit: &str) -> (r: Option<usize>)
    requires
        i <= v@.len(),
    ensures
        match spec_expect(v@, i as int, lit@) {
            Some(j) => r matches Some(jj) && jj == j,
            None => r is None,
        },
{
    let n = lit.unicode_len();
    if v.len() - i < n {
        return None;
    }
    let mut k: usize = 0;
    while k < n
        invariant
            k <= n,
            n == lit@.len(),
            i + n <= v@.len(),
            v@.len() <= usize::MAX,
            forall|q: int| 0 <= q < k ==> v@[i + q] == lit@[q],
        decreases n - k,
    {
        if v[i + k] != lit.get_char(k) {
            proof {
                assert(v@.subrange(i as int, i as int + n) != lit@) by {
                    assert(v@.subrange(i as int, i as int + n)[k as int] == v@[i + k]);
                }
            }
            return None;
        }
        k = k + 1;
    }
    proof {
        assert(v@.subrange(i as int, i as int + n) =~= lit@);
    }
    Some(i + n)
}

/// An optional count: `null`, or digits with an optional all-zero
/// decimal part, bounded by `u32::MAX`.
pub open spec fn spec_parse_opt_u32(s: Seq<char>, i: int) -> Option<(Option<u32>, int)> {
    match spec_expect(s, i, null_chars()) {
        Some(j) => Some((None, j)),
        None => match crate::json::spec_parse_num(s, i) {
            Some(((u, m), j)) => if m == 0 && u <= u32::MAX {
                Some((Some(u as u32), j))
            } else {
                None
            },
            None => None,
        },
    }
}

fn parse_opt_u32(v: &Vec<char>, i: usize) -> (r: Option<(Option<u32>, usize)>)
    requires
        i <= v@.len(),
    ensures
        match spec_parse_opt_u32(v@, i as int) {
            Some((val, j)) => r matches Some(p) && p.0 == val && p.1 == j,
            None => r is None,
        },
{
    match expect_lit(v, i, "null") {
        Some(j) => {
            proof {
                assert("null"@ =~= null_chars()) by {
                    reveal_strlit("null");
                }
            }
            Some((None, j))
        },
        None => {
            proof {
                assert("null"@ =~= null_chars()) by {
                    reveal_strlit("null");
                }
            }
            match crate::json::parse_num(v, i) {
                Some(((u, m), j)) => {
                    if m == 0 && u <= 0xffff_ffff {
                        Some((Some(u as u32), j))
                    } else {
                        None
                    }
                },
                None => None,
            }
        },
    }
}

/// An optional string: `null`, or a JSON string token.
pub open spec fn spec_parse_opt_string(s: Seq<char>, i: int) -> Option<(Option<Seq<char>>, int)> {
    match spec_expect(s, i, null_chars()) {
        Some(j) => Some((None, j)),
        None => match crate::json::spec_parse_jstring(s, i) {
            Some((c, j)) => Some((Some(c), j)),
            None => None,
        },
    }
}

fn parse_opt_string(v: &Vec<char>, i: usize) -> (r: Option<(Option<String>, usize)>)
    requires
        i <= v@.len(),
    ensures
        match spec_parse_opt_string(v@, i as int) {
            Some((val, j)) => r matches Some(p) && crate::models::view_opt_str(p.0) == val && p.1
                == j,
            None => r is None,
        },
{
    match expect_lit(v, i, "null") {
        Some(j) => {
            proof {
                assert("null"@ =~= null_chars()) by {
                    reveal_strlit("null");
                }
            }
            Some((None, j))
        },
        None => {
            proof {
                assert("null"@ =~= null_chars()) by {
                    reveal_strlit("null");
                }
            }
            match crate::json::parse_jstring(v, i) {
                Some((c, j)) => Some((Some(c), j)),
                None => None,
            }
        },
    }
}

/// A feeding-type tag inside quotes.
pub open spec fn spec_parse_feeding_tag(s: Seq<char>, i: int) -> Option<(
    crate::models::FeedingType,
    int,
)> {
    match crate::json::spec_parse_jstring(s, i) {
        Some((c, j)) => if c == "breast-left"@ {
            Some((crate::models::FeedingType::BreastLeft, j))
        } else if c == "breast-right"@ {
            Some((crate::models::FeedingType::BreastRight, j))
        } else if c == "bottle"@ {
            Some((crate::models::FeedingType::Bottle, j))
        } else if c == "solid"@ {
            Some((crate::models::FeedingType::Solid, j))
        } else {
            None
        },
        None => None,
    }
}

fn parse_feeding_tag(v: &Vec<char>, i: usize) -> (r: Option<(crate::models::FeedingType, usize)>)
    requires
        i <= v@.len(),
    ensures
        match spec_parse_feeding_tag(v@, i as int) {
            Some((t, j)) => r matches Some(p) && p.0 == t && p.1 == j,
            None => r is None,
        },
{
    match crate::json::parse_jstring(v, i) {
        Some((c, j)) => {
            if crate::text::str_eq(c.as_str(), "breast-left") {
                Some((crate::models::FeedingType::BreastLeft, j))
            } else if crate::text::str_eq(c.as_str(), "breast-right") {
                Some((crate::models::FeedingType::BreastRight, j))
            } else if crate::text::str_eq(c.as_str(), "bottle") {
                Some((crate::models::FeedingType::Bottle, j))
            } else if crate::text::str_eq(c.as_str(), "solid") {
                Some((crate::models::FeedingType::Solid, j))
            } else {
                None
            }
        },
        None => None,
    }
}

/// A dejection-type tag inside quotes.
pub open spec fn spec_parse_dejection_tag(s: Seq<char>, i: int) -> Option<(
    crate::models::DejectionType,
    int,
)> {
    match crate::json::spec_parse_jstring(s, i) {
        Some((c, j)) => if c == "urine"@ {
            Some((crate::models::DejectionType::Urine, j))
        } else if c == "poop"@ {
            Some((crate::models::DejectionType::Poop, j))
        } else {
            None
        },
        None => None,
    }
}

fn parse_dejection_tag(v: &Vec<char>, i: usize) -> (r: Option<(
    crate::models::DejectionType,
    usize,
)>)
    requires
        i <= v@.len(),
    ensures
        match spec_parse_dejection_tag(v@, i as int) {
            Some((t, j)) => r matches Some(p) && p.0 == t && p.1 == j,
            None => r is None,
        },
{
    match crate::json::parse_jstring(v, i) {
        Some((c, j)) => {
            if crate::text::str_eq(c.as_str(), "urine") {
                Some((crate::models::DejectionType::Urine, j))
            } else if crate::text::str_eq(c.as_str(), "poop") {
                Some((crate::models::DejectionType::Poop, j))
            } else {
                None
            }
        },
        None => None,
    }
}

/// A timestamp inside quotes.
pub open spec fn spec_parse_ts_string(s: Seq<char>, i: int) -> Option<(
    crate::time::Timestamp,
    int,
)> {
    match crate::json::spec_parse_jstring(s, i) {
        Some((c, j)) => match crate::time::spec_parse_timestamp(c) {
            Some(ts) => Some((ts, j)),
            None => None,
        },
        None => None,
    }
}

fn parse_ts_string(v: &Vec<char>, i: usize) -> (r: Option<(crate::time::Timestamp, usize)>)
    requires
        i <= v@.len(),
    ensures
        match spec_parse_ts_string(v@, i as int) {
            Some((ts, j)) => r matches Some(p) && p.0 == ts && p.1 == j && ts.wf(),
            None => r is None,
        },
{
    match crate::json::parse_jstring(v, i) {
        Some((c, j)) => match crate::time::parse_timestamp(c.as_str()) {
            Ok(ts) => Some((ts, j)),
            Err(_) => None,
        },
        None => None,
    }
}

/// Which record kind an object is being read as; it decides which
/// kind-specific keys the object may carry.
#[derive(Debug, Clone, Copy, PartialEq, Eq, Structural)]
pub enum RecordKind {
    Feeding,
    Dejection,
    Weight,
}

/// The fields of a record object as they accumulate while its key-value
/// pairs are read, in whatever order the document carries them.
pub struct RecordFields {
    pub id: Option<u64>,
    pub baby_name: Option<Seq<char>>,
    pub feeding_type: Option<crate::models::FeedingType>,
    pub amount_ml: Option<Option<u32>>,
    pub duration_minutes: Option<Option<u32>>,
    pub dejection_type: Option<crate::models::DejectionType>,
    pub weight_g: Option<u64>,
    pub notes: Option<Option<Seq<char>>>,
    pub timestamp: Option<crate::time::Timestamp>,
}

pub open spec fn record_fields_empty() -> RecordFields {
    RecordFields {
        id: None,
        baby_name: None,
        feeding_type: None,
        amount_ml: None,
        duration_minutes: None,
        dejection_type: None,
        weight_g: None,
        notes: None,
        timestamp: None,
    }
}

/// One field of a record object, dispatched on its key. A key repeated,
/// unknown, or foreign to the record's kind fails the parse.
pub open spec fn spec_parse_record_field(
    s: Seq<char>,
    i: int,
    acc: RecordFields,
    key: Seq<char>,
    kind: RecordKind,
) -> Option<(RecordFields, int)> {
    if key == "id"@ {
        if acc.id is Some {
            None
        } else {
            match crate::json::spec_parse_u64(s, i) {
                Some((v, j)) => Some((RecordFields { id: Some(v), ..acc }, j)),
                None => None,
            }
        }
    } else if key == "baby_name"@ {
        if acc.baby_name is Some {
            None
        } else {
            match crate::json::spec_parse_jstring(s, i) {
                Some((v, j)) => Some((RecordFields { baby_name: Some(v), ..acc }, j)),
                None => None,
            }
        }
    } else if key == "feeding_type"@ && kind is Feeding {
        if acc.feeding_type is Some {
            None
        } else {
            match spec_parse_feeding_tag(s, i) {
                Some((v, j)) => Some((RecordFields { feeding_type: Some(v), ..acc }, j)),
                None => None,
            }
        }
    } else if key == "amount_ml"@ && kind is Feeding {
        if acc.amount_ml is Some {
            None
        } else {
            match spec_parse_opt_u32(s, i) {
                Some((v, j)) => Some((RecordFields { amount_ml: Some(v), ..acc }, j)),
                None => None,
            }
        }
    } else if key == "duration_minutes"@ && kind is Feeding {
        if acc.duration_minutes is Some {
            None
        } else {
            match spec_parse_opt_u32(s, i) {
                Some((v, j)) => Some((RecordFields { duration_minutes: Some(v), ..acc }, j)),
                None => None,
            }
        }
    } else if key == "dejection_type"@ && kind is Dejection {
        if acc.dejection_type is Some {
            None
        } else {
            match spec_parse_dejection_tag(s, i) {
                Some((v, j)) => Some((RecordFields { dejection_type: Some(v), ..acc }, j)),
                None => None,
            }
        }
    } else if key == "weight_kg"@ && kind is Weight {
        if acc.weight_g is Some {
            None
        } else {
            match spec_parse_grams(s, i) {
                Some((v, j)) => Some((RecordFields { weight_g: Some(v), ..acc }, j)),
                None => None,
            }
        }
    } else if key == "notes"@ {
        if acc.notes is Some {
            None
        } else {
            match spec_parse_opt_string(s, i) {
                Some((v, j)) => Some((RecordFields { notes: Some(v), ..acc }, j)),
                None => None,
            }
        }
    } else if key == "timestamp"@ {
        if acc.timestamp is Some {
            None
        } else {
            match spec_parse_ts_string(s, i) {
                Some((v, j)) => Some((RecordFields { timestamp: Some(v), ..acc }, j)),
                None => None,
            }
        }
    } else {
        None
    }
}

/// The key-value pairs of a record object, keys in any order, each at
/// most once, whitespace between tokens tolerated; `i` sits at a key's
/// opening quote. Nine distinct keys exist, so the fuel loses nothing.
pub open spec fn spec_parse_record_pairs(
    s: Seq<char>,
    i: int,
    acc: RecordFields,
    kind: RecordKind,
    fuel: nat,
) -> Option<(RecordFields, int)>
    decreases fuel,
{
    if fuel == 0 {
        None
    } else {
        match crate::json::spec_parse_jstring(s, i) {
            None => None,
            Some((key, j)) => {
                let j1 = crate::json::ws_end(s, j);
                if j1 < s.len() && s[j1] == ':' {
                    match spec_parse_record_field(
                        s,
                        crate::json::ws_end(s, j1 + 1),
                        acc,
                        key,
                        kind,
                    ) {
                        None => None,
                        Some((acc2, j3)) => {
                            let j4 = crate::json::ws_end(s, j3);
                            if j4 < s.len() && s[j4] == ',' {
                                spec_parse_record_pairs(
                                    s,
                                    crate::json::ws_end(s, j4 + 1),
                                    acc2,
                                    kind,
                                    (fuel - 1) as nat,
                                )
                            } else if j4 < s.len() && s[j4] == '}' {
                                Some((acc2, j4 + 1))
                            } else {
                                None
                            }
                        },
                    }
                } else {
                    None
                }
            },
        }
    }
}

/// The number of pairs any record object can hold.
pub open spec fn record_pair_fuel() -> nat {
    10
}

/// One feeding object, parsed: keys in any order, optional fields absent
/// or `null`, the mandatory fields present exactly once.
pub open spec fn spec_parse_feeding(s: Seq<char>, i: int) -> Option<(FeedingModel, int)> {
    if 0 <= i < s.len() && s[i] == '{' {
        match spec_parse_record_pairs(
            s,
            crate::json::ws_end(s, i + 1),
            record_fields_empty(),
            RecordKind::Feeding,
            record_pair_fuel(),
        ) {
            None => None,
            Some((f, j)) => if f.id is Some && f.baby_name is Some && f.feeding_type is Some
                && f.timestamp is Some {
                Some(
                    (FeedingModel {
                        id: f.id->0,
                        baby_name: f.baby_name->0,
                        feeding_type: f.feeding_type->0,
                        amount_ml: match f.amount_ml {
                            Some(v) => v,
                            None => None,
                        },
                        duration_minutes: match f.duration_minutes {
                            Some(v) => v,
                            None => None,
                        },
                        notes: match f.notes {
                            Some(v) => v,
                            None => None,
                        },
                        timestamp: f.timestamp->0,
                    }, j),
                )
            } else {
                None
            },
        }
    } else {
        None
    }
}

/// One dejection object, parsed under the same rules.
pub open spec fn spec_parse_dejection(s: Seq<char>, i: int) -> Option<(DejectionModel, int)> {
    if 0 <= i < s.len() && s[i] == '{' {
        match spec_parse_record_pairs(
            s,
            crate::json::ws_end(s, i + 1),
            record_fields_empty(),
            RecordKind::Dejection,
            record_pair_fuel(),
        ) {
            None => None,
            Some((f, j)) => if f.id is Some && f.baby_name is Some && f.dejection_type is Some
                && f.timestamp is Some {
                Some(
                    (DejectionModel {
                        id: f.id->0,
                        baby_name: f.baby_name->0,
                        dejection_type: f.dejection_type->0,
                        notes: match f.notes {
                            Some(v) => v,
                            None => None,
                        },
                        timestamp: f.timestamp->0,
                    }, j),
                )
            } else {
                None
            },
        }
    } else {
        None
    }
}

/// One weight object, parsed under the same rules.
pub open spec fn spec_parse_weight(s: Seq<char>, i: int) -> Option<(WeightModel, int)> {
    if 0 <= i < s.len() && s[i] == '{' {
        match spec_parse_record_pairs(
            s,
            crate::json::ws_end(s, i + 1),
            record_fields_empty(),
            RecordKind::Weight,
            record_pair_fuel(),
        ) {
            None => None,
            Some((f, j)) => if f.id is Some && f.baby_name is Some && f.weight_g is Some
                && f.timestamp is Some {
                Some(
                    (WeightModel {
                        id: f.id->0,
                        baby_name: f.baby_name->0,
                        weight_g: f.weight_g->0,
                        notes: match f.notes {
                            Some(v) => v,
                            None => None,
                        },
                        timestamp: f.timestamp->0,
                    }, j),
                )
            } else {
                None
            },
        }
    } else {
        None
    }
}

/// The executable accumulator behind `RecordFields`.
struct RecordDraft {
    id: Option<u64>,
    baby_name: Option<String>,
    feeding_type: Option<crate::models::FeedingType>,
    amount_ml: Option<Option<u32>>,
    duration_minutes: Option<Option<u32>>,
    dejection_type: Option<crate::models::DejectionType>,
    weight_g: Option<u64>,
    notes: Option<Option<String>>,
    timestamp: Option<crate::time::Timestamp>,
}

impl View for RecordDraft {
    type V = RecordFields;

    closed spec fn view(&self) -> RecordFields {
        RecordFields {
            id: self.id,
            baby_name: match self.baby_name {
                Some(n) => Some(n@),
                None => None,
            },
            feeding_type: self.feeding_type,
            amount_ml: self.amount_ml,
            duration_minutes: self.duration_minutes,
            dejection_type: self.dejection_type,
            weight_g: self.weight_g,
            notes: match self.notes {
                Some(n) => Some(crate::models::view_opt_str(n)),
                None => None,
            },
            timestamp: self.timestamp,
        }
    }
}

fn record_draft_empty() -> (r: RecordDraft)
    ensures
        r@ == record_fields_empty(),
{
    RecordDraft {
        id: None,
        baby_name: None,
        feeding_type: None,
        amount_ml: None,
        duration_minutes: None,
        dejection_type: None,
        weight_g: None,
        notes: None,
        timestamp: None,
    }
}

fn parse_record_field(
    v: &Vec<char>,
    i: usize,
    acc: RecordDraft,
    key: &String,
    kind: RecordKind,
) -> (r: Option<(RecordDraft, usize)>)
    requires
        i <= v@.len(),
    ensures
        match spec_parse_record_field(v@, i as int, acc@, key@, kind) {
            Some((f, j)) => r matches Some(p) && p.0@ == f && p.1 == j,
            None => r is None,
        },
{
    if crate::text::str_eq(key.as_str(), "id") {
        if acc.id.is_some() {
            return None;
        }
        match crate::json::parse_u64(v, i) {
            Some((val, j)) => Some((RecordDraft { id: Some(val), ..acc }, j)),
            None => None,
        }
    } else if crate::text::str_eq(key.as_str(), "baby_name") {
        if acc.baby_name.is_some() {
            return None;
        }
        match crate::json::parse_jstring(v, i) {
            Some((val, j)) => Some((RecordDraft { baby_name: Some(val), ..acc }, j)),
            None => None,
        }
    } else if crate::text::str_eq(key.as_str(), "feeding_type") && matches!(
        kind,
        RecordKind::Feeding,
    ) {
        if acc.feeding_type.is_some() {
            return None;
        }
        match parse_feeding_tag(v, i) {
            Some((val, j)) => Some((RecordDraft { feeding_type: Some(val), ..acc }, j)),
            None => None,
        }
    } else if crate::text::str_eq(key.as_str(), "amount_ml") && matches!(
        kind,
        RecordKind::Feeding,
    ) {
        if acc.amount_ml.is_some() {
            return None;
        }
        match parse_opt_u32(v, i) {
            Some((val, j)) => Some((RecordDraft { amount_ml: Some(val), ..acc }, j)),
            None => None,
        }
    } else if crate::text::str_eq(key.as_str(), "duration_minutes") && matches!(
        kind,
        RecordKind::Feeding,
    ) {
        if acc.duration_minutes.is_some() {
            return None;
        }
        match parse_opt_u32(v, i) {
            Some((val, j)) => Some((RecordDraft { duration_minutes: Some(val), ..acc }, j)),
            None => None,
        }
    } else if crate::text::str_eq(key.as_str(), "dejection_type") && matches!(
        kind,
        RecordKind::Dejection,
    ) {
        if acc.dejection_type.is_some() {
            return None;
        }
        match parse_dejection_tag(v, i) {
            Some((val, j)) => Some((RecordDraft { dejection_type: Some(val), ..acc }, j)),
            None => None,
        }
    } else if crate::text::str_eq(key.as_str(), "weight_kg") && matches!(kind, RecordKind::Weight) {
        if acc.weight_g.is_some() {
            return None;
        }
        match parse_grams(v, i) {
            Some((val, j)) => Some((RecordDraft { weight_g: Some(val), ..acc }, j)),
            None => None,
        }
    } else if crate::text::str_eq(key.as_str(), "notes") {
        if acc.notes.is_some() {
            return None;
        }
        match parse_opt_string(v, i) {
            Some((val, j)) => Some((RecordDraft { notes: Some(val), ..acc }, j)),
            None => None,
        }
    } else if crate::text::str_eq(key.as_str(), "timestamp") {
        if acc.timestamp.is_some() {
            return None;
        }
        match parse_ts_string(v, i) {
            Some((val, j)) => Some((RecordDraft { timestamp: Some(val), ..acc }, j)),
            None => None,
        }
    } else {
        None
    }
}

fn parse_record_pairs_rec(
    v: &Vec<char>,
    i: usize,
    acc: RecordDraft,
    kind: RecordKind,
    fuel: u8,
) -> (r: Option<(RecordDraft, usize)>)
    requires
        i <= v@.len(),
    ensures
        match spec_parse_record_pairs(v@, i as int, acc@, kind, fuel as nat) {
            Some((f, j)) => r matches Some(p) && p.0@ == f && p.1 == j && j <= v@.len(),
            None => r is None,
        },
    decreases fuel,
{
    if fuel == 0 {
        return None;
    }
    let (key, j) = match crate::json::parse_jstring(v, i) {
        Some(p) => p,
        None => {
            return None;
        },
    };
    proof {
        if i < v@.len() {
            crate::json::lemma_parse_str_body_bounds(v@, i as int + 1);
        }
    }
    let j1 = crate::json::skip_ws(v, j);
    if !(j1 < v.len() && v[j1] == ':') {
        return None;
    }
    let j2 = crate::json::skip_ws(v, j1 + 1);
    let (acc2, j3) = match parse_record_field(v, j2, acc, &key, kind) {
        Some(p) => p,
        None => {
            return None;
        },
    };
    proof {
        lemma_parse_record_field_bounds(v@, j2 as int, acc@, key@, kind);
    }
    let j4 = crate::json::skip_ws(v, j3);
    if j4 < v.len() && v[j4] == ',' {
        let j5 = crate::json::skip_ws(v, j4 + 1);
        parse_record_pairs_rec(v, j5, acc2, kind, fuel - 1)
    } else if j4 < v.len() && v[j4] == '}' {
        Some((acc2, j4 + 1))
    } else {
        None
    }
}

/// A successful optional-count parse moves forward and stays in bounds.
pub proof fn lemma_parse_opt_u32_bounds(s: Seq<char>, i: int)
    requires
        0 <= i <= s.len(),
    ensures
        match spec_parse_opt_u32(s, i) {
            Some((val, j)) => i < j <= s.len(),
            None => true,
        },
{
    crate::json::lemma_digits_end_bounds(s, i);
    let jd = crate::json::digits_end(s, i);
    if jd < s.len() && s[jd] == '.' {
        crate::json::lemma_digits_end_bounds(s, jd + 1);
    }
}

/// A successful optional-string parse moves forward and stays in bounds.
pub proof fn lemma_parse_opt_string_bounds(s: Seq<char>, i: int)
    requires
        0 <= i <= s.len(),
    ensures
        match spec_parse_opt_string(s, i) {
            Some((val, j)) => i < j <= s.len(),
            None => true,
        },
{
    if i < s.len() {
        crate::json::lemma_parse_str_body_bounds(s, i + 1);
    }
}

/// A successful field parse moves forward and stays in bounds.
pub proof fn lemma_parse_record_field_bounds(
    s: Seq<char>,
    i: int,
    acc: RecordFields,
    key: Seq<char>,
    kind: RecordKind,
)
    requires
        0 <= i <= s.len(),
    ensures
        match spec_parse_record_field(s, i, acc, key, kind) {
            Some((f, j)) => i < j <= s.len(),
            None => true,
        },
{
    crate::json::lemma_digits_end_bounds(s, i);
    if i < s.len() {
        crate::json::lemma_parse_str_body_bounds(s, i + 1);
    }
    lemma_parse_opt_u32_bounds(s, i);
    lemma_parse_opt_string_bounds(s, i);
    lemma_parse_grams_bounds(s, i);
}

/// A successful pair parse moves forward and stays in bounds.
pub proof fn lemma_parse_record_pairs_bounds(
    s: Seq<char>,
    i: int,
    acc: RecordFields,
    kind: RecordKind,
    fuel: nat,
)
    requires
        0 <= i <= s.len(),
    ensures
        match spec_parse_record_pairs(s, i, acc, kind, fuel) {
            Some((f, j)) => i < j <= s.len(),
            None => true,
        },
    decreases fuel,
{
    if fuel > 0 {
        if i < s.len() {
            crate::json::lemma_parse_str_body_bounds(s, i + 1);
        }
        match crate::json::spec_parse_jstring(s, i) {
            None => {},
            Some((key, j)) => {
                crate::json::lemma_ws_end_bounds(s, j);
                let j1 = crate::json::ws_end(s, j);
                if j1 < s.len() && s[j1] == ':' {
                    crate::json::lemma_ws_end_bounds(s, j1 + 1);
                    let j2 = crate::json::ws_end(s, j1 + 1);
                    lemma_parse_record_field_bounds(s, j2, acc, key, kind);
                    match spec_parse_record_field(s, j2, acc, key, kind) {
                        None => {},
                        Some((acc2, j3)) => {
                            crate::json::lemma_ws_end_bounds(s, j3);
                            let j4 = crate::json::ws_end(s, j3);
                            if j4 < s.len() && s[j4] == ',' {
                                crate::json::lemma_ws_end_bounds(s, j4 + 1);
                                lemma_parse_record_pairs_bounds(
                                    s,
                                    crate::json::ws_end(s, j4 + 1),
                                    acc2,
                                    kind,
                                    (fuel - 1) as nat,
                                );
                            }
                        },
                    }
                }
            },
        }
    }
}

/// A successful feeding parse moves forward and stays in bounds.
pub proof fn lemma_parse_feeding_bounds(s: Seq<char>, i: int)
    requires
        0 <= i <= s.len(),
    ensures
        match spec_parse_feeding(s, i) {
            Some((f, j)) => i < j <= s.len(),
            None => true,
        },
{
    if 0 <= i < s.len() && s[i] == '{' {
        crate::json::lemma_ws_end_bounds(s, i + 1);
        lemma_parse_record_pairs_bounds(
            s,
            crate::json::ws_end(s, i + 1),
            record_fields_empty(),
            RecordKind::Feeding,
            record_pair_fuel(),
        );
    }
}

/// A successful dejection parse moves forward and stays in bounds.
pub proof fn lemma_parse_dejection_bounds(s: Seq<char>, i: int)
    requires
        0 <= i <= s.len(),
    ensures
        match spec_parse_dejection(s, i) {
            Some((d, j)) => i < j <= s.len(),
            None => true,
        },
{
    if 0 <= i < s.len() && s[i] == '{' {
        crate::json::lemma_ws_end_bounds(s, i + 1);
        lemma_parse_record_pairs_bounds(
            s,
            crate::json::ws_end(s, i + 1),
            record_fields_empty(),
            RecordKind::Dejection,
            record_pair_fuel(),
        );
    }
}

/// A successful weight parse moves forward and stays in bounds.
pub proof fn lemma_parse_weight_bounds(s: Seq<char>, i: int)
    requires
        0 <= i <= s.len(),
    ensures
        match spec_parse_weight(s, i) {
            Some((w, j)) => i < j <= s.len(),
            None => true,
        },
{
    if 0 <= i < s.len() && s[i] == '{' {
        crate::json::lemma_ws_end_bounds(s, i + 1);
        lemma_parse_record_pairs_bounds(
            s,
            crate::json::ws_end(s, i + 1),
            record_fields_empty(),
            RecordKind::Weight,
            record_pair_fuel(),
        );
    }
}

fn parse_feeding(v: &Vec<char>, i: usize) -> (r: Option<(Feeding, usize)>)
    requires
        i <= v@.len(),
    ensures
        match spec_parse_feeding(v@, i as int) {
            Some((f, j)) => r matches Some(p) && p.0@ == f && p.1 == j && i < j <= v@.len(),
            None => r is None,
        },
{
    proof {
        lemma_parse_feeding_bounds(v@, i as int);
    }
    if !(i < v.len() && v[i] == '{') {
        return None;
    }
    let i1 = crate::json::skip_ws(v, i + 1);
    let (f, j) = match parse_record_pairs_rec(v, i1, record_draft_empty(), RecordKind::Feeding, 10)
        {
        Some(p) => p,
        None => {
            return None;
        },
    };
    match (f.id, f.baby_name, f.feeding_type, f.timestamp) {
        (Some(id), Some(baby_name), Some(feeding_type), Some(timestamp)) => {
            let amount_ml = match f.amount_ml {
                Some(v) => v,
                None => None,
            };
            let duration_minutes = match f.duration_minutes {
                Some(v) => v,
                None => None,
            };
            let notes = match f.notes {
                Some(v) => v,
                None => None,
            };
            Some(
                (
                    Feeding {
                        id,
                        baby_name,
                        feeding_type,
                        amount_ml,
                        duration_minutes,
                        notes,
                        timestamp,
                    },
                    j,
                ),
            )
        },
        _ => None,
    }
}

fn parse_dejection(v: &Vec<char>, i: usize) -> (r: Option<(Dejection, usize)>)
    requires
        i <= v@.len(),
    ensures
        match spec_parse_dejection(v@, i as int) {
            Some((d, j)) => r matches Some(p) && p.0@ == d && p.1 == j && i < j <= v@.len(),
            None => r is None,
        },
{
    proof {
        lemma_parse_dejection_bounds(v@, i as int);
    }
    if !(i < v.len() && v[i] == '{') {
        return None;
    }
    let i1 = crate::json::skip_ws(v, i + 1);
    let (f, j) = match parse_record_pairs_rec(
        v,
        i1,
        record_draft_empty(),
        RecordKind::Dejection,
        10,
    ) {
        Some(p) => p,
        None => {
            return None;
        },
    };
    match (f.id, f.baby_name, f.dejection_type, f.timestamp) {
        (Some(id), Some(baby_name), Some(dejection_type), Some(timestamp)) => {
            let notes = match f.notes {
                Some(v) => v,
                None => None,
            };
            Some((Dejection { id, baby_name, dejection_type, notes, timestamp }, j))
        },
        _ => None,
    }
}

fn parse_weight(v: &Vec<char>, i: usize) -> (r: Option<(Weight, usize)>)
    requires
        i <= v@.len(),
    ensures
        match spec_parse_weight(v@, i as int) {
            Some((w, j)) => r matches Some(p) && p.0@ == w && p.1 == j && i < j <= v@.len(),
            None => r is None,
        },
{
    proof {
        lemma_parse_weight_bounds(v@, i as int);
    }
    if !(i < v.len() && v[i] == '{') {
        return None;
    }
    let i1 = crate::json::skip_ws(v, i + 1);
    let (f, j) = match parse_record_pairs_rec(v, i1, record_draft_empty(), RecordKind::Weight, 10)
        {
        Some(p) => p,
        None => {
            return None;
        },
    };
    match (f.id, f.baby_name, f.weight_g, f.timestamp) {
        (Some(id), Some(baby_name), Some(weight_g), Some(timestamp)) => {
            let notes = match f.notes {
                Some(v) => v,
                None => None,
            };
            Some((Weight { id, baby_name, weight_g, notes, timestamp }, j))
        },
        _ => None,
    }
}

/// A gram count read from a kilogram number.
pub open spec fn spec_parse_grams(s: Seq<char>, i: int) -> Option<(u64, int)> {
    match crate::json::spec_parse_num(s, i) {
        None => None,
        Some(((u, m), j)) => if u <= (u64::MAX - m) / 1000 {
            Some(((u * 1000 + m) as u64, j))
        } else {
            None
        },
    }
}

fn parse_grams(v: &Vec<char>, i: usize) -> (r: Option<(u64, usize)>)
    requires
        i <= v@.len(),
    ensures
        match spec_parse_grams(v@, i as int) {
            Some((g, j)) => r matches Some(p) && p.0 == g && p.1 == j,
            None => r is None,
        },
{
    match crate::json::parse_num(v, i) {
        None => None,
        Some(((u, m), j)) => {
            if u <= (u64::MAX - m as u64) / 1000 {
                proof {
                    assert(u * 1000 + m <= u64::MAX) by (nonlinear_arith)
                        requires
                            u <= (u64::MAX - m as u64) / 1000,
                            m < 1000,
                    ;
                }
                Some((u * 1000 + m as u64, j))
            } else {
                None
            }
        },
    }
}

/// A successful gram parse moves forward and stays in bounds.
pub proof fn lemma_parse_grams_bounds(s: Seq<char>, i: int)
    requires
        0 <= i <= s.len(),
    ensures
        match spec_parse_grams(s, i) {
            Some((g, j)) => i < j <= s.len(),
            None => true,
        },
{
    crate::json::lemma_digits_end_bounds(s, i);
    let jd = crate::json::digits_end(s, i);
    if jd < s.len() && s[jd] == '.' {
        crate::json::lemma_digits_end_bounds(s, jd + 1);
    }
}

/// The items of a feedings array, read from just after the opening
/// bracket to just after the closing one. The fuel only bounds the
/// recursion; any fuel beyond the item count gives the same answer.
pub open spec fn spec_parse_feedings(s: Seq<char>, i: int, fuel: nat) -> Option<(Seq<FeedingModel>, int)>
    decreases fuel,
{
    if fuel == 0 {
        None
    } else {
        let i0 = crate::json::ws_end(s, i);
        if i0 < s.len() && s[i0] == ']' {
            Some((Seq::empty(), i0 + 1))
        } else {
            match spec_parse_feeding(s, i0) {
                None => None,
                Some((f, j)) => {
                    let j4 = crate::json::ws_end(s, j);
                    if j4 < s.len() && s[j4] == ',' {
                        match spec_parse_feedings(s, j4 + 1, (fuel - 1) as nat) {
                            Some((rest, k)) => if rest.len() > 0 {
                                Some((seq![f] + rest, k))
                            } else {
                                None
                            },
                            None => None,
                        }
                    } else if j4 < s.len() && s[j4] == ']' {
                        Some((seq![f], j4 + 1))
                    } else {
                        None
                    }
                },
            }
        }
    }
}

/// The items of a dejections array, read from just after the opening
/// bracket to just after the closing one. The fuel only bounds the
/// recursion; any fuel beyond the item count gives the same answer.
pub open spec fn spec_parse_dejections(s: Seq<char>, i: int, fuel: nat) -> Option<(Seq<DejectionModel>, int)>
    decreases fuel,
{
    if fuel == 0 {
        None
    } else {
        let i0 = crate::json::ws_end(s, i);
        if i0 < s.len() && s[i0] == ']' {
            Some((Seq::empty(), i0 + 1))
        } else {
            match spec_parse_dejection(s, i0) {
                None => None,
                Some((f, j)) => {
                    let j4 = crate::json::ws_end(s, j);
                    if j4 < s.len() && s[j4] == ',' {
                        match spec_parse_dejections(s, j4 + 1, (fuel - 1) as nat) {
                            Some((rest, k)) => if rest.len() > 0 {
                                Some((seq![f] + rest, k))
                            } else {
                                None
                            },
                            None => None,
                        }
                    } else if j4 < s.len() && s[j4] == ']' {
                        Some((seq![f], j4 + 1))
                    } else {
                        None
                    }
                },
            }
        }
    }
}

/// The items of a weights array, read from just after the opening
/// bracket to just after the closing one. The fuel only bounds the
/// recursion; any fuel beyond the item count gives the same answer.
pub open spec fn spec_parse_weights(s: Seq<char>, i: int, fuel: nat) -> Option<(Seq<WeightModel>, int)>
    decreases fuel,
{
    if fuel == 0 {
        None
    } else {
        let i0 = crate::json::ws_end(s, i);
        if i0 < s.len() && s[i0] == ']' {
            Some((Seq::empty(), i0 + 1))
        } else {
            match spec_parse_weight(s, i0) {
                None => None,
                Some((f, j)) => {
                    let j4 = crate::json::ws_end(s, j);
                    if j4 < s.len() && s[j4] == ',' {
                        match spec_parse_weights(s, j4 + 1, (fuel - 1) as nat) {
                            Some((rest, k)) => if rest.len() > 0 {
                                Some((seq![f] + rest, k))
                            } else {
                                None
                            },
                            None => None,
                        }
                    } else if j4 < s.len() && s[j4] == ']' {
                        Some((seq![f], j4 + 1))
                    } else {
                        None
                    }
                },
            }
        }
    }
}


/// Parses the feedings items after an opening bracket. The exec fuel `f`
/// stands for specification fuel `f + 1`.
#[verifier::rlimit(100)]
#[verifier::spinoff_prover]
fn parse_feedings_rec(v: &Vec<char>, i: usize, fuel: usize) -> (r: Option<(Vec<Feeding>, usize)>)
    requires
        i <= v@.len(),
    ensures
        match spec_parse_feedings(v@, i as int, (fuel + 1) as nat) {
            Some((items, j)) => r matches Some(p) && views_of(p.0@) == items && p.1 == j && j
                <= v@.len(),
            None => r is None,
        },
    decreases fuel,
{
    let ghost sfuel = (fuel + 1) as nat;
    let i0 = crate::json::skip_ws(v, i);
    if i0 < v.len() && v[i0] == ']' {
        let empty: Vec<Feeding> = Vec::new();
        proof {
            assert(views_of(empty@) =~= Seq::<FeedingModel>::empty());
        }
        return Some((empty, i0 + 1));
    }
    match parse_feeding(v, i0) {
        None => None,
        Some((f, j)) => {
            let ghost fm = f@;
            let j4 = crate::json::skip_ws(v, j);
            if j4 < v.len() && v[j4] == ',' {
                if fuel == 0 {
                    proof {
                        assert(spec_parse_feedings(v@, j4 + 1, 0) is None);
                    }
                    return None;
                }
                match parse_feedings_rec(v, j4 + 1, fuel - 1) {
                    None => None,
                    Some((rest, k)) => {
                        if rest.len() > 0 {
                            let mut out = rest;
                            out.insert(0, f);
                            proof {
                                let items = (spec_parse_feedings(v@, j4 + 1, fuel as nat)->0).0;
                                assert(views_of(out@) =~= seq![fm] + items);
                            }
                            Some((out, k))
                        } else {
                            None
                        }
                    },
                }
            } else if j4 < v.len() && v[j4] == ']' {
                let mut out: Vec<Feeding> = Vec::new();
                out.push(f);
                proof {
                    assert(views_of(out@) =~= seq![fm]);
                }
                Some((out, j4 + 1))
            } else {
                None
            }
        },
    }
}

/// Parses the dejections items after an opening bracket. The exec fuel `f`
/// stands for specification fuel `f + 1`.
#[verifier::rlimit(100)]
#[verifier::spinoff_prover]
fn parse_dejections_rec(v: &Vec<char>, i: usize, fuel: usize) -> (r: Option<(Vec<Dejection>, usize)>)
    requires
        i <= v@.len(),
    ensures
        match spec_parse_dejections(v@, i as int, (fuel + 1) as nat) {
            Some((items, j)) => r matches Some(p) && views_of(p.0@) == items && p.1 == j && j
                <= v@.len(),
            None => r is None,
        },
    decreases fuel,
{
    let ghost sfuel = (fuel + 1) as nat;
    let i0 = crate::json::skip_ws(v, i);
    if i0 < v.len() && v[i0] == ']' {
        let empty: Vec<Dejection> = Vec::new();
        proof {
            assert(views_of(empty@) =~= Seq::<DejectionModel>::empty());
        }
        return Some((empty, i0 + 1));
    }
    match parse_dejection(v, i0) {
        None => None,
        Some((f, j)) => {
            let ghost fm = f@;
            let j4 = crate::json::skip_ws(v, j);
            if j4 < v.len() && v[j4] == ',' {
                if fuel == 0 {
                    proof {
                        assert(spec_parse_dejections(v@, j4 + 1, 0) is None);
                    }
                    return None;
                }
                match parse_dejections_rec(v, j4 + 1, fuel - 1) {
                    None => None,
                    Some((rest, k)) => {
                        if rest.len() > 0 {
                            let mut out = rest;
                            out.insert(0, f);
                            proof {
                                let items = (spec_parse_dejections(v@, j4 + 1, fuel as nat)->0).0;
                                assert(views_of(out@) =~= seq![fm] + items);
                            }
                            Some((out, k))
                        } else {
                            None
                        }
                    },
                }
            } else if j4 < v.len() && v[j4] == ']' {
                let mut out: Vec<Dejection> = Vec::new();
                out.push(f);
                proof {
                    assert(views_of(out@) =~= seq![fm]);
                }
                Some((out, j4 + 1))
            } else {
                None
            }
        },
    }
}

/// Parses the weights items after an opening bracket. The exec fuel `f`
/// stands for specification fuel `f + 1`.
#[verifier::rlimit(100)]
#[verifier::spinoff_prover]
fn parse_weights_rec(v: &Vec<char>, i: usize, fuel: usize) -> (r: Option<(Vec<Weight>, usize)>)
    requires
        i <= v@.len(),
    ensures
        match spec_parse_weights(v@, i as int, (fuel + 1) as nat) {
            Some((items, j)) => r matches Some(p) && views_of(p.0@) == items && p.1 == j && j
                <= v@.len(),
            None => r is None,
        },
    decreases fuel,
{
    let ghost sfuel = (fuel + 1) as nat;
    let i0 = crate::json::skip_ws(v, i);
    if i0 < v.len() && v[i0] == ']' {
        let empty: Vec<Weight> = Vec::new();
        proof {
            assert(views_of(empty@) =~= Seq::<WeightModel>::empty());
        }
        return Some((empty, i0 + 1));
    }
    match parse_weight(v, i0) {
        None => None,
        Some((f, j)) => {
            let ghost fm = f@;
            let j4 = crate::json::skip_ws(v, j);
            if j4 < v.len() && v[j4] == ',' {
                if fuel == 0 {
                    proof {
                        assert(spec_parse_weights(v@, j4 + 1, 0) is None);
                    }
                    return None;
                }
                match parse_weights_rec(v, j4 + 1, fuel - 1) {
                    None => None,
                    Some((rest, k)) => {
                        if rest.len() > 0 {
                            let mut out = rest;
                            out.insert(0, f);
                            proof {
                                let items = (spec_parse_weights(v@, j4 + 1, fuel as nat)->0).0;
                                assert(views_of(out@) =~= seq![fm] + items);
                            }
                            Some((out, k))
                        } else {
                            None
                        }
                    },
                }
            } else if j4 < v.len() && v[j4] == ']' {
                let mut out: Vec<Weight> = Vec::new();
                out.push(f);
                proof {
                    assert(views_of(out@) =~= seq![fm]);
                }
                Some((out, j4 + 1))
            } else {
                None
            }
        },
    }
}

/// The fields of the interchange document as they accumulate while its
/// key-value pairs are read, in whatever order the document carries them.
pub struct DocFields {
    pub feedings: Option<Seq<FeedingModel>>,
    pub dejections: Option<Seq<DejectionModel>>,
    pub weights: Option<Seq<WeightModel>>,
    pub next_id: Option<u64>,
}

pub open spec fn doc_fields_empty() -> DocFields {
    DocFields { feedings: None, dejections: None, weights: None, next_id: None }
}

/// One field of the document, dispatched on its key. The three
/// collections are arrays of records; the counter is a plain integer.
pub open spec fn spec_parse_doc_field(s: Seq<char>, i: int, acc: DocFields, key: Seq<char>) -> Option<
    (DocFields, int),
> {
    if key == "feedings"@ {
        if acc.feedings is Some {
            None
        } else if 0 <= i < s.len() && s[i] == '[' {
            match spec_parse_feedings(s, i + 1, (s.len() + 1) as nat) {
                Some((items, j)) => Some((DocFields { feedings: Some(items), ..acc }, j)),
                None => None,
            }
        } else {
            None
        }
    } else if key == "dejections"@ {
        if acc.dejections is Some {
            None
        } else if 0 <= i < s.len() && s[i] == '[' {
            match spec_parse_dejections(s, i + 1, (s.len() + 1) as nat) {
                Some((items, j)) => Some((DocFields { dejections: Some(items), ..acc }, j)),
                None => None,
            }
        } else {
            None
        }
    } else if key == "weights"@ {
        if acc.weights is Some {
            None
        } else if 0 <= i < s.len() && s[i] == '[' {
            match spec_parse_weights(s, i + 1, (s.len() + 1) as nat) {
                Some((items, j)) => Some((DocFields { weights: Some(items), ..acc }, j)),
                None => None,
            }
        } else {
            None
        }
    } else if key == "next_id"@ {
        if acc.next_id is Some {
            None
        } else {
            match crate::json::spec_parse_u64(s, i) {
                Some((v, j)) => Some((DocFields { next_id: Some(v), ..acc }, j)),
                None => None,
            }
        }
    } else {
        None
    }
}

/// The key-value pairs of the document, keys in any order, each at most
/// once, whitespace between tokens tolerated.
pub open spec fn spec_parse_doc_pairs(s: Seq<char>, i: int, acc: DocFields, fuel: nat) -> Option<(
    DocFields,
    int,
)>
    decreases fuel,
{
    if fuel == 0 {
        None
    } else {
        match crate::json::spec_parse_jstring(s, i) {
            None => None,
            Some((key, j)) => {
                let j1 = crate::json::ws_end(s, j);
                if j1 < s.len() && s[j1] == ':' {
                    match spec_parse_doc_field(s, crate::json::ws_end(s, j1 + 1), acc, key) {
                        None => None,
                        Some((acc2, j3)) => {
                            let j4 = crate::json::ws_end(s, j3);
                            if j4 < s.len() && s[j4] == ',' {
                                spec_parse_doc_pairs(
                                    s,
                                    crate::json::ws_end(s, j4 + 1),
                                    acc2,
                                    (fuel - 1) as nat,
                                )
                            } else if j4 < s.len() && s[j4] == '}' {
                                Some((acc2, j4 + 1))
                            } else {
                                None
                            }
                        },
                    }
                } else {
                    None
                }
            },
        }
    }
}

/// The number of pairs the document object can hold.
pub open spec fn doc_pair_fuel() -> nat {
    5
}

/// The store a whole document denotes, before the id-consistency check:
/// one JSON object whose keys may come in any order, with insignificant
/// whitespace tolerated; the feedings and the counter are mandatory, and
/// a document missing the dejections or weights collections loads with
/// those collections empty.
pub open spec fn spec_parse_doc(s: Seq<char>) -> Option<StoreModel> {
    let i0 = crate::json::ws_end(s, 0);
    if 0 <= i0 < s.len() && s[i0] == '{' {
        match spec_parse_doc_pairs(s, crate::json::ws_end(s, i0 + 1), doc_fields_empty(), doc_pair_fuel()) {
            None => None,
            Some((f, j)) => if f.feedings is Some && f.next_id is Some && f.next_id->0 <= u32::MAX
                && crate::json::ws_end(s, j) == s.len() {
                Some(
                    StoreModel {
                        feedings: f.feedings->0,
                        dejections: match f.dejections {
                            Some(d) => d,
                            None => Seq::empty(),
                        },
                        weights: match f.weights {
                            Some(w) => w,
                            None => Seq::empty(),
                        },
                        next_id: f.next_id->0 as u32,
                    },
                )
            } else {
                None
            },
        }
    } else {
        None
    }
}

/// The executable accumulator behind `DocFields`.
struct DocDraft {
    feedings: Option<Vec<Feeding>>,
    dejections: Option<Vec<Dejection>>,
    weights: Option<Vec<Weight>>,
    next_id: Option<u64>,
}

impl View for DocDraft {
    type V = DocFields;

    closed spec fn view(&self) -> DocFields {
        DocFields {
            feedings: match self.feedings {
                Some(v) => Some(views_of(v@)),
                None => None,
            },
            dejections: match self.dejections {
                Some(v) => Some(views_of(v@)),
                None => None,
            },
            weights: match self.weights {
                Some(v) => Some(views_of(v@)),
                None => None,
            },
            next_id: self.next_id,
        }
    }
}

fn parse_doc_field(v: &Vec<char>, i: usize, acc: DocDraft, key: &String) -> (r: Option<(
    DocDraft,
    usize,
)>)
    requires
        i <= v@.len(),
    ensures
        match spec_parse_doc_field(v@, i as int, acc@, key@) {
            Some((f, j)) => r matches Some(p) && p.0@ == f && p.1 == j && j <= v@.len(),
            None => r is None,
        },
{
    let nv = v.len();
    if crate::text::str_eq(key.as_str(), "feedings") {
        if acc.feedings.is_some() {
            return None;
        }
        if !(i < v.len() && v[i] == '[') {
            return None;
        }
        proof {
            lemma_parse_feedings_bounds(v@, i as int + 1, (v@.len() + 1) as nat);
        }
        match parse_feedings_rec(v, i + 1, nv) {
            Some((items, j)) => Some((DocDraft { feedings: Some(items), ..acc }, j)),
            None => None,
        }
    } else if crate::text::str_eq(key.as_str(), "dejections") {
        if acc.dejections.is_some() {
            return None;
        }
        if !(i < v.len() && v[i] == '[') {
            return None;
        }
        proof {
            lemma_parse_dejections_bounds(v@, i as int + 1, (v@.len() + 1) as nat);
        }
        match parse_dejections_rec(v, i + 1, nv) {
            Some((items, j)) => Some((DocDraft { dejections: Some(items), ..acc }, j)),
            None => None,
        }
    } else if crate::text::str_eq(key.as_str(), "weights") {
        if acc.weights.is_some() {
            return None;
        }
        if !(i < v.len() && v[i] == '[') {
            return None;
        }
        proof {
            lemma_parse_weights_bounds(v@, i as int + 1, (v@.len() + 1) as nat);
        }
        match parse_weights_rec(v, i + 1, nv) {
            Some((items, j)) => Some((DocDraft { weights: Some(items), ..acc }, j)),
            None => None,
        }
    } else if crate::text::str_eq(key.as_str(), "next_id") {
        if acc.next_id.is_some() {
            return None;
        }
        proof {
            crate::json::lemma_digits_end_bounds(v@, i as int);
        }
        match crate::json::parse_u64(v, i) {
            Some((val, j)) => Some((DocDraft { next_id: Some(val), ..acc }, j)),
            None => None,
        }
    } else {
        None
    }
}

fn parse_doc_pairs_rec(v: &Vec<char>, i: usize, acc: DocDraft, fuel: u8) -> (r: Option<(
    DocDraft,
    usize,
)>)
    requires
        i <= v@.len(),
    ensures
        match spec_parse_doc_pairs(v@, i as int, acc@, fuel as nat) {
            Some((f, j)) => r matches Some(p) && p.0@ == f && p.1 == j && j <= v@.len(),
            None => r is None,
        },
    decreases fuel,
{
    if fuel == 0 {
        return None;
    }
    let (key, j) = match crate::json::parse_jstring(v, i) {
        Some(p) => p,
        None => {
            return None;
        },
    };
    proof {
        if i < v@.len() {
            crate::json::lemma_parse_str_body_bounds(v@, i as int + 1);
        }
    }
    let j1 = crate::json::skip_ws(v, j);
    if !(j1 < v.len() && v[j1] == ':') {
        return None;
    }
    let j2 = crate::json::skip_ws(v, j1 + 1);
    let (acc2, j3) = match parse_doc_field(v, j2, acc, &key) {
        Some(p) => p,
        None => {
            return None;
        },
    };
    let j4 = crate::json::skip_ws(v, j3);
    if j4 < v.len() && v[j4] == ',' {
        let j5 = crate::json::skip_ws(v, j4 + 1);
        parse_doc_pairs_rec(v, j5, acc2, fuel - 1)
    } else if j4 < v.len() && v[j4] == '}' {
        Some((acc2, j4 + 1))
    } else {
        None
    }
}

fn doc_draft_empty() -> (r: DocDraft)
    ensures
        r@ == doc_fields_empty(),
{
    DocDraft { feedings: None, dejections: None, weights: None, next_id: None }
}

fn parse_doc(v: &Vec<char>) -> (r: Option<(Vec<Feeding>, Vec<Dejection>, Vec<Weight>, u32)>)
    ensures
        match spec_parse_doc(v@) {
            Some(m) => r matches Some(p) && views_of(p.0@) == m.feedings && views_of(p.1@)
                == m.dejections && views_of(p.2@) == m.weights && p.3 == m.next_id,
            None => r is None,
        },
{
    let i0 = crate::json::skip_ws(v, 0);
    if !(i0 < v.len() && v[i0] == '{') {
        return None;
    }
    let i1 = crate::json::skip_ws(v, i0 + 1);
    let (f, j) = match parse_doc_pairs_rec(v, i1, doc_draft_empty(), 5) {
        Some(p) => p,
        None => {
            return None;
        },
    };
    let j2 = crate::json::skip_ws(v, j);
    if j2 != v.len() {
        return None;
    }
    match (f.feedings, f.next_id) {
        (Some(fs), Some(nid)) => {
            if nid <= 0xffff_ffff {
                let ds = match f.dejections {
                    Some(d) => d,
                    None => Vec::new(),
                };
                let ws = match f.weights {
                    Some(w) => w,
                    None => Vec::new(),
                };
                proof {
                    if f.dejections is None {
                        assert(views_of(Seq::<Dejection>::empty()) =~= Seq::<
                            DejectionModel,
                        >::empty());
                    }
                    if f.weights is None {
                        assert(views_of(Seq::<Weight>::empty()) =~= Seq::<WeightModel>::empty());
                    }
                }
                Some((fs, ds, ws, nid as u32))
            } else {
                None
            }
        },
        _ => None,
    }
}


/// A successful list parse lands in bounds.
pub proof fn lemma_parse_feedings_bounds(s: Seq<char>, i: int, fuel: nat)
    requires
        0 <= i <= s.len(),
    ensures
        match spec_parse_feedings(s, i, fuel) {
            Some((items, j)) => i < j <= s.len(),
            None => true,
        },
    decreases fuel,
{
    if fuel > 0 {
        crate::json::lemma_ws_end_bounds(s, i);
        let i0 = crate::json::ws_end(s, i);
        if !(i0 < s.len() && s[i0] == ']') {
            lemma_parse_feeding_bounds(s, i0);
            if spec_parse_feeding(s, i0) is Some {
                let j = (spec_parse_feeding(s, i0)->0).1;
                crate::json::lemma_ws_end_bounds(s, j);
                let j4 = crate::json::ws_end(s, j);
                if j4 < s.len() && s[j4] == ',' {
                    lemma_parse_feedings_bounds(s, j4 + 1, (fuel - 1) as nat);
                }
            }
        }
    }
}

pub proof fn lemma_parse_dejections_bounds(s: Seq<char>, i: int, fuel: nat)
    requires
        0 <= i <= s.len(),
    ensures
        match spec_parse_dejections(s, i, fuel) {
            Some((items, j)) => i < j <= s.len(),
            None => true,
        },
    decreases fuel,
{
    if fuel > 0 {
        crate::json::lemma_ws_end_bounds(s, i);
        let i0 = crate::json::ws_end(s, i);
        if !(i0 < s.len() && s[i0] == ']') {
            lemma_parse_dejection_bounds(s, i0);
            if spec_parse_dejection(s, i0) is Some {
                let j = (spec_parse_dejection(s, i0)->0).1;
                crate::json::lemma_ws_end_bounds(s, j);
                let j4 = crate::json::ws_end(s, j);
                if j4 < s.len() && s[j4] == ',' {
                    lemma_parse_dejections_bounds(s, j4 + 1, (fuel - 1) as nat);
                }
            }
        }
    }
}

pub proof fn lemma_parse_weights_bounds(s: Seq<char>, i: int, fuel: nat)
    requires
        0 <= i <= s.len(),
    ensures
        match spec_parse_weights(s, i, fuel) {
            Some((items, j)) => i < j <= s.len(),
            None => true,
        },
    decreases fuel,
{
    if fuel > 0 {
        crate::json::lemma_ws_end_bounds(s, i);
        let i0 = crate::json::ws_end(s, i);
        if !(i0 < s.len() && s[i0] == ']') {
            lemma_parse_weight_bounds(s, i0);
            if spec_parse_weight(s, i0) is Some {
                let j = (spec_parse_weight(s, i0)->0).1;
                crate::json::lemma_ws_end_bounds(s, j);
                let j4 = crate::json::ws_end(s, j);
                if j4 < s.len() && s[j4] == ',' {
                    lemma_parse_weights_bounds(s, j4 + 1, (fuel - 1) as nat);
                }
            }
        }
    }
}

impl Store {
    /// Reconstructs a store from an interchange document: one JSON
    /// object with keys in any order and insignificant whitespace
    /// tolerated; the dejections and weights collections may be missing
    /// (and load empty), and a record's optional fields may be absent or
    /// `null`. A key outside the documented shape is a parse error, and a
    /// document whose ids are inconsistent — zero, repeated across the
    /// kinds, or not below the stored counter — is rejected rather than
    /// loaded into a store that could not have arisen from adds.
    pub fn from_json(s: &str) -> (r: Result<Store, String>)
        ensures
            r is Ok <==> (spec_parse_doc(s@) is Some && spec_parse_doc(s@)->0.wf()),
            r is Ok ==> r->Ok_0@ == spec_parse_doc(s@)->0 && r->Ok_0@.wf(),
            spec_parse_doc(s@) is None ==> r is Err && r->Err_0@
                == "Invalid data: malformed document"@,
            spec_parse_doc(s@) is Some && !spec_parse_doc(s@)->0.wf() ==> r is Err && r->Err_0@
                == "Invalid data: inconsistent ids"@,
    {
        let v = crate::text::chars_of(s);
        match parse_doc(&v) {
            None => Err(String::from_str("Invalid data: malformed document")),
            Some((fs, ds, ws, nid)) => {
                if crate::store::check_wf(&fs, &ds, &ws, nid) {
                    Ok(Store::from_parts(fs, ds, ws, nid))
                } else {
                    Err(String::from_str("Invalid data: inconsistent ids"))
                }
            },
        }
    }
}

/// Splits knowledge of a concatenation at `i` into its two halves.
pub proof fn lemma_split(full: Seq<char>, i: int, a: Seq<char>, b: Seq<char>)
    requires
        0 <= i,
        i + a.len() + b.len() <= full.len(),
        full.subrange(i, i + a.len() + b.len()) == a + b,
    ensures
        full.subrange(i, i + a.len()) == a,
        full.subrange(i + a.len(), i + a.len() + b.len()) == b,
{
    let w = a.len() + b.len();
    assert forall|k: int| 0 <= k < w implies full[i + k] == (a + b)[k] by {
        assert(full.subrange(i, i + w)[k] == full[i + k]);
    }
    assert(full.subrange(i, i + a.len()) =~= a);
    assert forall|q: int| 0 <= q < b.len() implies full.subrange(i + a.len(), i + w)[q] == b[q] by {
        assert(full.subrange(i, i + w)[a.len() + q] == (a + b)[a.len() + q]);
        assert(full.subrange(i + a.len(), i + w)[q] == full[i + a.len() + q]);
    }
    assert(full.subrange(i + a.len(), i + w) =~= b);
}

/// A literal found in the text is accepted there.
pub proof fn lemma_expect(full: Seq<char>, i: int, lit: Seq<char>)
    requires
        0 <= i,
        i + lit.len() <= full.len(),
        full.subrange(i, i + lit.len()) == lit,
    ensures
        spec_expect(full, i, lit) == Some(i + lit.len()),
{
}

/// A printed optional count parses back when followed by a comma.
pub proof fn lemma_parse_printed_opt_u32(v: Option<u32>, full: Seq<char>, i: int)
    requires
        0 <= i,
        i + spec_opt_dec(v).len() < full.len(),
        full.subrange(i, i + spec_opt_dec(v).len()) == spec_opt_dec(v),
        !crate::json::is_digit(full[i + spec_opt_dec(v).len()]),
        full[i + spec_opt_dec(v).len()] != '.',
    ensures
        spec_parse_opt_u32(full, i) == Some((v, i + spec_opt_dec(v).len())),
{
    match v {
        None => {
            lemma_expect(full, i, null_chars());
        },
        Some(x) => {
            crate::json::lemma_dec_digits(x as int);
            assert(full[i + 0] == spec_dec(x as int)[0]) by {
                assert(full.subrange(i, i + spec_dec(x as int).len())[0] == full[i + 0]);
            }
            assert(crate::json::is_digit(full[i]));
            if spec_expect(full, i, null_chars()) is Some {
                assert(full.subrange(i, i + 4) == null_chars());
                assert(full.subrange(i, i + 4)[0] == full[i]);
                assert(full[i] == 'n');
                assert(false);
            }
            crate::json::lemma_parse_printed_int_num(x as int, full, i);
        },
    }
}

/// A printed optional string parses back.
pub proof fn lemma_parse_printed_opt_string(v: Option<Seq<char>>, full: Seq<char>, i: int)
    requires
        0 <= i,
        i + spec_opt_string(v).len() <= full.len(),
        full.subrange(i, i + spec_opt_string(v).len()) == spec_opt_string(v),
    ensures
        spec_parse_opt_string(full, i) == Some((v, i + spec_opt_string(v).len())),
{
    match v {
        None => {
            lemma_expect(full, i, null_chars());
        },
        Some(x) => {
            assert(full[i + 0] == spec_json_string(x)[0]) by {
                assert(full.subrange(i, i + spec_json_string(x).len())[0] == full[i + 0]);
            }
            assert(spec_json_string(x)[0] == '"');
            if spec_expect(full, i, null_chars()) is Some {
                assert(full.subrange(i, i + 4) == null_chars());
                assert(full.subrange(i, i + 4)[0] == full[i]);
                assert(false);
            }
            crate::json::lemma_parse_printed_string(x, full, i);
        },
    }
}

/// A printed feeding tag parses back to its type.
pub proof fn lemma_parse_printed_feeding_tag(
    t: crate::models::FeedingType,
    full: Seq<char>,
    i: int,
)
    requires
        0 <= i,
        i + spec_json_string(spec_feeding_tag(t)).len() <= full.len(),
        full.subrange(i, i + spec_json_string(spec_feeding_tag(t)).len()) == spec_json_string(
            spec_feeding_tag(t),
        ),
    ensures
        spec_parse_feeding_tag(full, i) == Some(
            (t, i + spec_json_string(spec_feeding_tag(t)).len()),
        ),
{
    reveal_strlit("breast-left");
    reveal_strlit("breast-right");
    reveal_strlit("bottle");
    reveal_strlit("solid");
    crate::json::lemma_parse_printed_string(spec_feeding_tag(t), full, i);
    assert("breast-left"@.len() == 11);
    assert("breast-right"@.len() == 12);
    assert("bottle"@.len() == 6);
    assert("solid"@.len() == 5);
}

/// A printed dejection tag parses back to its type.
pub proof fn lemma_parse_printed_dejection_tag(
    t: crate::models::DejectionType,
    full: Seq<char>,
    i: int,
)
    requires
        0 <= i,
        i + spec_json_string(spec_dejection_tag(t)).len() <= full.len(),
        full.subrange(i, i + spec_json_string(spec_dejection_tag(t)).len()) == spec_json_string(
            spec_dejection_tag(t),
        ),
    ensures
        spec_parse_dejection_tag(full, i) == Some(
            (t, i + spec_json_string(spec_dejection_tag(t)).len()),
        ),
{
    reveal_strlit("urine");
    reveal_strlit("poop");
    crate::json::lemma_parse_printed_string(spec_dejection_tag(t), full, i);
    assert("urine"@.len() == 5);
    assert("poop"@.len() == 4);
}

/// A printed timestamp string parses back to the timestamp.
pub proof fn lemma_parse_printed_ts(ts: crate::time::Timestamp, full: Seq<char>, i: int)
    requires
        ts.wf(),
        0 <= i,
        i + spec_json_string(crate::time::spec_ts_text(ts)).len() <= full.len(),
        full.subrange(i, i + spec_json_string(crate::time::spec_ts_text(ts)).len())
            == spec_json_string(crate::time::spec_ts_text(ts)),
    ensures
        spec_parse_ts_string(full, i) == Some(
            (ts, i + spec_json_string(crate::time::spec_ts_text(ts)).len()),
        ),
{
    crate::json::lemma_parse_printed_string(crate::time::spec_ts_text(ts), full, i);
    crate::time::lemma_ts_text_parses(ts);
}


/// A printed gram count parses back through `spec_parse_grams`.
pub proof fn lemma_parse_printed_grams(g: u64, full: Seq<char>, i: int)
    requires
        0 <= i,
        i + spec_kg_text(g as int).len() < full.len(),
        full.subrange(i, i + spec_kg_text(g as int).len()) == spec_kg_text(g as int),
        !crate::json::is_digit(full[i + spec_kg_text(g as int).len()]),
    ensures
        spec_parse_grams(full, i) == Some((g, i + spec_kg_text(g as int).len())),
{
    crate::json::lemma_parse_printed_kg(g as int, full, i);
    let u = g as int / 1000;
    let m = g as int % 1000;
    assert(u * 1000 + m == g);
    assert(u <= (u64::MAX - m) / 1000) by (nonlinear_arith)
        requires
            0 <= m < 1000,
            0 <= u,
            u * 1000 + m <= u64::MAX,
    ;
}


/// A printed key token: quote, plain characters, quote, colon.
proof fn lemma_printed_key(full: Seq<char>, p: int, key: Seq<char>)
    requires
        0 <= p,
        p + key.len() + 3 <= full.len(),
        full.subrange(p, p + key.len() + 3) == seq!['"'] + key + seq!['"', ':'],
        forall|k: int|
            0 <= k < key.len() ==> (#[trigger] key[k]) != '"' && key[k] != '\\' && (key[k] as u32)
                >= 32,
    ensures
        crate::json::spec_parse_jstring(full, p) == Some((key, p + key.len() + 2)),
        full[p + key.len() + 2] == ':',
        full[p] == '"',
{
    crate::json::lemma_escape_plain(key);
    assert(seq!['"'] + key + seq!['"', ':'] =~= spec_json_string(key) + seq![':']) by {
        assert(spec_json_string(key) =~= seq!['"'] + key + seq!['"']);
    }
    lemma_split(full, p, spec_json_string(key), seq![':']);
    crate::json::lemma_parse_printed_string(key, full, p);
    assert(full[p + key.len() + 2] == ':') by {
        assert(full.subrange(p + key.len() + 2, p + key.len() + 3)[0] == full[p + key.len() + 2]);
    }
    assert(full[p + 0] == (seq!['"'] + key + seq!['"', ':'])[0]) by {
        assert(full.subrange(p, p + key.len() + 3)[0] == full[p + 0]);
    }
}


/// One printed `id` pair, consumed by the pair walker.
#[verifier::rlimit(100)]
proof fn lemma_pairs_step_id(
    full: Seq<char>,
    p: int,
    idv: u64,
    acc: RecordFields,
    kind: RecordKind,
    fuel: nat,
)
    requires
        fuel >= 1,
        acc.id is None,
        0 <= p,
        ({
            let kt = seq!['"'] + "id"@ + seq!['"', ':'];
            let vt = spec_dec(idv as int);
            &&& p + kt.len() + vt.len() < full.len()
            &&& full.subrange(p, p + kt.len() + vt.len()) == kt + vt
            &&& (full[p + kt.len() + vt.len()] == ',' || full[p + kt.len() + vt.len()] == '}')
        }),
    ensures
        ({
            let kt = seq!['"'] + "id"@ + seq!['"', ':'];
            let vend = p + kt.len() + spec_dec(idv as int).len();
            let acc2 = RecordFields { id: Some(idv), ..acc };
            spec_parse_record_pairs(full, p, acc, kind, fuel) == (if full[vend] == ',' {
                spec_parse_record_pairs(
                    full,
                    crate::json::ws_end(full, vend + 1),
                    acc2,
                    kind,
                    (fuel - 1) as nat,
                )
            } else {
                Some((acc2, vend + 1))
            })
        }),
{
    reveal_strlit("id");
    reveal_strlit("baby_name");
    reveal_strlit("feeding_type");
    reveal_strlit("amount_ml");
    reveal_strlit("duration_minutes");
    reveal_strlit("dejection_type");
    reveal_strlit("weight_kg");
    reveal_strlit("notes");
    reveal_strlit("timestamp");
    let key = "id"@;
    let kt = seq!['"'] + key + seq!['"', ':'];
    assert(key != "baby_name"@) by {
        assert(key.len() == 2);
        assert("baby_name"@.len() == 9);
    }
    assert(key != "feeding_type"@) by {
        assert(key.len() == 2);
        assert("feeding_type"@.len() == 12);
    }
    assert(key != "amount_ml"@) by {
        assert(key.len() == 2);
        assert("amount_ml"@.len() == 9);
    }
    assert(key != "duration_minutes"@) by {
        assert(key.len() == 2);
        assert("duration_minutes"@.len() == 16);
    }
    assert(key != "dejection_type"@) by {
        assert(key.len() == 2);
        assert("dejection_type"@.len() == 14);
    }
    assert(key != "weight_kg"@) by {
        assert(key.len() == 2);
        assert("weight_kg"@.len() == 9);
    }
    assert(key != "notes"@) by {
        assert(key.len() == 2);
        assert("notes"@.len() == 5);
    }
    assert(key != "timestamp"@) by {
        assert(key.len() == 2);
        assert("timestamp"@.len() == 9);
    }
    let vt = spec_dec(idv as int);
    let pk = p + kt.len();
    let vend = pk + vt.len();
    lemma_split(full, p, kt, vt);
    lemma_printed_key(full, p, key);
    crate::json::lemma_dec_digits(idv as int);
    assert(full[pk + 0] == vt[0]) by {
        assert(full.subrange(pk, pk + vt.len())[0] == full[pk + 0]);
    }
    assert(crate::json::is_digit(full[pk]));
    assert(!crate::json::is_digit(full[vend]));
    crate::json::lemma_parse_printed_u64(idv as int, full, pk);
    let acc2 = RecordFields { id: Some(idv), ..acc };
    assert(spec_parse_record_field(full, pk, acc, key, kind) == Some((acc2, vend)));
    assert(crate::json::ws_end(full, p + key.len() + 2) == p + key.len() + 2);
    assert(crate::json::ws_end(full, pk) == pk);
    assert(crate::json::ws_end(full, vend) == vend);
}

/// One printed `baby_name` pair, consumed by the pair walker.
#[verifier::rlimit(100)]
proof fn lemma_pairs_step_baby_name(
    full: Seq<char>,
    p: int,
    name: Seq<char>,
    acc: RecordFields,
    kind: RecordKind,
    fuel: nat,
)
    requires
        fuel >= 1,
        acc.baby_name is None,
        0 <= p,
        ({
            let kt = seq!['"'] + "baby_name"@ + seq!['"', ':'];
            let vt = spec_json_string(name);
            &&& p + kt.len() + vt.len() < full.len()
            &&& full.subrange(p, p + kt.len() + vt.len()) == kt + vt
            &&& (full[p + kt.len() + vt.len()] == ',' || full[p + kt.len() + vt.len()] == '}')
        }),
    ensures
        ({
            let kt = seq!['"'] + "baby_name"@ + seq!['"', ':'];
            let vend = p + kt.len() + spec_json_string(name).len();
            let acc2 = RecordFields { baby_name: Some(name), ..acc };
            spec_parse_record_pairs(full, p, acc, kind, fuel) == (if full[vend] == ',' {
                spec_parse_record_pairs(
                    full,
                    crate::json::ws_end(full, vend + 1),
                    acc2,
                    kind,
                    (fuel - 1) as nat,
                )
            } else {
                Some((acc2, vend + 1))
            })
        }),
{
    reveal_strlit("id");
    reveal_strlit("baby_name");
    reveal_strlit("feeding_type");
    reveal_strlit("amount_ml");
    reveal_strlit("duration_minutes");
    reveal_strlit("dejection_type");
    reveal_strlit("weight_kg");
    reveal_strlit("notes");
    reveal_strlit("timestamp");
    let key = "baby_name"@;
    let kt = seq!['"'] + key + seq!['"', ':'];
    assert(key != "id"@) by {
        assert(key.len() == 9);
        assert("id"@.len() == 2);
    }
    assert(key != "feeding_type"@) by {
        assert(key.len() == 9);
        assert("feeding_type"@.len() == 12);
    }
    assert(key != "amount_ml"@) by {
        assert(key[0] == 'b');
        assert("amount_ml"@[0] == 'a');
    }
    assert(key != "duration_minutes"@) by {
        assert(key.len() == 9);
        assert("duration_minutes"@.len() == 16);
    }
    assert(key != "dejection_type"@) by {
        assert(key.len() == 9);
        assert("dejection_type"@.len() == 14);
    }
    assert(key != "weight_kg"@) by {
        assert(key[0] == 'b');
        assert("weight_kg"@[0] == 'w');
    }
    assert(key != "notes"@) by {
        assert(key.len() == 9);
        assert("notes"@.len() == 5);
    }
    assert(key != "timestamp"@) by {
        assert(key[0] == 'b');
        assert("timestamp"@[0] == 't');
    }
    let vt = spec_json_string(name);
    let pk = p + kt.len();
    let vend = pk + vt.len();
    lemma_split(full, p, kt, vt);
    lemma_printed_key(full, p, key);
    assert(full[pk + 0] == vt[0]) by {
        assert(full.subrange(pk, pk + vt.len())[0] == full[pk + 0]);
    }
    assert(full[pk] == '"');
    crate::json::lemma_parse_printed_string(name, full, pk);
    let acc2 = RecordFields { baby_name: Some(name), ..acc };
    assert(spec_parse_record_field(full, pk, acc, key, kind) == Some((acc2, vend)));
    assert(crate::json::ws_end(full, p + key.len() + 2) == p + key.len() + 2);
    assert(crate::json::ws_end(full, pk) == pk);
    assert(crate::json::ws_end(full, vend) == vend);
}

/// One printed `feeding_type` pair, consumed by the pair walker.
#[verifier::rlimit(100)]
proof fn lemma_pairs_step_feeding_type(
    full: Seq<char>,
    p: int,
    t: crate::models::FeedingType,
    acc: RecordFields,
    kind: RecordKind,
    fuel: nat,
)
    requires
        fuel >= 1,
        acc.feeding_type is None,
        kind is Feeding,
        0 <= p,
        ({
            let kt = seq!['"'] + "feeding_type"@ + seq!['"', ':'];
            let vt = spec_json_string(spec_feeding_tag(t));
            &&& p + kt.len() + vt.len() < full.len()
            &&& full.subrange(p, p + kt.len() + vt.len()) == kt + vt
            &&& (full[p + kt.len() + vt.len()] == ',' || full[p + kt.len() + vt.len()] == '}')
        }),
    ensures
        ({
            let kt = seq!['"'] + "feeding_type"@ + seq!['"', ':'];
            let vend = p + kt.len() + spec_json_string(spec_feeding_tag(t)).len();
            let acc2 = RecordFields { feeding_type: Some(t), ..acc };
            spec_parse_record_pairs(full, p, acc, kind, fuel) == (if full[vend] == ',' {
                spec_parse_record_pairs(
                    full,
                    crate::json::ws_end(full, vend + 1),
                    acc2,
                    kind,
                    (fuel - 1) as nat,
                )
            } else {
                Some((acc2, vend + 1))
            })
        }),
{
    reveal_strlit("id");
    reveal_strlit("baby_name");
    reveal_strlit("feeding_type");
    reveal_strlit("amount_ml");
    reveal_strlit("duration_minutes");
    reveal_strlit("dejection_type");
    reveal_strlit("weight_kg");
    reveal_strlit("notes");
    reveal_strlit("timestamp");
    let key = "feeding_type"@;
    let kt = seq!['"'] + key + seq!['"', ':'];
    assert(key != "id"@) by {
        assert(key.len() == 12);
        assert("id"@.len() == 2);
    }
    assert(key != "baby_name"@) by {
        assert(key.len() == 12);
        assert("baby_name"@.len() == 9);
    }
    assert(key != "amount_ml"@) by {
        assert(key.len() == 12);
        assert("amount_ml"@.len() == 9);
    }
    assert(key != "duration_minutes"@) by {
        assert(key.len() == 12);
        assert("duration_minutes"@.len() == 16);
    }
    assert(key != "dejection_type"@) by {
        assert(key.len() == 12);
        assert("dejection_type"@.len() == 14);
    }
    assert(key != "weight_kg"@) by {
        assert(key.len() == 12);
        assert("weight_kg"@.len() == 9);
    }
    assert(key != "notes"@) by {
        assert(key.len() == 12);
        assert("notes"@.len() == 5);
    }
    assert(key != "timestamp"@) by {
        assert(key.len() == 12);
        assert("timestamp"@.len() == 9);
    }
    let vt = spec_json_string(spec_feeding_tag(t));
    let pk = p + kt.len();
    let vend = pk + vt.len();
    lemma_split(full, p, kt, vt);
    lemma_printed_key(full, p, key);
    assert(full[pk + 0] == vt[0]) by {
        assert(full.subrange(pk, pk + vt.len())[0] == full[pk + 0]);
    }
    assert(full[pk] == '"');
    lemma_parse_printed_feeding_tag(t, full, pk);
    let acc2 = RecordFields { feeding_type: Some(t), ..acc };
    assert(spec_parse_record_field(full, pk, acc, key, kind) == Some((acc2, vend)));
    assert(crate::json::ws_end(full, p + key.len() + 2) == p + key.len() + 2);
    assert(crate::json::ws_end(full, pk) == pk);
    assert(crate::json::ws_end(full, vend) == vend);
}

/// One printed `amount_ml` pair, consumed by the pair walker.
#[verifier::rlimit(100)]
proof fn lemma_pairs_step_amount_ml(
    full: Seq<char>,
    p: int,
    a: Option<u32>,
    acc: RecordFields,
    kind: RecordKind,
    fuel: nat,
)
    requires
        fuel >= 1,
        acc.amount_ml is None,
        kind is Feeding,
        0 <= p,
        ({
            let kt = seq!['"'] + "amount_ml"@ + seq!['"', ':'];
            let vt = spec_opt_dec(a);
            &&& p + kt.len() + vt.len() < full.len()
            &&& full.subrange(p, p + kt.len() + vt.len()) == kt + vt
            &&& (full[p + kt.len() + vt.len()] == ',' || full[p + kt.len() + vt.len()] == '}')
        }),
    ensures
        ({
            let kt = seq!['"'] + "amount_ml"@ + seq!['"', ':'];
            let vend = p + kt.len() + spec_opt_dec(a).len();
            let acc2 = RecordFields { amount_ml: Some(a), ..acc };
            spec_parse_record_pairs(full, p, acc, kind, fuel) == (if full[vend] == ',' {
                spec_parse_record_pairs(
                    full,
                    crate::json::ws_end(full, vend + 1),
                    acc2,
                    kind,
                    (fuel - 1) as nat,
                )
            } else {
                Some((acc2, vend + 1))
            })
        }),
{
    reveal_strlit("id");
    reveal_strlit("baby_name");
    reveal_strlit("feeding_type");
    reveal_strlit("amount_ml");
    reveal_strlit("duration_minutes");
    reveal_strlit("dejection_type");
    reveal_strlit("weight_kg");
    reveal_strlit("notes");
    reveal_strlit("timestamp");
    let key = "amount_ml"@;
    let kt = seq!['"'] + key + seq!['"', ':'];
    assert(key != "id"@) by {
        assert(key.len() == 9);
        assert("id"@.len() == 2);
    }
    assert(key != "baby_name"@) by {
        assert(key[0] == 'a');
        assert("baby_name"@[0] == 'b');
    }
    assert(key != "feeding_type"@) by {
        assert(key.len() == 9);
        assert("feeding_type"@.len() == 12);
    }
    assert(key != "duration_minutes"@) by {
        assert(key.len() == 9);
        assert("duration_minutes"@.len() == 16);
    }
    assert(key != "dejection_type"@) by {
        assert(key.len() == 9);
        assert("dejection_type"@.len() == 14);
    }
    assert(key != "weight_kg"@) by {
        assert(key[0] == 'a');
        assert("weight_kg"@[0] == 'w');
    }
    assert(key != "notes"@) by {
        assert(key.len() == 9);
        assert("notes"@.len() == 5);
    }
    assert(key != "timestamp"@) by {
        assert(key[0] == 'a');
        assert("timestamp"@[0] == 't');
    }
    let vt = spec_opt_dec(a);
    let pk = p + kt.len();
    let vend = pk + vt.len();
    lemma_split(full, p, kt, vt);
    lemma_printed_key(full, p, key);
    assert(full[pk + 0] == vt[0]) by {
        assert(full.subrange(pk, pk + vt.len())[0] == full[pk + 0]);
    }
    assert(match a {
        Some(x) => crate::json::is_digit(full[pk]),
        None => full[pk] == 'n',
    }) by {
        match a {
            Some(x) => {
                crate::json::lemma_dec_digits(x as int);
            },
            None => {},
        }
    }
    lemma_parse_printed_opt_u32(a, full, pk);
    let acc2 = RecordFields { amount_ml: Some(a), ..acc };
    assert(spec_parse_record_field(full, pk, acc, key, kind) == Some((acc2, vend)));
    assert(crate::json::ws_end(full, p + key.len() + 2) == p + key.len() + 2);
    assert(crate::json::ws_end(full, pk) == pk);
    assert(crate::json::ws_end(full, vend) == vend);
}

/// One printed `duration_minutes` pair, consumed by the pair walker.
#[verifier::rlimit(100)]
proof fn lemma_pairs_step_duration_minutes(
    full: Seq<char>,
    p: int,
    a: Option<u32>,
    acc: RecordFields,
    kind: RecordKind,
    fuel: nat,
)
    requires
        fuel >= 1,
        acc.duration_minutes is None,
        kind is Feeding,
        0 <= p,
        ({
            let kt = seq!['"'] + "duration_minutes"@ + seq!['"', ':'];
            let vt = spec_opt_dec(a);
            &&& p + kt.len() + vt.len() < full.len()
            &&& full.subrange(p, p + kt.len() + vt.len()) == kt + vt
            &&& (full[p + kt.len() + vt.len()] == ',' || full[p + kt.len() + vt.len()] == '}')
        }),
    ensures
        ({
            let kt = seq!['"'] + "duration_minutes"@ + seq!['"', ':'];
            let vend = p + kt.len() + spec_opt_dec(a).len();
            let acc2 = RecordFields { duration_minutes: Some(a), ..acc };
            spec_parse_record_pairs(full, p, acc, kind, fuel) == (if full[vend] == ',' {
                spec_parse_record_pairs(
                    full,
                    crate::json::ws_end(full, vend + 1),
                    acc2,
                    kind,
                    (fuel - 1) as nat,
                )
            } else {
                Some((acc2, vend + 1))
            })
        }),
{
    reveal_strlit("id");
    reveal_strlit("baby_name");
    reveal_strlit("feeding_type");
    reveal_strlit("amount_ml");
    reveal_strlit("duration_minutes");
    reveal_strlit("dejection_type");
    reveal_strlit("weight_kg");
    reveal_strlit("notes");
    reveal_strlit("timestamp");
    let key = "duration_minutes"@;
    let kt = seq!['"'] + key + seq!['"', ':'];
    assert(key != "id"@) by {
        assert(key.len() == 16);
        assert("id"@.len() == 2);
    }
    assert(key != "baby_name"@) by {
        assert(key.len() == 16);
        assert("baby_name"@.len() == 9);
    }
    assert(key != "feeding_type"@) by {
        assert(key.len() == 16);
        assert("feeding_type"@.len() == 12);
    }
    assert(key != "amount_ml"@) by {
        assert(key.len() == 16);
        assert("amount_ml"@.len() == 9);
    }
    assert(key != "dejection_type"@) by {
        assert(key.len() == 16);
        assert("dejection_type"@.len() == 14);
    }
    assert(key != "weight_kg"@) by {
        assert(key.len() == 16);
        assert("weight_kg"@.len() == 9);
    }
    assert(key != "notes"@) by {
        assert(key.len() == 16);
        assert("notes"@.len() == 5);
    }
    assert(key != "timestamp"@) by {
        assert(key.len() == 16);
        assert("timestamp"@.len() == 9);
    }
    let vt = spec_opt_dec(a);
    let pk = p + kt.len();
    let vend = pk + vt.len();
    lemma_split(full, p, kt, vt);
    lemma_printed_key(full, p, key);
    assert(full[pk + 0] == vt[0]) by {
        assert(full.subrange(pk, pk + vt.len())[0] == full[pk + 0]);
    }
    assert(match a {
        Some(x) => crate::json::is_digit(full[pk]),
        None => full[pk] == 'n',
    }) by {
        match a {
            Some(x) => {
                crate::json::lemma_dec_digits(x as int);
            },
            None => {},
        }
    }
    lemma_parse_printed_opt_u32(a, full, pk);
    let acc2 = RecordFields { duration_minutes: Some(a), ..acc };
    assert(spec_parse_record_field(full, pk, acc, key, kind) == Some((acc2, vend)));
    assert(crate::json::ws_end(full, p + key.len() + 2) == p + key.len() + 2);
    assert(crate::json::ws_end(full, pk) == pk);
    assert(crate::json::ws_end(full, vend) == vend);
}

/// One printed `dejection_type` pair, consumed by the pair walker.
#[verifier::rlimit(100)]
proof fn lemma_pairs_step_dejection_type(
    full: Seq<char>,
    p: int,
    t: crate::models::DejectionType,
    acc: RecordFields,
    kind: RecordKind,
    fuel: nat,
)
    requires
        fuel >= 1,
        acc.dejection_type is None,
        kind is Dejection,
        0 <= p,
        ({
            let kt = seq!['"'] + "dejection_type"@ + seq!['"', ':'];
            let vt = spec_json_string(spec_dejection_tag(t));
            &&& p + kt.len() + vt.len() < full.len()
            &&& full.subrange(p, p + kt.len() + vt.len()) == kt + vt
            &&& (full[p + kt.len() + vt.len()] == ',' || full[p + kt.len() + vt.len()] == '}')
        }),
    ensures
        ({
            let kt = seq!['"'] + "dejection_type"@ + seq!['"', ':'];
            let vend = p + kt.len() + spec_json_string(spec_dejection_tag(t)).len();
            let acc2 = RecordFields { dejection_type: Some(t), ..acc };
            spec_parse_record_pairs(full, p, acc, kind, fuel) == (if full[vend] == ',' {
                spec_parse_record_pairs(
                    full,
                    crate::json::ws_end(full, vend + 1),
                    acc2,
                    kind,
                    (fuel - 1) as nat,
                )
            } else {
                Some((acc2, vend + 1))
            })
        }),
{
    reveal_strlit("id");
    reveal_strlit("baby_name");
    reveal_strlit("feeding_type");
    reveal_strlit("amount_ml");
    reveal_strlit("duration_minutes");
    reveal_strlit("dejection_type");
    reveal_strlit("weight_kg");
    reveal_strlit("notes");
    reveal_strlit("timestamp");
    let key = "dejection_type"@;
    let kt = seq!['"'] + key + seq!['"', ':'];
    assert(key != "id"@) by {
        assert(key.len() == 14);
        assert("id"@.len() == 2);
    }
    assert(key != "baby_name"@) by {
        assert(key.len() == 14);
        assert("baby_name"@.len() == 9);
    }
    assert(key != "feeding_type"@) by {
        assert(key.len() == 14);
        assert("feeding_type"@.len() == 12);
    }
    assert(key != "amount_ml"@) by {
        assert(key.len() == 14);
        assert("amount_ml"@.len() == 9);
    }
    assert(key != "duration_minutes"@) by {
        assert(key.len() == 14);
        assert("duration_minutes"@.len() == 16);
    }
    assert(key != "weight_kg"@) by {
        assert(key.len() == 14);
        assert("weight_kg"@.len() == 9);
    }
    assert(key != "notes"@) by {
        assert(key.len() == 14);
        assert("notes"@.len() == 5);
    }
    assert(key != "timestamp"@) by {
        assert(key.len() == 14);
        assert("timestamp"@.len() == 9);
    }
    let vt = spec_json_string(spec_dejection_tag(t));
    let pk = p + kt.len();
    let vend = pk + vt.len();
    lemma_split(full, p, kt, vt);
    lemma_printed_key(full, p, key);
    assert(full[pk + 0] == vt[0]) by {
        assert(full.subrange(pk, pk + vt.len())[0] == full[pk + 0]);
    }
    assert(full[pk] == '"');
    lemma_parse_printed_dejection_tag(t, full, pk);
    let acc2 = RecordFields { dejection_type: Some(t), ..acc };
    assert(spec_parse_record_field(full, pk, acc, key, kind) == Some((acc2, vend)));
    assert(crate::json::ws_end(full, p + key.len() + 2) == p + key.len() + 2);
    assert(crate::json::ws_end(full, pk) == pk);
    assert(crate::json::ws_end(full, vend) == vend);
}

/// One printed `weight_kg` pair, consumed by the pair walker.
#[verifier::rlimit(100)]
proof fn lemma_pairs_step_weight_kg(
    full: Seq<char>,
    p: int,
    g: u64,
    acc: RecordFields,
    kind: RecordKind,
    fuel: nat,
)
    requires
        fuel >= 1,
        acc.weight_g is None,
        kind is Weight,
        0 <= p,
        ({
            let kt = seq!['"'] + "weight_kg"@ + seq!['"', ':'];
            let vt = spec_kg_text(g as int);
            &&& p + kt.len() + vt.len() < full.len()
            &&& full.subrange(p, p + kt.len() + vt.len()) == kt + vt
            &&& (full[p + kt.len() + vt.len()] == ',' || full[p + kt.len() + vt.len()] == '}')
        }),
    ensures
        ({
            let kt = seq!['"'] + "weight_kg"@ + seq!['"', ':'];
            let vend = p + kt.len() + spec_kg_text(g as int).len();
            let acc2 = RecordFields { weight_g: Some(g), ..acc };
            spec_parse_record_pairs(full, p, acc, kind, fuel) == (if full[vend] == ',' {
                spec_parse_record_pairs(
                    full,
                    crate::json::ws_end(full, vend + 1),
                    acc2,
                    kind,
                    (fuel - 1) as nat,
                )
            } else {
                Some((acc2, vend + 1))
            })
        }),
{
    reveal_strlit("id");
    reveal_strlit("baby_name");
    reveal_strlit("feeding_type");
    reveal_strlit("amount_ml");
    reveal_strlit("duration_minutes");
    reveal_strlit("dejection_type");
    reveal_strlit("weight_kg");
    reveal_strlit("notes");
    reveal_strlit("timestamp");
    let key = "weight_kg"@;
    let kt = seq!['"'] + key + seq!['"', ':'];
    assert(key != "id"@) by {
        assert(key.len() == 9);
        assert("id"@.len() == 2);
    }
    assert(key != "baby_name"@) by {
        assert(key[0] == 'w');
        assert("baby_name"@[0] == 'b');
    }
    assert(key != "feeding_type"@) by {
        assert(key.len() == 9);
        assert("feeding_type"@.len() == 12);
    }
    assert(key != "amount_ml"@) by {
        assert(key[0] == 'w');
        assert("amount_ml"@[0] == 'a');
    }
    assert(key != "duration_minutes"@) by {
        assert(key.len() == 9);
        assert("duration_minutes"@.len() == 16);
    }
    assert(key != "dejection_type"@) by {
        assert(key.len() == 9);
        assert("dejection_type"@.len() == 14);
    }
    assert(key != "notes"@) by {
        assert(key.len() == 9);
        assert("notes"@.len() == 5);
    }
    assert(key != "timestamp"@) by {
        assert(key[0] == 'w');
        assert("timestamp"@[0] == 't');
    }
    let vt = spec_kg_text(g as int);
    let pk = p + kt.len();
    let vend = pk + vt.len();
    lemma_split(full, p, kt, vt);
    lemma_printed_key(full, p, key);
    assert(full[pk + 0] == vt[0]) by {
        assert(full.subrange(pk, pk + vt.len())[0] == full[pk + 0]);
    }
    assert(full[pk + 0] == spec_dec(g as int / 1000)[0]) by {
        assert((spec_dec(g as int / 1000) + seq!['.'] + spec_pad3(g as int % 1000))[0]
            == spec_dec(g as int / 1000)[0]);
    }
    assert(crate::json::is_digit(full[pk])) by {
        crate::json::lemma_dec_digits(g as int / 1000);
    }
    assert(!crate::json::is_digit(full[vend]));
    lemma_parse_printed_grams(g, full, pk);
    let acc2 = RecordFields { weight_g: Some(g), ..acc };
    assert(spec_parse_record_field(full, pk, acc, key, kind) == Some((acc2, vend)));
    assert(crate::json::ws_end(full, p + key.len() + 2) == p + key.len() + 2);
    assert(crate::json::ws_end(full, pk) == pk);
    assert(crate::json::ws_end(full, vend) == vend);
}

/// One printed `notes` pair, consumed by the pair walker.
#[verifier::rlimit(100)]
proof fn lemma_pairs_step_notes(
    full: Seq<char>,
    p: int,
    n: Option<Seq<char>>,
    acc: RecordFields,
    kind: RecordKind,
    fuel: nat,
)
    requires
        fuel >= 1,
        acc.notes is None,
        0 <= p,
        ({
            let kt = seq!['"'] + "notes"@ + seq!['"', ':'];
            let vt = spec_opt_string(n);
            &&& p + kt.len() + vt.len() < full.len()
            &&& full.subrange(p, p + kt.len() + vt.len()) == kt + vt
            &&& (full[p + kt.len() + vt.len()] == ',' || full[p + kt.len() + vt.len()] == '}')
        }),
    ensures
        ({
            let kt = seq!['"'] + "notes"@ + seq!['"', ':'];
            let vend = p + kt.len() + spec_opt_string(n).len();
            let acc2 = RecordFields { notes: Some(n), ..acc };
            spec_parse_record_pairs(full, p, acc, kind, fuel) == (if full[vend] == ',' {
                spec_parse_record_pairs(
                    full,
                    crate::json::ws_end(full, vend + 1),
                    acc2,
                    kind,
                    (fuel - 1) as nat,
                )
            } else {
                Some((acc2, vend + 1))
            })
        }),
{
    reveal_strlit("id");
    reveal_strlit("baby_name");
    reveal_strlit("feeding_type");
    reveal_strlit("amount_ml");
    reveal_strlit("duration_minutes");
    reveal_strlit("dejection_type");
    reveal_strlit("weight_kg");
    reveal_strlit("notes");
    reveal_strlit("timestamp");
    let key = "notes"@;
    let kt = seq!['"'] + key + seq!['"', ':'];
    assert(key != "id"@) by {
        assert(key.len() == 5);
        assert("id"@.len() == 2);
    }
    assert(key != "baby_name"@) by {
        assert(key.len() == 5);
        assert("baby_name"@.len() == 9);
    }
    assert(key != "feeding_type"@) by {
        assert(key.len() == 5);
        assert("feeding_type"@.len() == 12);
    }
    assert(key != "amount_ml"@) by {
        assert(key.len() == 5);
        assert("amount_ml"@.len() == 9);
    }
    assert(key != "duration_minutes"@) by {
        assert(key.len() == 5);
        assert("duration_minutes"@.len() == 16);
    }
    assert(key != "dejection_type"@) by {
        assert(key.len() == 5);
        assert("dejection_type"@.len() == 14);
    }
    assert(key != "weight_kg"@) by {
        assert(key.len() == 5);
        assert("weight_kg"@.len() == 9);
    }
    assert(key != "timestamp"@) by {
        assert(key.len() == 5);
        assert("timestamp"@.len() == 9);
    }
    let vt = spec_opt_string(n);
    let pk = p + kt.len();
    let vend = pk + vt.len();
    lemma_split(full, p, kt, vt);
    lemma_printed_key(full, p, key);
    assert(full[pk + 0] == vt[0]) by {
        assert(full.subrange(pk, pk + vt.len())[0] == full[pk + 0]);
    }
    assert(match n {
        Some(x) => full[pk] == '"',
        None => full[pk] == 'n',
    });
    lemma_parse_printed_opt_string(n, full, pk);
    let acc2 = RecordFields { notes: Some(n), ..acc };
    assert(spec_parse_record_field(full, pk, acc, key, kind) == Some((acc2, vend)));
    assert(crate::json::ws_end(full, p + key.len() + 2) == p + key.len() + 2);
    assert(crate::json::ws_end(full, pk) == pk);
    assert(crate::json::ws_end(full, vend) == vend);
}

/// One printed `timestamp` pair, consumed by the pair walker.
#[verifier::rlimit(100)]
proof fn lemma_pairs_step_timestamp(
    full: Seq<char>,
    p: int,
    ts: crate::time::Timestamp,
    acc: RecordFields,
    kind: RecordKind,
    fuel: nat,
)
    requires
        fuel >= 1,
        acc.timestamp is None,
        ts.wf(),
        0 <= p,
        ({
            let kt = seq!['"'] + "timestamp"@ + seq!['"', ':'];
            let vt = spec_json_string(crate::time::spec_ts_text(ts));
            &&& p + kt.len() + vt.len() < full.len()
            &&& full.subrange(p, p + kt.len() + vt.len()) == kt + vt
            &&& (full[p + kt.len() + vt.len()] == ',' || full[p + kt.len() + vt.len()] == '}')
        }),
    ensures
        ({
            let kt = seq!['"'] + "timestamp"@ + seq!['"', ':'];
            let vend = p + kt.len() + spec_json_string(crate::time::spec_ts_text(ts)).len();
            let acc2 = RecordFields { timestamp: Some(ts), ..acc };
            spec_parse_record_pairs(full, p, acc, kind, fuel) == (if full[vend] == ',' {
                spec_parse_record_pairs(
                    full,
                    crate::json::ws_end(full, vend + 1),
                    acc2,
                    kind,
                    (fuel - 1) as nat,
                )
            } else {
                Some((acc2, vend + 1))
            })
        }),
{
    reveal_strlit("id");
    reveal_strlit("baby_name");
    reveal_strlit("feeding_type");
    reveal_strlit("amount_ml");
    reveal_strlit("duration_minutes");
    reveal_strlit("dejection_type");
    reveal_strlit("weight_kg");
    reveal_strlit("notes");
    reveal_strlit("timestamp");
    let key = "timestamp"@;
    let kt = seq!['"'] + key + seq!['"', ':'];
    assert(key != "id"@) by {
        assert(key.len() == 9);
        assert("id"@.len() == 2);
    }
    assert(key != "baby_name"@) by {
        assert(key[0] == 't');
        assert("baby_name"@[0] == 'b');
    }
    assert(key != "feeding_type"@) by {
        assert(key.len() == 9);
        assert("feeding_type"@.len() == 12);
    }
    assert(key != "amount_ml"@) by {
        assert(key[0] == 't');
        assert("amount_ml"@[0] == 'a');
    }
    assert(key != "duration_minutes"@) by {
        assert(key.len() == 9);
        assert("duration_minutes"@.len() == 16);
    }
    assert(key != "dejection_type"@) by {
        assert(key.len() == 9);
        assert("dejection_type"@.len() == 14);
    }
    assert(key != "weight_kg"@) by {
        assert(key[0] == 't');
        assert("weight_kg"@[0] == 'w');
    }
    assert(key != "notes"@) by {
        assert(key.len() == 9);
        assert("notes"@.len() == 5);
    }
    let vt = spec_json_string(crate::time::spec_ts_text(ts));
    let pk = p + kt.len();
    let vend = pk + vt.len();
    lemma_split(full, p, kt, vt);
    lemma_printed_key(full, p, key);
    assert(full[pk + 0] == vt[0]) by {
        assert(full.subrange(pk, pk + vt.len())[0] == full[pk + 0]);
    }
    assert(full[pk] == '"');
    lemma_parse_printed_ts(ts, full, pk);
    let acc2 = RecordFields { timestamp: Some(ts), ..acc };
    assert(spec_parse_record_field(full, pk, acc, key, kind) == Some((acc2, vend)));
    assert(crate::json::ws_end(full, p + key.len() + 2) == p + key.len() + 2);
    assert(crate::json::ws_end(full, pk) == pk);
    assert(crate::json::ws_end(full, vend) == vend);
}

/// The first four pairs of a printed feeding object, consumed.
#[verifier::rlimit(100)]
proof fn lemma_printed_feeding_front(f: FeedingModel, full: Seq<char>, i: int)
    requires
        0 <= i,
        i + spec_feeding_json(f).len() <= full.len(),
        full.subrange(i, i + spec_feeding_json(f).len()) == spec_feeding_json(f),
    ensures
        ({
            let kt1 = seq!['"'] + "id"@ + seq!['"', ':'];
            let s1 = kt1 + spec_dec(f.id as int);
            let kt2 = seq!['"'] + "baby_name"@ + seq!['"', ':'];
            let s2 = kt2 + spec_json_string(f.baby_name);
            let kt3 = seq!['"'] + "feeding_type"@ + seq!['"', ':'];
            let s3 = kt3 + spec_json_string(spec_feeding_tag(f.feeding_type));
            let kt4 = seq!['"'] + "amount_ml"@ + seq!['"', ':'];
            let s4 = kt4 + spec_opt_dec(f.amount_ml);
            let kt5 = seq!['"'] + "duration_minutes"@ + seq!['"', ':'];
            let s5 = kt5 + spec_opt_dec(f.duration_minutes);
            let kt6 = seq!['"'] + "notes"@ + seq!['"', ':'];
            let s6 = kt6 + spec_opt_string(f.notes);
            let kt7 = seq!['"'] + "timestamp"@ + seq!['"', ':'];
            let s7 = kt7 + spec_json_string(crate::time::spec_ts_text(f.timestamp));
            let r7 = s7 + seq!['}'];
            let r6 = s6 + (seq![','] + r7);
            let r5 = s5 + (seq![','] + r6);
            let r4 = s4 + (seq![','] + r5);
            let r3 = s3 + (seq![','] + r4);
            let r2 = s2 + (seq![','] + r3);
            let r1 = s1 + (seq![','] + r2);
            let p5 = i + 1 + s1.len() + 1 + s2.len() + 1 + s3.len() + 1 + s4.len() + 1;
            let acc4 = RecordFields {
                id: Some(f.id),
                baby_name: Some(f.baby_name),
                feeding_type: Some(f.feeding_type),
                amount_ml: Some(f.amount_ml),
                ..record_fields_empty()
            };
            &&& full[i] == '{'
            &&& crate::json::ws_end(full, i + 1) == i + 1
            &&& p5 + r5.len() == i + spec_feeding_json(f).len()
            &&& full.subrange(p5, p5 + r5.len()) == r5
            &&& spec_parse_record_pairs(full, i + 1, record_fields_empty(), RecordKind::Feeding, 10)
                == spec_parse_record_pairs(full, p5, acc4, RecordKind::Feeding, 6)
        }),
{
    reveal_strlit("{\"id\":");
    reveal_strlit("id");
    reveal_strlit(",\"baby_name\":");
    reveal_strlit("baby_name");
    reveal_strlit(",\"feeding_type\":");
    reveal_strlit("feeding_type");
    reveal_strlit(",\"amount_ml\":");
    reveal_strlit("amount_ml");
    reveal_strlit(",\"duration_minutes\":");
    reveal_strlit("duration_minutes");
    reveal_strlit(",\"notes\":");
    reveal_strlit("notes");
    reveal_strlit(",\"timestamp\":");
    reveal_strlit("timestamp");
    let kt1 = seq!['"'] + "id"@ + seq!['"', ':'];
    let s1 = kt1 + spec_dec(f.id as int);
    let kt2 = seq!['"'] + "baby_name"@ + seq!['"', ':'];
    let s2 = kt2 + spec_json_string(f.baby_name);
    let kt3 = seq!['"'] + "feeding_type"@ + seq!['"', ':'];
    let s3 = kt3 + spec_json_string(spec_feeding_tag(f.feeding_type));
    let kt4 = seq!['"'] + "amount_ml"@ + seq!['"', ':'];
    let s4 = kt4 + spec_opt_dec(f.amount_ml);
    let kt5 = seq!['"'] + "duration_minutes"@ + seq!['"', ':'];
    let s5 = kt5 + spec_opt_dec(f.duration_minutes);
    let kt6 = seq!['"'] + "notes"@ + seq!['"', ':'];
    let s6 = kt6 + spec_opt_string(f.notes);
    let kt7 = seq!['"'] + "timestamp"@ + seq!['"', ':'];
    let s7 = kt7 + spec_json_string(crate::time::spec_ts_text(f.timestamp));
    let whole = spec_feeding_json(f);
    let r7 = s7 + seq!['}'];
    let r6 = s6 + (seq![','] + r7);
    let r5 = s5 + (seq![','] + r6);
    let r4 = s4 + (seq![','] + r5);
    let r3 = s3 + (seq![','] + r4);
    let r2 = s2 + (seq![','] + r3);
    let r1 = s1 + (seq![','] + r2);
    assert("{\"id\":"@ =~= seq!['{'] + kt1);
    assert(",\"baby_name\":"@ =~= seq![','] + kt2);
    assert(",\"feeding_type\":"@ =~= seq![','] + kt3);
    assert(",\"amount_ml\":"@ =~= seq![','] + kt4);
    assert(",\"duration_minutes\":"@ =~= seq![','] + kt5);
    assert(",\"notes\":"@ =~= seq![','] + kt6);
    assert(",\"timestamp\":"@ =~= seq![','] + kt7);
    assert(whole =~= seq!['{'] + r1);
    assert(full.subrange(i, i + whole.len()) == whole);
    lemma_split(full, i, seq!['{'], r1);
    assert(full[i + 0] == '{') by {
        assert(full.subrange(i, i + 1)[0] == full[i + 0]);
    }
    let p1 = i + 1;
    assert(full[p1] == '"') by {
        assert(full.subrange(p1, p1 + r1.len())[0] == full[p1]);
        assert(r1[0] == kt1[0]);
    }
    assert(crate::json::ws_end(full, p1) == p1);
    lemma_split(full, p1, s1, seq![','] + r2);
    let v1 = p1 + s1.len();
    assert(full[v1] == ',') by {
        assert(full.subrange(v1, v1 + (seq![','] + r2).len())[0] == full[v1]);
    }
    lemma_pairs_step_id(full, p1, f.id, record_fields_empty(), RecordKind::Feeding, 10);
    let acc1 = RecordFields { id: Some(f.id), ..record_fields_empty() };
    lemma_split(full, v1, seq![','], r2);
    let p2 = v1 + 1;
    assert(full[p2] == '"') by {
        assert(full.subrange(p2, p2 + r2.len())[0] == full[p2]);
        assert(r2[0] == kt2[0]);
    }
    assert(crate::json::ws_end(full, p2) == p2);
    lemma_split(full, p2, s2, seq![','] + r3);
    let v2 = p2 + s2.len();
    assert(full[v2] == ',') by {
        assert(full.subrange(v2, v2 + (seq![','] + r3).len())[0] == full[v2]);
    }
    lemma_pairs_step_baby_name(full, p2, f.baby_name, acc1, RecordKind::Feeding, 9);
    let acc2 = RecordFields { baby_name: Some(f.baby_name), ..acc1 };
    lemma_split(full, v2, seq![','], r3);
    let p3 = v2 + 1;
    assert(full[p3] == '"') by {
        assert(full.subrange(p3, p3 + r3.len())[0] == full[p3]);
        assert(r3[0] == kt3[0]);
    }
    assert(crate::json::ws_end(full, p3) == p3);
    lemma_split(full, p3, s3, seq![','] + r4);
    let v3 = p3 + s3.len();
    assert(full[v3] == ',') by {
        assert(full.subrange(v3, v3 + (seq![','] + r4).len())[0] == full[v3]);
    }
    lemma_pairs_step_feeding_type(full, p3, f.feeding_type, acc2, RecordKind::Feeding, 8);
    let acc3 = RecordFields { feeding_type: Some(f.feeding_type), ..acc2 };
    lemma_split(full, v3, seq![','], r4);
    let p4 = v3 + 1;
    assert(full[p4] == '"') by {
        assert(full.subrange(p4, p4 + r4.len())[0] == full[p4]);
        assert(r4[0] == kt4[0]);
    }
    assert(crate::json::ws_end(full, p4) == p4);
    lemma_split(full, p4, s4, seq![','] + r5);
    let v4 = p4 + s4.len();
    assert(full[v4] == ',') by {
        assert(full.subrange(v4, v4 + (seq![','] + r5).len())[0] == full[v4]);
    }
    lemma_pairs_step_amount_ml(full, p4, f.amount_ml, acc3, RecordKind::Feeding, 7);
    let acc4 = RecordFields { amount_ml: Some(f.amount_ml), ..acc3 };
    lemma_split(full, v4, seq![','], r5);
    let p5 = v4 + 1;
    assert(full[p5] == '"') by {
        assert(full.subrange(p5, p5 + r5.len())[0] == full[p5]);
        assert(r5[0] == kt5[0]);
    }
    assert(crate::json::ws_end(full, p5) == p5);
}

/// A printed feeding object parses back to its model.
#[verifier::rlimit(100)]
pub proof fn lemma_parse_printed_feeding(f: FeedingModel, full: Seq<char>, i: int)
    requires
        f.timestamp.wf(),
        0 <= i,
        i + spec_feeding_json(f).len() <= full.len(),
        full.subrange(i, i + spec_feeding_json(f).len()) == spec_feeding_json(f),
    ensures
        spec_parse_feeding(full, i) == Some((f, i + spec_feeding_json(f).len())),
{
    reveal_strlit("{\"id\":");
    reveal_strlit("id");
    reveal_strlit(",\"baby_name\":");
    reveal_strlit("baby_name");
    reveal_strlit(",\"feeding_type\":");
    reveal_strlit("feeding_type");
    reveal_strlit(",\"amount_ml\":");
    reveal_strlit("amount_ml");
    reveal_strlit(",\"duration_minutes\":");
    reveal_strlit("duration_minutes");
    reveal_strlit(",\"notes\":");
    reveal_strlit("notes");
    reveal_strlit(",\"timestamp\":");
    reveal_strlit("timestamp");
    let kt1 = seq!['"'] + "id"@ + seq!['"', ':'];
    let s1 = kt1 + spec_dec(f.id as int);
    let kt2 = seq!['"'] + "baby_name"@ + seq!['"', ':'];
    let s2 = kt2 + spec_json_string(f.baby_name);
    let kt3 = seq!['"'] + "feeding_type"@ + seq!['"', ':'];
    let s3 = kt3 + spec_json_string(spec_feeding_tag(f.feeding_type));
    let kt4 = seq!['"'] + "amount_ml"@ + seq!['"', ':'];
    let s4 = kt4 + spec_opt_dec(f.amount_ml);
    let kt5 = seq!['"'] + "duration_minutes"@ + seq!['"', ':'];
    let s5 = kt5 + spec_opt_dec(f.duration_minutes);
    let kt6 = seq!['"'] + "notes"@ + seq!['"', ':'];
    let s6 = kt6 + spec_opt_string(f.notes);
    let kt7 = seq!['"'] + "timestamp"@ + seq!['"', ':'];
    let s7 = kt7 + spec_json_string(crate::time::spec_ts_text(f.timestamp));
    let whole = spec_feeding_json(f);
    let r7 = s7 + seq!['}'];
    let r6 = s6 + (seq![','] + r7);
    let r5 = s5 + (seq![','] + r6);
    let r4 = s4 + (seq![','] + r5);
    let r3 = s3 + (seq![','] + r4);
    let r2 = s2 + (seq![','] + r3);
    let r1 = s1 + (seq![','] + r2);
    lemma_printed_feeding_front(f, full, i);
    let p5 = i + 1 + s1.len() + 1 + s2.len() + 1 + s3.len() + 1 + s4.len() + 1;
    let acc4 = RecordFields {
        id: Some(f.id),
        baby_name: Some(f.baby_name),
        feeding_type: Some(f.feeding_type),
        amount_ml: Some(f.amount_ml),
        ..record_fields_empty()
    };
    lemma_split(full, p5, s5, seq![','] + r6);
    let v5 = p5 + s5.len();
    assert(full[v5] == ',') by {
        assert(full.subrange(v5, v5 + (seq![','] + r6).len())[0] == full[v5]);
    }
    lemma_pairs_step_duration_minutes(full, p5, f.duration_minutes, acc4, RecordKind::Feeding, 6);
    let acc5 = RecordFields { duration_minutes: Some(f.duration_minutes), ..acc4 };
    lemma_split(full, v5, seq![','], r6);
    let p6 = v5 + 1;
    assert(full[p6] == '"') by {
        assert(full.subrange(p6, p6 + r6.len())[0] == full[p6]);
        assert(r6[0] == kt6[0]);
    }
    assert(crate::json::ws_end(full, p6) == p6);
    lemma_split(full, p6, s6, seq![','] + r7);
    let v6 = p6 + s6.len();
    assert(full[v6] == ',') by {
        assert(full.subrange(v6, v6 + (seq![','] + r7).len())[0] == full[v6]);
    }
    lemma_pairs_step_notes(full, p6, f.notes, acc5, RecordKind::Feeding, 5);
    let acc6 = RecordFields { notes: Some(f.notes), ..acc5 };
    lemma_split(full, v6, seq![','], r7);
    let p7 = v6 + 1;
    assert(full[p7] == '"') by {
        assert(full.subrange(p7, p7 + r7.len())[0] == full[p7]);
        assert(r7[0] == kt7[0]);
    }
    assert(crate::json::ws_end(full, p7) == p7);
    lemma_split(full, p7, s7, seq!['}']);
    let v7 = p7 + s7.len();
    assert(full[v7] == '}') by {
        assert(full.subrange(v7, v7 + (seq!['}']).len())[0] == full[v7]);
    }
    lemma_pairs_step_timestamp(full, p7, f.timestamp, acc6, RecordKind::Feeding, 4);
    let acc7 = RecordFields { timestamp: Some(f.timestamp), ..acc6 };
    assert(spec_parse_record_pairs(full, i + 1, record_fields_empty(), RecordKind::Feeding, 10) == Some((acc7, v7 + 1)));
    assert(record_pair_fuel() == 10);
    assert(spec_parse_feeding(full, i) == Some((f, v7 + 1))) by {
        assert(f =~= (FeedingModel {
            id: f.id,
            baby_name: f.baby_name,
            feeding_type: f.feeding_type,
            amount_ml: f.amount_ml,
            duration_minutes: f.duration_minutes,
            notes: f.notes,
            timestamp: f.timestamp,
        }));
    }
    assert(v7 + 1 == i + spec_feeding_json(f).len());
}

/// A printed dejection object parses back to its model.
#[verifier::rlimit(100)]
pub proof fn lemma_parse_printed_dejection(d: DejectionModel, full: Seq<char>, i: int)
    requires
        d.timestamp.wf(),
        0 <= i,
        i + spec_dejection_json(d).len() <= full.len(),
        full.subrange(i, i + spec_dejection_json(d).len()) == spec_dejection_json(d),
    ensures
        spec_parse_dejection(full, i) == Some((d, i + spec_dejection_json(d).len())),
{
    reveal_strlit("{\"id\":");
    reveal_strlit("id");
    reveal_strlit(",\"baby_name\":");
    reveal_strlit("baby_name");
    reveal_strlit(",\"dejection_type\":");
    reveal_strlit("dejection_type");
    reveal_strlit(",\"notes\":");
    reveal_strlit("notes");
    reveal_strlit(",\"timestamp\":");
    reveal_strlit("timestamp");
    let kt1 = seq!['"'] + "id"@ + seq!['"', ':'];
    let s1 = kt1 + spec_dec(d.id as int);
    let kt2 = seq!['"'] + "baby_name"@ + seq!['"', ':'];
    let s2 = kt2 + spec_json_string(d.baby_name);
    let kt3 = seq!['"'] + "dejection_type"@ + seq!['"', ':'];
    let s3 = kt3 + spec_json_string(spec_dejection_tag(d.dejection_type));
    let kt4 = seq!['"'] + "notes"@ + seq!['"', ':'];
    let s4 = kt4 + spec_opt_string(d.notes);
    let kt5 = seq!['"'] + "timestamp"@ + seq!['"', ':'];
    let s5 = kt5 + spec_json_string(crate::time::spec_ts_text(d.timestamp));
    let whole = spec_dejection_json(d);
    assert("{\"id\":"@ =~= seq!['{'] + kt1);
    assert(",\"baby_name\":"@ =~= seq![','] + kt2);
    assert(",\"dejection_type\":"@ =~= seq![','] + kt3);
    assert(",\"notes\":"@ =~= seq![','] + kt4);
    assert(",\"timestamp\":"@ =~= seq![','] + kt5);
    let r5 = s5 + seq!['}'];
    let r4 = s4 + (seq![','] + r5);
    let r3 = s3 + (seq![','] + r4);
    let r2 = s2 + (seq![','] + r3);
    let r1 = s1 + (seq![','] + r2);
    assert(whole =~= seq!['{'] + r1);
    assert(full.subrange(i, i + whole.len()) == whole);
    lemma_split(full, i, seq!['{'], r1);
    assert(full[i + 0] == '{') by {
        assert(full.subrange(i, i + 1)[0] == full[i + 0]);
    }
    let p1 = i + 1;
    lemma_split(full, p1, s1, seq![','] + r2);
    let v1 = p1 + s1.len();
    assert(full[v1] == ',') by {
        assert(full.subrange(v1, v1 + (seq![','] + r2).len())[0] == full[v1]);
    }
    lemma_pairs_step_id(full, p1, d.id, record_fields_empty(), RecordKind::Dejection, 10);
    let acc1 = RecordFields { id: Some(d.id), ..record_fields_empty() };
    lemma_split(full, v1, seq![','], r2);
    let p2 = v1 + 1;
    assert(full[p2] == '"') by {
        assert(full.subrange(p2, p2 + r2.len())[0] == full[p2]);
        assert(r2[0] == kt2[0]);
    }
    assert(crate::json::ws_end(full, p2) == p2);
    lemma_split(full, p2, s2, seq![','] + r3);
    let v2 = p2 + s2.len();
    assert(full[v2] == ',') by {
        assert(full.subrange(v2, v2 + (seq![','] + r3).len())[0] == full[v2]);
    }
    lemma_pairs_step_baby_name(full, p2, d.baby_name, acc1, RecordKind::Dejection, 9);
    let acc2 = RecordFields { baby_name: Some(d.baby_name), ..acc1 };
    lemma_split(full, v2, seq![','], r3);
    let p3 = v2 + 1;
    assert(full[p3] == '"') by {
        assert(full.subrange(p3, p3 + r3.len())[0] == full[p3]);
        assert(r3[0] == kt3[0]);
    }
    assert(crate::json::ws_end(full, p3) == p3);
    lemma_split(full, p3, s3, seq![','] + r4);
    let v3 = p3 + s3.len();
    assert(full[v3] == ',') by {
        assert(full.subrange(v3, v3 + (seq![','] + r4).len())[0] == full[v3]);
    }
    lemma_pairs_step_dejection_type(full, p3, d.dejection_type, acc2, RecordKind::Dejection, 8);
    let acc3 = RecordFields { dejection_type: Some(d.dejection_type), ..acc2 };
    lemma_split(full, v3, seq![','], r4);
    let p4 = v3 + 1;
    assert(full[p4] == '"') by {
        assert(full.subrange(p4, p4 + r4.len())[0] == full[p4]);
        assert(r4[0] == kt4[0]);
    }
    assert(crate::json::ws_end(full, p4) == p4);
    lemma_split(full, p4, s4, seq![','] + r5);
    let v4 = p4 + s4.len();
    assert(full[v4] == ',') by {
        assert(full.subrange(v4, v4 + (seq![','] + r5).len())[0] == full[v4]);
    }
    lemma_pairs_step_notes(full, p4, d.notes, acc3, RecordKind::Dejection, 7);
    let acc4 = RecordFields { notes: Some(d.notes), ..acc3 };
    lemma_split(full, v4, seq![','], r5);
    let p5 = v4 + 1;
    assert(full[p5] == '"') by {
        assert(full.subrange(p5, p5 + r5.len())[0] == full[p5]);
        assert(r5[0] == kt5[0]);
    }
    assert(crate::json::ws_end(full, p5) == p5);
    lemma_split(full, p5, s5, seq!['}']);
    let v5 = p5 + s5.len();
    assert(full[v5] == '}') by {
        assert(full.subrange(v5, v5 + (seq!['}']).len())[0] == full[v5]);
    }
    lemma_pairs_step_timestamp(full, p5, d.timestamp, acc4, RecordKind::Dejection, 6);
    let acc5 = RecordFields { timestamp: Some(d.timestamp), ..acc4 };
    assert(spec_parse_record_pairs(full, p1, record_fields_empty(), RecordKind::Dejection, 10) == Some((acc5, v5 + 1)));
    assert(crate::json::ws_end(full, i + 1) == i + 1) by {
        assert(full[i + 1] == '"') by {
            assert(full.subrange(i + 1, i + 1 + r1.len())[0] == full[i + 1]);
            assert(r1[0] == kt1[0]);
        }
    }
    assert(record_pair_fuel() == 10);
    assert(spec_parse_dejection(full, i) == Some((d, v5 + 1))) by {
        assert(d =~= (DejectionModel {
            id: d.id,
            baby_name: d.baby_name,
            dejection_type: d.dejection_type,
            notes: d.notes,
            timestamp: d.timestamp,
        }));
    }
    assert(v5 + 1 == i + whole.len());
}

/// A printed weight object parses back to its model.
#[verifier::rlimit(100)]
pub proof fn lemma_parse_printed_weight(w: WeightModel, full: Seq<char>, i: int)
    requires
        w.timestamp.wf(),
        0 <= i,
        i + spec_weight_json(w).len() <= full.len(),
        full.subrange(i, i + spec_weight_json(w).len()) == spec_weight_json(w),
    ensures
        spec_parse_weight(full, i) == Some((w, i + spec_weight_json(w).len())),
{
    reveal_strlit("{\"id\":");
    reveal_strlit("id");
    reveal_strlit(",\"baby_name\":");
    reveal_strlit("baby_name");
    reveal_strlit(",\"weight_kg\":");
    reveal_strlit("weight_kg");
    reveal_strlit(",\"notes\":");
    reveal_strlit("notes");
    reveal_strlit(",\"timestamp\":");
    reveal_strlit("timestamp");
    let kt1 = seq!['"'] + "id"@ + seq!['"', ':'];
    let s1 = kt1 + spec_dec(w.id as int);
    let kt2 = seq!['"'] + "baby_name"@ + seq!['"', ':'];
    let s2 = kt2 + spec_json_string(w.baby_name);
    let kt3 = seq!['"'] + "weight_kg"@ + seq!['"', ':'];
    let s3 = kt3 + spec_kg_text(w.weight_g as int);
    let kt4 = seq!['"'] + "notes"@ + seq!['"', ':'];
    let s4 = kt4 + spec_opt_string(w.notes);
    let kt5 = seq!['"'] + "timestamp"@ + seq!['"', ':'];
    let s5 = kt5 + spec_json_string(crate::time::spec_ts_text(w.timestamp));
    let whole = spec_weight_json(w);
    assert("{\"id\":"@ =~= seq!['{'] + kt1);
    assert(",\"baby_name\":"@ =~= seq![','] + kt2);
    assert(",\"weight_kg\":"@ =~= seq![','] + kt3);
    assert(",\"notes\":"@ =~= seq![','] + kt4);
    assert(",\"timestamp\":"@ =~= seq![','] + kt5);
    let r5 = s5 + seq!['}'];
    let r4 = s4 + (seq![','] + r5);
    let r3 = s3 + (seq![','] + r4);
    let r2 = s2 + (seq![','] + r3);
    let r1 = s1 + (seq![','] + r2);
    assert(whole =~= seq!['{'] + r1);
    assert(full.subrange(i, i + whole.len()) == whole);
    lemma_split(full, i, seq!['{'], r1);
    assert(full[i + 0] == '{') by {
        assert(full.subrange(i, i + 1)[0] == full[i + 0]);
    }
    let p1 = i + 1;
    lemma_split(full, p1, s1, seq![','] + r2);
    let v1 = p1 + s1.len();
    assert(full[v1] == ',') by {
        assert(full.subrange(v1, v1 + (seq![','] + r2).len())[0] == full[v1]);
    }
    lemma_pairs_step_id(full, p1, w.id, record_fields_empty(), RecordKind::Weight, 10);
    let acc1 = RecordFields { id: Some(w.id), ..record_fields_empty() };
    lemma_split(full, v1, seq![','], r2);
    let p2 = v1 + 1;
    assert(full[p2] == '"') by {
        assert(full.subrange(p2, p2 + r2.len())[0] == full[p2]);
        assert(r2[0] == kt2[0]);
    }
    assert(crate::json::ws_end(full, p2) == p2);
    lemma_split(full, p2, s2, seq![','] + r3);
    let v2 = p2 + s2.len();
    assert(full[v2] == ',') by {
        assert(full.subrange(v2, v2 + (seq![','] + r3).len())[0] == full[v2]);
    }
    lemma_pairs_step_baby_name(full, p2, w.baby_name, acc1, RecordKind::Weight, 9);
    let acc2 = RecordFields { baby_name: Some(w.baby_name), ..acc1 };
    lemma_split(full, v2, seq![','], r3);
    let p3 = v2 + 1;
    assert(full[p3] == '"') by {
        assert(full.subrange(p3, p3 + r3.len())[0] == full[p3]);
        assert(r3[0] == kt3[0]);
    }
    assert(crate::json::ws_end(full, p3) == p3);
    lemma_split(full, p3, s3, seq![','] + r4);
    let v3 = p3 + s3.len();
    assert(full[v3] == ',') by {
        assert(full.subrange(v3, v3 + (seq![','] + r4).len())[0] == full[v3]);
    }
    lemma_pairs_step_weight_kg(full, p3, w.weight_g, acc2, RecordKind::Weight, 8);
    let acc3 = RecordFields { weight_g: Some(w.weight_g), ..acc2 };
    lemma_split(full, v3, seq![','], r4);
    let p4 = v3 + 1;
    assert(full[p4] == '"') by {
        assert(full.subrange(p4, p4 + r4.len())[0] == full[p4]);
        assert(r4[0] == kt4[0]);
    }
    assert(crate::json::ws_end(full, p4) == p4);
    lemma_split(full, p4, s4, seq![','] + r5);
    let v4 = p4 + s4.len();
    assert(full[v4] == ',') by {
        assert(full.subrange(v4, v4 + (seq![','] + r5).len())[0] == full[v4]);
    }
    lemma_pairs_step_notes(full, p4, w.notes, acc3, RecordKind::Weight, 7);
    let acc4 = RecordFields { notes: Some(w.notes), ..acc3 };
    lemma_split(full, v4, seq![','], r5);
    let p5 = v4 + 1;
    assert(full[p5] == '"') by {
        assert(full.subrange(p5, p5 + r5.len())[0] == full[p5]);
        assert(r5[0] == kt5[0]);
    }
    assert(crate::json::ws_end(full, p5) == p5);
    lemma_split(full, p5, s5, seq!['}']);
    let v5 = p5 + s5.len();
    assert(full[v5] == '}') by {
        assert(full.subrange(v5, v5 + (seq!['}']).len())[0] == full[v5]);
    }
    lemma_pairs_step_timestamp(full, p5, w.timestamp, acc4, RecordKind::Weight, 6);
    let acc5 = RecordFields { timestamp: Some(w.timestamp), ..acc4 };
    assert(spec_parse_record_pairs(full, p1, record_fields_empty(), RecordKind::Weight, 10) == Some((acc5, v5 + 1)));
    assert(crate::json::ws_end(full, i + 1) == i + 1) by {
        assert(full[i + 1] == '"') by {
            assert(full.subrange(i + 1, i + 1 + r1.len())[0] == full[i + 1]);
            assert(r1[0] == kt1[0]);
        }
    }
    assert(record_pair_fuel() == 10);
    assert(spec_parse_weight(full, i) == Some((w, v5 + 1))) by {
        assert(w =~= (WeightModel {
            id: w.id,
            baby_name: w.baby_name,
            weight_g: w.weight_g,
            notes: w.notes,
            timestamp: w.timestamp,
        }));
    }
    assert(v5 + 1 == i + whole.len());
}

/// A printed feedings array body parses back to its items.
#[verifier::rlimit(100)]
pub proof fn lemma_parse_printed_feedings(items: Seq<FeedingModel>, full: Seq<char>, i: int, fuel: nat)
    requires
        forall|k: int| 0 <= k < items.len() ==> (#[trigger] items[k]).timestamp.wf(),
        0 <= i,
        i + spec_join(items.map_values(feeding_json_fn())).len() + 1 <= full.len(),
        full.subrange(i, i + spec_join(items.map_values(feeding_json_fn())).len() + 1) == spec_join(
            items.map_values(feeding_json_fn()),
        ) + seq![']'],
        fuel >= items.len() + 1,
    ensures
        spec_parse_feedings(full, i, fuel) == Some(
            (items, i + spec_join(items.map_values(feeding_json_fn())).len() + 1),
        ),
    decreases items.len(),
{
    let parts = items.map_values(feeding_json_fn());
    let w = spec_join(parts).len() as int;
    if items.len() == 0 {
        assert(parts.len() == 0);
        assert(spec_join(parts) == Seq::<char>::empty());
        assert(full[i + 0] == (spec_join(parts) + seq![']'])[0]) by {
            assert(full.subrange(i, i + w + 1)[0] == full[i + 0]);
        }
        assert(full[i] == ']');
    } else {
        lemma_feedings_layout(items, full, i);
        let f0 = items[0];
        let item0 = spec_feeding_json(f0);
        let j = i + item0.len();
        lemma_parse_printed_feeding(f0, full, i);
        assert(!(full[i] == ']'));
        if items.len() == 1 {
            assert(seq![f0] =~= items);
        } else {
            let rest = items.drop_first();
            let rparts = rest.map_values(feeding_json_fn());
            assert(parts.drop_first() =~= rparts);
            assert(forall|k: int|
                0 <= k < rest.len() ==> (#[trigger] rest[k]).timestamp.wf());
            lemma_parse_printed_feedings(rest, full, j + 1, (fuel - 1) as nat);
            assert(rest.len() > 0);
            assert(seq![f0] + rest =~= items);
        }
    }
}

/// Where a printed nonempty feedings array body places its first item.
#[verifier::rlimit(100)]
proof fn lemma_feedings_layout(items: Seq<FeedingModel>, full: Seq<char>, i: int)
    requires
        items.len() >= 1,
        0 <= i,
        i + spec_join(items.map_values(feeding_json_fn())).len() + 1 <= full.len(),
        full.subrange(i, i + spec_join(items.map_values(feeding_json_fn())).len() + 1) == spec_join(
            items.map_values(feeding_json_fn()),
        ) + seq![']'],
    ensures
        ({
            let item0 = spec_feeding_json(items[0]);
            let w = spec_join(items.map_values(feeding_json_fn())).len() as int;
            let rparts = items.drop_first().map_values(feeding_json_fn());
            &&& full[i] == '{'
            &&& i + item0.len() <= full.len()
            &&& full.subrange(i, i + item0.len()) == item0
            &&& (items.len() == 1 ==> full[i + item0.len()] == ']' && i + item0.len() + 1 == i + w
                + 1)
            &&& (items.len() > 1 ==> full[i + item0.len()] == ',' && i + item0.len() + 1
                + spec_join(rparts).len() + 1 == i + w + 1 && full.subrange(
                i + item0.len() + 1,
                i + w + 1,
            ) == spec_join(rparts) + seq![']'])
        }),
{
    let parts = items.map_values(feeding_json_fn());
    let w = spec_join(parts).len() as int;
    let item0 = spec_feeding_json(items[0]);
    assert(parts[0] == item0);
    let rparts = items.drop_first().map_values(feeding_json_fn());
    assert(parts.drop_first() =~= rparts);
    if items.len() == 1 {
        assert(spec_join(parts) == item0);
        assert(full.subrange(i, i + item0.len() + 1) == item0 + seq![']']) by {
            assert(spec_join(parts) + seq![']'] =~= item0 + seq![']']);
        }
        lemma_split(full, i, item0, seq![']']);
        let j = i + item0.len();
        assert(full[j] == ']') by {
            assert(full.subrange(j, j + 1)[0] == full[j]);
        }
    } else {
        assert(spec_join(parts) == item0 + seq![','] + spec_join(rparts));
        assert(full.subrange(i, i + w + 1) =~= item0 + (seq![','] + (spec_join(rparts)
            + seq![']'])));
        lemma_split(full, i, item0, seq![','] + (spec_join(rparts) + seq![']']));
        let j = i + item0.len();
        lemma_split(full, j, seq![','], spec_join(rparts) + seq![']']);
        assert(full[j] == ',') by {
            assert(full.subrange(j, j + 1)[0] == full[j]);
        }
    }
    assert(full[i + 0] == item0[0]) by {
        assert(full.subrange(i, i + item0.len())[0] == full[i + 0]);
    }
    assert(item0[0] == '{') by {
        lemma_feeding_json_starts(items[0]);
    }
}

/// A printed feedings object begins with an opening brace.
proof fn lemma_feeding_json_starts(x: FeedingModel)
    ensures
        spec_feeding_json(x).len() > 0,
        spec_feeding_json(x)[0] == '{',
{
    reveal_strlit("{\"id\":");
    assert(spec_feeding_json(x)[0] == "{\"id\":"@[0]);
}

/// A printed dejections array body parses back to its items.
#[verifier::rlimit(100)]
pub proof fn lemma_parse_printed_dejections(items: Seq<DejectionModel>, full: Seq<char>, i: int, fuel: nat)
    requires
        forall|k: int| 0 <= k < items.len() ==> (#[trigger] items[k]).timestamp.wf(),
        0 <= i,
        i + spec_join(items.map_values(dejection_json_fn())).len() + 1 <= full.len(),
        full.subrange(i, i + spec_join(items.map_values(dejection_json_fn())).len() + 1) == spec_join(
            items.map_values(dejection_json_fn()),
        ) + seq![']'],
        fuel >= items.len() + 1,
    ensures
        spec_parse_dejections(full, i, fuel) == Some(
            (items, i + spec_join(items.map_values(dejection_json_fn())).len() + 1),
        ),
    decreases items.len(),
{
    let parts = items.map_values(dejection_json_fn());
    let w = spec_join(parts).len() as int;
    if items.len() == 0 {
        assert(parts.len() == 0);
        assert(spec_join(parts) == Seq::<char>::empty());
        assert(full[i + 0] == (spec_join(parts) + seq![']'])[0]) by {
            assert(full.subrange(i, i + w + 1)[0] == full[i + 0]);
        }
        assert(full[i] == ']');
    } else {
        lemma_dejections_layout(items, full, i);
        let f0 = items[0];
        let item0 = spec_dejection_json(f0);
        let j = i + item0.len();
        lemma_parse_printed_dejection(f0, full, i);
        assert(!(full[i] == ']'));
        if items.len() == 1 {
            assert(seq![f0] =~= items);
        } else {
            let rest = items.drop_first();
            let rparts = rest.map_values(dejection_json_fn());
            assert(parts.drop_first() =~= rparts);
            assert(forall|k: int|
                0 <= k < rest.len() ==> (#[trigger] rest[k]).timestamp.wf());
            lemma_parse_printed_dejections(rest, full, j + 1, (fuel - 1) as nat);
            assert(rest.len() > 0);
            assert(seq![f0] + rest =~= items);
        }
    }
}

/// Where a printed nonempty dejections array body places its first item.
#[verifier::rlimit(100)]
proof fn lemma_dejections_layout(items: Seq<DejectionModel>, full: Seq<char>, i: int)
    requires
        items.len() >= 1,
        0 <= i,
        i + spec_join(items.map_values(dejection_json_fn())).len() + 1 <= full.len(),
        full.subrange(i, i + spec_join(items.map_values(dejection_json_fn())).len() + 1) == spec_join(
            items.map_values(dejection_json_fn()),
        ) + seq![']'],
    ensures
        ({
            let item0 = spec_dejection_json(items[0]);
            let w = spec_join(items.map_values(dejection_json_fn())).len() as int;
            let rparts = items.drop_first().map_values(dejection_json_fn());
            &&& full[i] == '{'
            &&& i + item0.len() <= full.len()
            &&& full.subrange(i, i + item0.len()) == item0
            &&& (items.len() == 1 ==> full[i + item0.len()] == ']' && i + item0.len() + 1 == i + w
                + 1)
            &&& (items.len() > 1 ==> full[i + item0.len()] == ',' && i + item0.len() + 1
                + spec_join(rparts).len() + 1 == i + w + 1 && full.subrange(
                i + item0.len() + 1,
                i + w + 1,
            ) == spec_join(rparts) + seq![']'])
        }),
{
    let parts = items.map_values(dejection_json_fn());
    let w = spec_join(parts).len() as int;
    let item0 = spec_dejection_json(items[0]);
    assert(parts[0] == item0);
    let rparts = items.drop_first().map_values(dejection_json_fn());
    assert(parts.drop_first() =~= rparts);
    if items.len() == 1 {
        assert(spec_join(parts) == item0);
        assert(full.subrange(i, i + item0.len() + 1) == item0 + seq![']']) by {
            assert(spec_join(parts) + seq![']'] =~= item0 + seq![']']);
        }
        lemma_split(full, i, item0, seq![']']);
        let j = i + item0.len();
        assert(full[j] == ']') by {
            assert(full.subrange(j, j + 1)[0] == full[j]);
        }
    } else {
        assert(spec_join(parts) == item0 + seq![','] + spec_join(rparts));
        assert(full.subrange(i, i + w + 1) =~= item0 + (seq![','] + (spec_join(rparts)
            + seq![']'])));
        lemma_split(full, i, item0, seq![','] + (spec_join(rparts) + seq![']']));
        let j = i + item0.len();
        lemma_split(full, j, seq![','], spec_join(rparts) + seq![']']);
        assert(full[j] == ',') by {
            assert(full.subrange(j, j + 1)[0] == full[j]);
        }
    }
    assert(full[i + 0] == item0[0]) by {
        assert(full.subrange(i, i + item0.len())[0] == full[i + 0]);
    }
    assert(item0[0] == '{') by {
        lemma_dejection_json_starts(items[0]);
    }
}

/// A printed dejections object begins with an opening brace.
proof fn lemma_dejection_json_starts(x: DejectionModel)
    ensures
        spec_dejection_json(x).len() > 0,
        spec_dejection_json(x)[0] == '{',
{
    reveal_strlit("{\"id\":");
    assert(spec_dejection_json(x)[0] == "{\"id\":"@[0]);
}

/// A printed weights array body parses back to its items.
#[verifier::rlimit(100)]
pub proof fn lemma_parse_printed_weights(items: Seq<WeightModel>, full: Seq<char>, i: int, fuel: nat)
    requires
        forall|k: int| 0 <= k < items.len() ==> (#[trigger] items[k]).timestamp.wf(),
        0 <= i,
        i + spec_join(items.map_values(weight_json_fn())).len() + 1 <= full.len(),
        full.subrange(i, i + spec_join(items.map_values(weight_json_fn())).len() + 1) == spec_join(
            items.map_values(weight_json_fn()),
        ) + seq![']'],
        fuel >= items.len() + 1,
    ensures
        spec_parse_weights(full, i, fuel) == Some(
            (items, i + spec_join(items.map_values(weight_json_fn())).len() + 1),
        ),
    decreases items.len(),
{
    let parts = items.map_values(weight_json_fn());
    let w = spec_join(parts).len() as int;
    if items.len() == 0 {
        assert(parts.len() == 0);
        assert(spec_join(parts) == Seq::<char>::empty());
        assert(full[i + 0] == (spec_join(parts) + seq![']'])[0]) by {
            assert(full.subrange(i, i + w + 1)[0] == full[i + 0]);
        }
        assert(full[i] == ']');
    } else {
        lemma_weights_layout(items, full, i);
        let f0 = items[0];
        let item0 = spec_weight_json(f0);
        let j = i + item0.len();
        lemma_parse_printed_weight(f0, full, i);
        assert(!(full[i] == ']'));
        if items.len() == 1 {
            assert(seq![f0] =~= items);
        } else {
            let rest = items.drop_first();
            let rparts = rest.map_values(weight_json_fn());
            assert(parts.drop_first() =~= rparts);
            assert(forall|k: int|
                0 <= k < rest.len() ==> (#[trigger] rest[k]).timestamp.wf());
            lemma_parse_printed_weights(rest, full, j + 1, (fuel - 1) as nat);
            assert(rest.len() > 0);
            assert(seq![f0] + rest =~= items);
        }
    }
}

/// Where a printed nonempty weights array body places its first item.
#[verifier::rlimit(100)]
proof fn lemma_weights_layout(items: Seq<WeightModel>, full: Seq<char>, i: int)
    requires
        items.len() >= 1,
        0 <= i,
        i + spec_join(items.map_values(weight_json_fn())).len() + 1 <= full.len(),
        full.subrange(i, i + spec_join(items.map_values(weight_json_fn())).len() + 1) == spec_join(
            items.map_values(weight_json_fn()),
        ) + seq![']'],
    ensures
        ({
            let item0 = spec_weight_json(items[0]);
            let w = spec_join(items.map_values(weight_json_fn())).len() as int;
            let rparts = items.drop_first().map_values(weight_json_fn());
            &&& full[i] == '{'
            &&& i + item0.len() <= full.len()
            &&& full.subrange(i, i + item0.len()) == item0
            &&& (items.len() == 1 ==> full[i + item0.len()] == ']' && i + item0.len() + 1 == i + w
                + 1)
            &&& (items.len() > 1 ==> full[i + item0.len()] == ',' && i + item0.len() + 1
                + spec_join(rparts).len() + 1 == i + w + 1 && full.subrange(
                i + item0.len() + 1,
                i + w + 1,
            ) == spec_join(rparts) + seq![']'])
        }),
{
    let parts = items.map_values(weight_json_fn());
    let w = spec_join(parts).len() as int;
    let item0 = spec_weight_json(items[0]);
    assert(parts[0] == item0);
    let rparts = items.drop_first().map_values(weight_json_fn());
    assert(parts.drop_first() =~= rparts);
    if items.len() == 1 {
        assert(spec_join(parts) == item0);
        assert(full.subrange(i, i + item0.len() + 1) == item0 + seq![']']) by {
            assert(spec_join(parts) + seq![']'] =~= item0 + seq![']']);
        }
        lemma_split(full, i, item0, seq![']']);
        let j = i + item0.len();
        assert(full[j] == ']') by {
            assert(full.subrange(j, j + 1)[0] == full[j]);
        }
    } else {
        assert(spec_join(parts) == item0 + seq![','] + spec_join(rparts));
        assert(full.subrange(i, i + w + 1) =~= item0 + (seq![','] + (spec_join(rparts)
            + seq![']'])));
        lemma_split(full, i, item0, seq![','] + (spec_join(rparts) + seq![']']));
        let j = i + item0.len();
        lemma_split(full, j, seq![','], spec_join(rparts) + seq![']']);
        assert(full[j] == ',') by {
            assert(full.subrange(j, j + 1)[0] == full[j]);
        }
    }
    assert(full[i + 0] == item0[0]) by {
        assert(full.subrange(i, i + item0.len())[0] == full[i + 0]);
    }
    assert(item0[0] == '{') by {
        lemma_weight_json_starts(items[0]);
    }
}

/// A printed weights object begins with an opening brace.
proof fn lemma_weight_json_starts(x: WeightModel)
    ensures
        spec_weight_json(x).len() > 0,
        spec_weight_json(x)[0] == '{',
{
    reveal_strlit("{\"id\":");
    assert(spec_weight_json(x)[0] == "{\"id\":"@[0]);
}

/// Comma-joined nonempty parts are at least as long as their count.
proof fn lemma_join_min_len(parts: Seq<Seq<char>>)
    requires
        forall|k: int| 0 <= k < parts.len() ==> (#[trigger] parts[k]).len() >= 1,
    ensures
        spec_join(parts).len() >= parts.len(),
    decreases parts.len(),
{
    if parts.len() > 1 {
        lemma_join_min_len(parts.drop_first());
    }
}

/// The feedings list of a printed document parses back; fuel argument is
/// the document's own.
proof fn lemma_doc_list_feedings(items: Seq<FeedingModel>, full: Seq<char>, p: int)
    requires
        forall|k: int| 0 <= k < items.len() ==> (#[trigger] items[k]).timestamp.wf(),
        0 <= p,
        p + spec_join(items.map_values(feeding_json_fn())).len() + 1 <= full.len(),
        full.subrange(p, p + spec_join(items.map_values(feeding_json_fn())).len() + 1)
            == spec_join(items.map_values(feeding_json_fn())) + seq![']'],
    ensures
        spec_parse_feedings(full, p, (full.len() + 1) as nat) == Some(
            (items, p + spec_join(items.map_values(feeding_json_fn())).len() + 1),
        ),
{
    assert forall|k: int|
        0 <= k < items.map_values(feeding_json_fn()).len() implies (#[trigger] items.map_values(
        feeding_json_fn(),
    )[k]).len() >= 1 by {
        lemma_feeding_json_starts(items[k]);
    }
    lemma_join_min_len(items.map_values(feeding_json_fn()));
    lemma_parse_printed_feedings(items, full, p, (full.len() + 1) as nat);
}

/// The dejections list of a printed document parses back.
proof fn lemma_doc_list_dejections(items: Seq<DejectionModel>, full: Seq<char>, p: int)
    requires
        forall|k: int| 0 <= k < items.len() ==> (#[trigger] items[k]).timestamp.wf(),
        0 <= p,
        p + spec_join(items.map_values(dejection_json_fn())).len() + 1 <= full.len(),
        full.subrange(p, p + spec_join(items.map_values(dejection_json_fn())).len() + 1)
            == spec_join(items.map_values(dejection_json_fn())) + seq![']'],
    ensures
        spec_parse_dejections(full, p, (full.len() + 1) as nat) == Some(
            (items, p + spec_join(items.map_values(dejection_json_fn())).len() + 1),
        ),
{
    assert forall|k: int|
        0 <= k < items.map_values(dejection_json_fn()).len() implies (#[trigger] items.map_values(
        dejection_json_fn(),
    )[k]).len() >= 1 by {
        lemma_dejection_json_starts(items[k]);
    }
    lemma_join_min_len(items.map_values(dejection_json_fn()));
    lemma_parse_printed_dejections(items, full, p, (full.len() + 1) as nat);
}

/// The weights list of a printed document parses back.
proof fn lemma_doc_list_weights(items: Seq<WeightModel>, full: Seq<char>, p: int)
    requires
        forall|k: int| 0 <= k < items.len() ==> (#[trigger] items[k]).timestamp.wf(),
        0 <= p,
        p + spec_join(items.map_values(weight_json_fn())).len() + 1 <= full.len(),
        full.subrange(p, p + spec_join(items.map_values(weight_json_fn())).len() + 1) == spec_join(
            items.map_values(weight_json_fn()),
        ) + seq![']'],
    ensures
        spec_parse_weights(full, p, (full.len() + 1) as nat) == Some(
            (items, p + spec_join(items.map_values(weight_json_fn())).len() + 1),
        ),
{
    assert forall|k: int|
        0 <= k < items.map_values(weight_json_fn()).len() implies (#[trigger] items.map_values(
        weight_json_fn(),
    )[k]).len() >= 1 by {
        lemma_weight_json_starts(items[k]);
    }
    lemma_join_min_len(items.map_values(weight_json_fn()));
    lemma_parse_printed_weights(items, full, p, (full.len() + 1) as nat);
}


/// One printed `feedings` pair of the document, consumed by the pair walker.
#[verifier::rlimit(100)]
proof fn lemma_doc_step_feedings(
    full: Seq<char>,
    p: int,
    items: Seq<FeedingModel>,
    acc: DocFields,
    fuel: nat,
)
    requires
        fuel >= 1,
        acc.feedings is None,
        forall|k: int| 0 <= k < items.len() ==> (#[trigger] items[k]).timestamp.wf(),
        0 <= p,
        ({
            let kt = seq!['"'] + "feedings"@ + seq!['"', ':'];
            let a = seq!['['] + spec_join(items.map_values(feeding_json_fn())) + seq![']'];
            &&& p + kt.len() + a.len() < full.len()
            &&& full.subrange(p, p + kt.len() + a.len()) == kt + a
            &&& (full[p + kt.len() + a.len()] == ',' || full[p + kt.len() + a.len()] == '}')
        }),
    ensures
        ({
            let kt = seq!['"'] + "feedings"@ + seq!['"', ':'];
            let a = seq!['['] + spec_join(items.map_values(feeding_json_fn())) + seq![']'];
            let vend = p + kt.len() + a.len();
            let acc2 = DocFields { feedings: Some(items), ..acc };
            spec_parse_doc_pairs(full, p, acc, fuel) == (if full[vend] == ',' {
                spec_parse_doc_pairs(full, crate::json::ws_end(full, vend + 1), acc2, (fuel - 1) as nat)
            } else {
                Some((acc2, vend + 1))
            })
        }),
{
    reveal_strlit("feedings");
    reveal_strlit("dejections");
    reveal_strlit("weights");
    reveal_strlit("next_id");
    let key = "feedings"@;

    let kt = seq!['"'] + key + seq!['"', ':'];
    let a = seq!['['] + spec_join(items.map_values(feeding_json_fn())) + seq![']'];
    let pk = p + kt.len();
    let vend = pk + a.len();
    lemma_split(full, p, kt, a);
    lemma_printed_key(full, p, key);
    assert(full[pk + 0] == '[') by {
        assert(full.subrange(pk, pk + a.len())[0] == full[pk + 0]);
    }
    assert(a =~= seq!['['] + (spec_join(items.map_values(feeding_json_fn())) + seq![']']));
    lemma_split(full, pk, seq!['['], spec_join(items.map_values(feeding_json_fn())) + seq![']']);
    lemma_doc_list_feedings(items, full, pk + 1);
    let acc2 = DocFields { feedings: Some(items), ..acc };
    assert(spec_parse_doc_field(full, pk, acc, key) == Some((acc2, vend)));
    assert(crate::json::ws_end(full, p + key.len() + 2) == p + key.len() + 2);
    assert(crate::json::ws_end(full, pk) == pk);
    assert(crate::json::ws_end(full, vend) == vend);
}


/// One printed `dejections` pair of the document, consumed by the pair walker.
#[verifier::rlimit(100)]
proof fn lemma_doc_step_dejections(
    full: Seq<char>,
    p: int,
    items: Seq<DejectionModel>,
    acc: DocFields,
    fuel: nat,
)
    requires
        fuel >= 1,
        acc.dejections is None,
        forall|k: int| 0 <= k < items.len() ==> (#[trigger] items[k]).timestamp.wf(),
        0 <= p,
        ({
            let kt = seq!['"'] + "dejections"@ + seq!['"', ':'];
            let a = seq!['['] + spec_join(items.map_values(dejection_json_fn())) + seq![']'];
            &&& p + kt.len() + a.len() < full.len()
            &&& full.subrange(p, p + kt.len() + a.len()) == kt + a
            &&& (full[p + kt.len() + a.len()] == ',' || full[p + kt.len() + a.len()] == '}')
        }),
    ensures
        ({
            let kt = seq!['"'] + "dejections"@ + seq!['"', ':'];
            let a = seq!['['] + spec_join(items.map_values(dejection_json_fn())) + seq![']'];
            let vend = p + kt.len() + a.len();
            let acc2 = DocFields { dejections: Some(items), ..acc };
            spec_parse_doc_pairs(full, p, acc, fuel) == (if full[vend] == ',' {
                spec_parse_doc_pairs(full, crate::json::ws_end(full, vend + 1), acc2, (fuel - 1) as nat)
            } else {
                Some((acc2, vend + 1))
            })
        }),
{
    reveal_strlit("feedings");
    reveal_strlit("dejections");
    reveal_strlit("weights");
    reveal_strlit("next_id");
    let key = "dejections"@;
    assert(key != "feedings"@) by {
        assert(key.len() == 10);
        assert("feedings"@.len() == 8);
    }
    let kt = seq!['"'] + key + seq!['"', ':'];
    let a = seq!['['] + spec_join(items.map_values(dejection_json_fn())) + seq![']'];
    let pk = p + kt.len();
    let vend = pk + a.len();
    lemma_split(full, p, kt, a);
    lemma_printed_key(full, p, key);
    assert(full[pk + 0] == '[') by {
        assert(full.subrange(pk, pk + a.len())[0] == full[pk + 0]);
    }
    assert(a =~= seq!['['] + (spec_join(items.map_values(dejection_json_fn())) + seq![']']));
    lemma_split(full, pk, seq!['['], spec_join(items.map_values(dejection_json_fn())) + seq![']']);
    lemma_doc_list_dejections(items, full, pk + 1);
    let acc2 = DocFields { dejections: Some(items), ..acc };
    assert(spec_parse_doc_field(full, pk, acc, key) == Some((acc2, vend)));
    assert(crate::json::ws_end(full, p + key.len() + 2) == p + key.len() + 2);
    assert(crate::json::ws_end(full, pk) == pk);
    assert(crate::json::ws_end(full, vend) == vend);
}


/// One printed `weights` pair of the document, consumed by the pair walker.
#[verifier::rlimit(100)]
proof fn lemma_doc_step_weights(
    full: Seq<char>,
    p: int,
    items: Seq<WeightModel>,
    acc: DocFields,
    fuel: nat,
)
    requires
        fuel >= 1,
        acc.weights is None,
        forall|k: int| 0 <= k < items.len() ==> (#[trigger] items[k]).timestamp.wf(),
        0 <= p,
        ({
            let kt = seq!['"'] + "weights"@ + seq!['"', ':'];
            let a = seq!['['] + spec_join(items.map_values(weight_json_fn())) + seq![']'];
            &&& p + kt.len() + a.len() < full.len()
            &&& full.subrange(p, p + kt.len() + a.len()) == kt + a
            &&& (full[p + kt.len() + a.len()] == ',' || full[p + kt.len() + a.len()] == '}')
        }),
    ensures
        ({
            let kt = seq!['"'] + "weights"@ + seq!['"', ':'];
            let a = seq!['['] + spec_join(items.map_values(weight_json_fn())) + seq![']'];
            let vend = p + kt.len() + a.len();
            let acc2 = DocFields { weights: Some(items), ..acc };
            spec_parse_doc_pairs(full, p, acc, fuel) == (if full[vend] == ',' {
                spec_parse_doc_pairs(full, crate::json::ws_end(full, vend + 1), acc2, (fuel - 1) as nat)
            } else {
                Some((acc2, vend + 1))
            })
        }),
{
    reveal_strlit("feedings");
    reveal_strlit("dejections");
    reveal_strlit("weights");
    reveal_strlit("next_id");
    let key = "weights"@;
    assert(key != "feedings"@) by {
        assert(key.len() == 7);
        assert("feedings"@.len() == 8);
    }
    assert(key != "dejections"@) by {
        assert(key.len() == 7);
        assert("dejections"@.len() == 10);
    }
    let kt = seq!['"'] + key + seq!['"', ':'];
    let a = seq!['['] + spec_join(items.map_values(weight_json_fn())) + seq![']'];
    let pk = p + kt.len();
    let vend = pk + a.len();
    lemma_split(full, p, kt, a);
    lemma_printed_key(full, p, key);
    assert(full[pk + 0] == '[') by {
        assert(full.subrange(pk, pk + a.len())[0] == full[pk + 0]);
    }
    assert(a =~= seq!['['] + (spec_join(items.map_values(weight_json_fn())) + seq![']']));
    lemma_split(full, pk, seq!['['], spec_join(items.map_values(weight_json_fn())) + seq![']']);
    lemma_doc_list_weights(items, full, pk + 1);
    let acc2 = DocFields { weights: Some(items), ..acc };
    assert(spec_parse_doc_field(full, pk, acc, key) == Some((acc2, vend)));
    assert(crate::json::ws_end(full, p + key.len() + 2) == p + key.len() + 2);
    assert(crate::json::ws_end(full, pk) == pk);
    assert(crate::json::ws_end(full, vend) == vend);
}


/// The printed `next_id` pair of the document, consumed by the pair
/// walker.
#[verifier::rlimit(100)]
proof fn lemma_doc_step_next_id(full: Seq<char>, p: int, nid: u32, acc: DocFields, fuel: nat)
    requires
        fuel >= 1,
        acc.next_id is None,
        0 <= p,
        ({
            let kt = seq!['"'] + "next_id"@ + seq!['"', ':'];
            let a = spec_dec(nid as int);
            &&& p + kt.len() + a.len() < full.len()
            &&& full.subrange(p, p + kt.len() + a.len()) == kt + a
            &&& (full[p + kt.len() + a.len()] == ',' || full[p + kt.len() + a.len()] == '}')
        }),
    ensures
        ({
            let kt = seq!['"'] + "next_id"@ + seq!['"', ':'];
            let vend = p + kt.len() + spec_dec(nid as int).len();
            let acc2 = DocFields { next_id: Some(nid as u64), ..acc };
            spec_parse_doc_pairs(full, p, acc, fuel) == (if full[vend] == ',' {
                spec_parse_doc_pairs(full, crate::json::ws_end(full, vend + 1), acc2, (fuel - 1) as nat)
            } else {
                Some((acc2, vend + 1))
            })
        }),
{
    reveal_strlit("feedings");
    reveal_strlit("dejections");
    reveal_strlit("weights");
    reveal_strlit("next_id");
    let key = "next_id"@;
    assert(key != "feedings"@) by {
        assert(key.len() == 7);
        assert("feedings"@.len() == 8);
    }
    assert(key != "dejections"@) by {
        assert(key.len() == 7);
        assert("dejections"@.len() == 10);
    }
    assert(key != "weights"@) by {
        assert(key[0] == 'n');
        assert("weights"@[0] == 'w');
    }
    let kt = seq!['"'] + key + seq!['"', ':'];
    let a = spec_dec(nid as int);
    let pk = p + kt.len();
    let vend = pk + a.len();
    lemma_split(full, p, kt, a);
    lemma_printed_key(full, p, key);
    crate::json::lemma_dec_digits(nid as int);
    assert(full[pk + 0] == a[0]) by {
        assert(full.subrange(pk, pk + a.len())[0] == full[pk + 0]);
    }
    assert(crate::json::is_digit(full[pk]));
    assert(!crate::json::is_digit(full[vend]));
    crate::json::lemma_parse_printed_u64(nid as int, full, pk);
    let acc2 = DocFields { next_id: Some(nid as u64), ..acc };
    assert(spec_parse_doc_field(full, pk, acc, key) == Some((acc2, vend)));
    assert(crate::json::ws_end(full, p + key.len() + 2) == p + key.len() + 2);
    assert(crate::json::ws_end(full, pk) == pk);
    assert(crate::json::ws_end(full, vend) == vend);
}

/// Where each pair of a printed document lies.
#[verifier::rlimit(100)]
proof fn lemma_doc_segments(m: StoreModel)
    ensures
        ({
            let full = spec_doc(m);
            let s_f = seq!['"'] + "feedings"@ + seq!['"', ':'] + (seq!['['] + spec_join(
                m.feedings.map_values(feeding_json_fn()),
            ) + seq![']']);
            let s_d = seq!['"'] + "dejections"@ + seq!['"', ':'] + (seq!['['] + spec_join(
                m.dejections.map_values(dejection_json_fn()),
            ) + seq![']']);
            let s_w = seq!['"'] + "weights"@ + seq!['"', ':'] + (seq!['['] + spec_join(
                m.weights.map_values(weight_json_fn()),
            ) + seq![']']);
            let s_n = seq!['"'] + "next_id"@ + seq!['"', ':'] + spec_dec(m.next_id as int);
            let p1 = 1int;
            let v1 = p1 + s_f.len();
            let p2 = v1 + 1;
            let v2 = p2 + s_d.len();
            let p3 = v2 + 1;
            let v3 = p3 + s_w.len();
            let p4 = v3 + 1;
            let v4 = p4 + s_n.len();
            &&& full[0int] == '{'
            &&& v4 + 1 == full.len()
            &&& full.subrange(p1, v1) == s_f
            &&& full[v1] == ','
            &&& full.subrange(p2, v2) == s_d
            &&& full[v2] == ','
            &&& full.subrange(p3, v3) == s_w
            &&& full[v3] == ','
            &&& full.subrange(p4, v4) == s_n
            &&& full[v4] == '}'
        }),
{
    let full = spec_doc(m);
    let jf = spec_join(m.feedings.map_values(feeding_json_fn()));
    let jd = spec_join(m.dejections.map_values(dejection_json_fn()));
    let jw = spec_join(m.weights.map_values(weight_json_fn()));
    reveal_strlit("{\"feedings\":");
    reveal_strlit(",\"dejections\":");
    reveal_strlit(",\"weights\":");
    reveal_strlit(",\"next_id\":");
    reveal_strlit("feedings");
    reveal_strlit("dejections");
    reveal_strlit("weights");
    reveal_strlit("next_id");
    let kt_f = seq!['"'] + "feedings"@ + seq!['"', ':'];
    let kt_d = seq!['"'] + "dejections"@ + seq!['"', ':'];
    let kt_w = seq!['"'] + "weights"@ + seq!['"', ':'];
    let kt_n = seq!['"'] + "next_id"@ + seq!['"', ':'];
    let a_f = seq!['['] + jf + seq![']'];
    let a_d = seq!['['] + jd + seq![']'];
    let a_w = seq!['['] + jw + seq![']'];
    let s_f = kt_f + a_f;
    let s_d = kt_d + a_d;
    let s_w = kt_w + a_w;
    let s_n = kt_n + spec_dec(m.next_id as int);
    assert("{\"feedings\":"@ =~= seq!['{'] + kt_f);
    assert(",\"dejections\":"@ =~= seq![','] + kt_d);
    assert(",\"weights\":"@ =~= seq![','] + kt_w);
    assert(",\"next_id\":"@ =~= seq![','] + kt_n);
    let r4 = s_n + seq!['}'];
    let r3 = s_w + (seq![','] + r4);
    let r2 = s_d + (seq![','] + r3);
    let r1 = s_f + (seq![','] + r2);
    assert(full =~= seq!['{'] + r1);
    assert(full.subrange(0, full.len() as int) =~= full);
    lemma_split(full, 0, seq!['{'], r1);
    assert(full[0int] == '{') by {
        assert(full.subrange(0, 1)[0] == full[0int]);
    }
    let p1 = 1int;
    lemma_split(full, p1, s_f, seq![','] + r2);
    let v1 = p1 + s_f.len();
    assert(full[v1] == ',') by {
        assert(full.subrange(v1, v1 + (seq![','] + r2).len())[0] == full[v1 + 0]);
    }
    lemma_split(full, v1, seq![','], r2);
    let p2 = v1 + 1;
    lemma_split(full, p2, s_d, seq![','] + r3);
    let v2 = p2 + s_d.len();
    assert(full[v2] == ',') by {
        assert(full.subrange(v2, v2 + (seq![','] + r3).len())[0] == full[v2 + 0]);
    }
    lemma_split(full, v2, seq![','], r3);
    let p3 = v2 + 1;
    lemma_split(full, p3, s_w, seq![','] + r4);
    let v3 = p3 + s_w.len();
    assert(full[v3] == ',') by {
        assert(full.subrange(v3, v3 + (seq![','] + r4).len())[0] == full[v3 + 0]);
    }
    lemma_split(full, v3, seq![','], r4);
    let p4 = v3 + 1;
    lemma_split(full, p4, s_n, seq!['}']);
    let v4 = p4 + s_n.len();
    assert(full[v4] == '}') by {
        assert(full.subrange(v4, v4 + 1)[0] == full[v4 + 0]);
    }
}

/// The first two pairs of a printed document, consumed.
#[verifier::rlimit(100)]
proof fn lemma_printed_doc_front(m: StoreModel)
    requires
        m.wf(),
    ensures
        ({
            let full = spec_doc(m);
            let s_f = seq!['"'] + "feedings"@ + seq!['"', ':'] + (seq!['['] + spec_join(
                m.feedings.map_values(feeding_json_fn()),
            ) + seq![']']);
            let s_d = seq!['"'] + "dejections"@ + seq!['"', ':'] + (seq!['['] + spec_join(
                m.dejections.map_values(dejection_json_fn()),
            ) + seq![']']);
            let p3 = 1 + s_f.len() + 1 + s_d.len() + 1;
            let acc2 = DocFields {
                feedings: Some(m.feedings),
                dejections: Some(m.dejections),
                ..doc_fields_empty()
            };
            &&& crate::json::ws_end(full, 0) == 0
            &&& crate::json::ws_end(full, 1) == 1
            &&& full[0int] == '{'
            &&& spec_parse_doc_pairs(full, 1, doc_fields_empty(), 5) == spec_parse_doc_pairs(
                full,
                p3 as int,
                acc2,
                3,
            )
        }),
{
    let full = spec_doc(m);
    reveal_strlit("feedings");
    reveal_strlit("dejections");
    reveal_strlit("weights");
    reveal_strlit("next_id");
    lemma_doc_segments(m);
    let kt_f = seq!['"'] + "feedings"@ + seq!['"', ':'];
    let kt_d = seq!['"'] + "dejections"@ + seq!['"', ':'];
    let s_f = kt_f + (seq!['['] + spec_join(m.feedings.map_values(feeding_json_fn()))
        + seq![']']);
    let s_d = kt_d + (seq!['['] + spec_join(m.dejections.map_values(dejection_json_fn()))
        + seq![']']);
    let p1 = 1int;
    let v1 = p1 + s_f.len();
    let p2 = v1 + 1;
    let v2 = p2 + s_d.len();
    let p3 = v2 + 1;
    assert(full[p1] == '"') by {
        assert(full.subrange(p1, v1)[0] == full[p1 + 0]);
        assert(s_f[0] == '"');
    }
    assert(crate::json::ws_end(full, 0) == 0);
    assert(crate::json::ws_end(full, 1) == 1);
    lemma_doc_step_feedings(full, p1, m.feedings, doc_fields_empty(), 5);
    let acc1 = DocFields { feedings: Some(m.feedings), ..doc_fields_empty() };
    assert(full[p2] == '"') by {
        assert(full.subrange(p2, v2)[0] == full[p2 + 0]);
        assert(s_d[0] == '"');
    }
    assert(crate::json::ws_end(full, p2) == p2);
    lemma_doc_step_dejections(full, p2, m.dejections, acc1, 4);
    let acc2 = DocFields { dejections: Some(m.dejections), ..acc1 };
    let s_w = seq!['"'] + "weights"@ + seq!['"', ':'] + (seq!['['] + spec_join(
        m.weights.map_values(weight_json_fn()),
    ) + seq![']']);
    assert(full[p3] == '"') by {
        assert(full.subrange(p3, p3 + s_w.len())[0] == full[p3 + 0]);
        assert(s_w[0] == '"');
    }
    assert(crate::json::ws_end(full, p3) == p3);
}

/// Exporting a well-formed store and importing the document reproduces
/// the same store model: the round trip of whole-document persistence,
/// stated over the contracts of `to_json` and `from_json`.
#[verifier::rlimit(100)]
pub proof fn lemma_export_import_round_trip(m: StoreModel)
    requires
        m.wf(),
    ensures
        spec_parse_doc(spec_doc(m)) == Some(m),
{
    let full = spec_doc(m);
    reveal_strlit("feedings");
    reveal_strlit("dejections");
    reveal_strlit("weights");
    reveal_strlit("next_id");
    lemma_printed_doc_front(m);
    let s_f = seq!['"'] + "feedings"@ + seq!['"', ':'] + (seq!['['] + spec_join(
        m.feedings.map_values(feeding_json_fn()),
    ) + seq![']']);
    let s_d = seq!['"'] + "dejections"@ + seq!['"', ':'] + (seq!['['] + spec_join(
        m.dejections.map_values(dejection_json_fn()),
    ) + seq![']']);
    let kt_w = seq!['"'] + "weights"@ + seq!['"', ':'];
    let a_w = seq!['['] + spec_join(m.weights.map_values(weight_json_fn())) + seq![']'];
    let s_w = kt_w + a_w;
    let kt_n = seq!['"'] + "next_id"@ + seq!['"', ':'];
    let s_n = kt_n + spec_dec(m.next_id as int);
    let p3 = (1 + s_f.len() + 1 + s_d.len() + 1) as int;
    let acc2 = DocFields {
        feedings: Some(m.feedings),
        dejections: Some(m.dejections),
        ..doc_fields_empty()
    };
    lemma_doc_segments(m);
    let v3 = p3 + s_w.len();
    lemma_doc_step_weights(full, p3, m.weights, acc2, 3);
    let acc3 = DocFields { weights: Some(m.weights), ..acc2 };
    let p4 = v3 + 1;
    assert(full[p4] == '"') by {
        assert(full.subrange(p4, p4 + s_n.len())[0] == full[p4 + 0]);
        assert(s_n[0] == '"');
    }
    assert(crate::json::ws_end(full, p4) == p4);
    let v4 = p4 + s_n.len();
    lemma_doc_step_next_id(full, p4, m.next_id, acc3, 2);
    let acc4 = DocFields { next_id: Some(m.next_id as u64), ..acc3 };
    assert(spec_parse_doc_pairs(full, 1, doc_fields_empty(), 5) == Some((acc4, v4 + 1)));
    assert(v4 + 1 == full.len());
    assert(crate::json::ws_end(full, v4 + 1) == v4 + 1);
    assert(doc_pair_fuel() == 5);
    assert(spec_parse_doc(full) == Some(
        StoreModel {
            feedings: m.feedings,
            dejections: m.dejections,
            weights: m.weights,
            next_id: m.next_id,
        },
    ));
    assert(m =~= (StoreModel {
        feedings: m.feedings,
        dejections: m.dejections,
        weights: m.weights,
        next_id: m.next_id,
    }));
}

/// The shape of a document written before the dejection and weight
/// collections existed: only the feedings and the counter.
pub open spec fn spec_doc_v1(feedings: Seq<FeedingModel>, next_id: u32) -> Seq<char> {
    "{\"feedings\":"@ + spec_array(feedings.map_values(feeding_json_fn())) + ",\"next_id\":"@
        + spec_dec(next_id as int) + seq!['}']
}

/// Where each pair of an early document lies.
#[verifier::rlimit(100)]
proof fn lemma_doc_v1_segments(feedings: Seq<FeedingModel>, next_id: u32)
    ensures
        ({
            let full = spec_doc_v1(feedings, next_id);
            let s_f = seq!['"'] + "feedings"@ + seq!['"', ':'] + (seq!['['] + spec_join(
                feedings.map_values(feeding_json_fn()),
            ) + seq![']']);
            let s_n = seq!['"'] + "next_id"@ + seq!['"', ':'] + spec_dec(next_id as int);
            let p1 = 1int;
            let v1 = p1 + s_f.len();
            let p2 = v1 + 1;
            let v2 = p2 + s_n.len();
            &&& full[0int] == '{'
            &&& v2 + 1 == full.len()
            &&& full.subrange(p1, v1) == s_f
            &&& full[v1] == ','
            &&& full.subrange(p2, v2) == s_n
            &&& full[v2] == '}'
        }),
{
    let full = spec_doc_v1(feedings, next_id);
    let jf = spec_join(feedings.map_values(feeding_json_fn()));
    reveal_strlit("{\"feedings\":");
    reveal_strlit(",\"next_id\":");
    reveal_strlit("feedings");
    reveal_strlit("next_id");
    let kt_f = seq!['"'] + "feedings"@ + seq!['"', ':'];
    let kt_n = seq!['"'] + "next_id"@ + seq!['"', ':'];
    let a_f = seq!['['] + jf + seq![']'];
    let s_f = kt_f + a_f;
    let s_n = kt_n + spec_dec(next_id as int);
    assert("{\"feedings\":"@ =~= seq!['{'] + kt_f);
    assert(",\"next_id\":"@ =~= seq![','] + kt_n);
    let r2 = s_n + seq!['}'];
    let r1 = s_f + (seq![','] + r2);
    assert(full =~= seq!['{'] + r1);
    assert(full.subrange(0, full.len() as int) =~= full);
    lemma_split(full, 0, seq!['{'], r1);
    assert(full[0int] == '{') by {
        assert(full.subrange(0, 1)[0] == full[0int]);
    }
    let p1 = 1int;
    lemma_split(full, p1, s_f, seq![','] + r2);
    let v1 = p1 + s_f.len();
    assert(full[v1] == ',') by {
        assert(full.subrange(v1, v1 + (seq![','] + r2).len())[0] == full[v1 + 0]);
    }
    lemma_split(full, v1, seq![','], r2);
    let p2 = v1 + 1;
    lemma_split(full, p2, s_n, seq!['}']);
    let v2 = p2 + s_n.len();
    assert(full[v2] == '}') by {
        assert(full.subrange(v2, v2 + 1)[0] == full[v2 + 0]);
    }
}

/// Backward compatibility: a document that predates the dejection and
/// weight collections loads with those collections empty and everything
/// else intact.
#[verifier::rlimit(100)]
pub proof fn lemma_import_of_early_document(feedings: Seq<FeedingModel>, next_id: u32)
    requires
        forall|k: int| 0 <= k < feedings.len() ==> (#[trigger] feedings[k]).timestamp.wf(),
    ensures
        spec_parse_doc(spec_doc_v1(feedings, next_id)) == Some(
            StoreModel {
                feedings,
                dejections: Seq::<DejectionModel>::empty(),
                weights: Seq::<WeightModel>::empty(),
                next_id,
            },
        ),
{
    let full = spec_doc_v1(feedings, next_id);
    reveal_strlit("feedings");
    reveal_strlit("next_id");
    lemma_doc_v1_segments(feedings, next_id);
    let s_f = seq!['"'] + "feedings"@ + seq!['"', ':'] + (seq!['['] + spec_join(
        feedings.map_values(feeding_json_fn()),
    ) + seq![']']);
    let s_n = seq!['"'] + "next_id"@ + seq!['"', ':'] + spec_dec(next_id as int);
    let p1 = 1int;
    let v1 = p1 + s_f.len();
    let p2 = v1 + 1;
    let v2 = p2 + s_n.len();
    assert(full[p1] == '"') by {
        assert(full.subrange(p1, v1)[0] == full[p1 + 0]);
        assert(s_f[0] == '"');
    }
    assert(crate::json::ws_end(full, 0) == 0);
    assert(crate::json::ws_end(full, 1) == 1);
    lemma_doc_step_feedings(full, p1, feedings, doc_fields_empty(), 5);
    let acc1 = DocFields { feedings: Some(feedings), ..doc_fields_empty() };
    assert(full[p2] == '"') by {
        assert(full.subrange(p2, v2)[0] == full[p2 + 0]);
        assert(s_n[0] == '"');
    }
    assert(crate::json::ws_end(full, p2) == p2);
    lemma_doc_step_next_id(full, p2, next_id, acc1, 4);
    let acc2 = DocFields { next_id: Some(next_id as u64), ..acc1 };
    assert(spec_parse_doc_pairs(full, 1, doc_fields_empty(), 5) == Some((acc2, v2 + 1)));
    assert(crate::json::ws_end(full, v2 + 1) == v2 + 1);
    assert(doc_pair_fuel() == 5);
    assert(spec_parse_doc(full) == Some(
        StoreModel {
            feedings,
            dejections: Seq::<DejectionModel>::empty(),
            weights: Seq::<WeightModel>::empty(),
            next_id,
        },
    ));
}

} // verus!
