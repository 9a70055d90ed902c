//! Domain model: the three event kinds, their categorical types with
//! alias parsing, validating constructors, and the unified timeline
//! projection.

use vstd::prelude::*;
use vstd::string::StringExecFns;

use crate::text::{ci_matches, spec_lower_seq, spec_trim, trim};
use crate::time::Timestamp;

verus! {

/// The four ways a feeding can be given.
#[derive(Debug, Clone, Copy, PartialEq, Eq, Structural)]
pub enum FeedingType {
    BreastLeft,
    BreastRight,
    Bottle,
    Solid,
}

/// The two kinds of diaper event.
#[derive(Debug, Clone, Copy, PartialEq, Eq, Structural)]
pub enum DejectionType {
    Urine,
    Poop,
}

/// The fixed lowercase-hyphenated tag each feeding type serializes to.
pub open spec fn spec_feeding_tag(ft: FeedingType) -> Seq<char> {
    match ft {
        FeedingType::BreastLeft => "breast-left"@,
        FeedingType::BreastRight => "breast-right"@,
        FeedingType::Bottle => "bottle"@,
        FeedingType::Solid => "solid"@,
    }
}

/// The fixed tag each dejection type serializes to.
pub open spec fn spec_dejection_tag(dt: DejectionType) -> Seq<char> {
    match dt {
        DejectionType::Urine => "urine"@,
        DejectionType::Poop => "poop"@,
    }
}

/// The feeding type a string names, matched case-insensitively against
/// the full tags and the short aliases.
pub open spec fn spec_parse_feeding_type(s: Seq<char>) -> Option<FeedingType> {
    let l = spec_lower_seq(s);
    if l == "breast-left"@ || l == "bl"@ {
        Some(FeedingType::BreastLeft)
    } else if l == "breast-right"@ || l == "br"@ {
        Some(FeedingType::BreastRight)
    } else if l == "bottle"@ || l == "b"@ {
        Some(FeedingType::Bottle)
    } else if l == "solid"@ || l == "s"@ {
        Some(FeedingType::Solid)
    } else {
        None
    }
}

/// The dejection type a string names, matched case-insensitively.
pub open spec fn spec_parse_dejection_type(s: Seq<char>) -> Option<DejectionType> {
    let l = spec_lower_seq(s);
    if l == "urine"@ || l == "pee"@ || l == "u"@ {
        Some(DejectionType::Urine)
    } else if l == "poop"@ || l == "p"@ {
        Some(DejectionType::Poop)
    } else {
        None
    }
}

pub open spec fn spec_feeding_type_error(s: Seq<char>) -> Seq<char> {
    "Unknown feeding type: '"@ + s
        + "'. Use: breast-left (bl), breast-right (br), bottle (b), solid (s)"@
}

pub open spec fn spec_dejection_type_error(s: Seq<char>) -> Seq<char> {
    "Unknown dejection type: '"@ + s + "'. Use: urine (pee/u), poop (p)"@
}

impl FeedingType {
    /// Parses a feeding type from its tag or short alias,
    /// case-insensitively.
    pub fn parse(s: &str) -> (r: Result<FeedingType, String>)
        ensures
            match spec_parse_feeding_type(s@) {
                Some(ft) => r == Ok::<FeedingType, String>(ft),
                None => r is Err && r->Err_0@ == spec_feeding_type_error(s@),
            },
    {
        if ci_matches(s, "breast-left") || ci_matches(s, "bl") {
            Ok(FeedingType::BreastLeft)
        } else if ci_matches(s, "breast-right") || ci_matches(s, "br") {
            Ok(FeedingType::BreastRight)
        } else if ci_matches(s, "bottle") || ci_matches(s, "b") {
            Ok(FeedingType::Bottle)
        } else if ci_matches(s, "solid") || ci_matches(s, "s") {
            Ok(FeedingType::Solid)
        } else {
            let mut m = String::from_str("Unknown feeding type: '");
            m.append(s);
            m.append("'. Use: breast-left (bl), breast-right (br), bottle (b), solid (s)");
            Err(m)
        }
    }

    /// The fixed tag this type serializes to.
    pub fn tag(&self) -> (r: &'static str)
        ensures
            r@ == spec_feeding_tag(*self),
    {
        match self {
            FeedingType::BreastLeft => "breast-left",
            FeedingType::BreastRight => "breast-right",
            FeedingType::Bottle => "bottle",
            FeedingType::Solid => "solid",
        }
    }

    /// A human-readable name for display.
    pub fn display_name(&self) -> (r: &'static str)
        ensures
            r@ == match *self {
                FeedingType::BreastLeft => "Breast (Left)"@,
                FeedingType::BreastRight => "Breast (Right)"@,
                FeedingType::Bottle => "Bottle"@,
                FeedingType::Solid => "Solid"@,
            },
    {
        match self {
            FeedingType::BreastLeft => "Breast (Left)",
            FeedingType::BreastRight => "Breast (Right)",
            FeedingType::Bottle => "Bottle",
            FeedingType::Solid => "Solid",
        }
    }
}

impl DejectionType {
    /// Parses a dejection type from its tag or short alias,
    /// case-insensitively.
    pub fn parse(s: &str) -> (r: Result<DejectionType, String>)
        ensures
            match spec_parse_dejection_type(s@) {
                Some(dt) => r == Ok::<DejectionType, String>(dt),
                None => r is Err && r->Err_0@ == spec_dejection_type_error(s@),
            },
    {
        if ci_matches(s, "urine") || ci_matches(s, "pee") || ci_matches(s, "u") {
            Ok(DejectionType::Urine)
        } else if ci_matches(s, "poop") || ci_matches(s, "p") {
            Ok(DejectionType::Poop)
        } else {
            let mut m = String::from_str("Unknown dejection type: '");
            m.append(s);
            m.append("'. Use: urine (pee/u), poop (p)");
            Err(m)
        }
    }

    /// The fixed tag this type serializes to.
    pub fn tag(&self) -> (r: &'static str)
        ensures
            r@ == spec_dejection_tag(*self),
    {
        match self {
            DejectionType::Urine => "urine",
            DejectionType::Poop => "poop",
        }
    }

    /// A human-readable name for display.
    pub fn display_name(&self) -> (r: &'static str)
        ensures
            r@ == match *self {
                DejectionType::Urine => "Urine"@,
                DejectionType::Poop => "Poop"@,
            },
    {
        match self {
            DejectionType::Urine => "Urine",
            DejectionType::Poop => "Poop",
        }
    }
}

/// Notes normalization: notes that are blank after trimming are treated
/// as absent; anything else is kept as given.
pub open spec fn spec_normalize_notes(n: Option<Seq<char>>) -> Option<Seq<char>> {
    match n {
        Some(x) => if spec_trim(x).len() == 0 {
            None
        } else {
            Some(x)
        },
        None => None,
    }
}

/// The mathematical value of an optional string.
pub open spec fn view_opt_str(n: Option<String>) -> Option<Seq<char>> {
    match n {
        Some(x) => Some(x@),
        None => None,
    }
}

fn normalize_notes(n: Option<String>) -> (r: Option<String>)
    ensures
        view_opt_str(r) == spec_normalize_notes(view_opt_str(n)),
{
    match n {
        Some(x) => {
            let t = trim(x.as_str());
            if t.as_str().unicode_len() == 0 {
                None
            } else {
                Some(x)
            }
        },
        None => None,
    }
}

fn clone_opt_string(n: &Option<String>) -> (r: Option<String>)
    ensures
        r == *n,
{
    match n {
        Some(x) => Some(x.clone()),
        None => None,
    }
}

/// A feeding event.
#[derive(Debug)]
pub struct Feeding {
    pub id: u64,
    pub baby_name: String,
    pub feeding_type: FeedingType,
    pub amount_ml: Option<u32>,
    pub duration_minutes: Option<u32>,
    pub notes: Option<String>,
    pub timestamp: Timestamp,
}

/// The mathematical value of a `Feeding`.
#[verifier::ext_equal]
pub struct FeedingModel {
    pub id: u64,
    pub baby_name: Seq<char>,
    pub feeding_type: FeedingType,
    pub amount_ml: Option<u32>,
    pub duration_minutes: Option<u32>,
    pub notes: Option<Seq<char>>,
    pub timestamp: Timestamp,
}

impl View for Feeding {
    type V = FeedingModel;

    open spec fn view(&self) -> FeedingModel {
        FeedingModel {
            id: self.id,
            baby_name: self.baby_name@,
            feeding_type: self.feeding_type,
            amount_ml: self.amount_ml,
            duration_minutes: self.duration_minutes,
            notes: view_opt_str(self.notes),
            timestamp: self.timestamp,
        }
    }
}

impl Clone for Feeding {
    fn clone(&self) -> (r: Self)
        ensures
            r@ == self@,
    {
        Feeding {
            id: self.id,
            baby_name: self.baby_name.clone(),
            feeding_type: self.feeding_type,
            amount_ml: self.amount_ml,
            duration_minutes: self.duration_minutes,
            notes: clone_opt_string(&self.notes),
            timestamp: self.timestamp,
        }
    }
}

impl Feeding {
    /// Validating constructor: trims the name and rejects a blank one;
    /// blank notes become absent; the id starts unassigned.
    pub fn new(
        baby_name: String,
        feeding_type: FeedingType,
        amount_ml: Option<u32>,
        duration_minutes: Option<u32>,
        notes: Option<String>,
        timestamp: Timestamp,
    ) -> (r: Result<Feeding, String>)
        requires
            timestamp.wf(),
        ensures
            r is Ok <==> spec_trim(baby_name@).len() > 0,
            r is Err ==> r->Err_0@ == "Baby name cannot be empty"@,
            r is Ok ==> r->Ok_0@ == (FeedingModel {
                id: 0,
                baby_name: spec_trim(baby_name@),
                feeding_type,
                amount_ml,
                duration_minutes,
                notes: spec_normalize_notes(view_opt_str(notes)),
                timestamp,
            }),
    {
        let name = trim(baby_name.as_str());
        if name.as_str().unicode_len() == 0 {
            Err(String::from_str("Baby name cannot be empty"))
        } else {
            Ok(
                Feeding {
                    id: 0,
                    baby_name: name,
                    feeding_type,
                    amount_ml,
                    duration_minutes,
                    notes: normalize_notes(notes),
                    timestamp,
                },
            )
        }
    }
}

/// A dejection (diaper) event.
#[derive(Debug)]
pub struct Dejection {
    pub id: u64,
    pub baby_name: String,
    pub dejection_type: DejectionType,
    pub notes: Option<String>,
    pub timestamp: Timestamp,
}

/// The mathematical value of a `Dejection`.
#[verifier::ext_equal]
pub struct DejectionModel {
    pub id: u64,
    pub baby_name: Seq<char>,
    pub dejection_type: DejectionType,
    pub notes: Option<Seq<char>>,
    pub timestamp: Timestamp,
}

impl View for Dejection {
    type V = DejectionModel;

    open spec fn view(&self) -> DejectionModel {
        DejectionModel {
            id: self.id,
            baby_name: self.baby_name@,
            dejection_type: self.dejection_type,
            notes: view_opt_str(self.notes),
            timestamp: self.timestamp,
        }
    }
}

impl Clone for Dejection {
    fn clone(&self) -> (r: Self)
        ensures
            r@ == self@,
    {
        Dejection {
            id: self.id,
            baby_name: self.baby_name.clone(),
            dejection_type: self.dejection_type,
            notes: clone_opt_string(&self.notes),
            timestamp: self.timestamp,
        }
    }
}

impl Dejection {
    /// Validating constructor; same rules as for feedings.
    pub fn new(
        baby_name: String,
        dejection_type: DejectionType,
        notes: Option<String>,
        timestamp: Timestamp,
    ) -> (r: Result<Dejection, String>)
        requires
            timestamp.wf(),
        ensures
            r is Ok <==> spec_trim(baby_name@).len() > 0,
            r is Err ==> r->Err_0@ == "Baby name cannot be empty"@,
            r is Ok ==> r->Ok_0@ == (DejectionModel {
                id: 0,
                baby_name: spec_trim(baby_name@),
                dejection_type,
                notes: spec_normalize_notes(view_opt_str(notes)),
                timestamp,
            }),
    {
        let name = trim(baby_name.as_str());
        if name.as_str().unicode_len() == 0 {
            Err(String::from_str("Baby name cannot be empty"))
        } else {
            Ok(
                Dejection {
                    id: 0,
                    baby_name: name,
                    dejection_type,
                    notes: normalize_notes(notes),
                    timestamp,
                },
            )
        }
    }
}

/// A weight measurement; the weight is held in grams.
#[derive(Debug)]
pub struct Weight {
    pub id: u64,
    pub baby_name: String,
    pub weight_g: u64,
    pub notes: Option<String>,
    pub timestamp: Timestamp,
}

/// The mathematical value of a `Weight`.
#[verifier::ext_equal]
pub struct WeightModel {
    pub id: u64,
    pub baby_name: Seq<char>,
    pub weight_g: u64,
    pub notes: Option<Seq<char>>,
    pub timestamp: Timestamp,
}

impl View for Weight {
    type V = WeightModel;

    open spec fn view(&self) -> WeightModel {
        WeightModel {
            id: self.id,
            baby_name: self.baby_name@,
            weight_g: self.weight_g,
            notes: view_opt_str(self.notes),
            timestamp: self.timestamp,
        }
    }
}

impl Clone for Weight {
    fn clone(&self) -> (r: Self)
        ensures
            r@ == self@,
    {
        Weight {
            id: self.id,
            baby_name: self.baby_name.clone(),
            weight_g: self.weight_g,
            notes: clone_opt_string(&self.notes),
            timestamp: self.timestamp,
        }
    }
}

impl Weight {
    /// Validating constructor: additionally rejects a zero weight.
    pub fn new(baby_name: String, weight_g: u64, notes: Option<String>, timestamp: Timestamp) -> (r:
        Result<Weight, String>)
        requires
            timestamp.wf(),
        ensures
            r is Ok <==> spec_trim(baby_name@).len() > 0 && weight_g > 0,
            r is Err && spec_trim(baby_name@).len() == 0 ==> r->Err_0@
                == "Baby name cannot be empty"@,
            r is Err && spec_trim(baby_name@).len() > 0 ==> r->Err_0@ == "Weight must be positive"@,
            r is Ok ==> r->Ok_0@ == (WeightModel {
                id: 0,
                baby_name: spec_trim(baby_name@),
                weight_g,
                notes: spec_normalize_notes(view_opt_str(notes)),
                timestamp,
            }),
    {
        let name = trim(baby_name.as_str());
        if name.as_str().unicode_len() == 0 {
            Err(String::from_str("Baby name cannot be empty"))
        } else if weight_g == 0 {
            Err(String::from_str("Weight must be positive"))
        } else {
            Ok(
                Weight {
                    id: 0,
                    baby_name: name,
                    weight_g,
                    notes: normalize_notes(notes),
                    timestamp,
                },
            )
        }
    }
}

/// A read-only projection unifying the three record kinds for display.
#[derive(Debug)]
pub struct TimelineEntry {
    pub id: u64,
    pub kind: String,
    pub baby_name: String,
    pub subtype: String,
    pub amount_ml: Option<u32>,
    pub duration_minutes: Option<u32>,
    pub weight_g: Option<u64>,
    pub notes: Option<String>,
    pub timestamp: Timestamp,
}

/// The mathematical value of a `TimelineEntry`.
#[verifier::ext_equal]
pub struct TimelineEntryModel {
    pub id: u64,
    pub kind: Seq<char>,
    pub baby_name: Seq<char>,
    pub subtype: Seq<char>,
    pub amount_ml: Option<u32>,
    pub duration_minutes: Option<u32>,
    pub weight_g: Option<u64>,
    pub notes: Option<Seq<char>>,
    pub timestamp: Timestamp,
}

impl View for TimelineEntry {
    type V = TimelineEntryModel;

    open spec fn view(&self) -> TimelineEntryModel {
        TimelineEntryModel {
            id: self.id,
            kind: self.kind@,
            baby_name: self.baby_name@,
            subtype: self.subtype@,
            amount_ml: self.amount_ml,
            duration_minutes: self.duration_minutes,
            weight_g: self.weight_g,
            notes: view_opt_str(self.notes),
            timestamp: self.timestamp,
        }
    }
}

/// The timeline projection of a feeding.
pub open spec fn spec_entry_of_feeding(f: FeedingModel) -> TimelineEntryModel {
    TimelineEntryModel {
        id: f.id,
        kind: "feeding"@,
        baby_name: f.baby_name,
        subtype: spec_feeding_tag(f.feeding_type),
        amount_ml: f.amount_ml,
        duration_minutes: f.duration_minutes,
        weight_g: None,
        notes: f.notes,
        timestamp: f.timestamp,
    }
}

/// The timeline projection of a dejection.
pub open spec fn spec_entry_of_dejection(d: DejectionModel) -> TimelineEntryModel {
    TimelineEntryModel {
        id: d.id,
        kind: "dejection"@,
        baby_name: d.baby_name,
        subtype: spec_dejection_tag(d.dejection_type),
        amount_ml: None,
        duration_minutes: None,
        weight_g: None,
        notes: d.notes,
        timestamp: d.timestamp,
    }
}

/// The timeline projection of a weight measurement.
pub open spec fn spec_entry_of_weight(w: WeightModel) -> TimelineEntryModel {
    TimelineEntryModel {
        id: w.id,
        kind: "weight"@,
        baby_name: w.baby_name,
        subtype: "weight"@,
        amount_ml: None,
        duration_minutes: None,
        weight_g: Some(w.weight_g),
        notes: w.notes,
        timestamp: w.timestamp,
    }
}

impl TimelineEntry {
    pub fn from_feeding(f: &Feeding) -> (r: TimelineEntry)
        ensures
            r@ == spec_entry_of_feeding(f@),
    {
        TimelineEntry {
            id: f.id,
            kind: String::from_str("feeding"),
            baby_name: f.baby_name.clone(),
            subtype: String::from_str(f.feeding_type.tag()),
            amount_ml: f.amount_ml,
            duration_minutes: f.duration_minutes,
            weight_g: None,
            notes: clone_opt_string(&f.notes),
            timestamp: f.timestamp,
        }
    }

    pub fn from_dejection(d: &Dejection) -> (r: TimelineEntry)
        ensures
            r@ == spec_entry_of_dejection(d@),
    {
        TimelineEntry {
            id: d.id,
            kind: String::from_str("dejection"),
            baby_name: d.baby_name.clone(),
            subtype: String::from_str(d.dejection_type.tag()),
            amount_ml: None,
            duration_minutes: None,
            weight_g: None,
            notes: clone_opt_string(&d.notes),
            timestamp: d.timestamp,
        }
    }

    pub fn from_weight(w: &Weight) -> (r: TimelineEntry)
        ensures
            r@ == spec_entry_of_weight(w@),
    {
        TimelineEntry {
            id: w.id,
            kind: String::from_str("weight"),
            baby_name: w.baby_name.clone(),
            subtype: String::from_str("weight"),
            amount_ml: None,
            duration_minutes: None,
            weight_g: Some(w.weight_g),
            notes: clone_opt_string(&w.notes),
            timestamp: w.timestamp,
        }
    }
}

} // verus!
