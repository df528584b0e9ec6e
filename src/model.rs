//! The entity records of a solution catalog. Records refer to each other by
//! identifier only; all cross-entity access goes through the catalog's tables.
use vstd::prelude::*;
use crate::text::string_of;

verus! {

/// A point in time, in UTC: seconds since the Unix epoch and the nanoseconds
/// within that second.
#[derive(Debug, Clone, Copy, PartialEq, Eq, Structural)]
pub struct UtcDateTime {
    pub seconds: i64,
    pub nanos: u32,
}

#[derive(Debug, Clone)]
pub struct Unit {
    pub id: i64,
    pub value: String,
    pub lang_id: i64,
}

#[derive(Debug, Clone)]
pub struct Category {
    pub category_id: i64,
    pub name: String,
    pub rank: i64,
    pub class_id: i64,
}

#[derive(Debug, Clone)]
pub struct Membership {
    pub membership_id: i64,
    pub parent_class_id: i64,
    pub child_class_id: i64,
    pub collection_id: i64,
    pub parent_object_id: i64,
    pub child_object_id: i64,
    /// Position of this membership within its collection, in ascending
    /// membership order, counted from 0.
    pub collection_idx: usize,
}

#[derive(Debug, Clone)]
pub struct Model {
    pub model_id: i64,
    pub name: String,
}

#[derive(Debug, Clone)]
pub struct Object {
    pub object_id: i64,
    pub name: String,
    pub index: i64,
    pub show: bool,
    pub class_id: i64,
    pub category_id: i64,
    pub guid: Option<String>,
}

#[derive(Debug, Clone)]
pub struct Class {
    pub class_id: i64,
    pub name: String,
    pub state: Option<i64>,
    pub lang_id: i64,
    pub class_group_id: i64,
}

#[derive(Debug, Clone)]
pub struct ClassGroup {
    pub class_group_id: i64,
    pub name: String,
    pub lang_id: i64,
    pub state: Option<i64>,
}

#[derive(Debug, Clone)]
pub struct Collection {
    pub collection_id: i64,
    pub name: String,
    pub lang_id: i64,
    pub complement_name: Option<String>,
    pub parent_class_id: i64,
    pub child_class_id: i64,
    /// Number of memberships of this collection.
    pub n_members: usize,
}

#[derive(Debug, Clone)]
pub struct Period0 {
    pub interval_id: i64,
    pub period_of_day: i64,
    pub hour_id: i64,
    pub day_id: i64,
    pub week_id: i64,
    pub month_id: i64,
    pub quarter_id: Option<i64>,
    pub fiscal_year_id: i64,
    pub datetime: UtcDateTime,
}

#[derive(Debug, Clone)]
pub struct Period1 {
    pub day_id: i64,
    pub week_id: i64,
    pub month_id: i64,
    pub fiscal_year_id: i64,
    pub quarter_id: Option<i64>,
    pub date: UtcDateTime,
}

#[derive(Debug, Clone)]
pub struct Period2 {
    pub week_id: i64,
    pub week_ending: UtcDateTime,
}

#[derive(Debug, Clone)]
pub struct Period3 {
    pub month_id: i64,
    pub month_beginning: UtcDateTime,
}

#[derive(Debug, Clone)]
pub struct Period4 {
    pub fiscal_year_id: i64,
    pub year_ending: UtcDateTime,
}

#[derive(Debug, Clone)]
pub struct Period6 {
    pub hour_id: i64,
    pub datetime: UtcDateTime,
}

#[derive(Debug, Clone)]
pub struct Period7 {
    pub quarter_id: i64,
    pub quarter_beginning: UtcDateTime,
}

/// One period record, tagged by its granularity.
#[derive(Debug, Clone)]
pub enum PeriodType {
    Interval(Period0),
    Day(Period1),
    Week(Period2),
    Month(Period3),
    Year(Period4),
    Hour(Period6),
    Quarter(Period7),
}

impl PeriodType {
    /// The name of this period's kind.
    pub open spec fn spec_name(&self) -> Seq<char> {
        match self {
            PeriodType::Interval(_) => seq!['I', 'n', 't', 'e', 'r', 'v', 'a', 'l'],
            PeriodType::Day(_) => seq!['D', 'a', 'y'],
            PeriodType::Week(_) => seq!['W', 'e', 'e', 'k'],
            PeriodType::Month(_) => seq!['M', 'o', 'n', 't', 'h'],
            PeriodType::Year(_) => seq!['Y', 'e', 'a', 'r'],
            PeriodType::Hour(_) => seq!['H', 'o', 'u', 'r'],
            PeriodType::Quarter(_) => seq!['Q', 'u', 'a', 'r', 't', 'e', 'r'],
        }
    }

    pub fn name(&self) -> (r: String)
        ensures
            r@ == self.spec_name(),
    {
        let v = match self {
            PeriodType::Interval(_) => vec!['I', 'n', 't', 'e', 'r', 'v', 'a', 'l'],
            PeriodType::Day(_) => vec!['D', 'a', 'y'],
            PeriodType::Week(_) => vec!['W', 'e', 'e', 'k'],
            PeriodType::Month(_) => vec!['M', 'o', 'n', 't', 'h'],
            PeriodType::Year(_) => vec!['Y', 'e', 'a', 'r'],
            PeriodType::Hour(_) => vec!['H', 'o', 'u', 'r'],
            PeriodType::Quarter(_) => vec!['Q', 'u', 'a', 'r', 't', 'e', 'r'],
        };
        assert(v@ =~= self.spec_name());
        string_of(&v)
    }

    /// The instant at which this period is stamped.
    pub open spec fn spec_datetime(&self) -> UtcDateTime {
        match self {
            PeriodType::Interval(p) => p.datetime,
            PeriodType::Day(p) => p.date,
            PeriodType::Week(p) => p.week_ending,
            PeriodType::Month(p) => p.month_beginning,
            PeriodType::Year(p) => p.year_ending,
            PeriodType::Hour(p) => p.datetime,
            PeriodType::Quarter(p) => p.quarter_beginning,
        }
    }

    pub fn datetime(&self) -> (r: UtcDateTime)
        ensures
            r == self.spec_datetime(),
    {
        match self {
            PeriodType::Interval(p) => p.datetime,
            PeriodType::Day(p) => p.date,
            PeriodType::Week(p) => p.week_ending,
            PeriodType::Month(p) => p.month_beginning,
            PeriodType::Year(p) => p.year_ending,
            PeriodType::Hour(p) => p.datetime,
            PeriodType::Quarter(p) => p.quarter_beginning,
        }
    }
}

/// A phase entry: the period that an interval belongs to.
#[derive(Debug, Clone, Copy, PartialEq, Eq, Structural)]
pub struct Phase {
    pub interval_id: i64,
    pub period_id: i64,
}

/// A phase entry, tagged by the solver horizon it belongs to.
#[derive(Debug, Clone, Copy, PartialEq, Eq, Structural)]
pub enum PhaseType {
    LT(Phase),
    PASA(Phase),
    MT(Phase),
    ST(Phase),
}

impl PhaseType {
    /// The name of this entry's phase.
    pub open spec fn spec_name(&self) -> Seq<char> {
        match self {
            PhaseType::LT(_) => seq!['L', 'T'],
            PhaseType::PASA(_) => seq!['P', 'A', 'S', 'A'],
            PhaseType::MT(_) => seq!['M', 'T'],
            PhaseType::ST(_) => seq!['S', 'T'],
        }
    }

    pub fn name(&self) -> (r: String)
        ensures
            r@ == self.spec_name(),
    {
        let v = match self {
            PhaseType::LT(_) => vec!['L', 'T'],
            PhaseType::PASA(_) => vec!['P', 'A', 'S', 'A'],
            PhaseType::MT(_) => vec!['M', 'T'],
            PhaseType::ST(_) => vec!['S', 'T'],
        };
        assert(v@ =~= self.spec_name());
        string_of(&v)
    }

    pub open spec fn phase(&self) -> Phase {
        match self {
            PhaseType::LT(p) => *p,
            PhaseType::PASA(p) => *p,
            PhaseType::MT(p) => *p,
            PhaseType::ST(p) => *p,
        }
    }

    pub fn interval_id(&self) -> (r: i64)
        ensures
            r == self.phase().interval_id,
    {
        match self {
            PhaseType::LT(p) => p.interval_id,
            PhaseType::PASA(p) => p.interval_id,
            PhaseType::MT(p) => p.interval_id,
            PhaseType::ST(p) => p.interval_id,
        }
    }

    pub fn period_id(&self) -> (r: i64)
        ensures
            r == self.phase().period_id,
    {
        match self {
            PhaseType::LT(p) => p.period_id,
            PhaseType::PASA(p) => p.period_id,
            PhaseType::MT(p) => p.period_id,
            PhaseType::ST(p) => p.period_id,
        }
    }
}

#[derive(Debug, Clone)]
pub struct Sample {
    pub sample_id: i64,
    pub name: Option<String>,
}

/// A sample's weight. The weight is kept as the decimal text of the catalog.
#[derive(Debug, Clone)]
pub struct SampleWeight {
    pub sample_id: i64,
    pub phase_id: i64,
    pub weight: String,
}

#[derive(Debug, Clone)]
pub struct Timeslice {
    pub timeslice_id: i64,
    pub name: String,
}

/// The identity of one time series.
#[derive(Debug, Clone, Copy, PartialEq, Eq, Structural)]
pub struct Key {
    pub key_id: i64,
    pub phase_id: i64,
    /// Whether the catalog's period type of this key is 1 (a summary).
    pub is_summary: bool,
    pub band_id: i64,
    pub membership_id: i64,
    pub model_id: i64,
    pub property_id: i64,
    pub sample_id: i64,
    pub timeslice_id: i64,
}

/// Where a key's values lie: in the period file `period_type_id`, `length`
/// little-endian doubles from byte `position`, stamped from block
/// `period_offset + 1`.
#[derive(Debug, Clone, Copy, PartialEq, Eq, Structural)]
pub struct KeyIndex {
    pub key_id: i64,
    pub period_type_id: i64,
    pub length: u64,
    pub position: u64,
    pub period_offset: i64,
}

/// A value of an attribute. The value is kept as the decimal text of the
/// catalog.
#[derive(Debug, Clone)]
pub struct AttributeData {
    pub object_id: Option<i64>,
    pub attribute_id: i64,
    pub value: String,
}

#[derive(Debug, Clone)]
pub struct Attribute {
    pub attribute_id: i64,
    pub name: String,
    pub description: String,
    pub enum_id: i64,
    pub lang_id: i64,
    pub class_id: i64,
    pub input_mask: Option<String>,
}

#[derive(Debug, Clone)]
pub struct Property {
    pub property_id: i64,
    pub name: String,
    pub summary_name: String,
    pub lang_id: i64,
    pub enum_id: i64,
    pub is_multi_band: bool,
    pub is_period: bool,
    pub is_summary: bool,
    pub unit_id: i64,
    pub summary_unit_id: i64,
    pub collection_id: i64,
    /// The largest band of the keys of this property (0 when it has none).
    pub band_id: i64,
}

impl Property {
    pub fn property_name(&self) -> (r: String)
        ensures
            r@ == self.name@,
    {
        self.name.clone()
    }

    /// The summary name where the property is a summary, else its name.
    pub fn summary_name(&self) -> (r: String)
        ensures
            r@ == (if self.is_summary {
                self.summary_name@
            } else {
                self.name@
            }),
    {
        if self.is_summary {
            self.summary_name.clone()
        } else {
            self.name.clone()
        }
    }
}

#[derive(Debug, Clone)]
pub struct CustomColumn {
    pub column_id: i64,
    pub name: String,
    pub position: i64,
    pub class_id: i64,
}

#[derive(Debug, Clone)]
pub struct MemoObject {
    pub value: String,
    pub column_id: i64,
    pub object_id: i64,
}

} // verus!
