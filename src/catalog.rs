//! The solution catalog: every entity table, and the derivations computed
//! once after the catalog is loaded.
use vstd::prelude::*;
use crate::model::{
    Attribute, AttributeData, Category, Class, ClassGroup, Collection, CustomColumn, Key, KeyIndex,
    Membership, MemoObject, Model, Object, PeriodType, PhaseType, Property, Sample, SampleWeight,
    Timeslice, Unit, UtcDateTime,
};
use crate::plan::TableGroup;
use crate::table::IdTable;
use crate::naming::{
    period_name, period_name_of, phase_name, phase_name_of, qualified_collection_name, qualified_name,
    separator, table_name, table_name_of,
};
use crate::text::{chars_of, string_of};
use crate::parse::config_ordered;

verus! {

/// A timestamp block: for one phase and one period kind, the instants and
/// periods of that phase's entries, in ascending interval order.
#[derive(Debug)]
pub struct TimestampBlock {
    /// `{phase}__{period}`.
    pub name: String,
    pub entries: Vec<(UtcDateTime, i64)>,
}

/// All tables of a PLEXOS solution, with the derived fields.
pub struct SolutionDataset {
    pub file: String,
    pub model_name: String,
    pub attribute_data: IdTable<AttributeData>,
    pub attribute: IdTable<Attribute>,
    pub band: IdTable<i64>,
    pub category: IdTable<Category>,
    pub class_group: IdTable<ClassGroup>,
    pub class: IdTable<Class>,
    pub collection: IdTable<Collection>,
    pub membership: IdTable<Membership>,
    /// Configuration entries in ascending element order, elements unique.
    pub config: Vec<(String, Option<String>)>,
    pub key_index: IdTable<KeyIndex>,
    pub key: IdTable<Key>,
    pub model: IdTable<Model>,
    pub object: IdTable<Object>,
    /// The period tables, by period kind: interval, day, week, month, year,
    /// hour, quarter.
    pub period: Vec<IdTable<PeriodType>>,
    pub property: IdTable<Property>,
    /// The phase tables, keyed by interval: LT, PASA, MT, ST.
    pub phase: Vec<IdTable<PhaseType>>,
    pub sample: IdTable<Sample>,
    pub sample_weight: IdTable<SampleWeight>,
    pub timeslice: IdTable<Timeslice>,
    pub unit: IdTable<Unit>,
    pub memo_object: Vec<MemoObject>,
    pub custom_column: IdTable<CustomColumn>,
    /// The period types whose period file is available.
    pub period_data: Vec<i64>,
    pub simulation_log: Option<String>,
    pub run_stats: Option<String>,
    pub timestamp_block: Vec<TimestampBlock>,
    pub table_key_index_mapping: Vec<TableGroup>,
}

/// Number of period kinds.
pub const N_PERIOD_KINDS: usize = 7;

/// Number of phases.
pub const N_PHASES: usize = 4;

/// The band of property `pid` after the first `n` keys have raised it from
/// `start` to their band where theirs is larger.
pub open spec fn band_after(keys: Seq<Key>, pid: i64, start: i64, n: int) -> i64
    decreases n,
{
    if n <= 0 {
        start
    } else {
        let m = band_after(keys, pid, start, n - 1);
        if keys[n - 1].property_id == pid && keys[n - 1].band_id > m {
            keys[n - 1].band_id
        } else {
            m
        }
    }
}

/// The number of the first `n` memberships that belong to collection `cid`.
pub open spec fn count_in(ms: Seq<Membership>, cid: i64, n: int) -> nat
    decreases n,
{
    if n <= 0 {
        0
    } else {
        count_in(ms, cid, n - 1) + if ms[n - 1].collection_id == cid {
            1nat
        } else {
            0nat
        }
    }
}

proof fn lemma_count_in_le(ms: Seq<Membership>, cid: i64, n: int)
    requires
        0 <= n,
    ensures
        count_in(ms, cid, n) <= n,
    decreases n,
{
    if n > 0 {
        lemma_count_in_le(ms, cid, n - 1);
    }
}

/// The period type code of the `k`-th period table: 0, 1, 2, 3, 4, 6, 7.
pub open spec fn period_code(k: int) -> i64 {
    if k < 5 {
        k as i64
    } else {
        (k + 1) as i64
    }
}

/// The name of the timestamp block of phase table `p` and period table `k`.
pub open spec fn block_name(p: int, k: int) -> Seq<char> {
    phase_name_of((p + 1) as i64) + separator() + period_name_of(period_code(k))
}

/// The entries that the first `n` phase entries give with these periods: the
/// instant of the period whose identifier is the entry's interval, and the
/// entry's period, wherever that period exists.
pub open spec fn block_entries(phases: Seq<PhaseType>, periods: IdTable<PeriodType>, n: int) -> Seq<(UtcDateTime, i64)>
    decreases n,
{
    if n <= 0 {
        Seq::empty()
    } else {
        let prev = block_entries(phases, periods, n - 1);
        let e = phases[n - 1].phase();
        match periods.lookup(e.interval_id) {
            Some(r) => prev.push((r.spec_datetime(), e.period_id)),
            None => prev,
        }
    }
}

pub open spec fn block_view(b: TimestampBlock) -> (Seq<char>, Seq<(UtcDateTime, i64)>) {
    (b.name@, b.entries@)
}

/// The non-empty timestamp blocks of the first `t` (phase, period) pairs, in
/// phase-major order.
pub open spec fn blocks_upto(phases: Seq<IdTable<PhaseType>>, periods: Seq<IdTable<PeriodType>>, t: int) -> Seq<(Seq<char>, Seq<(UtcDateTime, i64)>)>
    decreases t,
{
    if t <= 0 {
        Seq::empty()
    } else {
        let prev = blocks_upto(phases, periods, t - 1);
        let p = (t - 1) / 7;
        let k = (t - 1) % 7;
        let e = block_entries(phases[p].rows(), periods[k], phases[p].rows().len() as int);
        if e.len() > 0 {
            prev.push((block_name(p, k), e))
        } else {
            prev
        }
    }
}

/// The kinds of entity that a reference can name.
#[derive(Debug, Clone, Copy, PartialEq, Eq, Structural)]
pub enum Entity {
    Key,
    KeyIndex,
    Membership,
    Collection,
    Class,
    Object,
    Category,
    Property,
}

/// Why a catalog cannot be loaded.
#[derive(Debug, Clone, PartialEq, Eq)]
pub enum LoadError {
    /// The XML text is not a well-formed document.
    Xml { message: String },
    /// A row of table `tag` lacks its required field `field`.
    MissingField { tag: String, field: String },
    /// A field of a row of table `tag` does not hold a value of its type.
    InvalidValue { tag: String, field: String },
    /// A reference names no record of its entity.
    UnknownReference { entity: Entity, id: i64 },
}

pub open spec fn unknown(entity: Entity, id: i64) -> LoadError {
    LoadError::UnknownReference { entity, id }
}

/// The table name of a key index, or the first reference that does not
/// resolve: its key, the key's membership, the membership's collection, the
/// key's property, the collection's parent class where the collection has no
/// complement name.
pub open spec fn key_table_name(ds: SolutionDataset, ki: KeyIndex) -> Result<Seq<char>, LoadError> {
    match ds.key.lookup(ki.key_id) {
        None => Err(unknown(Entity::Key, ki.key_id)),
        Some(key) => match ds.membership.lookup(key.membership_id) {
            None => Err(unknown(Entity::Membership, key.membership_id)),
            Some(m) => match ds.collection.lookup(m.collection_id) {
                None => Err(unknown(Entity::Collection, m.collection_id)),
                Some(c) => match ds.property.lookup(key.property_id) {
                    None => Err(unknown(Entity::Property, key.property_id)),
                    Some(p) => {
                        let prefix = match c.complement_name {
                            Some(n) => Some(n@),
                            None => match ds.class.lookup(c.parent_class_id) {
                                Some(cl) => Some(cl.name@),
                                None => None,
                            },
                        };
                        match prefix {
                            None => Err(unknown(Entity::Class, c.parent_class_id)),
                            Some(pre) => Ok(
                                table_name_of(
                                    phase_name_of(key.phase_id),
                                    period_name_of(ki.period_type_id),
                                    qualified_collection_name(pre, c.name@),
                                    if key.is_summary {
                                        p.summary_name@
                                    } else {
                                        p.name@
                                    },
                                ),
                            ),
                        }
                    },
                },
            },
        },
    }
}

/// The position of the first group named `name` among the first `n`, or -1.
pub open spec fn find_group(groups: Seq<(Seq<char>, Seq<i64>)>, name: Seq<char>, n: int) -> int
    decreases n,
{
    if n <= 0 {
        -1
    } else {
        let f = find_group(groups, name, n - 1);
        if f >= 0 {
            f
        } else if groups[n - 1].0 == name {
            n - 1
        } else {
            -1
        }
    }
}

/// Adds key `id` to the group named `name`, which is new where no group has
/// that name.
pub open spec fn add_to_group(groups: Seq<(Seq<char>, Seq<i64>)>, name: Seq<char>, id: i64) -> Seq<(Seq<char>, Seq<i64>)> {
    let f = find_group(groups, name, groups.len() as int);
    if f >= 0 {
        groups.update(f, (name, groups[f].1.push(id)))
    } else {
        groups.push((name, seq![id]))
    }
}

/// The groups of the first `n` key indexes, each key under its table name.
pub open spec fn grouping(ds: SolutionDataset, n: int) -> Seq<(Seq<char>, Seq<i64>)>
    decreases n,
{
    if n <= 0 {
        Seq::empty()
    } else {
        let ki = ds.key_index.rows()[n - 1];
        add_to_group(grouping(ds, n - 1), key_table_name(ds, ki)->Ok_0, ki.key_id)
    }
}

pub open spec fn group_view(g: TableGroup) -> (Seq<char>, Seq<i64>) {
    (g.table_name@, g.key_ids@)
}

pub open spec fn names_unique(groups: Seq<(Seq<char>, Seq<i64>)>) -> bool {
    forall|a: int, b: int| 0 <= a < b < groups.len() ==> groups[a].0 != groups[b].0
}

pub proof fn lemma_find_group(groups: Seq<(Seq<char>, Seq<i64>)>, name: Seq<char>, n: int)
    requires
        0 <= n <= groups.len(),
        names_unique(groups),
    ensures
        -1 <= find_group(groups, name, n) < n,
        find_group(groups, name, n) >= 0 ==> groups[find_group(groups, name, n)].0 == name,
        find_group(groups, name, n) == -1 ==> forall|j: int| 0 <= j < n ==> groups[j].0 != name,
        forall|j: int| 0 <= j < n && groups[j].0 == name ==> find_group(groups, name, n) == j,
    decreases n,
{
    if n > 0 {
        lemma_find_group(groups, name, n - 1);
    }
}

/// The sentinel parent class of the collections whose members are objects.
pub open spec fn system_name() -> Seq<char> {
    seq!['S', 'y', 's', 't', 'e', 'm']
}

/// Whether the memberships of collection `cid` are objects: its parent class
/// is named `System`. Fails where the collection or its parent class is
/// unknown.
pub open spec fn is_object_of(ds: SolutionDataset, cid: i64) -> Result<bool, LoadError> {
    match ds.collection.lookup(cid) {
        None => Err(unknown(Entity::Collection, cid)),
        Some(c) => match ds.class.lookup(c.parent_class_id) {
            None => Err(unknown(Entity::Class, c.parent_class_id)),
            Some(cl) => Ok(cl.name@ == system_name()),
        },
    }
}

/// The qualified name of collection `cid`: its complement name, or else its
/// parent class's name, then an underscore and its name.
pub open spec fn collection_name_of(ds: SolutionDataset, cid: i64) -> Result<Seq<char>, LoadError> {
    match ds.collection.lookup(cid) {
        None => Err(unknown(Entity::Collection, cid)),
        Some(c) => match c.complement_name {
            Some(n) => Ok(qualified_collection_name(n@, c.name@)),
            None => match ds.class.lookup(c.parent_class_id) {
                None => Err(unknown(Entity::Class, c.parent_class_id)),
                Some(cl) => Ok(qualified_collection_name(cl.name@, c.name@)),
            },
        },
    }
}

/// The category of object `oid`, where both exist.
pub open spec fn category_of(ds: SolutionDataset, oid: i64) -> Option<Category> {
    match ds.object.lookup(oid) {
        Some(o) => ds.category.lookup(o.category_id),
        None => None,
    }
}

/// The name of class `cid`, where it exists.
pub open spec fn class_name_of(ds: SolutionDataset, cid: i64) -> Option<Seq<char>> {
    match ds.class.lookup(cid) {
        Some(c) => Some(c.name@),
        None => None,
    }
}

pub open spec fn underscore_join(a: Seq<char>, b: Seq<char>) -> Seq<char> {
    a + seq!['_'] + b
}

/// The display name of object `oid`: its class, category and name joined by
/// underscores.
pub open spec fn object_name_of(ds: SolutionDataset, oid: i64) -> Result<Seq<char>, LoadError> {
    match ds.object.lookup(oid) {
        None => Err(unknown(Entity::Object, oid)),
        Some(o) => match ds.class.lookup(o.class_id) {
            None => Err(unknown(Entity::Class, o.class_id)),
            Some(c) => match ds.category.lookup(o.category_id) {
                None => Err(unknown(Entity::Category, o.category_id)),
                Some(cat) => Ok(underscore_join(underscore_join(c.name@, cat.name@), o.name@)),
            },
        },
    }
}

/// Appends an underscore and `s` to `out`.
fn push_part(out: &mut Vec<char>, s: &str)
    ensures
        final(out)@ == underscore_join(old(out)@, s@),
{
    out.push('_');
    let c = chars_of(s);
    let ghost start = out@;
    let mut i: usize = 0;
    while i < c.len()
        invariant
            i <= c@.len(),
            out@ == start + c@.take(i as int),
        decreases c@.len() - i,
    {
        out.push(c[i]);
        i = i + 1;
        assert(c@.take(i as int) =~= c@.take(i - 1).push(c@[i - 1]));
    }
    assert(c@.take(i as int) =~= c@);
    assert(out@ =~= underscore_join(old(out)@, s@));
}

/// The name of membership `mid`: its collection's qualified name, its parent
/// and child classes, and its parent and child objects, joined by
/// underscores.
pub open spec fn membership_name_of(ds: SolutionDataset, mid: i64) -> Result<Seq<char>, LoadError> {
    match ds.membership.lookup(mid) {
        None => Err(unknown(Entity::Membership, mid)),
        Some(m) => match collection_name_of(ds, m.collection_id) {
            Err(e) => Err(e),
            Ok(cn) => match (ds.class.lookup(m.child_class_id), ds.class.lookup(m.parent_class_id)) {
                (None, _) => Err(unknown(Entity::Class, m.child_class_id)),
                (_, None) => Err(unknown(Entity::Class, m.parent_class_id)),
                (Some(cc), Some(pc)) => match (ds.object.lookup(m.parent_object_id), ds.object.lookup(m.child_object_id)) {
                    (None, _) => Err(unknown(Entity::Object, m.parent_object_id)),
                    (_, None) => Err(unknown(Entity::Object, m.child_object_id)),
                    (Some(po), Some(co)) => Ok(
                        underscore_join(
                            underscore_join(underscore_join(underscore_join(cn, pc.name@), cc.name@), po.name@),
                            co.name@,
                        ),
                    ),
                },
            },
        },
    }
}

/// Every reference of membership `m` resolves: its two objects, their
/// categories and those categories' classes, its two classes, its
/// collection's qualified name and its collection's parent class.
pub open spec fn membership_refs_resolve(ds: SolutionDataset, m: Membership) -> bool {
    &&& ds.object.lookup(m.child_object_id) is Some
    &&& ds.object.lookup(m.parent_object_id) is Some
    &&& category_of(ds, m.child_object_id) is Some
    &&& category_of(ds, m.parent_object_id) is Some
    &&& class_name_of(ds, category_of(ds, m.child_object_id)->Some_0.class_id) is Some
    &&& class_name_of(ds, category_of(ds, m.parent_object_id)->Some_0.class_id) is Some
    &&& ds.class.lookup(m.child_class_id) is Some
    &&& ds.class.lookup(m.parent_class_id) is Some
    &&& collection_name_of(ds, m.collection_id) is Ok
    &&& is_object_of(ds, m.collection_id) is Ok
}

/// One row of the memberships table: the membership with the names of its
/// collection, objects, categories and classes, and its kind.
#[derive(Debug)]
pub struct MembershipRecord {
    pub membership_id: i64,
    pub collection_id: i64,
    pub collection: String,
    pub child_id: i64,
    pub child_name: String,
    pub child_category: String,
    pub child_category_class: String,
    pub parent_id: i64,
    pub parent_name: String,
    pub parent_category: String,
    pub parent_category_class: String,
    pub child_class_id: i64,
    pub child_class_name: String,
    pub parent_class_id: i64,
    pub parent_class_name: String,
    /// `true` for kind `object`, `false` for kind `relation`.
    pub is_object: bool,
}

impl SolutionDataset {
    pub open spec fn wf(&self) -> bool {
        &&& self.attribute_data.wf()
        &&& self.attribute.wf()
        &&& self.band.wf()
        &&& self.category.wf()
        &&& self.class_group.wf()
        &&& self.class.wf()
        &&& self.collection.wf()
        &&& self.membership.wf()
        &&& self.key_index.wf()
        &&& self.key.wf()
        &&& self.model.wf()
        &&& self.object.wf()
        &&& self.period@.len() == N_PERIOD_KINDS
        &&& forall|i: int| 0 <= i < self.period@.len() ==> (#[trigger] self.period@[i]).wf()
        &&& self.property.wf()
        &&& self.phase@.len() == N_PHASES
        &&& forall|i: int| 0 <= i < self.phase@.len() ==> (#[trigger] self.phase@[i]).wf()
        &&& self.sample.wf()
        &&& self.sample_weight.wf()
        &&& self.timeslice.wf()
        &&& self.unit.wf()
        &&& self.custom_column.wf()
        &&& config_ordered(self.config@)
        &&& forall|id: i64| #[trigger] self.key_index.lookup(id) is Some ==> self.key_index.lookup(id)->Some_0.key_id == id
        &&& forall|id: i64| #[trigger] self.key.lookup(id) is Some ==> self.key.lookup(id)->Some_0.key_id == id
    }

    /// An empty catalog.
    pub fn new() -> (r: Self)
        ensures
            r.wf(),
            r.file@.len() == 0,
            r.model_name@.len() == 0,
            r.key.ids().len() == 0,
            r.key_index.ids().len() == 0,
            r.property.ids().len() == 0,
            r.period_data@.len() == 0,
            r.simulation_log is None,
            r.run_stats is None,
            r.timestamp_block@.len() == 0,
            r.table_key_index_mapping@.len() == 0,
    {
        let mut period: Vec<IdTable<PeriodType>> = Vec::new();
        while period.len() < N_PERIOD_KINDS
            invariant
                period@.len() <= N_PERIOD_KINDS,
                forall|i: int| 0 <= i < period@.len() ==> (#[trigger] period@[i]).wf(),
            decreases N_PERIOD_KINDS - period@.len(),
        {
            period.push(IdTable::new());
        }
        let mut phase: Vec<IdTable<PhaseType>> = Vec::new();
        while phase.len() < N_PHASES
            invariant
                phase@.len() <= N_PHASES,
                forall|i: int| 0 <= i < phase@.len() ==> (#[trigger] phase@[i]).wf(),
            decreases N_PHASES - phase@.len(),
        {
            phase.push(IdTable::new());
        }
        SolutionDataset {
            file: String::new(),
            model_name: String::new(),
            attribute_data: IdTable::new(),
            attribute: IdTable::new(),
            band: IdTable::new(),
            category: IdTable::new(),
            class_group: IdTable::new(),
            class: IdTable::new(),
            collection: IdTable::new(),
            membership: IdTable::new(),
            config: Vec::new(),
            key_index: IdTable::new(),
            key: IdTable::new(),
            model: IdTable::new(),
            object: IdTable::new(),
            period,
            property: IdTable::new(),
            phase,
            sample: IdTable::new(),
            sample_weight: IdTable::new(),
            timeslice: IdTable::new(),
            unit: IdTable::new(),
            memo_object: Vec::new(),
            custom_column: IdTable::new(),
            period_data: Vec::new(),
            simulation_log: None,
            run_stats: None,
            timestamp_block: Vec::new(),
            table_key_index_mapping: Vec::new(),
        }
    }

    /// Raises the band of each property to the largest band of its keys.
    pub fn update_property_band_id(&mut self)
        requires
            old(self).wf(),
        ensures
            final(self).wf(),
            *final(self) == (SolutionDataset { property: final(self).property, ..*old(self) }),
            final(self).property.ids() == old(self).property.ids(),
            forall|i: int|
                0 <= i < old(self).property.ids().len() ==> #[trigger] final(self).property.rows()[i] == (Property {
                    band_id: band_after(
                        old(self).key.rows(),
                        old(self).property.ids()[i],
                        old(self).property.rows()[i].band_id,
                        old(self).key.rows().len() as int,
                    ),
                    ..old(self).property.rows()[i]
                }),
    {
        let n = self.key.len();
        let mut i: usize = 0;
        while i < n
            invariant
                self.wf(),
                n == self.key.ids().len(),
                i <= n,
                *self == (SolutionDataset { property: self.property, ..*old(self) }),
                self.property.ids() == old(self).property.ids(),
                forall|j: int|
                    0 <= j < old(self).property.ids().len() ==> #[trigger] self.property.rows()[j] == (Property {
                        band_id: band_after(
                            old(self).key.rows(),
                            old(self).property.ids()[j],
                            old(self).property.rows()[j].band_id,
                            i as int,
                        ),
                        ..old(self).property.rows()[j]
                    }),
            decreases n - i,
        {
            let k = self.key.row_at(i);
            let pid = k.property_id;
            let band = k.band_id;
            match self.property.position_of(pid) {
                Some(p) => {
                    let prop = self.property.row_mut(p);
                    if band > prop.band_id {
                        prop.band_id = band;
                    }
                },
                None => {},
            }
            i = i + 1;
            proof {
                assert forall|j: int| 0 <= j < old(self).property.ids().len() implies #[trigger] self.property.rows()[j]
                    == (Property {
                    band_id: band_after(
                        old(self).key.rows(),
                        old(self).property.ids()[j],
                        old(self).property.rows()[j].band_id,
                        i as int,
                    ),
                    ..old(self).property.rows()[j]
                }) by {
                    if old(self).property.ids()[j] == pid {
                        self.property.lemma_index_of(pid, j);
                    }
                }
            }
        }
    }
    /// Numbers the memberships of each collection from 0, in ascending
    /// membership order, and sets each collection's member count.
    pub fn update_collection_membership_count(&mut self)
        requires
            old(self).wf(),
        ensures
            final(self).wf(),
            *final(self) == (SolutionDataset {
                membership: final(self).membership,
                collection: final(self).collection,
                ..*old(self)
            }),
            final(self).membership.ids() == old(self).membership.ids(),
            final(self).collection.ids() == old(self).collection.ids(),
            forall|i: int|
                0 <= i < old(self).membership.ids().len() ==> #[trigger] final(self).membership.rows()[i] == (
                Membership {
                    collection_idx: count_in(
                        old(self).membership.rows(),
                        old(self).membership.rows()[i].collection_id,
                        i,
                    ) as usize,
                    ..old(self).membership.rows()[i]
                }),
            forall|i: int|
                0 <= i < old(self).membership.ids().len() ==> (#[trigger] final(self).membership.rows()[i]).collection_idx
                    as int == count_in(
                    old(self).membership.rows(),
                    old(self).membership.rows()[i].collection_id,
                    i,
                ),
            forall|i: int|
                0 <= i < old(self).collection.ids().len() ==> (#[trigger] final(self).collection.rows()[i]).n_members as int
                    == count_in(
                    old(self).membership.rows(),
                    old(self).collection.ids()[i],
                    old(self).membership.rows().len() as int,
                ),
            forall|i: int|
                0 <= i < old(self).collection.ids().len() ==> #[trigger] final(self).collection.rows()[i] == (
                Collection {
                    n_members: count_in(
                        old(self).membership.rows(),
                        old(self).collection.ids()[i],
                        old(self).membership.rows().len() as int,
                    ) as usize,
                    ..old(self).collection.rows()[i]
                }),
    {
        let ghost ms = old(self).membership.rows();
        let n = self.membership.len();
        let mut counts: IdTable<usize> = IdTable::new();
        let mut i: usize = 0;
        while i < n
            invariant
                self.wf(),
                counts.wf(),
                n == self.membership.ids().len(),
                ms == old(self).membership.rows(),
                i <= n,
                *self == (SolutionDataset { membership: self.membership, ..*old(self) }),
                self.membership.ids() == old(self).membership.ids(),
                forall|j: int|
                    i <= j < n ==> #[trigger] self.membership.rows()[j] == ms[j],
                forall|j: int|
                    0 <= j < i ==> #[trigger] self.membership.rows()[j] == (Membership {
                        collection_idx: count_in(ms, ms[j].collection_id, j) as usize,
                        ..ms[j]
                    }),
                forall|j: int|
                    0 <= j < i ==> (#[trigger] self.membership.rows()[j]).collection_idx as int == count_in(
                        ms,
                        ms[j].collection_id,
                        j,
                    ),
                forall|c: i64|
                    #[trigger] counts.lookup(c) == if count_in(ms, c, i as int) > 0 {
                        Some(count_in(ms, c, i as int) as usize)
                    } else {
                        None
                    },
            decreases n - i,
        {
            let cid = self.membership.row_at(i).collection_id;
            proof {
                lemma_count_in_le(ms, cid, i as int);
            }
            let idx: usize = match counts.position_of(cid) {
                Some(p) => {
                    let ghost before = counts;
                    let c = counts.row_mut(p);
                    let v = *c;
                    *c = v + 1;
                    proof {
                        counts.lemma_index_of(cid, p as int);
                        assert forall|k: i64| k != cid implies #[trigger] counts.lookup(k) == before.lookup(k) by {
                            if counts.ids().contains(k) {
                                let q = counts.ids().index_of(k);
                                counts.lemma_index_of(k, q);
                                before.lemma_index_of(k, q);
                            }
                        }
                    }
                    v
                },
                None => {
                    counts.insert(cid, 1);
                    0
                },
            };
            self.membership.row_mut(i).collection_idx = idx;
            i = i + 1;
        }
        let m = self.collection.len();
        let mut j: usize = 0;
        while j < m
            invariant
                self.wf(),
                counts.wf(),
                m == self.collection.ids().len(),
                n == ms.len(),
                ms == old(self).membership.rows(),
                j <= m,
                *self == (SolutionDataset {
                    membership: self.membership,
                    collection: self.collection,
                    ..*old(self)
                }),
                self.membership.ids() == old(self).membership.ids(),
                self.collection.ids() == old(self).collection.ids(),
                forall|k: int|
                    0 <= k < n ==> #[trigger] self.membership.rows()[k] == (Membership {
                        collection_idx: count_in(ms, ms[k].collection_id, k) as usize,
                        ..ms[k]
                    }),
                forall|k: int|
                    0 <= k < n ==> (#[trigger] self.membership.rows()[k]).collection_idx as int == count_in(
                        ms,
                        ms[k].collection_id,
                        k,
                    ),
                forall|k: int|
                    0 <= k < j ==> (#[trigger] self.collection.rows()[k]).n_members as int == count_in(
                        ms,
                        old(self).collection.ids()[k],
                        n as int,
                    ),
                forall|k: int|
                    j <= k < m ==> #[trigger] self.collection.rows()[k] == old(self).collection.rows()[k],
                forall|k: int|
                    0 <= k < j ==> #[trigger] self.collection.rows()[k] == (Collection {
                        n_members: count_in(ms, old(self).collection.ids()[k], n as int) as usize,
                        ..old(self).collection.rows()[k]
                    }),
                forall|c: i64|
                    #[trigger] counts.lookup(c) == if count_in(ms, c, n as int) > 0 {
                        Some(count_in(ms, c, n as int) as usize)
                    } else {
                        None
                    },
            decreases m - j,
        {
            let cid = self.collection.id_at(j);
            proof {
                lemma_count_in_le(ms, cid, n as int);
            }
            let total: usize = match counts.get(cid) {
                Some(t) => *t,
                None => 0,
            };
            self.collection.row_mut(j).n_members = total;
            j = j + 1;
        }
    }
    /// Builds the timestamp blocks: for each phase and each period kind, the
    /// instants of the periods that the phase's entries name, in order; only
    /// blocks with at least one entry are kept.
    pub fn update_timestamp_block(&mut self)
        requires
            old(self).wf(),
        ensures
            final(self).wf(),
            *final(self) == (SolutionDataset { timestamp_block: final(self).timestamp_block, ..*old(self) }),
            final(self).timestamp_block@.map_values(|b: TimestampBlock| block_view(b)) == blocks_upto(
                old(self).phase@,
                old(self).period@,
                28,
            ),
    {
        let mut out: Vec<TimestampBlock> = Vec::new();
        let mut p: usize = 0;
        while p < N_PHASES
            invariant
                self.wf(),
                *self == *old(self),
                p <= N_PHASES,
                out@.map_values(|b: TimestampBlock| block_view(b)) == blocks_upto(self.phase@, self.period@, 7 * p),
            decreases N_PHASES - p,
        {
            let mut k: usize = 0;
            while k < N_PERIOD_KINDS
                invariant
                    self.wf(),
                    *self == *old(self),
                    p < N_PHASES,
                    k <= N_PERIOD_KINDS,
                    out@.map_values(|b: TimestampBlock| block_view(b)) == blocks_upto(
                        self.phase@,
                        self.period@,
                        7 * p + k,
                    ),
                decreases N_PERIOD_KINDS - k,
            {
                let phases = &self.phase[p];
                let periods = &self.period[k];
                let mut entries: Vec<(UtcDateTime, i64)> = Vec::new();
                let n = phases.len();
                let mut i: usize = 0;
                while i < n
                    invariant
                        phases.wf(),
                        periods.wf(),
                        n == phases.ids().len(),
                        i <= n,
                        entries@ == block_entries(phases.rows(), *periods, i as int),
                    decreases n - i,
                {
                    let e = phases.row_at(i);
                    let interval_id = e.interval_id();
                    let period_id = e.period_id();
                    match periods.get(interval_id) {
                        Some(r) => {
                            entries.push((r.datetime(), period_id));
                        },
                        None => {},
                    }
                    i = i + 1;
                }
                let ghost prev = out@;
                proof {
                    assert((7 * p + k) / 7 == p as int);
                    assert((7 * p + k) % 7 == k as int);
                }
                if entries.len() > 0 {
                    let mut name = phase_name((p + 1) as i64);
                    name.push('_');
                    name.push('_');
                    let mut q = period_name(if k < 5 {
                        k as i64
                    } else {
                        (k + 1) as i64
                    });
                    name.append(&mut q);
                    assert(name@ =~= block_name(p as int, k as int));
                    let s = string_of(&name);
                    out.push(TimestampBlock { name: s, entries });
                    assert(out@.map_values(|b: TimestampBlock| block_view(b)) =~= prev.map_values(
                        |b: TimestampBlock| block_view(b),
                    ).push(block_view(out@.last())));
                }
                k = k + 1;
            }
            p = p + 1;
        }
        self.timestamp_block = out;
    }
    /// The table name of a key index, or the first reference that does not
    /// resolve.
    pub fn table_name_of_key_index(&self, ki: &KeyIndex) -> (r: Result<String, LoadError>)
        requires
            self.wf(),
        ensures
            match key_table_name(*self, *ki) {
                Ok(n) => r matches Ok(s) && s@ == n,
                Err(e) => r == Err::<String, LoadError>(e),
            },
    {
        let key = match self.key.get(ki.key_id) {
            Some(k) => k,
            None => return Err(LoadError::UnknownReference { entity: Entity::Key, id: ki.key_id }),
        };
        let m = match self.membership.get(key.membership_id) {
            Some(m) => m,
            None => return Err(LoadError::UnknownReference { entity: Entity::Membership, id: key.membership_id }),
        };
        let c = match self.collection.get(m.collection_id) {
            Some(c) => c,
            None => return Err(LoadError::UnknownReference { entity: Entity::Collection, id: m.collection_id }),
        };
        let p = match self.property.get(key.property_id) {
            Some(p) => p,
            None => return Err(LoadError::UnknownReference { entity: Entity::Property, id: key.property_id }),
        };
        let prefix: &String = match &c.complement_name {
            Some(n) => n,
            None => match self.class.get(c.parent_class_id) {
                Some(cl) => &cl.name,
                None => return Err(LoadError::UnknownReference { entity: Entity::Class, id: c.parent_class_id }),
            },
        };
        let cq = qualified_name(prefix.as_str(), c.name.as_str());
        let shown: &String = if key.is_summary {
            &p.summary_name
        } else {
            &p.name
        };
        Ok(table_name(key.phase_id, ki.period_type_id, cq.as_str(), shown.as_str()))
    }

    /// Groups the keys by data table: each key index, in ascending key order,
    /// goes to the group of its table name. Fails on the first key index with a
    /// reference that does not resolve.
    pub fn update_table_key_indexes_mapping(&mut self) -> (r: Result<(), LoadError>)
        requires
            old(self).wf(),
        ensures
            final(self).wf(),
            r is Ok <==> forall|i: int|
                0 <= i < old(self).key_index.rows().len() ==> (#[trigger] key_table_name(
                    *old(self),
                    old(self).key_index.rows()[i],
                )) is Ok,
            r matches Err(e) ==> exists|i: int|
                0 <= i < old(self).key_index.rows().len() && key_table_name(
                    *old(self),
                    #[trigger] old(self).key_index.rows()[i],
                ) == Err::<Seq<char>, LoadError>(e),
            r is Ok ==> *final(self) == (SolutionDataset {
                table_key_index_mapping: final(self).table_key_index_mapping,
                ..*old(self)
            }),
            r is Ok ==> final(self).table_key_index_mapping@.map_values(|g: TableGroup| group_view(g))
                == grouping(*old(self), old(self).key_index.rows().len() as int),
            r is Err ==> *final(self) == *old(self),
    {
        let n = self.key_index.len();
        let mut groups: Vec<TableGroup> = Vec::new();
        let mut last: usize = 0;
        let mut i: usize = 0;
        while i < n
            invariant
                self.wf(),
                *self == *old(self),
                n == self.key_index.rows().len(),
                i <= n,
                forall|j: int| 0 <= j < i ==> (#[trigger] key_table_name(*self, self.key_index.rows()[j])) is Ok,
                groups@.map_values(|g: TableGroup| group_view(g)) == grouping(*self, i as int),
                names_unique(grouping(*self, i as int)),
            decreases n - i,
        {
            let ki = self.key_index.row_at(i);
            let name = match self.table_name_of_key_index(ki) {
                Ok(s) => s,
                Err(e) => {
                    return Err(e);
                },
            };
            let id = ki.key_id;
            let ghost gv = groups@.map_values(|g: TableGroup| group_view(g));
            proof {
                lemma_find_group(gv, name@, gv.len() as int);
            }
            let mut found: Option<usize> = None;
            if last < groups.len() && groups[last].table_name == name {
                found = Some(last);
            } else {
                let mut j: usize = 0;
                while j < groups.len() && found.is_none()
                    invariant
                        j <= groups@.len(),
                        gv == groups@.map_values(|g: TableGroup| group_view(g)),
                        found is None ==> forall|q: int| 0 <= q < j ==> gv[q].0 != name@,
                        found matches Some(f) ==> f < gv.len() && gv[f as int].0 == name@,
                    decreases groups@.len() - j,
                {
                    if groups[j].table_name == name {
                        found = Some(j);
                    }
                    j = j + 1;
                }
            }
            match found {
                Some(f) => {
                    assert(gv[f as int].0 == name@);
                    groups[f].key_ids.push(id);
                    last = f;
                    proof {
                        assert(groups@.map_values(|g: TableGroup| group_view(g)) =~= add_to_group(gv, name@, id));
                    }
                },
                None => {
                    let mut ids: Vec<i64> = Vec::new();
                    ids.push(id);
                    last = groups.len();
                    groups.push(TableGroup { table_name: name, key_ids: ids });
                    proof {
                        assert(ids@ =~= seq![id]);
                        assert(groups@.map_values(|g: TableGroup| group_view(g)) =~= add_to_group(gv, name@, id));
                    }
                },
            }
            i = i + 1;
            proof {
                let g2 = grouping(*self, i as int);
                assert forall|a: int, b: int| 0 <= a < b < g2.len() implies g2[a].0 != g2[b].0 by {
                    if b < gv.len() {
                        assert(g2[a].0 == gv[a].0 && g2[b].0 == gv[b].0);
                    }
                }
            }
        }
        self.table_key_index_mapping = groups;
        Ok(())
    }
    /// Sets the model name, unless the given one is empty.
    pub fn with_model_name(self, model_name: String) -> (r: Self)
        requires
            self.wf(),
        ensures
            r.wf(),
            model_name@.len() == 0 ==> r == self,
            model_name@.len() > 0 ==> r == (SolutionDataset { model_name, ..self }),
    {
        if model_name.as_str().is_empty() {
            return self;
        }
        SolutionDataset { model_name, ..self }
    }

    /// Sets the period types whose period files are available.
    pub fn with_period_data(self, period_data: Vec<i64>) -> (r: Self)
        requires
            self.wf(),
        ensures
            r.wf(),
            r == (SolutionDataset { period_data, ..self }),
    {
        SolutionDataset { period_data, ..self }
    }

    /// Sets the path of the solution file.
    pub fn with_file(self, file: String) -> (r: Self)
        requires
            self.wf(),
        ensures
            r.wf(),
            r == (SolutionDataset { file, ..self }),
    {
        SolutionDataset { file, ..self }
    }

    /// Sets the simulation log, unless the given one is empty.
    pub fn with_simulation_log(self, log: String) -> (r: Self)
        requires
            self.wf(),
        ensures
            r.wf(),
            log@.len() == 0 ==> r == self,
            log@.len() > 0 ==> r == (SolutionDataset { simulation_log: Some(log), ..self }),
    {
        if log.as_str().is_empty() {
            return self;
        }
        SolutionDataset { simulation_log: Some(log), ..self }
    }

    /// Sets the run statistics, unless the given ones are empty.
    pub fn with_run_stats(self, run_stats: String) -> (r: Self)
        requires
            self.wf(),
        ensures
            r.wf(),
            run_stats@.len() == 0 ==> r == self,
            run_stats@.len() > 0 ==> r == (SolutionDataset { run_stats: Some(run_stats), ..self }),
    {
        if run_stats.as_str().is_empty() {
            return self;
        }
        SolutionDataset { run_stats: Some(run_stats), ..self }
    }

    /// Whether a period file is available for this period type.
    pub fn has_period_data(&self, period_type_id: i64) -> (r: bool)
        ensures
            r == self.period_data@.contains(period_type_id),
    {
        let mut i: usize = 0;
        while i < self.period_data.len()
            invariant
                i <= self.period_data@.len(),
                forall|j: int| 0 <= j < i ==> self.period_data@[j] != period_type_id,
            decreases self.period_data@.len() - i,
        {
            if self.period_data[i] == period_type_id {
                return true;
            }
            i = i + 1;
        }
        false
    }

    /// Whether the memberships of collection `collection_id` are objects.
    pub fn is_object(&self, collection_id: i64) -> (r: Result<bool, LoadError>)
        requires
            self.wf(),
        ensures
            r == is_object_of(*self, collection_id),
    {
        let c = match self.collection.get(collection_id) {
            Some(c) => c,
            None => return Err(LoadError::UnknownReference { entity: Entity::Collection, id: collection_id }),
        };
        let cl = match self.class.get(c.parent_class_id) {
            Some(cl) => cl,
            None => return Err(LoadError::UnknownReference { entity: Entity::Class, id: c.parent_class_id }),
        };
        let system = string_of(&vec!['S', 'y', 's', 't', 'e', 'm']);
        proof {
            assert(system@ =~= system_name());
        }
        Ok(cl.name == system)
    }

    /// The qualified name of collection `collection_id`.
    pub fn collection_name(&self, collection_id: i64) -> (r: Result<String, LoadError>)
        requires
            self.wf(),
        ensures
            match collection_name_of(*self, collection_id) {
                Ok(n) => r matches Ok(s) && s@ == n,
                Err(e) => r == Err::<String, LoadError>(e),
            },
    {
        let c = match self.collection.get(collection_id) {
            Some(c) => c,
            None => return Err(LoadError::UnknownReference { entity: Entity::Collection, id: collection_id }),
        };
        match &c.complement_name {
            Some(n) => Ok(qualified_name(n.as_str(), c.name.as_str())),
            None => match self.class.get(c.parent_class_id) {
                Some(cl) => Ok(qualified_name(cl.name.as_str(), c.name.as_str())),
                None => Err(LoadError::UnknownReference { entity: Entity::Class, id: c.parent_class_id }),
            },
        }
    }

    /// The row of the memberships table for membership `m`: the names of its
    /// collection, of its child and parent objects, their categories and those
    /// categories' classes, and of its classes; its kind is `object` exactly
    /// where its collection's parent class is `System`. Fails on the first
    /// reference that does not resolve.
    pub fn membership_record(&self, m: &Membership) -> (r: Result<MembershipRecord, LoadError>)
        requires
            self.wf(),
        ensures
            r matches Ok(rec) ==> {
                &&& self.object.lookup(m.child_object_id) is Some
                &&& self.object.lookup(m.parent_object_id) is Some
                &&& self.class.lookup(m.child_class_id) is Some
                &&& self.class.lookup(m.parent_class_id) is Some
                &&& rec.membership_id == m.membership_id
                &&& rec.collection_id == m.collection_id
                &&& collection_name_of(*self, m.collection_id) == Ok::<Seq<char>, LoadError>(rec.collection@)
                &&& rec.child_id == self.object.lookup(m.child_object_id)->Some_0.object_id
                &&& rec.parent_id == self.object.lookup(m.parent_object_id)->Some_0.object_id
                &&& rec.child_name@ == self.object.lookup(m.child_object_id)->Some_0.name@
                &&& rec.parent_name@ == self.object.lookup(m.parent_object_id)->Some_0.name@
                &&& rec.child_class_id == self.object.lookup(m.child_object_id)->Some_0.class_id
                &&& rec.parent_class_id == self.object.lookup(m.parent_object_id)->Some_0.class_id
                &&& rec.child_class_name@ == self.class.lookup(m.child_class_id)->Some_0.name@
                &&& rec.parent_class_name@ == self.class.lookup(m.parent_class_id)->Some_0.name@
                &&& is_object_of(*self, m.collection_id) == Ok::<bool, LoadError>(rec.is_object)
                &&& category_of(*self, m.child_object_id) matches Some(c) && rec.child_category@ == c.name@
                    && class_name_of(*self, c.class_id) == Some(rec.child_category_class@)
                &&& category_of(*self, m.parent_object_id) matches Some(c) && rec.parent_category@ == c.name@
                    && class_name_of(*self, c.class_id) == Some(rec.parent_category_class@)
            },
            r matches Err(e) ==> e is UnknownReference,
            r is Ok <==> membership_refs_resolve(*self, *m),
    {
        let child = match self.object.get(m.child_object_id) {
            Some(o) => o,
            None => return Err(LoadError::UnknownReference { entity: Entity::Object, id: m.child_object_id }),
        };
        let parent = match self.object.get(m.parent_object_id) {
            Some(o) => o,
            None => return Err(LoadError::UnknownReference { entity: Entity::Object, id: m.parent_object_id }),
        };
        let child_category = match self.category.get(child.category_id) {
            Some(c) => c,
            None => return Err(LoadError::UnknownReference { entity: Entity::Category, id: child.category_id }),
        };
        let child_category_class = match self.class.get(child_category.class_id) {
            Some(c) => c,
            None => return Err(LoadError::UnknownReference { entity: Entity::Class, id: child_category.class_id }),
        };
        let child_class = match self.class.get(m.child_class_id) {
            Some(c) => c,
            None => return Err(LoadError::UnknownReference { entity: Entity::Class, id: m.child_class_id }),
        };
        let parent_category = match self.category.get(parent.category_id) {
            Some(c) => c,
            None => return Err(LoadError::UnknownReference { entity: Entity::Category, id: parent.category_id }),
        };
        let parent_category_class = match self.class.get(parent_category.class_id) {
            Some(c) => c,
            None => return Err(LoadError::UnknownReference { entity: Entity::Class, id: parent_category.class_id }),
        };
        let parent_class = match self.class.get(m.parent_class_id) {
            Some(c) => c,
            None => return Err(LoadError::UnknownReference { entity: Entity::Class, id: m.parent_class_id }),
        };
        let collection = self.collection_name(m.collection_id)?;
        let is_object = self.is_object(m.collection_id)?;
        Ok(
            MembershipRecord {
                membership_id: m.membership_id,
                collection_id: m.collection_id,
                collection,
                child_id: child.object_id,
                child_name: child.name.clone(),
                child_category: child_category.name.clone(),
                child_category_class: child_category_class.name.clone(),
                parent_id: parent.object_id,
                parent_name: parent.name.clone(),
                parent_category: parent_category.name.clone(),
                parent_category_class: parent_category_class.name.clone(),
                child_class_id: child.class_id,
                child_class_name: child_class.name.clone(),
                parent_class_id: parent.class_id,
                parent_class_name: parent_class.name.clone(),
                is_object,
            },
        )
    }
    /// The display name of object `object_id`.
    pub fn object_name(&self, object_id: i64) -> (r: Result<String, LoadError>)
        requires
            self.wf(),
        ensures
            match object_name_of(*self, object_id) {
                Ok(n) => r matches Ok(s) && s@ == n,
                Err(e) => r == Err::<String, LoadError>(e),
            },
    {
        let o = match self.object.get(object_id) {
            Some(o) => o,
            None => return Err(LoadError::UnknownReference { entity: Entity::Object, id: object_id }),
        };
        let c = match self.class.get(o.class_id) {
            Some(c) => c,
            None => return Err(LoadError::UnknownReference { entity: Entity::Class, id: o.class_id }),
        };
        let cat = match self.category.get(o.category_id) {
            Some(cat) => cat,
            None => return Err(LoadError::UnknownReference { entity: Entity::Category, id: o.category_id }),
        };
        let mut out = chars_of(c.name.as_str());
        push_part(&mut out, cat.name.as_str());
        push_part(&mut out, o.name.as_str());
        Ok(string_of(&out))
    }

    /// The display name of membership `membership_id`.
    pub fn membership_name(&self, membership_id: i64) -> (r: Result<String, LoadError>)
        requires
            self.wf(),
        ensures
            match membership_name_of(*self, membership_id) {
                Ok(n) => r matches Ok(s) && s@ == n,
                Err(e) => r == Err::<String, LoadError>(e),
            },
    {
        let m = match self.membership.get(membership_id) {
            Some(m) => m,
            None => return Err(LoadError::UnknownReference { entity: Entity::Membership, id: membership_id }),
        };
        let collection_name = self.collection_name(m.collection_id)?;
        let child_class = match self.class.get(m.child_class_id) {
            Some(c) => c,
            None => return Err(LoadError::UnknownReference { entity: Entity::Class, id: m.child_class_id }),
        };
        let parent_class = match self.class.get(m.parent_class_id) {
            Some(c) => c,
            None => return Err(LoadError::UnknownReference { entity: Entity::Class, id: m.parent_class_id }),
        };
        let parent_object = match self.object.get(m.parent_object_id) {
            Some(o) => o,
            None => return Err(LoadError::UnknownReference { entity: Entity::Object, id: m.parent_object_id }),
        };
        let child_object = match self.object.get(m.child_object_id) {
            Some(o) => o,
            None => return Err(LoadError::UnknownReference { entity: Entity::Object, id: m.child_object_id }),
        };
        let mut out = chars_of(collection_name.as_str());
        push_part(&mut out, parent_class.name.as_str());
        push_part(&mut out, child_class.name.as_str());
        push_part(&mut out, parent_object.name.as_str());
        push_part(&mut out, child_object.name.as_str());
        Ok(string_of(&out))
    }
}

impl Default for SolutionDataset {
    /// An empty catalog, as `new` makes it.
    fn default() -> (r: Self)
        ensures
            r.wf(),
            r.file@.len() == 0,
            r.model_name@.len() == 0,
            r.key.ids().len() == 0,
            r.key_index.ids().len() == 0,
            r.property.ids().len() == 0,
            r.period_data@.len() == 0,
            r.simulation_log is None,
            r.run_stats is None,
            r.timestamp_block@.len() == 0,
            r.table_key_index_mapping@.len() == 0,
    {
        SolutionDataset::new()
    }
}

} // verus!
