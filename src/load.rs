//! Loading a catalog from its XML document: every entity table, then the
//! derivations, each computed once.
use vstd::prelude::*;
use crate::catalog::{
    band_after, block_view, blocks_upto, count_in, group_view, grouping, key_table_name, LoadError, SolutionDataset,
    TimestampBlock,
};
use crate::model::{Collection, KeyIndex, Membership, Property};
use crate::parse::{
    attribute_data_loaded, attribute_loaded, property_loaded, category_loaded, class_group_loaded, class_loaded, collection_loaded, key_index_loaded, key_loaded, membership_loaded, model_loaded, object_loaded, sample_loaded, sample_weight_loaded, timeslice_loaded, unit_loaded, custom_column_loaded, band_loaded, config_loaded, memo_object_loaded, period_loaded, phase_loaded,
    attribute_data_row_ok, attribute_row_ok, category_row_ok, class_group_row_ok, class_row_ok,
    collection_row_ok, custom_column_row_ok, is_row, key_index_row_ok, key_row_ok, membership_row_ok,
    last_with, memo_object_row_ok, model_row_ok, object_row_ok, period_row_ok, period_tag, phase_row_ok, phase_tag,
    property_matches, property_row_ok, sample_row_ok, sample_weight_row_ok, timeslice_row_ok, unit_row_ok,
};
use crate::plan::TableGroup;
use crate::xml::{i64_field, is_field_error, parse_document, row_view, text_field, xml_rows_of, RowView, XmlRow};

verus! {

/// Every row of every entity table has its required fields, each of its type.
pub open spec fn all_rows_ok(rows: Seq<XmlRow>) -> bool {
    &&& forall|j: int| 0 <= j < rows.len() && is_row(rows[j], "t_attribute_data"@) ==> attribute_data_row_ok(#[trigger] rows[j])
    &&& forall|j: int| 0 <= j < rows.len() && is_row(rows[j], "t_attribute"@) ==> attribute_row_ok(#[trigger] rows[j])
    &&& forall|j: int| 0 <= j < rows.len() && is_row(rows[j], "t_property"@) ==> property_row_ok(#[trigger] rows[j])
    &&& forall|j: int| 0 <= j < rows.len() && is_row(rows[j], "t_band"@) ==> (#[trigger] i64_field(rows[j], "band_id"@)) is Some
    &&& forall|j: int| 0 <= j < rows.len() && is_row(rows[j], "t_category"@) ==> category_row_ok(#[trigger] rows[j])
    &&& forall|j: int| 0 <= j < rows.len() && is_row(rows[j], "t_class_group"@) ==> class_group_row_ok(#[trigger] rows[j])
    &&& forall|j: int| 0 <= j < rows.len() && is_row(rows[j], "t_class"@) ==> class_row_ok(#[trigger] rows[j])
    &&& forall|j: int| 0 <= j < rows.len() && is_row(rows[j], "t_collection"@) ==> collection_row_ok(#[trigger] rows[j])
    &&& forall|j: int| 0 <= j < rows.len() && is_row(rows[j], "t_config"@) ==> (#[trigger] text_field(rows[j], "element"@)) is Some
    &&& forall|j: int| 0 <= j < rows.len() && is_row(rows[j], "t_key_index"@) ==> key_index_row_ok(#[trigger] rows[j])
    &&& forall|j: int| 0 <= j < rows.len() && is_row(rows[j], "t_key"@) ==> key_row_ok(#[trigger] rows[j])
    &&& forall|j: int| 0 <= j < rows.len() && is_row(rows[j], "t_membership"@) ==> membership_row_ok(#[trigger] rows[j])
    &&& forall|j: int| 0 <= j < rows.len() && is_row(rows[j], "t_model"@) ==> model_row_ok(#[trigger] rows[j])
    &&& forall|j: int| 0 <= j < rows.len() && is_row(rows[j], "t_object"@) ==> object_row_ok(#[trigger] rows[j])
    &&& forall|k: int, j: int| 0 <= k < 7 && 0 <= j < rows.len() && is_row(rows[j], period_tag(k)) ==> #[trigger] period_row_ok(k, #[trigger] rows[j])
    &&& forall|p: int, j: int| 0 <= p < 4 && 0 <= j < rows.len() && #[trigger] is_row(rows[j], phase_tag(p)) ==> phase_row_ok(rows[j])
    &&& forall|j: int| 0 <= j < rows.len() && is_row(rows[j], "t_sample"@) ==> sample_row_ok(#[trigger] rows[j])
    &&& forall|j: int| 0 <= j < rows.len() && is_row(rows[j], "t_sample_weight"@) ==> sample_weight_row_ok(#[trigger] rows[j])
    &&& forall|j: int| 0 <= j < rows.len() && is_row(rows[j], "t_timeslice"@) ==> timeslice_row_ok(#[trigger] rows[j])
    &&& forall|j: int| 0 <= j < rows.len() && is_row(rows[j], "t_unit"@) ==> unit_row_ok(#[trigger] rows[j])
    &&& forall|j: int| 0 <= j < rows.len() && is_row(rows[j], "t_memo_object"@) ==> memo_object_row_ok(#[trigger] rows[j])
    &&& forall|j: int| 0 <= j < rows.len() && is_row(rows[j], "t_custom_column"@) ==> custom_column_row_ok(#[trigger] rows[j])
}

/// `d` holds the tables of `base` with the records of `rows` added, table by
/// table, as each table's ingestion says; the fields that are not tables are
/// those of `base`.
pub open spec fn loaded(base: SolutionDataset, rows: Seq<XmlRow>, d: SolutionDataset) -> bool {
    &&& d.wf()
    &&& d.file == base.file
    &&& d.model_name == base.model_name
    &&& d.period_data == base.period_data
    &&& d.simulation_log == base.simulation_log
    &&& d.run_stats == base.run_stats
    &&& attribute_data_loaded(base.attribute_data, d.attribute_data, rows)
    &&& attribute_loaded(base.attribute, d.attribute, rows)
    &&& property_loaded(base.property, d.property, rows)
    &&& category_loaded(base.category, d.category, rows)
    &&& class_group_loaded(base.class_group, d.class_group, rows)
    &&& class_loaded(base.class, d.class, rows)
    &&& collection_loaded(base.collection, d.collection, rows)
    &&& key_index_loaded(base.key_index, d.key_index, rows)
    &&& key_loaded(base.key, d.key, rows)
    &&& membership_loaded(base.membership, d.membership, rows)
    &&& model_loaded(base.model, d.model, rows)
    &&& object_loaded(base.object, d.object, rows)
    &&& sample_loaded(base.sample, d.sample, rows)
    &&& sample_weight_loaded(base.sample_weight, d.sample_weight, rows)
    &&& timeslice_loaded(base.timeslice, d.timeslice, rows)
    &&& unit_loaded(base.unit, d.unit, rows)
    &&& custom_column_loaded(base.custom_column, d.custom_column, rows)
    &&& band_loaded(base.band, d.band, rows)
    &&& forall|p: int| 0 <= p < 4 ==> #[trigger] phase_loaded(p, base.phase@[p], d.phase@[p], rows)
    &&& forall|k: int| 0 <= k < 7 ==> #[trigger] period_loaded(k, base.period@[k], d.period@[k], rows)
    &&& memo_object_loaded(base.memo_object@, d.memo_object@, rows)
    &&& config_loaded(d.config@, rows, rows.len() as int)
}

/// Every key index of `d` has a table name.
pub open spec fn names_resolve(d: SolutionDataset) -> bool {
    forall|i: int| 0 <= i < d.key_index.rows().len() ==> (#[trigger] key_table_name(d, d.key_index.rows()[i])) is Ok
}

/// `d` is `l` with the derivations computed: only the bands of properties,
/// the numbers of memberships, the member counts of collections, the
/// timestamp blocks and the table grouping differ.
pub open spec fn derived_from(l: SolutionDataset, d: SolutionDataset) -> bool {
    &&& d == (SolutionDataset {
        property: d.property,
        membership: d.membership,
        collection: d.collection,
        timestamp_block: d.timestamp_block,
        table_key_index_mapping: d.table_key_index_mapping,
        ..l
    })
    &&& d.property.ids() == l.property.ids()
    &&& d.membership.ids() == l.membership.ids()
    &&& d.collection.ids() == l.collection.ids()
    &&& forall|i: int|
        0 <= i < l.property.ids().len() ==> #[trigger] d.property.rows()[i] == (Property {
            band_id: d.property.rows()[i].band_id,
            ..l.property.rows()[i]
        })
    &&& forall|i: int|
        0 <= i < l.membership.ids().len() ==> #[trigger] d.membership.rows()[i] == (Membership {
            collection_idx: d.membership.rows()[i].collection_idx,
            ..l.membership.rows()[i]
        })
    &&& forall|i: int|
        0 <= i < l.collection.ids().len() ==> #[trigger] d.collection.rows()[i] == (Collection {
            n_members: d.collection.rows()[i].n_members,
            ..l.collection.rows()[i]
        })
}

/// The views of these rows.
pub open spec fn rows_viewed(rows: Seq<XmlRow>) -> Seq<RowView> {
    rows.map_values(|x: XmlRow| row_view(x))
}

/// No property has been raised above band 0 yet.
pub open spec fn bands_zero(d: SolutionDataset) -> bool {
    forall|i: int| 0 <= i < d.property.rows().len() ==> (#[trigger] d.property.rows()[i]).band_id == 0
}

/// What holds of a loaded catalog: each property has the largest band of its
/// keys (0 where none is larger); the memberships of each collection are
/// numbered from 0 in ascending membership order and the collection counts
/// them; the timestamp blocks and the grouping of keys into data tables are
/// those of its tables.
pub open spec fn derivations_hold(d: SolutionDataset) -> bool {
    &&& forall|i: int|
        0 <= i < d.property.ids().len() ==> (#[trigger] d.property.rows()[i]).band_id == band_after(
            d.key.rows(),
            d.property.ids()[i],
            0,
            d.key.rows().len() as int,
        )
    &&& forall|i: int|
        0 <= i < d.membership.ids().len() ==> (#[trigger] d.membership.rows()[i]).collection_idx as int == count_in(
            d.membership.rows(),
            d.membership.rows()[i].collection_id,
            i,
        )
    &&& forall|i: int|
        0 <= i < d.collection.ids().len() ==> (#[trigger] d.collection.rows()[i]).n_members as int == count_in(
            d.membership.rows(),
            d.collection.ids()[i],
            d.membership.rows().len() as int,
        )
    &&& d.timestamp_block@.map_values(|b: TimestampBlock| block_view(b)) == blocks_upto(d.phase@, d.period@, 28)
    &&& d.table_key_index_mapping@.map_values(|g: TableGroup| group_view(g)) == grouping(
        d,
        d.key_index.rows().len() as int,
    )
}

proof fn lemma_names_frame(l: SolutionDataset, a: SolutionDataset, ki: KeyIndex)
    requires
        derived_from(l, a),
    ensures
        key_table_name(a, ki) == key_table_name(l, ki),
{
    match l.key.lookup(ki.key_id) {
        Some(key) => {
            let mid = key.membership_id;
            if l.membership.ids().contains(mid) {
                let k = l.membership.ids().index_of(mid);
                assert(a.membership.rows()[k] == (Membership {
                    collection_idx: a.membership.rows()[k].collection_idx,
                    ..l.membership.rows()[k]
                }));
                let cid = l.membership.rows()[k].collection_id;
                if l.collection.ids().contains(cid) {
                    let k2 = l.collection.ids().index_of(cid);
                    assert(a.collection.rows()[k2] == (Collection {
                        n_members: a.collection.rows()[k2].n_members,
                        ..l.collection.rows()[k2]
                    }));
                }
            }
            let pid = key.property_id;
            if l.property.ids().contains(pid) {
                let k3 = l.property.ids().index_of(pid);
                assert(a.property.rows()[k3] == (Property {
                    band_id: a.property.rows()[k3].band_id,
                    ..l.property.rows()[k3]
                }));
            }
        },
        None => {},
    }
}

proof fn lemma_count_in_frame(a: Seq<Membership>, b: Seq<Membership>, cid: i64, n: int)
    requires
        a.len() == b.len(),
        n <= a.len(),
        forall|i: int| 0 <= i < a.len() ==> (#[trigger] a[i]).collection_id == b[i].collection_id,
    ensures
        count_in(a, cid, n) == count_in(b, cid, n),
    decreases n,
{
    if n > 0 {
        lemma_count_in_frame(a, b, cid, n - 1);
    }
}

proof fn lemma_grouping_frame(a: SolutionDataset, b: SolutionDataset, n: int)
    requires
        a == (SolutionDataset { table_key_index_mapping: a.table_key_index_mapping, ..b }),
    ensures
        grouping(a, n) == grouping(b, n),
    decreases n,
{
    if n > 0 {
        lemma_grouping_frame(a, b, n - 1);
    }
}

impl SolutionDataset {
    /// Loads every entity table from the rows of a catalog document. Fails on
    /// the first row that lacks a required field or holds a value not of its
    /// type.
    pub fn ingest_all(&mut self, rows: &Vec<XmlRow>) -> (r: Result<(), LoadError>)
        requires
            old(self).wf(),
            bands_zero(*old(self)),
        ensures
            final(self).wf(),
            r is Ok <==> all_rows_ok(rows@),
            r matches Err(e) ==> is_field_error(e),
            r is Ok ==> bands_zero(*final(self)),
            r is Ok ==> loaded(*old(self), rows@, *final(self)),
    {
        let ghost base = *self;
        self.ingest_attribute_data(rows)?;
        self.ingest_attribute(rows)?;
        let ghost before = *self;
        self.ingest_property(rows)?;
        proof {
            assert forall|i: int| 0 <= i < self.property.rows().len() implies (#[trigger] self.property.rows()[i]).band_id
                == 0 by {
                let id = self.property.ids()[i];
                self.property.lemma_index_of(id, i);
                let last = last_with(rows@, "t_property"@, "property_id"@, id, rows@.len() as int);
                if last >= 0 {
                    assert(property_matches(self.property.rows()[i], rows@[last]));
                } else {
                    let k = before.property.ids().index_of(id);
                    before.property.lemma_index_of(id, k);
                    assert(before.property.rows()[k].band_id == 0);
                }
            }
        }
        self.ingest_band(rows)?;
        self.ingest_category(rows)?;
        self.ingest_class_group(rows)?;
        self.ingest_class(rows)?;
        self.ingest_collection(rows)?;
        self.ingest_config(rows)?;
        self.ingest_key_index(rows)?;
        self.ingest_key(rows)?;
        self.ingest_membership(rows)?;
        self.ingest_model(rows)?;
        self.ingest_object(rows)?;
        self.ingest_period(0, rows)?;
        self.ingest_period(1, rows)?;
        self.ingest_period(2, rows)?;
        self.ingest_period(3, rows)?;
        self.ingest_period(4, rows)?;
        self.ingest_period(5, rows)?;
        self.ingest_period(6, rows)?;
        self.ingest_phase(0, rows)?;
        self.ingest_phase(1, rows)?;
        self.ingest_phase(2, rows)?;
        self.ingest_phase(3, rows)?;
        self.ingest_sample(rows)?;
        self.ingest_sample_weight(rows)?;
        self.ingest_timeslice(rows)?;
        self.ingest_unit(rows)?;
        self.ingest_memo_object(rows)?;
        self.ingest_custom_column(rows)?;
        proof {
            assert forall|k: int, j: int| 0 <= k < 7 && 0 <= j < rows@.len() && is_row(rows@[j], period_tag(k)) implies #[trigger] period_row_ok(k, #[trigger] rows@[j]) by {
                if k == 0 {} else if k == 1 {} else if k == 2 {} else if k == 3 {} else if k == 4 {} else if k == 5 {} else {}
            }
            assert forall|p: int, j: int| 0 <= p < 4 && 0 <= j < rows@.len() && #[trigger] is_row(rows@[j], phase_tag(p)) implies phase_row_ok(rows@[j]) by {
                if p == 0 {} else if p == 1 {} else if p == 2 {} else {}
            }
        }
        Ok(())
    }

    /// Loads every entity table from the rows of a catalog document, then
    /// computes the derivations. Fails on the first row that lacks a
    /// required field or holds a value not of its type, or on the first key
    /// index whose references do not resolve.
    pub fn with_xml_rows(self, rows: &Vec<XmlRow>) -> (r: Result<Self, LoadError>)
        requires
            self.wf(),
            bands_zero(self),
        ensures
            !all_rows_ok(rows@) ==> r is Err,
            all_rows_ok(rows@) && (forall|l: SolutionDataset| #[trigger] loaded(self, rows@, l) ==> names_resolve(l))
                ==> r is Ok,
            r matches Err(e) ==> (is_field_error(e) && !all_rows_ok(rows@)) || (e is UnknownReference && all_rows_ok(
                rows@,
            ) && exists|l: SolutionDataset| #[trigger] loaded(self, rows@, l) && !names_resolve(l)),
            r matches Ok(d) ==> {
                &&& d.wf()
                &&& all_rows_ok(rows@)
                &&& exists|l: SolutionDataset| #[trigger] loaded(self, rows@, l) && derived_from(l, d) && names_resolve(l)
                &&& derivations_hold(d)
                &&& d.file == self.file
                &&& d.model_name == self.model_name
                &&& d.period_data == self.period_data
                &&& d.simulation_log == self.simulation_log
                &&& d.run_stats == self.run_stats
            },
    {
        let mut d = self;
        d.ingest_all(rows)?;
        let ghost l = d;
        d.update_property_band_id();
        d.update_timestamp_block();
        let ghost before_count = d;
        d.update_collection_membership_count();
        let ghost before_grouping = d;
        proof {
            assert(derived_from(l, before_grouping));
            assert forall|i: int| 0 <= i < l.key_index.rows().len() implies key_table_name(
                before_grouping,
                #[trigger] l.key_index.rows()[i],
            ) == key_table_name(l, l.key_index.rows()[i]) by {
                lemma_names_frame(l, before_grouping, l.key_index.rows()[i]);
            }
        }
        match d.update_table_key_indexes_mapping() {
            Ok(()) => {},
            Err(e) => {
                proof {
                    let i = choose|i: int|
                        0 <= i < before_grouping.key_index.rows().len() && key_table_name(
                            before_grouping,
                            #[trigger] before_grouping.key_index.rows()[i],
                        ) == Err::<Seq<char>, LoadError>(e);
                    assert(key_table_name(l, l.key_index.rows()[i]) is Err);
                    assert(!names_resolve(l));
                    assert(loaded(self, rows@, l));
                }
                return Err(e);
            },
        }
        proof {
            lemma_grouping_frame(d, before_grouping, d.key_index.rows().len() as int);
            assert forall|c: i64, n: int| n <= d.membership.rows().len() implies #[trigger] count_in(d.membership.rows(), c, n) == count_in(before_count.membership.rows(), c, n) by {
                lemma_count_in_frame(d.membership.rows(), before_count.membership.rows(), c, n);
            }
            assert(derived_from(l, d));
            assert forall|i: int| 0 <= i < l.key_index.rows().len() implies (#[trigger] key_table_name(
                l,
                l.key_index.rows()[i],
            )) is Ok by {
                assert(key_table_name(before_grouping, before_grouping.key_index.rows()[i]) is Ok);
            }
            assert(loaded(self, rows@, l));
        }
        Ok(d)
    }
    /// Loads a catalog from its XML text: the document is read by roxmltree,
    /// then as `with_xml_rows` says.
    pub fn with_xml_string(self, xml: &str) -> (r: Result<Self, LoadError>)
        requires
            self.wf(),
            bands_zero(self),
        ensures
            xml_rows_of(xml@) is None ==> (r matches Err(e) && e is Xml),
            (xml_rows_of(xml@) is Some && forall|rows: Seq<XmlRow>|
                #[trigger] rows_viewed(rows) == xml_rows_of(xml@)->Some_0 ==> all_rows_ok(rows) && forall|
                    l: SolutionDataset,
                | #[trigger] loaded(self, rows, l) ==> names_resolve(l)) ==> r is Ok,
            r matches Err(e) ==> (e is Xml && xml_rows_of(xml@) is None) || is_field_error(e) || (e is UnknownReference
                && exists|rows: Seq<XmlRow>, l: SolutionDataset|
                rows_viewed(rows) == xml_rows_of(xml@)->Some_0 && all_rows_ok(rows) && #[trigger] loaded(self, rows, l)
                    && !names_resolve(l)),
            r matches Ok(d) ==> {
                &&& d.wf()
                &&& derivations_hold(d)
                &&& exists|rows: Seq<XmlRow>, l: SolutionDataset|
                    rows_viewed(rows) == xml_rows_of(xml@)->Some_0 && all_rows_ok(rows) && #[trigger] loaded(self, rows, l)
                        && derived_from(l, d) && names_resolve(l)
                &&& d.file == self.file
                &&& d.model_name == self.model_name
                &&& d.period_data == self.period_data
                &&& d.simulation_log == self.simulation_log
                &&& d.run_stats == self.run_stats
            },
    {
        let rows = parse_document(xml)?;
        assert(rows_viewed(rows@) == xml_rows_of(xml@)->Some_0);
        self.with_xml_rows(&rows)
    }
}

} // verus!
