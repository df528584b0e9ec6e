//! Reading the entity records from the catalog's rows. A row of table
//! `t_<entity>` becomes one record; each field is the text of the row's first
//! element of that name, read by the field's type.
use vstd::prelude::*;
use crate::catalog::{LoadError, SolutionDataset};
use crate::datetime::{instant, iso_instant_of, legacy_instant, legacy_instant_of, parse_datetime_to_utc};
use crate::model::{
    Attribute, AttributeData, Category, Class, ClassGroup, Collection, CustomColumn, Key, KeyIndex,
    Membership, MemoObject, Model, Object, Period0, Period1, Period2, Period3, Period4, Period6,
    Period7, PeriodType, Phase, PhaseType, Property, Sample, SampleWeight, Timeslice, Unit,
};
use crate::plan::{lemma_text_less_total, lemma_text_less_trans, name_less, text_less};
use crate::table::IdTable;
use crate::xml::{
    bool_field, i64_field, is_field_error, text_field, u64_field, XmlRow,
};

verus! {

pub open spec fn opt_text(o: Option<String>) -> Option<Seq<char>> {
    match o {
        Some(s) => Some(s@),
        None => None,
    }
}

/// The position of the last of the first `n` rows of table `tag` whose field
/// `field` reads as `id`, or -1.
pub open spec fn last_with(rows: Seq<XmlRow>, tag: Seq<char>, field: Seq<char>, id: i64, n: int) -> int
    decreases n,
{
    if n <= 0 {
        -1
    } else if is_row(rows[n - 1], tag) && i64_field(rows[n - 1], field) == Some(id) {
        n - 1
    } else {
        last_with(rows, tag, field, id, n - 1)
    }
}

/// `row` is an element of table `tag`.
pub open spec fn is_row(row: XmlRow, tag: Seq<char>) -> bool {
    row.element && row.tag@ == tag
}

proof fn lemma_ids_contains<V>(before: IdTable<V>, after: IdTable<V>, id: i64)
    requires
        after.ids().to_set() == before.ids().to_set().insert(id),
    ensures
        after.ids().contains(id),
        forall|x: i64| before.ids().contains(x) ==> after.ids().contains(x),
{
    assert(after.ids().to_set().contains(id));
    assert forall|x: i64| before.ids().contains(x) implies after.ids().contains(x) by {
        assert(before.ids().to_set().contains(x));
        assert(after.ids().to_set().contains(x));
    }
}

/// A `t_model` row has every required field, each of its type.
pub open spec fn model_row_ok(row: XmlRow) -> bool {
    i64_field(row, "model_id"@) is Some
    && text_field(row, "name"@) is Some
}

/// `v` holds the fields of the `t_model` row `row`.
pub open spec fn model_matches(v: Model, row: XmlRow) -> bool {
    &&& v.model_id == i64_field(row, "model_id"@)->Some_0
    &&& v.name@ == text_field(row, "name"@)->Some_0
}

pub fn parse_model(row: &XmlRow) -> (r: Result<Model, LoadError>)
    ensures
        r is Ok <==> model_row_ok(*row),
        r matches Ok(v) ==> model_matches(v, *row),
        r matches Err(e) ==> is_field_error(e),
{
    let model_id = row.get_i64("model_id")?;
    let name = row.get_string("name")?;
    Ok(Model { model_id, name })
}

/// A `t_object` row has every required field, each of its type.
pub open spec fn object_row_ok(row: XmlRow) -> bool {
    i64_field(row, "class_id"@) is Some
    && text_field(row, "name"@) is Some
    && i64_field(row, "category_id"@) is Some
    && i64_field(row, "index"@) is Some
    && i64_field(row, "object_id"@) is Some
    && bool_field(row, "show"@) is Some
}

/// `v` holds the fields of the `t_object` row `row`.
pub open spec fn object_matches(v: Object, row: XmlRow) -> bool {
    &&& v.class_id == i64_field(row, "class_id"@)->Some_0
    &&& v.name@ == text_field(row, "name"@)->Some_0
    &&& v.category_id == i64_field(row, "category_id"@)->Some_0
    &&& v.index == i64_field(row, "index"@)->Some_0
    &&& v.object_id == i64_field(row, "object_id"@)->Some_0
    &&& v.show == bool_field(row, "show"@)->Some_0
    &&& opt_text(v.guid) == text_field(row, "GUID"@)
}

pub fn parse_object(row: &XmlRow) -> (r: Result<Object, LoadError>)
    ensures
        r is Ok <==> object_row_ok(*row),
        r matches Ok(v) ==> object_matches(v, *row),
        r matches Err(e) ==> is_field_error(e),
{
    let class_id = row.get_i64("class_id")?;
    let name = row.get_string("name")?;
    let category_id = row.get_i64("category_id")?;
    let index = row.get_i64("index")?;
    let object_id = row.get_i64("object_id")?;
    let show = row.get_bool("show")?;
    let guid = row.opt_string("GUID");
    Ok(Object { class_id, name, category_id, index, object_id, show, guid })
}

/// A `t_membership` row has every required field, each of its type.
pub open spec fn membership_row_ok(row: XmlRow) -> bool {
    i64_field(row, "membership_id"@) is Some
    && i64_field(row, "parent_class_id"@) is Some
    && i64_field(row, "child_class_id"@) is Some
    && i64_field(row, "collection_id"@) is Some
    && i64_field(row, "parent_object_id"@) is Some
    && i64_field(row, "child_object_id"@) is Some
}

/// `v` holds the fields of the `t_membership` row `row`.
pub open spec fn membership_matches(v: Membership, row: XmlRow) -> bool {
    &&& v.membership_id == i64_field(row, "membership_id"@)->Some_0
    &&& v.parent_class_id == i64_field(row, "parent_class_id"@)->Some_0
    &&& v.child_class_id == i64_field(row, "child_class_id"@)->Some_0
    &&& v.collection_id == i64_field(row, "collection_id"@)->Some_0
    &&& v.parent_object_id == i64_field(row, "parent_object_id"@)->Some_0
    &&& v.child_object_id == i64_field(row, "child_object_id"@)->Some_0
    &&& v.collection_idx == 0
}

pub fn parse_membership(row: &XmlRow) -> (r: Result<Membership, LoadError>)
    ensures
        r is Ok <==> membership_row_ok(*row),
        r matches Ok(v) ==> membership_matches(v, *row),
        r matches Err(e) ==> is_field_error(e),
{
    let membership_id = row.get_i64("membership_id")?;
    let parent_class_id = row.get_i64("parent_class_id")?;
    let child_class_id = row.get_i64("child_class_id")?;
    let collection_id = row.get_i64("collection_id")?;
    let parent_object_id = row.get_i64("parent_object_id")?;
    let child_object_id = row.get_i64("child_object_id")?;
    Ok(Membership { membership_id, parent_class_id, child_class_id, collection_id, parent_object_id, child_object_id, collection_idx: 0 })
}

/// A `t_attribute` row has every required field, each of its type.
pub open spec fn attribute_row_ok(row: XmlRow) -> bool {
    i64_field(row, "attribute_id"@) is Some
    && i64_field(row, "class_id"@) is Some
    && i64_field(row, "enum_id"@) is Some
    && text_field(row, "name"@) is Some
    && text_field(row, "description"@) is Some
    && i64_field(row, "lang_id"@) is Some
}

/// `v` holds the fields of the `t_attribute` row `row`.
pub open spec fn attribute_matches(v: Attribute, row: XmlRow) -> bool {
    &&& v.attribute_id == i64_field(row, "attribute_id"@)->Some_0
    &&& v.class_id == i64_field(row, "class_id"@)->Some_0
    &&& v.enum_id == i64_field(row, "enum_id"@)->Some_0
    &&& v.name@ == text_field(row, "name"@)->Some_0
    &&& v.description@ == text_field(row, "description"@)->Some_0
    &&& opt_text(v.input_mask) == text_field(row, "input_mask"@)
    &&& v.lang_id == i64_field(row, "lang_id"@)->Some_0
}

pub fn parse_attribute(row: &XmlRow) -> (r: Result<Attribute, LoadError>)
    ensures
        r is Ok <==> attribute_row_ok(*row),
        r matches Ok(v) ==> attribute_matches(v, *row),
        r matches Err(e) ==> is_field_error(e),
{
    let attribute_id = row.get_i64("attribute_id")?;
    let class_id = row.get_i64("class_id")?;
    let enum_id = row.get_i64("enum_id")?;
    let name = row.get_string("name")?;
    let description = row.get_string("description")?;
    let input_mask = row.opt_string("input_mask");
    let lang_id = row.get_i64("lang_id")?;
    Ok(Attribute { attribute_id, class_id, enum_id, name, description, input_mask, lang_id })
}

/// A `t_property` row has every required field, each of its type.
pub open spec fn property_row_ok(row: XmlRow) -> bool {
    i64_field(row, "property_id"@) is Some
    && text_field(row, "name"@) is Some
    && text_field(row, "summary_name"@) is Some
    && i64_field(row, "enum_id"@) is Some
    && i64_field(row, "unit_id"@) is Some
    && i64_field(row, "summary_unit_id"@) is Some
    && bool_field(row, "is_multi_band"@) is Some
    && bool_field(row, "is_period"@) is Some
    && bool_field(row, "is_summary"@) is Some
    && i64_field(row, "collection_id"@) is Some
    && i64_field(row, "lang_id"@) is Some
}

/// `v` holds the fields of the `t_property` row `row`.
pub open spec fn property_matches(v: Property, row: XmlRow) -> bool {
    &&& v.property_id == i64_field(row, "property_id"@)->Some_0
    &&& v.name@ == text_field(row, "name"@)->Some_0
    &&& v.summary_name@ == text_field(row, "summary_name"@)->Some_0
    &&& v.enum_id == i64_field(row, "enum_id"@)->Some_0
    &&& v.unit_id == i64_field(row, "unit_id"@)->Some_0
    &&& v.summary_unit_id == i64_field(row, "summary_unit_id"@)->Some_0
    &&& v.is_multi_band == bool_field(row, "is_multi_band"@)->Some_0
    &&& v.is_period == bool_field(row, "is_period"@)->Some_0
    &&& v.is_summary == bool_field(row, "is_summary"@)->Some_0
    &&& v.collection_id == i64_field(row, "collection_id"@)->Some_0
    &&& v.lang_id == i64_field(row, "lang_id"@)->Some_0
    &&& v.band_id == 0
}

pub fn parse_property(row: &XmlRow) -> (r: Result<Property, LoadError>)
    ensures
        r is Ok <==> property_row_ok(*row),
        r matches Ok(v) ==> property_matches(v, *row),
        r matches Err(e) ==> is_field_error(e),
{
    let property_id = row.get_i64("property_id")?;
    let name = row.get_string("name")?;
    let summary_name = row.get_string("summary_name")?;
    let enum_id = row.get_i64("enum_id")?;
    let unit_id = row.get_i64("unit_id")?;
    let summary_unit_id = row.get_i64("summary_unit_id")?;
    let is_multi_band = row.get_bool("is_multi_band")?;
    let is_period = row.get_bool("is_period")?;
    let is_summary = row.get_bool("is_summary")?;
    let collection_id = row.get_i64("collection_id")?;
    let lang_id = row.get_i64("lang_id")?;
    Ok(Property { property_id, name, summary_name, enum_id, unit_id, summary_unit_id, is_multi_band, is_period, is_summary, collection_id, lang_id, band_id: 0 })
}

/// A `t_unit` row has every required field, each of its type.
pub open spec fn unit_row_ok(row: XmlRow) -> bool {
    i64_field(row, "unit_id"@) is Some
    && text_field(row, "value"@) is Some
    && i64_field(row, "lang_id"@) is Some
}

/// `v` holds the fields of the `t_unit` row `row`.
pub open spec fn unit_matches(v: Unit, row: XmlRow) -> bool {
    &&& v.id == i64_field(row, "unit_id"@)->Some_0
    &&& v.value@ == text_field(row, "value"@)->Some_0
    &&& v.lang_id == i64_field(row, "lang_id"@)->Some_0
}

pub fn parse_unit(row: &XmlRow) -> (r: Result<Unit, LoadError>)
    ensures
        r is Ok <==> unit_row_ok(*row),
        r matches Ok(v) ==> unit_matches(v, *row),
        r matches Err(e) ==> is_field_error(e),
{
    let id = row.get_i64("unit_id")?;
    let value = row.get_string("value")?;
    let lang_id = row.get_i64("lang_id")?;
    Ok(Unit { id, value, lang_id })
}

/// A `t_category` row has every required field, each of its type.
pub open spec fn category_row_ok(row: XmlRow) -> bool {
    i64_field(row, "category_id"@) is Some
    && i64_field(row, "class_id"@) is Some
    && i64_field(row, "rank"@) is Some
    && text_field(row, "name"@) is Some
}

/// `v` holds the fields of the `t_category` row `row`.
pub open spec fn category_matches(v: Category, row: XmlRow) -> bool {
    &&& v.category_id == i64_field(row, "category_id"@)->Some_0
    &&& v.class_id == i64_field(row, "class_id"@)->Some_0
    &&& v.rank == i64_field(row, "rank"@)->Some_0
    &&& v.name@ == text_field(row, "name"@)->Some_0
}

pub fn parse_category(row: &XmlRow) -> (r: Result<Category, LoadError>)
    ensures
        r is Ok <==> category_row_ok(*row),
        r matches Ok(v) ==> category_matches(v, *row),
        r matches Err(e) ==> is_field_error(e),
{
    let category_id = row.get_i64("category_id")?;
    let class_id = row.get_i64("class_id")?;
    let rank = row.get_i64("rank")?;
    let name = row.get_string("name")?;
    Ok(Category { category_id, class_id, rank, name })
}

/// A `t_class` row has every required field, each of its type.
pub open spec fn class_row_ok(row: XmlRow) -> bool {
    i64_field(row, "class_id"@) is Some
    && text_field(row, "name"@) is Some
    && i64_field(row, "class_group_id"@) is Some
    && i64_field(row, "lang_id"@) is Some
}

/// `v` holds the fields of the `t_class` row `row`.
pub open spec fn class_matches(v: Class, row: XmlRow) -> bool {
    &&& v.class_id == i64_field(row, "class_id"@)->Some_0
    &&& v.name@ == text_field(row, "name"@)->Some_0
    &&& v.class_group_id == i64_field(row, "class_group_id"@)->Some_0
    &&& v.lang_id == i64_field(row, "lang_id"@)->Some_0
    &&& v.state == i64_field(row, "state"@)
}

pub fn parse_class(row: &XmlRow) -> (r: Result<Class, LoadError>)
    ensures
        r is Ok <==> class_row_ok(*row),
        r matches Ok(v) ==> class_matches(v, *row),
        r matches Err(e) ==> is_field_error(e),
{
    let class_id = row.get_i64("class_id")?;
    let name = row.get_string("name")?;
    let class_group_id = row.get_i64("class_group_id")?;
    let lang_id = row.get_i64("lang_id")?;
    let state = row.opt_i64("state");
    Ok(Class { class_id, name, class_group_id, lang_id, state })
}

/// A `t_class_group` row has every required field, each of its type.
pub open spec fn class_group_row_ok(row: XmlRow) -> bool {
    i64_field(row, "class_group_id"@) is Some
    && text_field(row, "name"@) is Some
    && i64_field(row, "lang_id"@) is Some
}

/// `v` holds the fields of the `t_class_group` row `row`.
pub open spec fn class_group_matches(v: ClassGroup, row: XmlRow) -> bool {
    &&& v.class_group_id == i64_field(row, "class_group_id"@)->Some_0
    &&& v.name@ == text_field(row, "name"@)->Some_0
    &&& v.lang_id == i64_field(row, "lang_id"@)->Some_0
    &&& v.state == i64_field(row, "state"@)
}

pub fn parse_class_group(row: &XmlRow) -> (r: Result<ClassGroup, LoadError>)
    ensures
        r is Ok <==> class_group_row_ok(*row),
        r matches Ok(v) ==> class_group_matches(v, *row),
        r matches Err(e) ==> is_field_error(e),
{
    let class_group_id = row.get_i64("class_group_id")?;
    let name = row.get_string("name")?;
    let lang_id = row.get_i64("lang_id")?;
    let state = row.opt_i64("state");
    Ok(ClassGroup { class_group_id, name, lang_id, state })
}

/// A `t_collection` row has every required field, each of its type.
pub open spec fn collection_row_ok(row: XmlRow) -> bool {
    i64_field(row, "collection_id"@) is Some
    && i64_field(row, "parent_class_id"@) is Some
    && i64_field(row, "child_class_id"@) is Some
    && text_field(row, "name"@) is Some
    && i64_field(row, "lang_id"@) is Some
}

/// `v` holds the fields of the `t_collection` row `row`.
pub open spec fn collection_matches(v: Collection, row: XmlRow) -> bool {
    &&& v.collection_id == i64_field(row, "collection_id"@)->Some_0
    &&& v.parent_class_id == i64_field(row, "parent_class_id"@)->Some_0
    &&& v.child_class_id == i64_field(row, "child_class_id"@)->Some_0
    &&& v.name@ == text_field(row, "name"@)->Some_0
    &&& opt_text(v.complement_name) == text_field(row, "complement_name"@)
    &&& v.lang_id == i64_field(row, "lang_id"@)->Some_0
    &&& v.n_members == 0
}

pub fn parse_collection(row: &XmlRow) -> (r: Result<Collection, LoadError>)
    ensures
        r is Ok <==> collection_row_ok(*row),
        r matches Ok(v) ==> collection_matches(v, *row),
        r matches Err(e) ==> is_field_error(e),
{
    let collection_id = row.get_i64("collection_id")?;
    let parent_class_id = row.get_i64("parent_class_id")?;
    let child_class_id = row.get_i64("child_class_id")?;
    let name = row.get_string("name")?;
    let complement_name = row.opt_string("complement_name");
    let lang_id = row.get_i64("lang_id")?;
    Ok(Collection { collection_id, parent_class_id, child_class_id, name, complement_name, lang_id, n_members: 0 })
}

/// A `t_key_index` row has every required field, each of its type.
pub open spec fn key_index_row_ok(row: XmlRow) -> bool {
    i64_field(row, "key_id"@) is Some
    && i64_field(row, "period_type_id"@) is Some
    && u64_field(row, "position"@) is Some
    && u64_field(row, "length"@) is Some
    && i64_field(row, "period_offset"@) is Some
}

/// `v` holds the fields of the `t_key_index` row `row`.
pub open spec fn key_index_matches(v: KeyIndex, row: XmlRow) -> bool {
    &&& v.key_id == i64_field(row, "key_id"@)->Some_0
    &&& v.period_type_id == i64_field(row, "period_type_id"@)->Some_0
    &&& v.position == u64_field(row, "position"@)->Some_0
    &&& v.length == u64_field(row, "length"@)->Some_0
    &&& v.period_offset == i64_field(row, "period_offset"@)->Some_0
}

pub fn parse_key_index(row: &XmlRow) -> (r: Result<KeyIndex, LoadError>)
    ensures
        r is Ok <==> key_index_row_ok(*row),
        r matches Ok(v) ==> key_index_matches(v, *row),
        r matches Err(e) ==> is_field_error(e),
{
    let key_id = row.get_i64("key_id")?;
    let period_type_id = row.get_i64("period_type_id")?;
    let position = row.get_u64("position")?;
    let length = row.get_u64("length")?;
    let period_offset = row.get_i64("period_offset")?;
    Ok(KeyIndex { key_id, period_type_id, position, length, period_offset })
}

/// A `t_sample` row has every required field, each of its type.
pub open spec fn sample_row_ok(row: XmlRow) -> bool {
    i64_field(row, "sample_id"@) is Some
}

/// `v` holds the fields of the `t_sample` row `row`.
pub open spec fn sample_matches(v: Sample, row: XmlRow) -> bool {
    &&& v.sample_id == i64_field(row, "sample_id"@)->Some_0
    &&& opt_text(v.name) == text_field(row, "sample_name"@)
}

pub fn parse_sample(row: &XmlRow) -> (r: Result<Sample, LoadError>)
    ensures
        r is Ok <==> sample_row_ok(*row),
        r matches Ok(v) ==> sample_matches(v, *row),
        r matches Err(e) ==> is_field_error(e),
{
    let sample_id = row.get_i64("sample_id")?;
    let name = row.opt_string("sample_name");
    Ok(Sample { sample_id, name })
}

/// A `t_sample_weight` row has every required field, each of its type.
pub open spec fn sample_weight_row_ok(row: XmlRow) -> bool {
    i64_field(row, "sample_id"@) is Some
    && i64_field(row, "phase_id"@) is Some
    && text_field(row, "value"@) is Some
}

/// `v` holds the fields of the `t_sample_weight` row `row`.
pub open spec fn sample_weight_matches(v: SampleWeight, row: XmlRow) -> bool {
    &&& v.sample_id == i64_field(row, "sample_id"@)->Some_0
    &&& v.phase_id == i64_field(row, "phase_id"@)->Some_0
    &&& v.weight@ == text_field(row, "value"@)->Some_0
}

pub fn parse_sample_weight(row: &XmlRow) -> (r: Result<SampleWeight, LoadError>)
    ensures
        r is Ok <==> sample_weight_row_ok(*row),
        r matches Ok(v) ==> sample_weight_matches(v, *row),
        r matches Err(e) ==> is_field_error(e),
{
    let sample_id = row.get_i64("sample_id")?;
    let phase_id = row.get_i64("phase_id")?;
    let weight = row.get_string("value")?;
    Ok(SampleWeight { sample_id, phase_id, weight })
}

/// A `t_timeslice` row has every required field, each of its type.
pub open spec fn timeslice_row_ok(row: XmlRow) -> bool {
    i64_field(row, "timeslice_id"@) is Some
    && text_field(row, "name"@) is Some
}

/// `v` holds the fields of the `t_timeslice` row `row`.
pub open spec fn timeslice_matches(v: Timeslice, row: XmlRow) -> bool {
    &&& v.timeslice_id == i64_field(row, "timeslice_id"@)->Some_0
    &&& v.name@ == text_field(row, "name"@)->Some_0
}

pub fn parse_timeslice(row: &XmlRow) -> (r: Result<Timeslice, LoadError>)
    ensures
        r is Ok <==> timeslice_row_ok(*row),
        r matches Ok(v) ==> timeslice_matches(v, *row),
        r matches Err(e) ==> is_field_error(e),
{
    let timeslice_id = row.get_i64("timeslice_id")?;
    let name = row.get_string("name")?;
    Ok(Timeslice { timeslice_id, name })
}

/// A `t_attribute_data` row has every required field, each of its type.
pub open spec fn attribute_data_row_ok(row: XmlRow) -> bool {
    i64_field(row, "attribute_id"@) is Some
    && text_field(row, "value"@) is Some
}

/// `v` holds the fields of the `t_attribute_data` row `row`.
pub open spec fn attribute_data_matches(v: AttributeData, row: XmlRow) -> bool {
    &&& v.object_id == i64_field(row, "object_id"@)
    &&& v.attribute_id == i64_field(row, "attribute_id"@)->Some_0
    &&& v.value@ == text_field(row, "value"@)->Some_0
}

pub fn parse_attribute_data(row: &XmlRow) -> (r: Result<AttributeData, LoadError>)
    ensures
        r is Ok <==> attribute_data_row_ok(*row),
        r matches Ok(v) ==> attribute_data_matches(v, *row),
        r matches Err(e) ==> is_field_error(e),
{
    let object_id = row.opt_i64("object_id");
    let attribute_id = row.get_i64("attribute_id")?;
    let value = row.get_string("value")?;
    Ok(AttributeData { object_id, attribute_id, value })
}

/// A `t_custom_column` row has every required field, each of its type.
pub open spec fn custom_column_row_ok(row: XmlRow) -> bool {
    i64_field(row, "column_id"@) is Some
    && text_field(row, "name"@) is Some
    && i64_field(row, "position"@) is Some
    && i64_field(row, "class_id"@) is Some
}

/// `v` holds the fields of the `t_custom_column` row `row`.
pub open spec fn custom_column_matches(v: CustomColumn, row: XmlRow) -> bool {
    &&& v.column_id == i64_field(row, "column_id"@)->Some_0
    &&& v.name@ == text_field(row, "name"@)->Some_0
    &&& v.position == i64_field(row, "position"@)->Some_0
    &&& v.class_id == i64_field(row, "class_id"@)->Some_0
}

pub fn parse_custom_column(row: &XmlRow) -> (r: Result<CustomColumn, LoadError>)
    ensures
        r is Ok <==> custom_column_row_ok(*row),
        r matches Ok(v) ==> custom_column_matches(v, *row),
        r matches Err(e) ==> is_field_error(e),
{
    let column_id = row.get_i64("column_id")?;
    let name = row.get_string("name")?;
    let position = row.get_i64("position")?;
    let class_id = row.get_i64("class_id")?;
    Ok(CustomColumn { column_id, name, position, class_id })
}
/// A `t_key` row has every required field, each of its type.
pub open spec fn key_row_ok(row: XmlRow) -> bool {
    &&& i64_field(row, "key_id"@) is Some
    &&& i64_field(row, "membership_id"@) is Some
    &&& i64_field(row, "model_id"@) is Some
    &&& i64_field(row, "phase_id"@) is Some
    &&& i64_field(row, "property_id"@) is Some
    &&& i64_field(row, "period_type_id"@) is Some
    &&& i64_field(row, "band_id"@) is Some
    &&& i64_field(row, "sample_id"@) is Some
    &&& i64_field(row, "timeslice_id"@) is Some
}

/// `v` holds the fields of the row `row`.
pub open spec fn key_matches(v: Key, row: XmlRow) -> bool {
    &&& v.key_id == i64_field(row, "key_id"@)->Some_0
    &&& v.membership_id == i64_field(row, "membership_id"@)->Some_0
    &&& v.model_id == i64_field(row, "model_id"@)->Some_0
    &&& v.phase_id == i64_field(row, "phase_id"@)->Some_0
    &&& v.property_id == i64_field(row, "property_id"@)->Some_0
    &&& v.is_summary == (i64_field(row, "period_type_id"@)->Some_0 == 1)
    &&& v.band_id == i64_field(row, "band_id"@)->Some_0
    &&& v.sample_id == i64_field(row, "sample_id"@)->Some_0
    &&& v.timeslice_id == i64_field(row, "timeslice_id"@)->Some_0
}

pub fn parse_key(row: &XmlRow) -> (r: Result<Key, LoadError>)
    ensures
        r is Ok <==> key_row_ok(*row),
        r matches Ok(v) ==> key_matches(v, *row),
        r matches Err(e) ==> is_field_error(e),
{
    let key_id = row.get_i64("key_id")?;
    let membership_id = row.get_i64("membership_id")?;
    let model_id = row.get_i64("model_id")?;
    let phase_id = row.get_i64("phase_id")?;
    let property_id = row.get_i64("property_id")?;
    let period_type_id = row.get_i64("period_type_id")?;
    let is_summary = period_type_id == 1;
    let band_id = row.get_i64("band_id")?;
    let sample_id = row.get_i64("sample_id")?;
    let timeslice_id = row.get_i64("timeslice_id")?;
    Ok(Key { key_id, membership_id, model_id, phase_id, property_id, is_summary, band_id, sample_id, timeslice_id })
}

/// A phase row has every required field, each of its type.
pub open spec fn phase_row_ok(row: XmlRow) -> bool {
    &&& i64_field(row, "interval_id"@) is Some
    &&& i64_field(row, "period_id"@) is Some
}

/// `v` holds the fields of the row `row`.
pub open spec fn phase_matches(v: Phase, row: XmlRow) -> bool {
    &&& v.interval_id == i64_field(row, "interval_id"@)->Some_0
    &&& v.period_id == i64_field(row, "period_id"@)->Some_0
}

pub fn parse_phase(row: &XmlRow) -> (r: Result<Phase, LoadError>)
    ensures
        r is Ok <==> phase_row_ok(*row),
        r matches Ok(v) ==> phase_matches(v, *row),
        r matches Err(e) ==> is_field_error(e),
{
    let interval_id = row.get_i64("interval_id")?;
    let period_id = row.get_i64("period_id")?;
    Ok(Phase { interval_id, period_id })
}

/// A `t_period_0` row has every required field, each of its type.
pub open spec fn period0_row_ok(row: XmlRow) -> bool {
    &&& i64_field(row, "interval_id"@) is Some
    &&& i64_field(row, "hour_id"@) is Some
    &&& i64_field(row, "day_id"@) is Some
    &&& i64_field(row, "week_id"@) is Some
    &&& i64_field(row, "month_id"@) is Some
    &&& i64_field(row, "fiscal_year_id"@) is Some
    &&& text_field(row, "datetime"@) is Some && instant(legacy_instant_of(text_field(row, "datetime"@)->Some_0)) is Some
    &&& i64_field(row, "period_of_day"@) is Some
}

/// `v` holds the fields of the row `row`.
pub open spec fn period0_matches(v: Period0, row: XmlRow) -> bool {
    &&& v.interval_id == i64_field(row, "interval_id"@)->Some_0
    &&& v.hour_id == i64_field(row, "hour_id"@)->Some_0
    &&& v.day_id == i64_field(row, "day_id"@)->Some_0
    &&& v.week_id == i64_field(row, "week_id"@)->Some_0
    &&& v.month_id == i64_field(row, "month_id"@)->Some_0
    &&& v.fiscal_year_id == i64_field(row, "fiscal_year_id"@)->Some_0
    &&& v.datetime == instant(legacy_instant_of(text_field(row, "datetime"@)->Some_0))->Some_0
    &&& v.period_of_day == i64_field(row, "period_of_day"@)->Some_0
    &&& v.quarter_id == i64_field(row, "quarter_id"@)
}

pub fn parse_period0(row: &XmlRow) -> (r: Result<Period0, LoadError>)
    ensures
        r is Ok <==> period0_row_ok(*row),
        r matches Ok(v) ==> period0_matches(v, *row),
        r matches Err(e) ==> is_field_error(e),
{
    let interval_id = row.get_i64("interval_id")?;
    let hour_id = row.get_i64("hour_id")?;
    let day_id = row.get_i64("day_id")?;
    let week_id = row.get_i64("week_id")?;
    let month_id = row.get_i64("month_id")?;
    let fiscal_year_id = row.get_i64("fiscal_year_id")?;
    let datetime_text = row.get_string("datetime")?;
    let datetime = match legacy_instant(datetime_text.as_str()) {
        Some(d) => d,
        None => return Err(row.invalid("datetime")),
    };
    let period_of_day = row.get_i64("period_of_day")?;
    let quarter_id = row.opt_i64("quarter_id");
    Ok(Period0 { interval_id, hour_id, day_id, week_id, month_id, fiscal_year_id, datetime, period_of_day, quarter_id })
}

/// A `t_period_1` row has every required field, each of its type.
pub open spec fn period1_row_ok(row: XmlRow) -> bool {
    &&& i64_field(row, "day_id"@) is Some
    &&& text_field(row, "date"@) is Some && iso_instant_of(text_field(row, "date"@)->Some_0) is Some
    &&& i64_field(row, "week_id"@) is Some
    &&& i64_field(row, "month_id"@) is Some
    &&& i64_field(row, "fiscal_year_id"@) is Some
}

/// `v` holds the fields of the row `row`.
pub open spec fn period1_matches(v: Period1, row: XmlRow) -> bool {
    &&& v.day_id == i64_field(row, "day_id"@)->Some_0
    &&& v.date == iso_instant_of(text_field(row, "date"@)->Some_0)->Some_0
    &&& v.week_id == i64_field(row, "week_id"@)->Some_0
    &&& v.month_id == i64_field(row, "month_id"@)->Some_0
    &&& v.fiscal_year_id == i64_field(row, "fiscal_year_id"@)->Some_0
    &&& v.quarter_id == i64_field(row, "quarter_id"@)
}

pub fn parse_period1(row: &XmlRow) -> (r: Result<Period1, LoadError>)
    ensures
        r is Ok <==> period1_row_ok(*row),
        r matches Ok(v) ==> period1_matches(v, *row),
        r matches Err(e) ==> is_field_error(e),
{
    let day_id = row.get_i64("day_id")?;
    let date_text = row.get_string("date")?;
    let date = match parse_datetime_to_utc(date_text.as_str()) {
        Some(d) => d,
        None => return Err(row.invalid("date")),
    };
    let week_id = row.get_i64("week_id")?;
    let month_id = row.get_i64("month_id")?;
    let fiscal_year_id = row.get_i64("fiscal_year_id")?;
    let quarter_id = row.opt_i64("quarter_id");
    Ok(Period1 { day_id, date, week_id, month_id, fiscal_year_id, quarter_id })
}

/// A `t_period_2` row has every required field, each of its type.
pub open spec fn period2_row_ok(row: XmlRow) -> bool {
    &&& i64_field(row, "week_id"@) is Some
    &&& text_field(row, "week_ending"@) is Some && iso_instant_of(text_field(row, "week_ending"@)->Some_0) is Some
}

/// `v` holds the fields of the row `row`.
pub open spec fn period2_matches(v: Period2, row: XmlRow) -> bool {
    &&& v.week_id == i64_field(row, "week_id"@)->Some_0
    &&& v.week_ending == iso_instant_of(text_field(row, "week_ending"@)->Some_0)->Some_0
}

pub fn parse_period2(row: &XmlRow) -> (r: Result<Period2, LoadError>)
    ensures
        r is Ok <==> period2_row_ok(*row),
        r matches Ok(v) ==> period2_matches(v, *row),
        r matches Err(e) ==> is_field_error(e),
{
    let week_id = row.get_i64("week_id")?;
    let week_ending_text = row.get_string("week_ending")?;
    let week_ending = match parse_datetime_to_utc(week_ending_text.as_str()) {
        Some(d) => d,
        None => return Err(row.invalid("week_ending")),
    };
    Ok(Period2 { week_id, week_ending })
}

/// A `t_period_3` row has every required field, each of its type.
pub open spec fn period3_row_ok(row: XmlRow) -> bool {
    &&& i64_field(row, "month_id"@) is Some
    &&& text_field(row, "month_beginning"@) is Some && iso_instant_of(text_field(row, "month_beginning"@)->Some_0) is Some
}

/// `v` holds the fields of the row `row`.
pub open spec fn period3_matches(v: Period3, row: XmlRow) -> bool {
    &&& v.month_id == i64_field(row, "month_id"@)->Some_0
    &&& v.month_beginning == iso_instant_of(text_field(row, "month_beginning"@)->Some_0)->Some_0
}

pub fn parse_period3(row: &XmlRow) -> (r: Result<Period3, LoadError>)
    ensures
        r is Ok <==> period3_row_ok(*row),
        r matches Ok(v) ==> period3_matches(v, *row),
        r matches Err(e) ==> is_field_error(e),
{
    let month_id = row.get_i64("month_id")?;
    let month_beginning_text = row.get_string("month_beginning")?;
    let month_beginning = match parse_datetime_to_utc(month_beginning_text.as_str()) {
        Some(d) => d,
        None => return Err(row.invalid("month_beginning")),
    };
    Ok(Period3 { month_id, month_beginning })
}

/// A `t_period_4` row has every required field, each of its type.
pub open spec fn period4_row_ok(row: XmlRow) -> bool {
    &&& i64_field(row, "fiscal_year_id"@) is Some
    &&& text_field(row, "year_ending"@) is Some && iso_instant_of(text_field(row, "year_ending"@)->Some_0) is Some
}

/// `v` holds the fields of the row `row`.
pub open spec fn period4_matches(v: Period4, row: XmlRow) -> bool {
    &&& v.fiscal_year_id == i64_field(row, "fiscal_year_id"@)->Some_0
    &&& v.year_ending == iso_instant_of(text_field(row, "year_ending"@)->Some_0)->Some_0
}

pub fn parse_period4(row: &XmlRow) -> (r: Result<Period4, LoadError>)
    ensures
        r is Ok <==> period4_row_ok(*row),
        r matches Ok(v) ==> period4_matches(v, *row),
        r matches Err(e) ==> is_field_error(e),
{
    let fiscal_year_id = row.get_i64("fiscal_year_id")?;
    let year_ending_text = row.get_string("year_ending")?;
    let year_ending = match parse_datetime_to_utc(year_ending_text.as_str()) {
        Some(d) => d,
        None => return Err(row.invalid("year_ending")),
    };
    Ok(Period4 { fiscal_year_id, year_ending })
}

/// A `t_period_6` row has every required field, each of its type.
pub open spec fn period6_row_ok(row: XmlRow) -> bool {
    &&& i64_field(row, "hour_id"@) is Some
    &&& text_field(row, "datetime"@) is Some && iso_instant_of(text_field(row, "datetime"@)->Some_0) is Some
}

/// `v` holds the fields of the row `row`.
pub open spec fn period6_matches(v: Period6, row: XmlRow) -> bool {
    &&& v.hour_id == i64_field(row, "hour_id"@)->Some_0
    &&& v.datetime == iso_instant_of(text_field(row, "datetime"@)->Some_0)->Some_0
}

pub fn parse_period6(row: &XmlRow) -> (r: Result<Period6, LoadError>)
    ensures
        r is Ok <==> period6_row_ok(*row),
        r matches Ok(v) ==> period6_matches(v, *row),
        r matches Err(e) ==> is_field_error(e),
{
    let hour_id = row.get_i64("hour_id")?;
    let datetime_text = row.get_string("datetime")?;
    let datetime = match parse_datetime_to_utc(datetime_text.as_str()) {
        Some(d) => d,
        None => return Err(row.invalid("datetime")),
    };
    Ok(Period6 { hour_id, datetime })
}

/// A `t_period_7` row has every required field, each of its type.
pub open spec fn period7_row_ok(row: XmlRow) -> bool {
    &&& i64_field(row, "quarter_id"@) is Some
    &&& text_field(row, "quarter_beginning"@) is Some && iso_instant_of(text_field(row, "quarter_beginning"@)->Some_0) is Some
}

/// `v` holds the fields of the row `row`.
pub open spec fn period7_matches(v: Period7, row: XmlRow) -> bool {
    &&& v.quarter_id == i64_field(row, "quarter_id"@)->Some_0
    &&& v.quarter_beginning == iso_instant_of(text_field(row, "quarter_beginning"@)->Some_0)->Some_0
}

pub fn parse_period7(row: &XmlRow) -> (r: Result<Period7, LoadError>)
    ensures
        r is Ok <==> period7_row_ok(*row),
        r matches Ok(v) ==> period7_matches(v, *row),
        r matches Err(e) ==> is_field_error(e),
{
    let quarter_id = row.get_i64("quarter_id")?;
    let quarter_beginning_text = row.get_string("quarter_beginning")?;
    let quarter_beginning = match parse_datetime_to_utc(quarter_beginning_text.as_str()) {
        Some(d) => d,
        None => return Err(row.invalid("quarter_beginning")),
    };
    Ok(Period7 { quarter_id, quarter_beginning })
}

/// A `t_memo_object` row has every required field, each of its type.
pub open spec fn memo_object_row_ok(row: XmlRow) -> bool {
    &&& text_field(row, "value"@) is Some
    &&& i64_field(row, "column_id"@) is Some
    &&& i64_field(row, "object_id"@) is Some
}

/// `v` holds the fields of the row `row`.
pub open spec fn memo_object_matches(v: MemoObject, row: XmlRow) -> bool {
    &&& v.value@ == text_field(row, "value"@)->Some_0
    &&& v.column_id == i64_field(row, "column_id"@)->Some_0
    &&& v.object_id == i64_field(row, "object_id"@)->Some_0
}

pub fn parse_memo_object(row: &XmlRow) -> (r: Result<MemoObject, LoadError>)
    ensures
        r is Ok <==> memo_object_row_ok(*row),
        r matches Ok(v) ==> memo_object_matches(v, *row),
        r matches Err(e) ==> is_field_error(e),
{
    let value = row.get_string("value")?;
    let column_id = row.get_i64("column_id")?;
    let object_id = row.get_i64("object_id")?;
    Ok(MemoObject { value, column_id, object_id })
}

/// `after` is `before` with the record of the last `t_model` row of each
/// `model_id`, and no other change.
pub open spec fn model_loaded(before: IdTable<Model>, after: IdTable<Model>, rows: Seq<XmlRow>) -> bool {
    forall|id: i64|
        #![trigger after.lookup(id)]
        if last_with(rows, "t_model"@, "model_id"@, id, rows.len() as int) >= 0 {
            &&& after.lookup(id) is Some
            &&& model_matches(after.lookup(id)->Some_0, rows[last_with(rows, "t_model"@, "model_id"@, id, rows.len() as int)])
        } else {
            after.lookup(id) == before.lookup(id)
        }
}

/// `after` is `before` with the record of the last `t_object` row of each
/// `object_id`, and no other change.
pub open spec fn object_loaded(before: IdTable<Object>, after: IdTable<Object>, rows: Seq<XmlRow>) -> bool {
    forall|id: i64|
        #![trigger after.lookup(id)]
        if last_with(rows, "t_object"@, "object_id"@, id, rows.len() as int) >= 0 {
            &&& after.lookup(id) is Some
            &&& object_matches(after.lookup(id)->Some_0, rows[last_with(rows, "t_object"@, "object_id"@, id, rows.len() as int)])
        } else {
            after.lookup(id) == before.lookup(id)
        }
}

/// `after` is `before` with the record of the last `t_membership` row of each
/// `membership_id`, and no other change.
pub open spec fn membership_loaded(before: IdTable<Membership>, after: IdTable<Membership>, rows: Seq<XmlRow>) -> bool {
    forall|id: i64|
        #![trigger after.lookup(id)]
        if last_with(rows, "t_membership"@, "membership_id"@, id, rows.len() as int) >= 0 {
            &&& after.lookup(id) is Some
            &&& membership_matches(after.lookup(id)->Some_0, rows[last_with(rows, "t_membership"@, "membership_id"@, id, rows.len() as int)])
        } else {
            after.lookup(id) == before.lookup(id)
        }
}

/// `after` is `before` with the record of the last `t_attribute` row of each
/// `attribute_id`, and no other change.
pub open spec fn attribute_loaded(before: IdTable<Attribute>, after: IdTable<Attribute>, rows: Seq<XmlRow>) -> bool {
    forall|id: i64|
        #![trigger after.lookup(id)]
        if last_with(rows, "t_attribute"@, "attribute_id"@, id, rows.len() as int) >= 0 {
            &&& after.lookup(id) is Some
            &&& attribute_matches(after.lookup(id)->Some_0, rows[last_with(rows, "t_attribute"@, "attribute_id"@, id, rows.len() as int)])
        } else {
            after.lookup(id) == before.lookup(id)
        }
}

/// `after` is `before` with the record of the last `t_property` row of each
/// `property_id`, and no other change.
pub open spec fn property_loaded(before: IdTable<Property>, after: IdTable<Property>, rows: Seq<XmlRow>) -> bool {
    forall|id: i64|
        #![trigger after.lookup(id)]
        if last_with(rows, "t_property"@, "property_id"@, id, rows.len() as int) >= 0 {
            &&& after.lookup(id) is Some
            &&& property_matches(after.lookup(id)->Some_0, rows[last_with(rows, "t_property"@, "property_id"@, id, rows.len() as int)])
        } else {
            after.lookup(id) == before.lookup(id)
        }
}

/// `after` is `before` with the record of the last `t_unit` row of each
/// `unit_id`, and no other change.
pub open spec fn unit_loaded(before: IdTable<Unit>, after: IdTable<Unit>, rows: Seq<XmlRow>) -> bool {
    forall|id: i64|
        #![trigger after.lookup(id)]
        if last_with(rows, "t_unit"@, "unit_id"@, id, rows.len() as int) >= 0 {
            &&& after.lookup(id) is Some
            &&& unit_matches(after.lookup(id)->Some_0, rows[last_with(rows, "t_unit"@, "unit_id"@, id, rows.len() as int)])
        } else {
            after.lookup(id) == before.lookup(id)
        }
}

/// `after` is `before` with the record of the last `t_category` row of each
/// `category_id`, and no other change.
pub open spec fn category_loaded(before: IdTable<Category>, after: IdTable<Category>, rows: Seq<XmlRow>) -> bool {
    forall|id: i64|
        #![trigger after.lookup(id)]
        if last_with(rows, "t_category"@, "category_id"@, id, rows.len() as int) >= 0 {
            &&& after.lookup(id) is Some
            &&& category_matches(after.lookup(id)->Some_0, rows[last_with(rows, "t_category"@, "category_id"@, id, rows.len() as int)])
        } else {
            after.lookup(id) == before.lookup(id)
        }
}

/// `after` is `before` with the record of the last `t_class` row of each
/// `class_id`, and no other change.
pub open spec fn class_loaded(before: IdTable<Class>, after: IdTable<Class>, rows: Seq<XmlRow>) -> bool {
    forall|id: i64|
        #![trigger after.lookup(id)]
        if last_with(rows, "t_class"@, "class_id"@, id, rows.len() as int) >= 0 {
            &&& after.lookup(id) is Some
            &&& class_matches(after.lookup(id)->Some_0, rows[last_with(rows, "t_class"@, "class_id"@, id, rows.len() as int)])
        } else {
            after.lookup(id) == before.lookup(id)
        }
}

/// `after` is `before` with the record of the last `t_class_group` row of each
/// `class_group_id`, and no other change.
pub open spec fn class_group_loaded(before: IdTable<ClassGroup>, after: IdTable<ClassGroup>, rows: Seq<XmlRow>) -> bool {
    forall|id: i64|
        #![trigger after.lookup(id)]
        if last_with(rows, "t_class_group"@, "class_group_id"@, id, rows.len() as int) >= 0 {
            &&& after.lookup(id) is Some
            &&& class_group_matches(after.lookup(id)->Some_0, rows[last_with(rows, "t_class_group"@, "class_group_id"@, id, rows.len() as int)])
        } else {
            after.lookup(id) == before.lookup(id)
        }
}

/// `after` is `before` with the record of the last `t_collection` row of each
/// `collection_id`, and no other change.
pub open spec fn collection_loaded(before: IdTable<Collection>, after: IdTable<Collection>, rows: Seq<XmlRow>) -> bool {
    forall|id: i64|
        #![trigger after.lookup(id)]
        if last_with(rows, "t_collection"@, "collection_id"@, id, rows.len() as int) >= 0 {
            &&& after.lookup(id) is Some
            &&& collection_matches(after.lookup(id)->Some_0, rows[last_with(rows, "t_collection"@, "collection_id"@, id, rows.len() as int)])
        } else {
            after.lookup(id) == before.lookup(id)
        }
}

/// `after` is `before` with the record of the last `t_key_index` row of each
/// `key_id`, and no other change.
pub open spec fn key_index_loaded(before: IdTable<KeyIndex>, after: IdTable<KeyIndex>, rows: Seq<XmlRow>) -> bool {
    forall|id: i64|
        #![trigger after.lookup(id)]
        if last_with(rows, "t_key_index"@, "key_id"@, id, rows.len() as int) >= 0 {
            &&& after.lookup(id) is Some
            &&& key_index_matches(after.lookup(id)->Some_0, rows[last_with(rows, "t_key_index"@, "key_id"@, id, rows.len() as int)])
        } else {
            after.lookup(id) == before.lookup(id)
        }
}

/// `after` is `before` with the record of the last `t_sample` row of each
/// `sample_id`, and no other change.
pub open spec fn sample_loaded(before: IdTable<Sample>, after: IdTable<Sample>, rows: Seq<XmlRow>) -> bool {
    forall|id: i64|
        #![trigger after.lookup(id)]
        if last_with(rows, "t_sample"@, "sample_id"@, id, rows.len() as int) >= 0 {
            &&& after.lookup(id) is Some
            &&& sample_matches(after.lookup(id)->Some_0, rows[last_with(rows, "t_sample"@, "sample_id"@, id, rows.len() as int)])
        } else {
            after.lookup(id) == before.lookup(id)
        }
}

/// `after` is `before` with the record of the last `t_sample_weight` row of each
/// `sample_id`, and no other change.
pub open spec fn sample_weight_loaded(before: IdTable<SampleWeight>, after: IdTable<SampleWeight>, rows: Seq<XmlRow>) -> bool {
    forall|id: i64|
        #![trigger after.lookup(id)]
        if last_with(rows, "t_sample_weight"@, "sample_id"@, id, rows.len() as int) >= 0 {
            &&& after.lookup(id) is Some
            &&& sample_weight_matches(after.lookup(id)->Some_0, rows[last_with(rows, "t_sample_weight"@, "sample_id"@, id, rows.len() as int)])
        } else {
            after.lookup(id) == before.lookup(id)
        }
}

/// `after` is `before` with the record of the last `t_timeslice` row of each
/// `timeslice_id`, and no other change.
pub open spec fn timeslice_loaded(before: IdTable<Timeslice>, after: IdTable<Timeslice>, rows: Seq<XmlRow>) -> bool {
    forall|id: i64|
        #![trigger after.lookup(id)]
        if last_with(rows, "t_timeslice"@, "timeslice_id"@, id, rows.len() as int) >= 0 {
            &&& after.lookup(id) is Some
            &&& timeslice_matches(after.lookup(id)->Some_0, rows[last_with(rows, "t_timeslice"@, "timeslice_id"@, id, rows.len() as int)])
        } else {
            after.lookup(id) == before.lookup(id)
        }
}

/// `after` is `before` with the record of the last `t_attribute_data` row of each
/// `attribute_id`, and no other change.
pub open spec fn attribute_data_loaded(before: IdTable<AttributeData>, after: IdTable<AttributeData>, rows: Seq<XmlRow>) -> bool {
    forall|id: i64|
        #![trigger after.lookup(id)]
        if last_with(rows, "t_attribute_data"@, "attribute_id"@, id, rows.len() as int) >= 0 {
            &&& after.lookup(id) is Some
            &&& attribute_data_matches(after.lookup(id)->Some_0, rows[last_with(rows, "t_attribute_data"@, "attribute_id"@, id, rows.len() as int)])
        } else {
            after.lookup(id) == before.lookup(id)
        }
}

/// `after` is `before` with the record of the last `t_custom_column` row of each
/// `column_id`, and no other change.
pub open spec fn custom_column_loaded(before: IdTable<CustomColumn>, after: IdTable<CustomColumn>, rows: Seq<XmlRow>) -> bool {
    forall|id: i64|
        #![trigger after.lookup(id)]
        if last_with(rows, "t_custom_column"@, "column_id"@, id, rows.len() as int) >= 0 {
            &&& after.lookup(id) is Some
            &&& custom_column_matches(after.lookup(id)->Some_0, rows[last_with(rows, "t_custom_column"@, "column_id"@, id, rows.len() as int)])
        } else {
            after.lookup(id) == before.lookup(id)
        }
}

/// `after` is `before` with the record of the last `t_key` row of each
/// `key_id`, and no other change.
pub open spec fn key_loaded(before: IdTable<Key>, after: IdTable<Key>, rows: Seq<XmlRow>) -> bool {
    forall|id: i64|
        #![trigger after.lookup(id)]
        if last_with(rows, "t_key"@, "key_id"@, id, rows.len() as int) >= 0 {
            &&& after.lookup(id) is Some
            &&& key_matches(after.lookup(id)->Some_0, rows[last_with(rows, "t_key"@, "key_id"@, id, rows.len() as int)])
        } else {
            after.lookup(id) == before.lookup(id)
        }
}

/// `after` is `before` with the entry of every row of the `p`-th phase table
/// under its interval, and no other change.
pub open spec fn phase_loaded(p: int, before: IdTable<PhaseType>, after: IdTable<PhaseType>, rows: Seq<XmlRow>) -> bool {
    &&& forall|j: int|
        0 <= j < rows.len() && is_row(rows[j], phase_tag(p)) ==> after.ids().contains(
            #[trigger] i64_field(rows[j], "interval_id"@)->Some_0,
        )
    &&& forall|id: i64|
        #[trigger] after.lookup(id) is Some ==> before.lookup(id) == after.lookup(id) || exists|j: int|
            0 <= j < rows.len() && is_row(rows[j], phase_tag(p)) && i64_field(rows[j], "interval_id"@) == Some(id)
                && exists|e: Phase| phase_matches(e, #[trigger] rows[j]) && after.lookup(id) == Some(phase_entry(p, e))
}

/// `after` is `before` with the record of every row of the `k`-th period table
/// under its identifier, and no other change.
pub open spec fn period_loaded(k: int, before: IdTable<PeriodType>, after: IdTable<PeriodType>, rows: Seq<XmlRow>) -> bool {
    &&& forall|j: int|
        0 <= j < rows.len() && is_row(rows[j], period_tag(k)) ==> after.ids().contains(
            #[trigger] i64_field(rows[j], period_id_field(k))->Some_0,
        )
    &&& forall|id: i64|
        #[trigger] after.lookup(id) is Some ==> before.lookup(id) == after.lookup(id) || exists|j: int|
            0 <= j < rows.len() && is_row(rows[j], period_tag(k)) && i64_field(rows[j], period_id_field(k)) == Some(id)
                && period_matches(k, after.lookup(id)->Some_0, #[trigger] rows[j])
}

/// `after` holds the bands of `before` and of every `t_band` row.
pub open spec fn band_loaded(before: IdTable<i64>, after: IdTable<i64>, rows: Seq<XmlRow>) -> bool {
    &&& forall|id: i64|
        #[trigger] after.lookup(id) is Some <==> (before.lookup(id) is Some || exists|j: int|
            0 <= j < rows.len() && is_row(rows[j], "t_band"@) && #[trigger] i64_field(rows[j], "band_id"@) == Some(id))
    &&& forall|id: i64|
        #[trigger] after.lookup(id) is Some ==> after.lookup(id) == Some(id) || after.lookup(id) == before.lookup(id)
}

/// `after` is `before` followed by the records of the `t_memo_object` rows, in
/// row order.
pub open spec fn memo_object_loaded(before: Seq<MemoObject>, after: Seq<MemoObject>, rows: Seq<XmlRow>) -> bool {
    &&& after.len() == before.len() + rows.filter(|x: XmlRow| is_row(x, "t_memo_object"@)).len()
    &&& forall|i: int| 0 <= i < before.len() ==> #[trigger] after[i] == before[i]
    &&& forall|i: int|
        0 <= i < rows.filter(|x: XmlRow| is_row(x, "t_memo_object"@)).len() ==> memo_object_matches(
            #[trigger] after[before.len() + i],
            rows.filter(|x: XmlRow| is_row(x, "t_memo_object"@))[i],
        )
}

/// The row tag of the `p`-th phase table.
pub open spec fn phase_tag(p: int) -> Seq<char> {
    if p == 0 {
        "t_phase_1"@
    } else if p == 1 {
        "t_phase_2"@
    } else if p == 2 {
        "t_phase_3"@
    } else {
        "t_phase_4"@
    }
}

/// A phase entry of the `p`-th phase table.
pub open spec fn phase_entry(p: int, e: Phase) -> PhaseType {
    if p == 0 {
        PhaseType::LT(e)
    } else if p == 1 {
        PhaseType::PASA(e)
    } else if p == 2 {
        PhaseType::MT(e)
    } else {
        PhaseType::ST(e)
    }
}

/// The row tag of the `k`-th period table.
pub open spec fn period_tag(k: int) -> Seq<char> {
    if k == 0 {
        "t_period_0"@
    } else if k == 1 {
        "t_period_1"@
    } else if k == 2 {
        "t_period_2"@
    } else if k == 3 {
        "t_period_3"@
    } else if k == 4 {
        "t_period_4"@
    } else if k == 5 {
        "t_period_6"@
    } else {
        "t_period_7"@
    }
}

/// The identifier field of the `k`-th period table.
pub open spec fn period_id_field(k: int) -> Seq<char> {
    if k == 0 {
        "interval_id"@
    } else if k == 1 {
        "day_id"@
    } else if k == 2 {
        "week_id"@
    } else if k == 3 {
        "month_id"@
    } else if k == 4 {
        "fiscal_year_id"@
    } else if k == 5 {
        "hour_id"@
    } else {
        "quarter_id"@
    }
}

pub open spec fn period_row_ok(k: int, row: XmlRow) -> bool {
    if k == 0 {
        period0_row_ok(row)
    } else if k == 1 {
        period1_row_ok(row)
    } else if k == 2 {
        period2_row_ok(row)
    } else if k == 3 {
        period3_row_ok(row)
    } else if k == 4 {
        period4_row_ok(row)
    } else if k == 5 {
        period6_row_ok(row)
    } else {
        period7_row_ok(row)
    }
}

/// `e` is the record of the `k`-th period table that `row` holds.
pub open spec fn period_matches(k: int, e: PeriodType, row: XmlRow) -> bool {
    match e {
        PeriodType::Interval(v) => k == 0 && period0_matches(v, row),
        PeriodType::Day(v) => k == 1 && period1_matches(v, row),
        PeriodType::Week(v) => k == 2 && period2_matches(v, row),
        PeriodType::Month(v) => k == 3 && period3_matches(v, row),
        PeriodType::Year(v) => k == 4 && period4_matches(v, row),
        PeriodType::Hour(v) => k == 5 && period6_matches(v, row),
        PeriodType::Quarter(v) => k == 6 && period7_matches(v, row),
    }
}

/// The record of a row of the `k`-th period table, under its identifier.
pub fn parse_period_entry(k: usize, row: &XmlRow) -> (r: Result<(i64, PeriodType), LoadError>)
    requires
        k < 7,
    ensures
        r is Ok <==> period_row_ok(k as int, *row),
        r matches Ok(v) ==> period_matches(k as int, v.1, *row) && i64_field(*row, period_id_field(k as int))
            == Some(v.0),
        r matches Err(e) ==> is_field_error(e),
{
    if k == 0 {
        let v = parse_period0(row)?;
        Ok((v.interval_id, PeriodType::Interval(v)))
    } else if k == 1 {
        let v = parse_period1(row)?;
        Ok((v.day_id, PeriodType::Day(v)))
    } else if k == 2 {
        let v = parse_period2(row)?;
        Ok((v.week_id, PeriodType::Week(v)))
    } else if k == 3 {
        let v = parse_period3(row)?;
        Ok((v.month_id, PeriodType::Month(v)))
    } else if k == 4 {
        let v = parse_period4(row)?;
        Ok((v.fiscal_year_id, PeriodType::Year(v)))
    } else if k == 5 {
        let v = parse_period6(row)?;
        Ok((v.hour_id, PeriodType::Hour(v)))
    } else {
        let v = parse_period7(row)?;
        Ok((v.quarter_id, PeriodType::Quarter(v)))
    }
}

fn period_tag_text(k: usize) -> (t: &'static str)
    requires
        k < 7,
    ensures
        t@ == period_tag(k as int),
{
    if k == 0 {
        "t_period_0"
    } else if k == 1 {
        "t_period_1"
    } else if k == 2 {
        "t_period_2"
    } else if k == 3 {
        "t_period_3"
    } else if k == 4 {
        "t_period_4"
    } else if k == 5 {
        "t_period_6"
    } else {
        "t_period_7"
    }
}

fn phase_tag_text(p: usize) -> (t: &'static str)
    requires
        p < 4,
    ensures
        t@ == phase_tag(p as int),
{
    if p == 0 {
        "t_phase_1"
    } else if p == 1 {
        "t_phase_2"
    } else if p == 2 {
        "t_phase_3"
    } else {
        "t_phase_4"
    }
}

impl SolutionDataset {
    /// Adds the record of every `t_model` row, under its `model_id`; a later
    /// row replaces an earlier one with the same identifier.
    pub fn ingest_model(&mut self, rows: &Vec<XmlRow>) -> (r: Result<(), LoadError>)
        requires
            old(self).wf(),
        ensures
            final(self).wf(),
            r matches Err(e) ==> is_field_error(e),
            r is Ok <==> forall|j: int|
                0 <= j < rows@.len() && is_row(rows@[j], "t_model"@) ==> model_row_ok(#[trigger] rows@[j]),
            r is Ok ==> *final(self) == (SolutionDataset { model: final(self).model, ..*old(self) }),
            r is Ok ==> model_loaded(old(self).model, final(self).model, rows@),
    {
        let mut i: usize = 0;
        while i < rows.len()
            invariant
                self.wf(),
                i <= rows@.len(),
                *self == (SolutionDataset { model: self.model, ..*old(self) }),
                forall|j: int|
                    0 <= j < i && is_row(rows@[j], "t_model"@) ==> model_row_ok(#[trigger] rows@[j]),
                forall|id: i64|
                    #![trigger self.model.lookup(id)]
                    if last_with(rows@, "t_model"@, "model_id"@, id, i as int) >= 0 {
                        &&& self.model.lookup(id) is Some
                        &&& model_matches(
                            self.model.lookup(id)->Some_0,
                            rows@[last_with(rows@, "t_model"@, "model_id"@, id, i as int)],
                        )
                    } else {
                        self.model.lookup(id) == old(self).model.lookup(id)
                    },
            decreases rows@.len() - i,
        {
            let row = &rows[i];
            if row.is("t_model") {
                let v = match parse_model(row) {
                    Ok(v) => v,
                    Err(e) => {
                        assert(!model_row_ok(rows@[i as int]));
                        return Err(e);
                    },
                };
                let id = v.model_id;
                self.model.insert(id, v);
            }
            i = i + 1;
        }
        Ok(())
    }

    /// Adds the record of every `t_object` row, under its `object_id`; a later
    /// row replaces an earlier one with the same identifier.
    pub fn ingest_object(&mut self, rows: &Vec<XmlRow>) -> (r: Result<(), LoadError>)
        requires
            old(self).wf(),
        ensures
            final(self).wf(),
            r matches Err(e) ==> is_field_error(e),
            r is Ok <==> forall|j: int|
                0 <= j < rows@.len() && is_row(rows@[j], "t_object"@) ==> object_row_ok(#[trigger] rows@[j]),
            r is Ok ==> *final(self) == (SolutionDataset { object: final(self).object, ..*old(self) }),
            r is Ok ==> object_loaded(old(self).object, final(self).object, rows@),
    {
        let mut i: usize = 0;
        while i < rows.len()
            invariant
                self.wf(),
                i <= rows@.len(),
                *self == (SolutionDataset { object: self.object, ..*old(self) }),
                forall|j: int|
                    0 <= j < i && is_row(rows@[j], "t_object"@) ==> object_row_ok(#[trigger] rows@[j]),
                forall|id: i64|
                    #![trigger self.object.lookup(id)]
                    if last_with(rows@, "t_object"@, "object_id"@, id, i as int) >= 0 {
                        &&& self.object.lookup(id) is Some
                        &&& object_matches(
                            self.object.lookup(id)->Some_0,
                            rows@[last_with(rows@, "t_object"@, "object_id"@, id, i as int)],
                        )
                    } else {
                        self.object.lookup(id) == old(self).object.lookup(id)
                    },
            decreases rows@.len() - i,
        {
            let row = &rows[i];
            if row.is("t_object") {
                let v = match parse_object(row) {
                    Ok(v) => v,
                    Err(e) => {
                        assert(!object_row_ok(rows@[i as int]));
                        return Err(e);
                    },
                };
                let id = v.object_id;
                self.object.insert(id, v);
            }
            i = i + 1;
        }
        Ok(())
    }

    /// Adds the record of every `t_membership` row, under its `membership_id`; a later
    /// row replaces an earlier one with the same identifier.
    pub fn ingest_membership(&mut self, rows: &Vec<XmlRow>) -> (r: Result<(), LoadError>)
        requires
            old(self).wf(),
        ensures
            final(self).wf(),
            r matches Err(e) ==> is_field_error(e),
            r is Ok <==> forall|j: int|
                0 <= j < rows@.len() && is_row(rows@[j], "t_membership"@) ==> membership_row_ok(#[trigger] rows@[j]),
            r is Ok ==> *final(self) == (SolutionDataset { membership: final(self).membership, ..*old(self) }),
            r is Ok ==> membership_loaded(old(self).membership, final(self).membership, rows@),
    {
        let mut i: usize = 0;
        while i < rows.len()
            invariant
                self.wf(),
                i <= rows@.len(),
                *self == (SolutionDataset { membership: self.membership, ..*old(self) }),
                forall|j: int|
                    0 <= j < i && is_row(rows@[j], "t_membership"@) ==> membership_row_ok(#[trigger] rows@[j]),
                forall|id: i64|
                    #![trigger self.membership.lookup(id)]
                    if last_with(rows@, "t_membership"@, "membership_id"@, id, i as int) >= 0 {
                        &&& self.membership.lookup(id) is Some
                        &&& membership_matches(
                            self.membership.lookup(id)->Some_0,
                            rows@[last_with(rows@, "t_membership"@, "membership_id"@, id, i as int)],
                        )
                    } else {
                        self.membership.lookup(id) == old(self).membership.lookup(id)
                    },
            decreases rows@.len() - i,
        {
            let row = &rows[i];
            if row.is("t_membership") {
                let v = match parse_membership(row) {
                    Ok(v) => v,
                    Err(e) => {
                        assert(!membership_row_ok(rows@[i as int]));
                        return Err(e);
                    },
                };
                let id = v.membership_id;
                self.membership.insert(id, v);
            }
            i = i + 1;
        }
        Ok(())
    }

    /// Adds the record of every `t_attribute` row, under its `attribute_id`; a later
    /// row replaces an earlier one with the same identifier.
    pub fn ingest_attribute(&mut self, rows: &Vec<XmlRow>) -> (r: Result<(), LoadError>)
        requires
            old(self).wf(),
        ensures
            final(self).wf(),
            r matches Err(e) ==> is_field_error(e),
            r is Ok <==> forall|j: int|
                0 <= j < rows@.len() && is_row(rows@[j], "t_attribute"@) ==> attribute_row_ok(#[trigger] rows@[j]),
            r is Ok ==> *final(self) == (SolutionDataset { attribute: final(self).attribute, ..*old(self) }),
            r is Ok ==> attribute_loaded(old(self).attribute, final(self).attribute, rows@),
    {
        let mut i: usize = 0;
        while i < rows.len()
            invariant
                self.wf(),
                i <= rows@.len(),
                *self == (SolutionDataset { attribute: self.attribute, ..*old(self) }),
                forall|j: int|
                    0 <= j < i && is_row(rows@[j], "t_attribute"@) ==> attribute_row_ok(#[trigger] rows@[j]),
                forall|id: i64|
                    #![trigger self.attribute.lookup(id)]
                    if last_with(rows@, "t_attribute"@, "attribute_id"@, id, i as int) >= 0 {
                        &&& self.attribute.lookup(id) is Some
                        &&& attribute_matches(
                            self.attribute.lookup(id)->Some_0,
                            rows@[last_with(rows@, "t_attribute"@, "attribute_id"@, id, i as int)],
                        )
                    } else {
                        self.attribute.lookup(id) == old(self).attribute.lookup(id)
                    },
            decreases rows@.len() - i,
        {
            let row = &rows[i];
            if row.is("t_attribute") {
                let v = match parse_attribute(row) {
                    Ok(v) => v,
                    Err(e) => {
                        assert(!attribute_row_ok(rows@[i as int]));
                        return Err(e);
                    },
                };
                let id = v.attribute_id;
                self.attribute.insert(id, v);
            }
            i = i + 1;
        }
        Ok(())
    }

    /// Adds the record of every `t_property` row, under its `property_id`; a later
    /// row replaces an earlier one with the same identifier.
    pub fn ingest_property(&mut self, rows: &Vec<XmlRow>) -> (r: Result<(), LoadError>)
        requires
            old(self).wf(),
        ensures
            final(self).wf(),
            r matches Err(e) ==> is_field_error(e),
            r is Ok <==> forall|j: int|
                0 <= j < rows@.len() && is_row(rows@[j], "t_property"@) ==> property_row_ok(#[trigger] rows@[j]),
            r is Ok ==> *final(self) == (SolutionDataset { property: final(self).property, ..*old(self) }),
            r is Ok ==> property_loaded(old(self).property, final(self).property, rows@),
    {
        let mut i: usize = 0;
        while i < rows.len()
            invariant
                self.wf(),
                i <= rows@.len(),
                *self == (SolutionDataset { property: self.property, ..*old(self) }),
                forall|j: int|
                    0 <= j < i && is_row(rows@[j], "t_property"@) ==> property_row_ok(#[trigger] rows@[j]),
                forall|id: i64|
                    #![trigger self.property.lookup(id)]
                    if last_with(rows@, "t_property"@, "property_id"@, id, i as int) >= 0 {
                        &&& self.property.lookup(id) is Some
                        &&& property_matches(
                            self.property.lookup(id)->Some_0,
                            rows@[last_with(rows@, "t_property"@, "property_id"@, id, i as int)],
                        )
                    } else {
                        self.property.lookup(id) == old(self).property.lookup(id)
                    },
            decreases rows@.len() - i,
        {
            let row = &rows[i];
            if row.is("t_property") {
                let v = match parse_property(row) {
                    Ok(v) => v,
                    Err(e) => {
                        assert(!property_row_ok(rows@[i as int]));
                        return Err(e);
                    },
                };
                let id = v.property_id;
                self.property.insert(id, v);
            }
            i = i + 1;
        }
        Ok(())
    }

    /// Adds the record of every `t_unit` row, under its `unit_id`; a later
    /// row replaces an earlier one with the same identifier.
    pub fn ingest_unit(&mut self, rows: &Vec<XmlRow>) -> (r: Result<(), LoadError>)
        requires
            old(self).wf(),
        ensures
            final(self).wf(),
            r matches Err(e) ==> is_field_error(e),
            r is Ok <==> forall|j: int|
                0 <= j < rows@.len() && is_row(rows@[j], "t_unit"@) ==> unit_row_ok(#[trigger] rows@[j]),
            r is Ok ==> *final(self) == (SolutionDataset { unit: final(self).unit, ..*old(self) }),
            r is Ok ==> unit_loaded(old(self).unit, final(self).unit, rows@),
    {
        let mut i: usize = 0;
        while i < rows.len()
            invariant
                self.wf(),
                i <= rows@.len(),
                *self == (SolutionDataset { unit: self.unit, ..*old(self) }),
                forall|j: int|
                    0 <= j < i && is_row(rows@[j], "t_unit"@) ==> unit_row_ok(#[trigger] rows@[j]),
                forall|id: i64|
                    #![trigger self.unit.lookup(id)]
                    if last_with(rows@, "t_unit"@, "unit_id"@, id, i as int) >= 0 {
                        &&& self.unit.lookup(id) is Some
                        &&& unit_matches(
                            self.unit.lookup(id)->Some_0,
                            rows@[last_with(rows@, "t_unit"@, "unit_id"@, id, i as int)],
                        )
                    } else {
                        self.unit.lookup(id) == old(self).unit.lookup(id)
                    },
            decreases rows@.len() - i,
        {
            let row = &rows[i];
            if row.is("t_unit") {
                let v = match parse_unit(row) {
                    Ok(v) => v,
                    Err(e) => {
                        assert(!unit_row_ok(rows@[i as int]));
                        return Err(e);
                    },
                };
                let id = v.id;
                self.unit.insert(id, v);
            }
            i = i + 1;
        }
        Ok(())
    }

    /// Adds the record of every `t_category` row, under its `category_id`; a later
    /// row replaces an earlier one with the same identifier.
    pub fn ingest_category(&mut self, rows: &Vec<XmlRow>) -> (r: Result<(), LoadError>)
        requires
            old(self).wf(),
        ensures
            final(self).wf(),
            r matches Err(e) ==> is_field_error(e),
            r is Ok <==> forall|j: int|
                0 <= j < rows@.len() && is_row(rows@[j], "t_category"@) ==> category_row_ok(#[trigger] rows@[j]),
            r is Ok ==> *final(self) == (SolutionDataset { category: final(self).category, ..*old(self) }),
            r is Ok ==> category_loaded(old(self).category, final(self).category, rows@),
    {
        let mut i: usize = 0;
        while i < rows.len()
            invariant
                self.wf(),
                i <= rows@.len(),
                *self == (SolutionDataset { category: self.category, ..*old(self) }),
                forall|j: int|
                    0 <= j < i && is_row(rows@[j], "t_category"@) ==> category_row_ok(#[trigger] rows@[j]),
                forall|id: i64|
                    #![trigger self.category.lookup(id)]
                    if last_with(rows@, "t_category"@, "category_id"@, id, i as int) >= 0 {
                        &&& self.category.lookup(id) is Some
                        &&& category_matches(
                            self.category.lookup(id)->Some_0,
                            rows@[last_with(rows@, "t_category"@, "category_id"@, id, i as int)],
                        )
                    } else {
                        self.category.lookup(id) == old(self).category.lookup(id)
                    },
            decreases rows@.len() - i,
        {
            let row = &rows[i];
            if row.is("t_category") {
                let v = match parse_category(row) {
                    Ok(v) => v,
                    Err(e) => {
                        assert(!category_row_ok(rows@[i as int]));
                        return Err(e);
                    },
                };
                let id = v.category_id;
                self.category.insert(id, v);
            }
            i = i + 1;
        }
        Ok(())
    }

    /// Adds the record of every `t_class` row, under its `class_id`; a later
    /// row replaces an earlier one with the same identifier.
    pub fn ingest_class(&mut self, rows: &Vec<XmlRow>) -> (r: Result<(), LoadError>)
        requires
            old(self).wf(),
        ensures
            final(self).wf(),
            r matches Err(e) ==> is_field_error(e),
            r is Ok <==> forall|j: int|
                0 <= j < rows@.len() && is_row(rows@[j], "t_class"@) ==> class_row_ok(#[trigger] rows@[j]),
            r is Ok ==> *final(self) == (SolutionDataset { class: final(self).class, ..*old(self) }),
            r is Ok ==> class_loaded(old(self).class, final(self).class, rows@),
    {
        let mut i: usize = 0;
        while i < rows.len()
            invariant
                self.wf(),
                i <= rows@.len(),
                *self == (SolutionDataset { class: self.class, ..*old(self) }),
                forall|j: int|
                    0 <= j < i && is_row(rows@[j], "t_class"@) ==> class_row_ok(#[trigger] rows@[j]),
                forall|id: i64|
                    #![trigger self.class.lookup(id)]
                    if last_with(rows@, "t_class"@, "class_id"@, id, i as int) >= 0 {
                        &&& self.class.lookup(id) is Some
                        &&& class_matches(
                            self.class.lookup(id)->Some_0,
                            rows@[last_with(rows@, "t_class"@, "class_id"@, id, i as int)],
                        )
                    } else {
                        self.class.lookup(id) == old(self).class.lookup(id)
                    },
            decreases rows@.len() - i,
        {
            let row = &rows[i];
            if row.is("t_class") {
                let v = match parse_class(row) {
                    Ok(v) => v,
                    Err(e) => {
                        assert(!class_row_ok(rows@[i as int]));
                        return Err(e);
                    },
                };
                let id = v.class_id;
                self.class.insert(id, v);
            }
            i = i + 1;
        }
        Ok(())
    }

    /// Adds the record of every `t_class_group` row, under its `class_group_id`; a later
    /// row replaces an earlier one with the same identifier.
    pub fn ingest_class_group(&mut self, rows: &Vec<XmlRow>) -> (r: Result<(), LoadError>)
        requires
            old(self).wf(),
        ensures
            final(self).wf(),
            r matches Err(e) ==> is_field_error(e),
            r is Ok <==> forall|j: int|
                0 <= j < rows@.len() && is_row(rows@[j], "t_class_group"@) ==> class_group_row_ok(#[trigger] rows@[j]),
            r is Ok ==> *final(self) == (SolutionDataset { class_group: final(self).class_group, ..*old(self) }),
            r is Ok ==> class_group_loaded(old(self).class_group, final(self).class_group, rows@),
    {
        let mut i: usize = 0;
        while i < rows.len()
            invariant
                self.wf(),
                i <= rows@.len(),
                *self == (SolutionDataset { class_group: self.class_group, ..*old(self) }),
                forall|j: int|
                    0 <= j < i && is_row(rows@[j], "t_class_group"@) ==> class_group_row_ok(#[trigger] rows@[j]),
                forall|id: i64|
                    #![trigger self.class_group.lookup(id)]
                    if last_with(rows@, "t_class_group"@, "class_group_id"@, id, i as int) >= 0 {
                        &&& self.class_group.lookup(id) is Some
                        &&& class_group_matches(
                            self.class_group.lookup(id)->Some_0,
                            rows@[last_with(rows@, "t_class_group"@, "class_group_id"@, id, i as int)],
                        )
                    } else {
                        self.class_group.lookup(id) == old(self).class_group.lookup(id)
                    },
            decreases rows@.len() - i,
        {
            let row = &rows[i];
            if row.is("t_class_group") {
                let v = match parse_class_group(row) {
                    Ok(v) => v,
                    Err(e) => {
                        assert(!class_group_row_ok(rows@[i as int]));
                        return Err(e);
                    },
                };
                let id = v.class_group_id;
                self.class_group.insert(id, v);
            }
            i = i + 1;
        }
        Ok(())
    }

    /// Adds the record of every `t_collection` row, under its `collection_id`; a later
    /// row replaces an earlier one with the same identifier.
    pub fn ingest_collection(&mut self, rows: &Vec<XmlRow>) -> (r: Result<(), LoadError>)
        requires
            old(self).wf(),
        ensures
            final(self).wf(),
            r matches Err(e) ==> is_field_error(e),
            r is Ok <==> forall|j: int|
                0 <= j < rows@.len() && is_row(rows@[j], "t_collection"@) ==> collection_row_ok(#[trigger] rows@[j]),
            r is Ok ==> *final(self) == (SolutionDataset { collection: final(self).collection, ..*old(self) }),
            r is Ok ==> collection_loaded(old(self).collection, final(self).collection, rows@),
    {
        let mut i: usize = 0;
        while i < rows.len()
            invariant
                self.wf(),
                i <= rows@.len(),
                *self == (SolutionDataset { collection: self.collection, ..*old(self) }),
                forall|j: int|
                    0 <= j < i && is_row(rows@[j], "t_collection"@) ==> collection_row_ok(#[trigger] rows@[j]),
                forall|id: i64|
                    #![trigger self.collection.lookup(id)]
                    if last_with(rows@, "t_collection"@, "collection_id"@, id, i as int) >= 0 {
                        &&& self.collection.lookup(id) is Some
                        &&& collection_matches(
                            self.collection.lookup(id)->Some_0,
                            rows@[last_with(rows@, "t_collection"@, "collection_id"@, id, i as int)],
                        )
                    } else {
                        self.collection.lookup(id) == old(self).collection.lookup(id)
                    },
            decreases rows@.len() - i,
        {
            let row = &rows[i];
            if row.is("t_collection") {
                let v = match parse_collection(row) {
                    Ok(v) => v,
                    Err(e) => {
                        assert(!collection_row_ok(rows@[i as int]));
                        return Err(e);
                    },
                };
                let id = v.collection_id;
                self.collection.insert(id, v);
            }
            i = i + 1;
        }
        Ok(())
    }

    /// Adds the record of every `t_key_index` row, under its `key_id`; a later
    /// row replaces an earlier one with the same identifier.
    pub fn ingest_key_index(&mut self, rows: &Vec<XmlRow>) -> (r: Result<(), LoadError>)
        requires
            old(self).wf(),
        ensures
            final(self).wf(),
            r matches Err(e) ==> is_field_error(e),
            r is Ok <==> forall|j: int|
                0 <= j < rows@.len() && is_row(rows@[j], "t_key_index"@) ==> key_index_row_ok(#[trigger] rows@[j]),
            r is Ok ==> *final(self) == (SolutionDataset { key_index: final(self).key_index, ..*old(self) }),
            r is Ok ==> key_index_loaded(old(self).key_index, final(self).key_index, rows@),
    {
        let mut i: usize = 0;
        while i < rows.len()
            invariant
                self.wf(),
                i <= rows@.len(),
                *self == (SolutionDataset { key_index: self.key_index, ..*old(self) }),
                forall|j: int|
                    0 <= j < i && is_row(rows@[j], "t_key_index"@) ==> key_index_row_ok(#[trigger] rows@[j]),
                forall|id: i64|
                    #![trigger self.key_index.lookup(id)]
                    if last_with(rows@, "t_key_index"@, "key_id"@, id, i as int) >= 0 {
                        &&& self.key_index.lookup(id) is Some
                        &&& key_index_matches(
                            self.key_index.lookup(id)->Some_0,
                            rows@[last_with(rows@, "t_key_index"@, "key_id"@, id, i as int)],
                        )
                    } else {
                        self.key_index.lookup(id) == old(self).key_index.lookup(id)
                    },
            decreases rows@.len() - i,
        {
            let row = &rows[i];
            if row.is("t_key_index") {
                let v = match parse_key_index(row) {
                    Ok(v) => v,
                    Err(e) => {
                        assert(!key_index_row_ok(rows@[i as int]));
                        return Err(e);
                    },
                };
                let id = v.key_id;
                self.key_index.insert(id, v);
            }
            i = i + 1;
        }
        Ok(())
    }

    /// Adds the record of every `t_sample` row, under its `sample_id`; a later
    /// row replaces an earlier one with the same identifier.
    pub fn ingest_sample(&mut self, rows: &Vec<XmlRow>) -> (r: Result<(), LoadError>)
        requires
            old(self).wf(),
        ensures
            final(self).wf(),
            r matches Err(e) ==> is_field_error(e),
            r is Ok <==> forall|j: int|
                0 <= j < rows@.len() && is_row(rows@[j], "t_sample"@) ==> sample_row_ok(#[trigger] rows@[j]),
            r is Ok ==> *final(self) == (SolutionDataset { sample: final(self).sample, ..*old(self) }),
            r is Ok ==> sample_loaded(old(self).sample, final(self).sample, rows@),
    {
        let mut i: usize = 0;
        while i < rows.len()
            invariant
                self.wf(),
                i <= rows@.len(),
                *self == (SolutionDataset { sample: self.sample, ..*old(self) }),
                forall|j: int|
                    0 <= j < i && is_row(rows@[j], "t_sample"@) ==> sample_row_ok(#[trigger] rows@[j]),
                forall|id: i64|
                    #![trigger self.sample.lookup(id)]
                    if last_with(rows@, "t_sample"@, "sample_id"@, id, i as int) >= 0 {
                        &&& self.sample.lookup(id) is Some
                        &&& sample_matches(
                            self.sample.lookup(id)->Some_0,
                            rows@[last_with(rows@, "t_sample"@, "sample_id"@, id, i as int)],
                        )
                    } else {
                        self.sample.lookup(id) == old(self).sample.lookup(id)
                    },
            decreases rows@.len() - i,
        {
            let row = &rows[i];
            if row.is("t_sample") {
                let v = match parse_sample(row) {
                    Ok(v) => v,
                    Err(e) => {
                        assert(!sample_row_ok(rows@[i as int]));
                        return Err(e);
                    },
                };
                let id = v.sample_id;
                self.sample.insert(id, v);
            }
            i = i + 1;
        }
        Ok(())
    }

    /// Adds the record of every `t_sample_weight` row, under its `sample_id`; a later
    /// row replaces an earlier one with the same identifier.
    pub fn ingest_sample_weight(&mut self, rows: &Vec<XmlRow>) -> (r: Result<(), LoadError>)
        requires
            old(self).wf(),
        ensures
            final(self).wf(),
            r matches Err(e) ==> is_field_error(e),
            r is Ok <==> forall|j: int|
                0 <= j < rows@.len() && is_row(rows@[j], "t_sample_weight"@) ==> sample_weight_row_ok(#[trigger] rows@[j]),
            r is Ok ==> *final(self) == (SolutionDataset { sample_weight: final(self).sample_weight, ..*old(self) }),
            r is Ok ==> sample_weight_loaded(old(self).sample_weight, final(self).sample_weight, rows@),
    {
        let mut i: usize = 0;
        while i < rows.len()
            invariant
                self.wf(),
                i <= rows@.len(),
                *self == (SolutionDataset { sample_weight: self.sample_weight, ..*old(self) }),
                forall|j: int|
                    0 <= j < i && is_row(rows@[j], "t_sample_weight"@) ==> sample_weight_row_ok(#[trigger] rows@[j]),
                forall|id: i64|
                    #![trigger self.sample_weight.lookup(id)]
                    if last_with(rows@, "t_sample_weight"@, "sample_id"@, id, i as int) >= 0 {
                        &&& self.sample_weight.lookup(id) is Some
                        &&& sample_weight_matches(
                            self.sample_weight.lookup(id)->Some_0,
                            rows@[last_with(rows@, "t_sample_weight"@, "sample_id"@, id, i as int)],
                        )
                    } else {
                        self.sample_weight.lookup(id) == old(self).sample_weight.lookup(id)
                    },
            decreases rows@.len() - i,
        {
            let row = &rows[i];
            if row.is("t_sample_weight") {
                let v = match parse_sample_weight(row) {
                    Ok(v) => v,
                    Err(e) => {
                        assert(!sample_weight_row_ok(rows@[i as int]));
                        return Err(e);
                    },
                };
                let id = v.sample_id;
                self.sample_weight.insert(id, v);
            }
            i = i + 1;
        }
        Ok(())
    }

    /// Adds the record of every `t_timeslice` row, under its `timeslice_id`; a later
    /// row replaces an earlier one with the same identifier.
    pub fn ingest_timeslice(&mut self, rows: &Vec<XmlRow>) -> (r: Result<(), LoadError>)
        requires
            old(self).wf(),
        ensures
            final(self).wf(),
            r matches Err(e) ==> is_field_error(e),
            r is Ok <==> forall|j: int|
                0 <= j < rows@.len() && is_row(rows@[j], "t_timeslice"@) ==> timeslice_row_ok(#[trigger] rows@[j]),
            r is Ok ==> *final(self) == (SolutionDataset { timeslice: final(self).timeslice, ..*old(self) }),
            r is Ok ==> timeslice_loaded(old(self).timeslice, final(self).timeslice, rows@),
    {
        let mut i: usize = 0;
        while i < rows.len()
            invariant
                self.wf(),
                i <= rows@.len(),
                *self == (SolutionDataset { timeslice: self.timeslice, ..*old(self) }),
                forall|j: int|
                    0 <= j < i && is_row(rows@[j], "t_timeslice"@) ==> timeslice_row_ok(#[trigger] rows@[j]),
                forall|id: i64|
                    #![trigger self.timeslice.lookup(id)]
                    if last_with(rows@, "t_timeslice"@, "timeslice_id"@, id, i as int) >= 0 {
                        &&& self.timeslice.lookup(id) is Some
                        &&& timeslice_matches(
                            self.timeslice.lookup(id)->Some_0,
                            rows@[last_with(rows@, "t_timeslice"@, "timeslice_id"@, id, i as int)],
                        )
                    } else {
                        self.timeslice.lookup(id) == old(self).timeslice.lookup(id)
                    },
            decreases rows@.len() - i,
        {
            let row = &rows[i];
            if row.is("t_timeslice") {
                let v = match parse_timeslice(row) {
                    Ok(v) => v,
                    Err(e) => {
                        assert(!timeslice_row_ok(rows@[i as int]));
                        return Err(e);
                    },
                };
                let id = v.timeslice_id;
                self.timeslice.insert(id, v);
            }
            i = i + 1;
        }
        Ok(())
    }

    /// Adds the record of every `t_attribute_data` row, under its `attribute_id`; a later
    /// row replaces an earlier one with the same identifier.
    pub fn ingest_attribute_data(&mut self, rows: &Vec<XmlRow>) -> (r: Result<(), LoadError>)
        requires
            old(self).wf(),
        ensures
            final(self).wf(),
            r matches Err(e) ==> is_field_error(e),
            r is Ok <==> forall|j: int|
                0 <= j < rows@.len() && is_row(rows@[j], "t_attribute_data"@) ==> attribute_data_row_ok(#[trigger] rows@[j]),
            r is Ok ==> *final(self) == (SolutionDataset { attribute_data: final(self).attribute_data, ..*old(self) }),
            r is Ok ==> attribute_data_loaded(old(self).attribute_data, final(self).attribute_data, rows@),
    {
        let mut i: usize = 0;
        while i < rows.len()
            invariant
                self.wf(),
                i <= rows@.len(),
                *self == (SolutionDataset { attribute_data: self.attribute_data, ..*old(self) }),
                forall|j: int|
                    0 <= j < i && is_row(rows@[j], "t_attribute_data"@) ==> attribute_data_row_ok(#[trigger] rows@[j]),
                forall|id: i64|
                    #![trigger self.attribute_data.lookup(id)]
                    if last_with(rows@, "t_attribute_data"@, "attribute_id"@, id, i as int) >= 0 {
                        &&& self.attribute_data.lookup(id) is Some
                        &&& attribute_data_matches(
                            self.attribute_data.lookup(id)->Some_0,
                            rows@[last_with(rows@, "t_attribute_data"@, "attribute_id"@, id, i as int)],
                        )
                    } else {
                        self.attribute_data.lookup(id) == old(self).attribute_data.lookup(id)
                    },
            decreases rows@.len() - i,
        {
            let row = &rows[i];
            if row.is("t_attribute_data") {
                let v = match parse_attribute_data(row) {
                    Ok(v) => v,
                    Err(e) => {
                        assert(!attribute_data_row_ok(rows@[i as int]));
                        return Err(e);
                    },
                };
                let id = v.attribute_id;
                self.attribute_data.insert(id, v);
            }
            i = i + 1;
        }
        Ok(())
    }

    /// Adds the record of every `t_custom_column` row, under its `column_id`; a later
    /// row replaces an earlier one with the same identifier.
    pub fn ingest_custom_column(&mut self, rows: &Vec<XmlRow>) -> (r: Result<(), LoadError>)
        requires
            old(self).wf(),
        ensures
            final(self).wf(),
            r matches Err(e) ==> is_field_error(e),
            r is Ok <==> forall|j: int|
                0 <= j < rows@.len() && is_row(rows@[j], "t_custom_column"@) ==> custom_column_row_ok(#[trigger] rows@[j]),
            r is Ok ==> *final(self) == (SolutionDataset { custom_column: final(self).custom_column, ..*old(self) }),
            r is Ok ==> custom_column_loaded(old(self).custom_column, final(self).custom_column, rows@),
    {
        let mut i: usize = 0;
        while i < rows.len()
            invariant
                self.wf(),
                i <= rows@.len(),
                *self == (SolutionDataset { custom_column: self.custom_column, ..*old(self) }),
                forall|j: int|
                    0 <= j < i && is_row(rows@[j], "t_custom_column"@) ==> custom_column_row_ok(#[trigger] rows@[j]),
                forall|id: i64|
                    #![trigger self.custom_column.lookup(id)]
                    if last_with(rows@, "t_custom_column"@, "column_id"@, id, i as int) >= 0 {
                        &&& self.custom_column.lookup(id) is Some
                        &&& custom_column_matches(
                            self.custom_column.lookup(id)->Some_0,
                            rows@[last_with(rows@, "t_custom_column"@, "column_id"@, id, i as int)],
                        )
                    } else {
                        self.custom_column.lookup(id) == old(self).custom_column.lookup(id)
                    },
            decreases rows@.len() - i,
        {
            let row = &rows[i];
            if row.is("t_custom_column") {
                let v = match parse_custom_column(row) {
                    Ok(v) => v,
                    Err(e) => {
                        assert(!custom_column_row_ok(rows@[i as int]));
                        return Err(e);
                    },
                };
                let id = v.column_id;
                self.custom_column.insert(id, v);
            }
            i = i + 1;
        }
        Ok(())
    }

    /// Adds the record of every `t_key` row, under its `key_id`; a later
    /// row replaces an earlier one with the same identifier.
    pub fn ingest_key(&mut self, rows: &Vec<XmlRow>) -> (r: Result<(), LoadError>)
        requires
            old(self).wf(),
        ensures
            final(self).wf(),
            r matches Err(e) ==> is_field_error(e),
            r is Ok <==> forall|j: int|
                0 <= j < rows@.len() && is_row(rows@[j], "t_key"@) ==> key_row_ok(#[trigger] rows@[j]),
            r is Ok ==> *final(self) == (SolutionDataset { key: final(self).key, ..*old(self) }),
            r is Ok ==> key_loaded(old(self).key, final(self).key, rows@),
    {
        let mut i: usize = 0;
        while i < rows.len()
            invariant
                self.wf(),
                i <= rows@.len(),
                *self == (SolutionDataset { key: self.key, ..*old(self) }),
                forall|j: int|
                    0 <= j < i && is_row(rows@[j], "t_key"@) ==> key_row_ok(#[trigger] rows@[j]),
                forall|id: i64|
                    #![trigger self.key.lookup(id)]
                    if last_with(rows@, "t_key"@, "key_id"@, id, i as int) >= 0 {
                        &&& self.key.lookup(id) is Some
                        &&& key_matches(
                            self.key.lookup(id)->Some_0,
                            rows@[last_with(rows@, "t_key"@, "key_id"@, id, i as int)],
                        )
                    } else {
                        self.key.lookup(id) == old(self).key.lookup(id)
                    },
            decreases rows@.len() - i,
        {
            let row = &rows[i];
            if row.is("t_key") {
                let v = match parse_key(row) {
                    Ok(v) => v,
                    Err(e) => {
                        assert(!key_row_ok(rows@[i as int]));
                        return Err(e);
                    },
                };
                let id = v.key_id;
                self.key.insert(id, v);
            }
            i = i + 1;
        }
        Ok(())
    }
    /// Adds the entry of every row of the `p`-th phase table, under its
    /// interval; a later row replaces an earlier one with the same interval.
    pub fn ingest_phase(&mut self, p: usize, rows: &Vec<XmlRow>) -> (r: Result<(), LoadError>)
        requires
            old(self).wf(),
            p < 4,
        ensures
            final(self).wf(),
            r matches Err(e) ==> is_field_error(e),
            r is Ok <==> forall|j: int|
                0 <= j < rows@.len() && is_row(rows@[j], phase_tag(p as int)) ==> phase_row_ok(#[trigger] rows@[j]),
            r is Ok ==> *final(self) == (SolutionDataset { phase: final(self).phase, ..*old(self) }),
            r is Ok ==> forall|q: int| 0 <= q < 4 && q != p ==> #[trigger] final(self).phase@[q] == old(self).phase@[q],
            r is Ok ==> phase_loaded(p as int, old(self).phase@[p as int], final(self).phase@[p as int], rows@),
    {
        let tag = phase_tag_text(p);
        let mut t: IdTable<PhaseType> = IdTable::new();
        std::mem::swap(&mut t, &mut self.phase[p]);
        let ghost start = t;
        let ghost mid = *self;
        let mut i: usize = 0;
        while i < rows.len()
            invariant
                t.wf(),
                old(self).wf(),
                *self == mid,
                mid.phase@.len() == 4,
                mid == (SolutionDataset { phase: mid.phase, ..*old(self) }),
                forall|q: int| 0 <= q < 4 && q != p ==> #[trigger] mid.phase@[q] == old(self).phase@[q],
                start == old(self).phase@[p as int],
                p < 4,
                tag@ == phase_tag(p as int),
                i <= rows@.len(),
                forall|j: int|
                    0 <= j < i && is_row(rows@[j], phase_tag(p as int)) ==> phase_row_ok(#[trigger] rows@[j]),
                forall|j: int|
                    0 <= j < i && is_row(rows@[j], phase_tag(p as int)) ==> t.ids().contains(
                        #[trigger] i64_field(rows@[j], "interval_id"@)->Some_0,
                    ),
                forall|id: i64|
                    #[trigger] t.lookup(id) is Some ==> start.lookup(id) == t.lookup(id) || exists|j: int|
                        0 <= j < i && is_row(rows@[j], phase_tag(p as int)) && i64_field(rows@[j], "interval_id"@)
                            == Some(id) && exists|e: Phase|
                            phase_matches(e, #[trigger] rows@[j]) && t.lookup(id) == Some(phase_entry(p as int, e)),
            decreases rows@.len() - i,
        {
            let row = &rows[i];
            if row.is(tag) {
                let e = match parse_phase(row) {
                    Ok(e) => e,
                    Err(err) => {
                        assert(!phase_row_ok(rows@[i as int]));
                        self.phase.set(p, t);
                        assert(self.phase@ =~= old(self).phase@.update(p as int, t));
                        return Err(err);
                    },
                };
                let id = e.interval_id;
                let entry = if p == 0 {
                    PhaseType::LT(e)
                } else if p == 1 {
                    PhaseType::PASA(e)
                } else if p == 2 {
                    PhaseType::MT(e)
                } else {
                    PhaseType::ST(e)
                };
                let ghost before = t;
                t.insert(id, entry);
                proof {
                    lemma_ids_contains(before, t, id);
                    assert(phase_matches(e, rows@[i as int]) && t.lookup(id) == Some(phase_entry(p as int, e)));
                }
            }
            i = i + 1;
        }
        self.phase.set(p, t);
        proof {
            assert(self.phase@ =~= old(self).phase@.update(p as int, t));
        }
        Ok(())
    }
    /// Adds the record of every row of the `k`-th period table, under its
    /// identifier; a later row replaces an earlier one with the same
    /// identifier.
    pub fn ingest_period(&mut self, k: usize, rows: &Vec<XmlRow>) -> (r: Result<(), LoadError>)
        requires
            old(self).wf(),
            k < 7,
        ensures
            final(self).wf(),
            r matches Err(e) ==> is_field_error(e),
            r is Ok <==> forall|j: int|
                0 <= j < rows@.len() && is_row(rows@[j], period_tag(k as int)) ==> period_row_ok(
                    k as int,
                    #[trigger] rows@[j],
                ),
            r is Ok ==> *final(self) == (SolutionDataset { period: final(self).period, ..*old(self) }),
            r is Ok ==> forall|q: int| 0 <= q < 7 && q != k ==> #[trigger] final(self).period@[q] == old(self).period@[q],
            r is Ok ==> period_loaded(k as int, old(self).period@[k as int], final(self).period@[k as int], rows@),
    {
        let tag = period_tag_text(k);
        let mut t: IdTable<PeriodType> = IdTable::new();
        std::mem::swap(&mut t, &mut self.period[k]);
        let ghost start = t;
        let ghost mid = *self;
        let mut i: usize = 0;
        while i < rows.len()
            invariant
                t.wf(),
                old(self).wf(),
                *self == mid,
                mid.period@.len() == 7,
                mid == (SolutionDataset { period: mid.period, ..*old(self) }),
                forall|q: int| 0 <= q < 7 && q != k ==> #[trigger] mid.period@[q] == old(self).period@[q],
                start == old(self).period@[k as int],
                k < 7,
                tag@ == period_tag(k as int),
                i <= rows@.len(),
                forall|j: int|
                    0 <= j < i && is_row(rows@[j], period_tag(k as int)) ==> period_row_ok(k as int, #[trigger] rows@[j]),
                forall|j: int|
                    0 <= j < i && is_row(rows@[j], period_tag(k as int)) ==> t.ids().contains(
                        #[trigger] i64_field(rows@[j], period_id_field(k as int))->Some_0,
                    ),
                forall|id: i64|
                    #[trigger] t.lookup(id) is Some ==> start.lookup(id) == t.lookup(id) || exists|j: int|
                        0 <= j < i && is_row(rows@[j], period_tag(k as int)) && i64_field(
                            rows@[j],
                            period_id_field(k as int),
                        ) == Some(id) && period_matches(k as int, t.lookup(id)->Some_0, #[trigger] rows@[j]),
            decreases rows@.len() - i,
        {
            let row = &rows[i];
            if row.is(tag) {
                let (id, entry) = match parse_period_entry(k, row) {
                    Ok(v) => v,
                    Err(err) => {
                        assert(!period_row_ok(k as int, rows@[i as int]));
                        self.period.set(k, t);
                        assert(self.period@ =~= old(self).period@.update(k as int, t));
                        return Err(err);
                    },
                };
                let ghost before = t;
                t.insert(id, entry);
                proof {
                    lemma_ids_contains(before, t, id);
                }
            }
            i = i + 1;
        }
        self.period.set(k, t);
        proof {
            assert(self.period@ =~= old(self).period@.update(k as int, t));
        }
        Ok(())
    }

    /// Adds every `t_band` row's band.
    pub fn ingest_band(&mut self, rows: &Vec<XmlRow>) -> (r: Result<(), LoadError>)
        requires
            old(self).wf(),
        ensures
            final(self).wf(),
            r matches Err(e) ==> is_field_error(e),
            r is Ok <==> forall|j: int|
                0 <= j < rows@.len() && is_row(rows@[j], "t_band"@) ==> (#[trigger] i64_field(rows@[j], "band_id"@)) is Some,
            r is Ok ==> *final(self) == (SolutionDataset { band: final(self).band, ..*old(self) }),
            r is Ok ==> band_loaded(old(self).band, final(self).band, rows@),
    {
        let mut i: usize = 0;
        while i < rows.len()
            invariant
                self.wf(),
                i <= rows@.len(),
                *self == (SolutionDataset { band: self.band, ..*old(self) }),
                forall|j: int|
                    0 <= j < i && is_row(rows@[j], "t_band"@) ==> (#[trigger] i64_field(rows@[j], "band_id"@)) is Some,
                forall|id: i64|
                    #[trigger] self.band.lookup(id) is Some <==> (old(self).band.lookup(id) is Some || exists|j: int|
                        0 <= j < i && is_row(rows@[j], "t_band"@) && #[trigger] i64_field(rows@[j], "band_id"@)
                            == Some(id)),
                forall|id: i64|
                    #[trigger] self.band.lookup(id) is Some ==> self.band.lookup(id) == Some(id) || self.band.lookup(id)
                        == old(self).band.lookup(id),
            decreases rows@.len() - i,
        {
            let row = &rows[i];
            if row.is("t_band") {
                let id = match row.get_i64("band_id") {
                    Ok(id) => id,
                    Err(e) => {
                        assert(i64_field(rows@[i as int], "band_id"@) is None);
                        return Err(e);
                    },
                };
                assert(i64_field(rows@[i as int], "band_id"@) == Some(id));
                self.band.insert(id, id);
            }
            i = i + 1;
        }
        Ok(())
    }

    /// Appends the record of every `t_memo_object` row, in row order.
    pub fn ingest_memo_object(&mut self, rows: &Vec<XmlRow>) -> (r: Result<(), LoadError>)
        requires
            old(self).wf(),
        ensures
            final(self).wf(),
            r matches Err(e) ==> is_field_error(e),
            r is Ok <==> forall|j: int|
                0 <= j < rows@.len() && is_row(rows@[j], "t_memo_object"@) ==> memo_object_row_ok(#[trigger] rows@[j]),
            r is Ok ==> *final(self) == (SolutionDataset { memo_object: final(self).memo_object, ..*old(self) }),
            r is Ok ==> memo_object_loaded(old(self).memo_object@, final(self).memo_object@, rows@),
    {
        let ghost pred = |x: XmlRow| is_row(x, "t_memo_object"@);
        let mut i: usize = 0;
        while i < rows.len()
            invariant
                self.wf(),
                i <= rows@.len(),
                *self == (SolutionDataset { memo_object: self.memo_object, ..*old(self) }),
                pred == (|x: XmlRow| is_row(x, "t_memo_object"@)),
                forall|j: int|
                    0 <= j < i && is_row(rows@[j], "t_memo_object"@) ==> memo_object_row_ok(#[trigger] rows@[j]),
                self.memo_object@.len() == old(self).memo_object@.len() + rows@.take(i as int).filter(pred).len(),
                forall|q: int| 0 <= q < old(self).memo_object@.len() ==> #[trigger] self.memo_object@[q] == old(self).memo_object@[q],
                forall|q: int|
                    0 <= q < rows@.take(i as int).filter(pred).len() ==> memo_object_matches(
                        #[trigger] self.memo_object@[old(self).memo_object@.len() + q],
                        rows@.take(i as int).filter(pred)[q],
                    ),
            decreases rows@.len() - i,
        {
            let row = &rows[i];
            proof {
                assert(rows@.take(i + 1) =~= rows@.take(i as int).push(rows@[i as int]));
                rows@.take(i as int).lemma_filter_push(rows@[i as int], pred);
            }
            if row.is("t_memo_object") {
                let v = match parse_memo_object(row) {
                    Ok(v) => v,
                    Err(e) => {
                        assert(!memo_object_row_ok(rows@[i as int]));
                        return Err(e);
                    },
                };
                self.memo_object.push(v);
            }
            i = i + 1;
        }
        assert(rows@.take(i as int) =~= rows@);
        Ok(())
    }
    /// Sets the value of every `t_config` row's element; the entries stay in
    /// ascending element order, one per element, and a later row replaces an
    /// earlier one.
    pub fn ingest_config(&mut self, rows: &Vec<XmlRow>) -> (r: Result<(), LoadError>)
        requires
            old(self).wf(),
        ensures
            final(self).wf(),
            r matches Err(e) ==> is_field_error(e),
            config_ordered(final(self).config@),
            r is Ok <==> forall|j: int|
                0 <= j < rows@.len() && is_row(rows@[j], "t_config"@) ==> (#[trigger] text_field(rows@[j], "element"@)) is Some,
            r is Ok ==> *final(self) == (SolutionDataset { config: final(self).config, ..*old(self) }),
            r is Ok ==> forall|j: int|
                0 <= j < rows@.len() && is_row(rows@[j], "t_config"@) ==> exists|q: int|
                    0 <= q < final(self).config@.len() && final(self).config@[q].0@ == #[trigger] text_field(
                        rows@[j],
                        "element"@,
                    )->Some_0,
            r is Ok ==> config_loaded(final(self).config@, rows@, rows@.len() as int),
    {
        let mut i: usize = 0;
        while i < rows.len()
            invariant
                self.wf(),
                i <= rows@.len(),
                config_ordered(self.config@),
                *self == (SolutionDataset { config: self.config, ..*old(self) }),
                forall|j: int|
                    0 <= j < i && is_row(rows@[j], "t_config"@) ==> (#[trigger] text_field(rows@[j], "element"@)) is Some,
                forall|j: int|
                    0 <= j < i && is_row(rows@[j], "t_config"@) ==> exists|q: int|
                        0 <= q < self.config@.len() && self.config@[q].0@ == #[trigger] text_field(
                            rows@[j],
                            "element"@,
                        )->Some_0,
                config_loaded(self.config@, rows@, i as int),
            decreases rows@.len() - i,
        {
            let row = &rows[i];
            if row.is("t_config") {
                let element = match row.get_string("element") {
                    Ok(e) => e,
                    Err(e) => {
                        assert(text_field(rows@[i as int], "element"@) is None);
                        return Err(e);
                    },
                };
                let value = row.opt_string("value");
                let ghost before = self.config@;
                set_config(&mut self.config, element, value);
                proof {
                    assert forall|j: int|
                        0 <= j < i + 1 && is_row(rows@[j], "t_config"@) implies exists|q: int|
                        0 <= q < self.config@.len() && self.config@[q].0@ == #[trigger] text_field(
                            rows@[j],
                            "element"@,
                        )->Some_0 by {
                        if j < i {
                            let q0 = choose|q: int| 0 <= q < before.len() && before[q].0@ == text_field(rows@[j], "element"@)->Some_0;
                            assert(self.config@.to_set().contains(before[q0]) || exists|q: int| 0 <= q < self.config@.len() && self.config@[q].0@ == before[q0].0@);
                        }
                    }
                    let el = text_field(rows@[i as int], "element"@)->Some_0;
                    assert forall|j: int|
                        0 <= j < rows@.len() && is_row(rows@[j], "t_config"@) && #[trigger] last_config(
                            rows@,
                            text_field(rows@[j], "element"@)->Some_0,
                            i + 1,
                        ) == j implies exists|q: int|
                        0 <= q < self.config@.len() && self.config@[q].0@ == text_field(rows@[j], "element"@)->Some_0
                            && opt_text(self.config@[q].1) == text_field(rows@[j], "value"@) by {
                        let ej = text_field(rows@[j], "element"@)->Some_0;
                        if j != i {
                            assert(ej != el);
                            assert(last_config(rows@, ej, i as int) == j);
                            let q0 = choose|q: int|
                                0 <= q < before.len() && before[q].0@ == ej && opt_text(before[q].1) == text_field(
                                    rows@[j],
                                    "value"@,
                                );
                            let q1 = choose|q: int| 0 <= q < self.config@.len() && #[trigger] self.config@[q] == before[q0];
                            assert(self.config@[q1].0@ == ej);
                        } else {
                            let q1 = choose|q: int|
                                0 <= q < self.config@.len() && self.config@[q].0@ == el && self.config@[q].1 == value;
                            assert(self.config@[q1].0@ == ej);
                        }
                    }
                }
            } else {
                proof {
                    assert forall|j: int|
                        0 <= j < rows@.len() && is_row(rows@[j], "t_config"@) && #[trigger] last_config(
                            rows@,
                            text_field(rows@[j], "element"@)->Some_0,
                            i + 1,
                        ) == j implies exists|q: int|
                        0 <= q < self.config@.len() && self.config@[q].0@ == text_field(rows@[j], "element"@)->Some_0
                            && opt_text(self.config@[q].1) == text_field(rows@[j], "value"@) by {
                        assert(last_config(rows@, text_field(rows@[j], "element"@)->Some_0, i as int) == j);
                    }
                }
            }
            i = i + 1;
        }
        Ok(())
    }
}

/// The position of the last of the first `n` rows that is a `t_config` row of
/// element `e`, or -1.
pub open spec fn last_config(rows: Seq<XmlRow>, e: Seq<char>, n: int) -> int
    decreases n,
{
    if n <= 0 {
        -1
    } else if is_row(rows[n - 1], "t_config"@) && text_field(rows[n - 1], "element"@) == Some(e) {
        n - 1
    } else {
        last_config(rows, e, n - 1)
    }
}

/// Among the first `n` rows, the last `t_config` row of each element gives
/// that element's entry its value (absent where the row has no value).
pub open spec fn config_loaded(config: Seq<(String, Option<String>)>, rows: Seq<XmlRow>, n: int) -> bool {
    forall|j: int|
        0 <= j < rows.len() && is_row(rows[j], "t_config"@) && #[trigger] last_config(
            rows,
            text_field(rows[j], "element"@)->Some_0,
            n,
        ) == j ==> exists|q: int|
            0 <= q < config.len() && config[q].0@ == text_field(rows[j], "element"@)->Some_0 && opt_text(config[q].1)
                == text_field(rows[j], "value"@)
}

/// The configuration entries are in strictly ascending element order.
pub open spec fn config_ordered(c: Seq<(String, Option<String>)>) -> bool {
    forall|a: int, b: int| 0 <= a < b < c.len() ==> text_less(c[a].0@, c[b].0@)
}

/// Sets the value of `element`, keeping the entries in ascending element
/// order.
fn set_config(config: &mut Vec<(String, Option<String>)>, element: String, value: Option<String>)
    requires
        config_ordered(old(config)@),
    ensures
        config_ordered(final(config)@),
        exists|q: int| 0 <= q < final(config)@.len() && final(config)@[q].0@ == element@ && final(config)@[q].1 == value,
        forall|p: int|
            0 <= p < old(config)@.len() && old(config)@[p].0@ != element@ ==> exists|q: int|
                0 <= q < final(config)@.len() && #[trigger] final(config)@[q] == old(config)@[p],
        forall|p: int|
            0 <= p < old(config)@.len() ==> exists|q: int|
                0 <= q < final(config)@.len() && final(config)@[q].0@ == (#[trigger] old(config)@[p]).0@,
{
    let mut k: usize = 0;
    while k < config.len() && name_less(config[k].0.as_str(), element.as_str())
        invariant
            k <= config@.len(),
            config_ordered(config@),
            forall|j: int| 0 <= j < k ==> text_less(config@[j].0@, element@),
        decreases config@.len() - k,
    {
        k = k + 1;
    }
    let ghost before = config@;
    let ghost gv = value;
    if k < config.len() && config[k].0 == element {
        config.set(k, (element, value));
        proof {
            assert(config@[k as int].1 == gv);
            assert forall|a: int, b: int| 0 <= a < b < config@.len() implies text_less(config@[a].0@, config@[b].0@) by {
                assert(config@[a].0@ == before[a].0@);
                assert(config@[b].0@ == before[b].0@);
            }
            assert forall|p: int|
                0 <= p < before.len() && before[p].0@ != element@ implies exists|q: int|
                    0 <= q < config@.len() && #[trigger] config@[q] == before[p] by {
                assert(config@[p] == before[p]);
            }
            assert forall|p: int|
                0 <= p < before.len() implies exists|q: int|
                    0 <= q < config@.len() && config@[q].0@ == (#[trigger] before[p]).0@ by {
                assert(config@[p].0@ == before[p].0@);
            }
        }
    } else {
        proof {
            if k < before.len() {
                lemma_text_less_total(element@, before[k as int].0@);
            }
        }
        let ghost ev = element@;
        config.insert(k, (element, value));
        proof {
            assert(config@[k as int].1 == gv);
            assert forall|a: int, b: int| 0 <= a < b < config@.len() implies text_less(config@[a].0@, config@[b].0@) by {
                if b < k {
                } else if b == k {
                } else if a < k {
                    assert(config@[b] == before[b - 1]);
                    if b - 1 > k {
                        lemma_text_less_trans(config@[a].0@, ev, before[k as int].0@);
                        lemma_text_less_trans(config@[a].0@, before[k as int].0@, before[b - 1].0@);
                    } else {
                        lemma_text_less_trans(config@[a].0@, ev, before[k as int].0@);
                    }
                } else if a == k {
                    assert(config@[b] == before[b - 1]);
                    if b - 1 > k {
                        lemma_text_less_trans(ev, before[k as int].0@, before[b - 1].0@);
                    }
                } else {
                    assert(config@[a] == before[a - 1]);
                    assert(config@[b] == before[b - 1]);
                }
            }
            assert(config@[k as int].0@ == ev);
            assert forall|p: int|
                0 <= p < before.len() && before[p].0@ != ev implies exists|q: int|
                    0 <= q < config@.len() && #[trigger] config@[q] == before[p] by {
                if p < k {
                    assert(config@[p] == before[p]);
                } else {
                    assert(config@[p + 1] == before[p]);
                }
            }
            assert forall|p: int|
                0 <= p < before.len() implies exists|q: int|
                    0 <= q < config@.len() && config@[q].0@ == (#[trigger] before[p]).0@ by {
                if p < k {
                    assert(config@[p] == before[p]);
                } else {
                    assert(config@[p + 1] == before[p]);
                }
            }
        }
    }
}

} // verus!
