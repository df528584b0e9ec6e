use plexos2duckdb::archive::{is_valid_bin_filename, select_xml_entry, XmlFallback};
use plexos2duckdb::catalog::{Entity, LoadError, SolutionDataset};
use plexos2duckdb::rows::{table_rows, DataError, DataRow, TableWriter};

fn catalog(extra: &str) -> String {
    format!(
        "<SolutionDataset>\
         <t_class><class_id>1</class_id><name>System</name><class_group_id>1</class_group_id><lang_id>0</lang_id></t_class>\
         <t_class><class_id>2</class_id><name>Generator</name><class_group_id>1</class_group_id><lang_id>0</lang_id></t_class>\
         <t_category><category_id>1</category_id><class_id>2</class_id><rank>0</rank><name>Thermal</name></t_category>\
         <t_object><object_id>1</object_id><class_id>1</class_id><name>System</name><category_id>1</category_id><index>0</index><show>true</show></t_object>\
         <t_object><object_id>2</object_id><class_id>2</class_id><name>Gen A</name><category_id>1</category_id><index>1</index><show>true</show></t_object>\
         <t_collection><collection_id>5</collection_id><parent_class_id>1</parent_class_id><child_class_id>2</child_class_id><name>Generators</name><lang_id>0</lang_id></t_collection>\
         <t_membership><membership_id>10</membership_id><parent_class_id>1</parent_class_id><child_class_id>2</child_class_id><collection_id>5</collection_id><parent_object_id>1</parent_object_id><child_object_id>2</child_object_id></t_membership>\
         <t_property><property_id>3</property_id><name>Generation</name><summary_name>Generation Total</summary_name><enum_id>1</enum_id><unit_id>1</unit_id><summary_unit_id>1</summary_unit_id><is_multi_band>false</is_multi_band><is_period>true</is_period><is_summary>true</is_summary><collection_id>5</collection_id><lang_id>0</lang_id></t_property>\
         <t_unit><unit_id>1</unit_id><value>MW</value><lang_id>0</lang_id></t_unit>\
         <t_period_0><interval_id>1</interval_id><hour_id>1</hour_id><day_id>1</day_id><week_id>1</week_id><month_id>1</month_id><fiscal_year_id>1</fiscal_year_id><datetime>01/01/2024 00:00:00</datetime><period_of_day>1</period_of_day></t_period_0>\
         <t_phase_1><interval_id>1</interval_id><period_id>1</period_id></t_phase_1>\
         {extra}\
         </SolutionDataset>"
    )
}

fn key(id: i64, period_type_id: i64) -> String {
    format!(
        "<t_key><key_id>{id}</key_id><membership_id>10</membership_id><model_id>1</model_id><phase_id>1</phase_id>\
         <property_id>3</property_id><period_type_id>{period_type_id}</period_type_id><band_id>1</band_id>\
         <sample_id>1</sample_id><timeslice_id>0</timeslice_id></t_key>"
    )
}

fn key_index(id: i64, position: u64, length: u64, offset: i64) -> String {
    format!(
        "<t_key_index><key_id>{id}</key_id><period_type_id>0</period_type_id><position>{position}</position>\
         <length>{length}</length><period_offset>{offset}</period_offset></t_key_index>"
    )
}

fn load(extra: &str) -> SolutionDataset {
    SolutionDataset::new().with_period_data(vec![0]).with_xml_string(&catalog(extra)).unwrap()
}

fn bin(values: &[f64]) -> Vec<u8> {
    values.iter().flat_map(|v| v.to_le_bytes()).collect()
}

fn write_table(ds: &SolutionDataset, key_ids: &Vec<i64>, file: &[u8]) -> Result<Vec<DataRow>, DataError> {
    let mut w = TableWriter::new(ds, key_ids)?;
    let mut rows = Vec::new();
    while !w.is_done() {
        let c = w.next_chunk();
        let start = c.offset as usize;
        let chunk = file[start..start + 8 * c.values as usize].to_vec();
        rows.extend(w.accept(&chunk));
    }
    Ok(rows)
}

const TABLE: &str = "LT__Interval__System_Generators__Generation";

#[test]
fn s1_interval_key_rows() {
    let ds = load(&(key(7, 0) + &key_index(7, 0, 2, 0)));
    assert_eq!(ds.table_key_index_mapping.len(), 1);
    let g = &ds.table_key_index_mapping[0];
    assert_eq!(g.table_name, TABLE);
    assert_eq!(g.key_ids, vec![7]);
    let rows = write_table(&ds, &g.key_ids, &bin(&[1.5, 2.5])).unwrap();
    assert_eq!(rows.len(), 2);
    let r: Vec<(i64, i64, i64, i64, i64, f64)> = rows
        .iter()
        .map(|r| (r.key_id, r.sample_id, r.band_id, r.membership_id, r.block_id, f64::from_bits(r.value_bits)))
        .collect();
    assert_eq!(r, vec![(7, 1, 1, 10, 1, 1.5), (7, 1, 1, 10, 2, 2.5)]);
    assert_eq!(ds.timestamp_block.len(), 1);
    assert_eq!(ds.timestamp_block[0].name, "LT__Interval");
    assert_eq!(ds.timestamp_block[0].entries[0].0.seconds, 1704067200);
    assert_eq!(ds.timestamp_block[0].entries[0].1, 1);
}

#[test]
fn s2_misaligned_position() {
    let ds = load(&(key(7, 0) + &key_index(7, 3, 2, 0)));
    let r = write_table(&ds, &vec![7], &bin(&[0.0, 1.0, 2.0]));
    assert_eq!(r, Err(DataError::Misaligned { key_id: 7, position: 3 }));
}

#[test]
fn s3_zero_length_table() {
    let ds = load(&(key(7, 0) + &key_index(7, 0, 0, 0)));
    assert_eq!(ds.table_key_index_mapping.len(), 1);
    let rows = write_table(&ds, &vec![7], &[]).unwrap();
    assert!(rows.is_empty());
}

#[test]
fn s4_two_offsets_one_table() {
    let ds = load(&(key(7, 0) + &key(8, 0) + &key_index(7, 0, 3, 5) + &key_index(8, 24, 3, 10)));
    assert_eq!(ds.table_key_index_mapping.len(), 1);
    let g = &ds.table_key_index_mapping[0];
    assert_eq!(g.key_ids, vec![7, 8]);
    let rows = write_table(&ds, &g.key_ids, &bin(&[1.0, 2.0, 3.0, 4.0, 5.0, 6.0])).unwrap();
    let blocks: Vec<i64> = rows.iter().map(|r| r.block_id).collect();
    assert_eq!(blocks, vec![6, 7, 8, 11, 12, 13]);
    let values: Vec<f64> = rows.iter().map(|r| f64::from_bits(r.value_bits)).collect();
    assert_eq!(values, vec![1.0, 2.0, 3.0, 4.0, 5.0, 6.0]);
}

#[test]
fn s5_selects_xml_named_after_archive() {
    let names = vec!["Foo.xml".to_string(), "bar.xml".to_string()];
    let c = select_xml_entry(&names, "Foo", "").unwrap();
    assert_eq!(c.index, 0);
    assert_eq!(c.fallback, XmlFallback::Named);
}

#[test]
fn s6_summary_and_plain_keys_get_two_tables() {
    let ds = load(&(key(7, 0) + &key(8, 1) + &key_index(7, 0, 1, 0) + &key_index(8, 8, 1, 0)));
    let mut names: Vec<String> = ds.table_key_index_mapping.iter().map(|g| g.table_name.clone()).collect();
    names.sort();
    assert_eq!(
        names,
        vec![
            "LT__Interval__System_Generators__Generation".to_string(),
            "LT__Interval__System_Generators__Generation_Total".to_string(),
        ]
    );
}

#[test]
fn xml_selection_falls_back_to_model_name_then_first() {
    let names = vec!["a.txt".to_string(), "Other.XML".to_string(), "Model Base Solution.xml".to_string()];
    let c = select_xml_entry(&names, "Archive", "BASE").unwrap();
    assert_eq!((c.index, c.fallback), (2, XmlFallback::ModelName));
    let c = select_xml_entry(&names, "Archive", "none").unwrap();
    assert_eq!((c.index, c.fallback), (1, XmlFallback::FirstXml));
    assert!(select_xml_entry(&vec!["a.txt".to_string()], "a", "").is_none());
}

#[test]
fn bin_file_names() {
    assert_eq!(is_valid_bin_filename("t_data_0.BIN"), Some(0));
    assert_eq!(is_valid_bin_filename("t_data_12.BIN"), Some(12));
    assert_eq!(is_valid_bin_filename("t_data_.BIN"), None);
    assert_eq!(is_valid_bin_filename("x_t_data_1.BIN"), None);
    assert_eq!(is_valid_bin_filename("t_data_1.bin"), None);
    assert_eq!(is_valid_bin_filename("t_data_99999999999999999999.BIN"), None);
}

#[test]
fn property_band_is_largest_key_band() {
    let k = |id: i64, band: i64| {
        format!(
            "<t_key><key_id>{id}</key_id><membership_id>10</membership_id><model_id>1</model_id><phase_id>1</phase_id>\
             <property_id>3</property_id><period_type_id>0</period_type_id><band_id>{band}</band_id>\
             <sample_id>1</sample_id><timeslice_id>0</timeslice_id></t_key>"
        )
    };
    let ds = load(&(k(1, 2) + &k(2, 5) + &k(3, 4)));
    assert_eq!(ds.property.get(3).unwrap().band_id, 5);
}

#[test]
fn memberships_are_numbered_per_collection() {
    let m = |id: i64, c: i64| {
        format!(
            "<t_membership><membership_id>{id}</membership_id><parent_class_id>1</parent_class_id><child_class_id>2</child_class_id>\
             <collection_id>{c}</collection_id><parent_object_id>1</parent_object_id><child_object_id>2</child_object_id></t_membership>"
        )
    };
    let extra = "<t_collection><collection_id>6</collection_id><parent_class_id>2</parent_class_id><child_class_id>2</child_class_id>\
                 <name>Links</name><complement_name>Gen</complement_name><lang_id>0</lang_id></t_collection>"
        .to_string()
        + &m(11, 6)
        + &m(12, 5)
        + &m(13, 6);
    let ds = load(&extra);
    let idx: Vec<(i64, usize)> = [10, 11, 12, 13]
        .iter()
        .map(|id| (*id, ds.membership.get(*id).unwrap().collection_idx))
        .collect();
    assert_eq!(idx, vec![(10, 0), (11, 0), (12, 1), (13, 1)]);
    assert_eq!(ds.collection.get(5).unwrap().n_members, 2);
    assert_eq!(ds.collection.get(6).unwrap().n_members, 2);
    assert_eq!(ds.collection_name(6).unwrap(), "Gen_Links");
}

#[test]
fn membership_kind_follows_system_parent() {
    let extra = "<t_collection><collection_id>6</collection_id><parent_class_id>2</parent_class_id><child_class_id>2</child_class_id>\
                 <name>Links</name><lang_id>0</lang_id></t_collection>\
                 <t_membership><membership_id>11</membership_id><parent_class_id>2</parent_class_id><child_class_id>2</child_class_id>\
                 <collection_id>6</collection_id><parent_object_id>2</parent_object_id><child_object_id>2</child_object_id></t_membership>";
    let ds = load(extra);
    let m10 = ds.membership.get(10).unwrap();
    let m11 = ds.membership.get(11).unwrap();
    let r10 = ds.membership_record(m10).unwrap();
    let r11 = ds.membership_record(m11).unwrap();
    assert!(r10.is_object);
    assert!(!r11.is_object);
    assert_eq!(r10.collection, "System_Generators");
    assert_eq!(r11.collection, "Generator_Links");
    assert_eq!(r10.child_name, "Gen A");
    assert_eq!(r10.child_category, "Thermal");
    assert_eq!(r10.parent_class_name, "System");
}

#[test]
fn missing_and_invalid_fields() {
    let bad = SolutionDataset::new().with_xml_string(&catalog("<t_key><key_id>1</key_id></t_key>"));
    assert!(matches!(bad, Err(LoadError::MissingField { .. })));
    let bad = SolutionDataset::new().with_xml_string(&catalog(&key_index(1, 0, 1, 0).replace("<length>1", "<length>-1")));
    assert!(matches!(bad, Err(LoadError::InvalidValue { .. })));
    let bad = SolutionDataset::new().with_xml_string("<root><unclosed></root>");
    assert!(matches!(bad, Err(LoadError::Xml { .. })));
}

#[test]
fn unknown_reference_in_grouping() {
    let bad = SolutionDataset::new().with_xml_string(&catalog(&key_index(9, 0, 1, 0)));
    assert_eq!(bad.err(), Some(LoadError::UnknownReference { entity: Entity::Key, id: 9 }));
}

#[test]
fn unknown_period_file_and_overflow() {
    let ds = SolutionDataset::new().with_xml_string(&catalog(&(key(7, 0) + &key_index(7, 0, 1, 0)))).unwrap();
    let r = TableWriter::new(&ds, &vec![7]).err();
    assert_eq!(r, Some(DataError::UnknownPeriodType { key_id: 7, period_type_id: 0 }));
    let ds = load(&(key(7, 0) + &key_index(7, 0, 2, i64::MAX)));
    assert_eq!(TableWriter::new(&ds, &vec![7]).err(), Some(DataError::Overflow { key_id: 7 }));
    assert_eq!(TableWriter::new(&ds, &vec![99]).err(), Some(DataError::UnknownKey { key_id: 99 }));
}

#[test]
fn builders_keep_non_empty_values() {
    let ds = SolutionDataset::new().with_model_name("Base".to_string()).with_model_name(String::new());
    assert_eq!(ds.model_name, "Base");
    let ds = ds.with_simulation_log(String::new()).with_run_stats("{}".to_string());
    assert_eq!(ds.simulation_log, None);
    assert_eq!(ds.run_stats, Some("{}".to_string()));
}

#[test]
fn display_names_of_objects_and_memberships() {
    let ds = load("");
    assert_eq!(ds.object_name(2).unwrap(), "Generator_Thermal_Gen A");
    assert_eq!(ds.membership_name(10).unwrap(), "System_Generators_System_Generator_System_Gen A");
    assert_eq!(ds.object_name(99).err(), Some(LoadError::UnknownReference { entity: Entity::Object, id: 99 }));
    let phase = ds.phase[0].row_at(0);
    assert_eq!(phase.name(), "LT");
    assert_eq!((phase.interval_id(), phase.period_id()), (1, 1));
    let period = ds.period[0].row_at(0);
    assert_eq!(period.name(), "Interval");
    assert_eq!(period.datetime().seconds, 1704067200);
    let p = ds.property.get(3).unwrap();
    assert_eq!(p.summary_name(), "Generation Total");
    assert_eq!(p.property_name(), "Generation");
}

#[test]
fn bands_and_config_entries() {
    let ds = load(
        "<t_band><band_id>2</band_id></t_band><t_band><band_id>1</band_id></t_band>\
         <t_config><element>Zeta</element><value>1</value></t_config>\
         <t_config><element>Alpha</element></t_config>\
         <t_config><element>Zeta</element><value>2</value></t_config>",
    );
    assert_eq!(ds.band.len(), 2);
    assert_eq!((ds.band.id_at(0), ds.band.id_at(1)), (1, 2));
    assert_eq!(ds.config, vec![("Alpha".to_string(), None), ("Zeta".to_string(), Some("2".to_string()))]);
}

#[test]
fn table_rows_from_period_data_in_memory() {
    let ds = load(&(key(7, 0) + &key(8, 0) + &key_index(7, 0, 3, 5) + &key_index(8, 24, 3, 10)));
    let files = vec![(0i64, bin(&[1.0, 2.0, 3.0, 4.0, 5.0, 6.0]))];
    let rows = table_rows(&ds, &vec![7, 8], &files).unwrap();
    let got: Vec<(i64, i64, f64)> = rows.iter().map(|r| (r.key_id, r.block_id, f64::from_bits(r.value_bits))).collect();
    assert_eq!(
        got,
        vec![(7, 6, 1.0), (7, 7, 2.0), (7, 8, 3.0), (8, 11, 4.0), (8, 12, 5.0), (8, 13, 6.0)]
    );
    let short = vec![(0i64, bin(&[1.0, 2.0, 3.0, 4.0]))];
    assert_eq!(table_rows(&ds, &vec![7, 8], &short), Err(DataError::ShortRead { key_id: 8 }));
    assert_eq!(table_rows(&ds, &vec![7, 8], &vec![]), Err(DataError::ShortRead { key_id: 7 }));
}

#[test]
fn absent_optional_fields_load_as_none() {
    let extra = "<t_collection><collection_id>6</collection_id><parent_class_id>2</parent_class_id><child_class_id>2</child_class_id>\
                 <name>Links</name><lang_id>0</lang_id></t_collection>\
                 <t_config><element>Flag</element></t_config>";
    let ds = load(extra);
    assert_eq!(ds.collection.get(6).unwrap().complement_name, None);
    assert_eq!(ds.object.get(2).unwrap().guid, None);
    assert_eq!(ds.config, vec![("Flag".to_string(), None)]);
}

#[test]
fn field_errors_name_the_field() {
    let bad = SolutionDataset::new().with_xml_string(&catalog("<t_key><key_id>1</key_id></t_key>"));
    assert_eq!(
        bad.err(),
        Some(LoadError::MissingField { tag: "t_key".to_string(), field: "membership_id".to_string() })
    );
    let bad = SolutionDataset::new().with_xml_string(&catalog(&key_index(1, 0, 1, 0).replace("<length>1", "<length>x")));
    assert_eq!(
        bad.err(),
        Some(LoadError::InvalidValue { tag: "t_key_index".to_string(), field: "length".to_string() })
    );
}
