use distringo::dataset::project_record;
use distringo::tabular::{parse_record, record_logrecno};
use distringo::{
    Dataset, Error, Field, FileType, TableSegmentLocation, GeographicalHeader, GeographicalHeaderIndex, IndexedDataset,
    LogicalRecord, LogicalRecordPositionIndex, Pl94_171Layout, Table, TabularIndexer,
};

const PACKING_LIST: &str = "STUSAB: IN
ingeo2010.pl|2011-02-03|1500|3|
in000012010.pl|2011-02-03|100|3|
in000022010.pl|2011-02-03|100|3|
p1|1:2|
p2|1:1 2:2|
h1|2:1|
";

/// The lines of a file, each with the byte offset where it starts.
fn with_offsets(lines: &[String]) -> Vec<(u64, String)> {
    let mut offset = 0u64;
    let mut out = Vec::new();
    for l in lines {
        out.push((offset, l.clone()));
        offset += l.len() as u64;
    }
    out
}

fn tabular_lines(file: u32) -> Vec<String> {
    (1..=3u64)
        .map(|n| {
            let base = if file == 1 { n * 10 } else { 100 + n * 10 };
            format!(
                "PLST,IN,000,0{},{:07},{},{},{}\n",
                file,
                n,
                base + 1,
                base + 2,
                base + 3
            )
        })
        .collect()
}

fn put(cells: &mut [char], field: Field, text: &str) {
    let (a, _) = Pl94_171Layout::get_span(field);
    for (i, c) in text.chars().enumerate() {
        cells[a + i] = c;
    }
}

fn header_line(n: u64, sumlev: &str, county: &str, tract: &str, block: &str, name: &str) -> String {
    let mut cells = vec![' '; 500];
    put(&mut cells, Field::FILEID, "PLST");
    put(&mut cells, Field::STUSAB, "IN");
    put(&mut cells, Field::SUMLEV, sumlev);
    put(&mut cells, Field::LOGRECNO, &format!("{:07}", n));
    put(&mut cells, Field::STATE, "18");
    put(&mut cells, Field::COUNTY, county);
    put(&mut cells, Field::TRACT, tract);
    put(&mut cells, Field::BLOCK, block);
    put(&mut cells, Field::NAME, name);
    let mut line: String = cells.into_iter().collect();
    line.push('\n');
    line
}

fn header_lines() -> Vec<String> {
    vec![
        header_line(1, "040", "", "", "", "Indiana"),
        header_line(2, "750", "157", "005200", "1013", "Block 1013"),
        header_line(3, "750", "157", "005200", "1014", "Block 1014"),
    ]
}

fn index_tabular(file: u32) -> LogicalRecordPositionIndex {
    let mut indexer = TabularIndexer::new(file, 3);
    for (offset, line) in with_offsets(&tabular_lines(file)) {
        indexer.add_line(offset, line.as_bytes()).unwrap();
    }
    indexer.finish().unwrap()
}

fn index_header() -> GeographicalHeaderIndex {
    let mut index = GeographicalHeaderIndex::new();
    for (offset, line) in with_offsets(&header_lines()) {
        index.add_line(offset, &line).unwrap();
    }
    index
}

fn dataset() -> IndexedDataset {
    IndexedDataset::new("in2010-pl94_171".to_string())
        .unpack(PACKING_LIST, None)
        .unwrap()
        .index(vec![index_tabular(1), index_tabular(2)], index_header())
        .unwrap()
}

/// The line of tabular file `file` that starts at `offset`.
fn read_at(file: u32, offset: u64) -> Vec<u8> {
    with_offsets(&tabular_lines(file))
        .into_iter()
        .find(|(o, _)| *o == offset)
        .map(|(_, l)| l.into_bytes())
        .unwrap()
}

fn retrieve(ds: &IndexedDataset, n: u64, tables: &Vec<Table>) -> Result<Vec<String>, Error> {
    let plan = ds.plan_logical_record(n, tables)?;
    let lines: Vec<Vec<u8>> = plan.iter().map(|(f, o)| read_at(*f, *o)).collect();
    ds.get_logical_record(n, tables, &lines)
}

#[test]
fn full_record_retrieval() {
    let ds = dataset();
    let record = retrieve(&ds, 2, &vec![Table::P1, Table::P2, Table::H1]).unwrap();
    assert_eq!(record, vec!["21", "22", "23", "121", "122", "123"]);
}

#[test]
fn table_split_across_files_is_composed_in_order() {
    let ds = dataset();
    let record = retrieve(&ds, 3, &vec![Table::P2]).unwrap();
    assert_eq!(record, vec!["33", "131", "132"]);
    let record = retrieve(&ds, 3, &vec![Table::H1, Table::P1]).unwrap();
    assert_eq!(record, vec!["133", "31", "32"]);
}

#[test]
fn first_and_last_logical_records_are_retrievable() {
    let ds = dataset();
    assert_eq!(retrieve(&ds, 1, &vec![Table::P1]).unwrap(), vec!["11", "12"]);
    assert_eq!(retrieve(&ds, 3, &vec![Table::P1]).unwrap(), vec!["31", "32"]);
    assert_eq!(
        retrieve(&ds, 0, &vec![Table::P1]),
        Err(Error::UnknownLogrecno(0))
    );
    assert_eq!(
        retrieve(&ds, 4, &vec![Table::P1]),
        Err(Error::UnknownLogrecno(4))
    );
}

#[test]
fn retrieval_is_idempotent() {
    let ds = dataset();
    let tables = vec![Table::P2, Table::H1];
    let first = retrieve(&ds, 2, &tables).unwrap();
    let second = retrieve(&ds, 2, &tables).unwrap();
    assert_eq!(first, second);
}

#[test]
fn plan_names_file_and_offset_per_segment() {
    let ds = dataset();
    let plan = ds.plan_logical_record(2, &vec![Table::P2]).unwrap();
    let first_line = tabular_lines(1)[0].len() as u64;
    let first_line_2 = tabular_lines(2)[0].len() as u64;
    assert_eq!(plan, vec![(1, first_line), (2, first_line_2)]);
}

#[test]
fn table_not_in_packing_list_is_missing() {
    let ds = dataset();
    assert_eq!(
        retrieve(&ds, 2, &vec![Table::P1, Table::P4]),
        Err(Error::MissingTable(Table::P4))
    );
}

#[test]
fn wrong_line_is_an_index_inconsistency() {
    let ds = dataset();
    let tables = vec![Table::P1];
    let lines = vec![read_at(1, 0)];
    assert_eq!(
        ds.get_logical_record(2, &tables, &lines),
        Err(Error::IndexInconsistency { file: FileType::Tabular(1), logrecno: 2 })
    );
    assert_eq!(
        ds.get_logical_record(2, &tables, &vec![]),
        Err(Error::IndexInconsistency { file: FileType::Tabular(1), logrecno: 2 })
    );
}

#[test]
fn geoid_lookup() {
    let ds = dataset();
    assert_eq!(ds.get_logical_record_number_for_geoid("181570052001013"), Ok(2));
    assert_eq!(ds.get_logical_record_number_for_geoid("181570052001014"), Ok(3));
    assert_eq!(Dataset::get_logical_record_number_for_geoid(&ds, "181570052001014"), Ok(3));
}

#[test]
fn header_for_geoid() {
    let ds = dataset();
    let (n, offset) = ds.header_location_for_geoid("181570052001013").unwrap();
    assert_eq!(n, 2);
    let line = with_offsets(&header_lines())
        .into_iter()
        .find(|(o, _)| *o == offset)
        .map(|(_, l)| l)
        .unwrap();
    let header = ds.get_header_for_geoid("181570052001013", line).unwrap();
    assert_eq!(header.name(), "Block 1013");
    assert_eq!(header.logrecno(), Some(2));
    assert_eq!(header.field(Field::TRACT), "005200");
    let wrong = header_lines()[2].clone();
    assert_eq!(
        ds.get_header_for_geoid("181570052001013", wrong),
        Err(Error::IndexInconsistency { file: FileType::GeographicalHeader, logrecno: 2 })
    );
    assert_eq!(
        ds.get_header_for_geoid("181570052001013", "short".to_string()),
        Err(Error::CorruptGeographicalHeader { offset })
    );
}

#[test]
fn summary_rows_are_not_indexed() {
    let ds = dataset();
    // The state row has a blank county, tract and block.
    assert_eq!(
        ds.get_logical_record_number_for_geoid("18             "),
        Err(Error::UnknownGeoid("18             ".to_string()))
    );
    assert_eq!(
        ds.get_logical_record_number_for_geoid("18"),
        Err(Error::UnknownGeoid("18".to_string()))
    );
}

#[test]
fn missing_geoid_is_unknown() {
    let ds = dataset();
    assert_eq!(
        ds.get_logical_record_number_for_geoid("999999999999999"),
        Err(Error::UnknownGeoid("999999999999999".to_string()))
    );
}

#[test]
fn requests_before_index_fail() {
    let ds = IndexedDataset::new("x".to_string());
    assert_eq!(ds.identifier(), "x");
    assert!(ds.packing_list().is_none());
    assert_eq!(ds.get_logical_record_number_for_geoid("181570052001013"), Err(Error::NotIndexed));
    let ds = ds.unpack(PACKING_LIST, Some("data".to_string())).unwrap();
    assert_eq!(ds.packing_list().unwrap().rows(), 3);
    assert_eq!(ds.plan_logical_record(1, &vec![Table::P1]), Err(Error::NotIndexed));
}

#[test]
fn index_needs_every_tabular_file() {
    let ds = IndexedDataset::new("x".to_string()).unpack(PACKING_LIST, None).unwrap();
    match ds.index(vec![index_tabular(1)], index_header()) {
        Err(e) => assert_eq!(e, Error::NotIndexed),
        Ok(_) => panic!("an index is missing"),
    }
    let ds = IndexedDataset::new("x".to_string()).unpack(PACKING_LIST, None).unwrap();
    match ds.index(vec![index_tabular(1), index_tabular(1)], index_header()) {
        Err(e) => assert_eq!(
            e,
            Error::MalformedPackingList(distringo::Malformation::DuplicateTabularFile(1))
        ),
        Ok(_) => panic!("an index is given twice"),
    }
}

#[test]
fn tabular_indexer_reports_missing_and_corrupt_records() {
    let mut indexer = TabularIndexer::new(1, 3);
    let lines = with_offsets(&tabular_lines(1));
    indexer.add_line(lines[0].0, lines[0].1.as_bytes()).unwrap();
    indexer.add_line(lines[2].0, lines[2].1.as_bytes()).unwrap();
    assert_eq!(
        indexer.add_line(99, b"PLST,IN,000,01,abc,1\n"),
        Err(Error::CorruptTabular { file: 1, line: 3 })
    );
    assert_eq!(
        indexer.add_line(99, b"PLST,IN,000,01,0000009,1\n"),
        Err(Error::CorruptTabular { file: 1, line: 4 })
    );
    assert_eq!(indexer.add_line(99, b"\n"), Ok(()));
    match indexer.finish() {
        Err(e) => assert_eq!(e, Error::MissingLogicalRecord { file: 1, logrecno: 2 }),
        Ok(_) => panic!("record 2 was never seen"),
    }
}

#[test]
fn position_index_has_every_record() {
    let index = index_tabular(2);
    assert_eq!(index.file(), 2);
    assert_eq!(index.rows(), 3);
    assert_eq!(index.get(0), None);
    let first = tabular_lines(2)[0].len() as u64;
    assert_eq!(index.get(1), Some(0));
    assert_eq!(index.get(2), Some(first));
    assert!(index.get(3).is_some());
    assert_eq!(index.get(4), None);
}

#[test]
fn duplicate_geoid_is_refused() {
    let mut index = GeographicalHeaderIndex::new();
    let line = header_line(2, "750", "157", "005200", "1013", "Block 1013");
    index.add_line(0, &line).unwrap();
    assert_eq!(
        index.add_line(501, &line),
        Err(Error::DuplicateGeoid("181570052001013".to_string()))
    );
    assert_eq!(
        index.add_line(10, &line),
        Err(Error::CorruptGeographicalHeader { offset: 10 })
    );
    assert_eq!(index.get("181570052001013"), Some((2, 0)));
}

#[test]
fn short_header_line_is_corrupt() {
    let mut index = GeographicalHeaderIndex::new();
    assert_eq!(
        index.add_line(0, "PLST  IN750"),
        Err(Error::CorruptGeographicalHeader { offset: 0 })
    );
}

#[test]
fn header_view_fields() {
    let header = GeographicalHeader::new(header_line(7, "750", "157", "005200", "1013", "Block 1013"))
        .unwrap();
    assert_eq!(header.name(), "Block 1013");
    assert_eq!(header.logrecno(), Some(7));
    assert_eq!(header.field(Field::SUMLEV), "750");
    assert_eq!(header.field(Field::COUSUB), "");
    assert!(GeographicalHeader::new("too short".to_string()).is_none());
}

#[test]
fn csv_record_fields() {
    assert_eq!(
        parse_record(b"PLST,IN,000,01,0335180,53,52\n"),
        Some(vec![
            "PLST".to_string(),
            "IN".to_string(),
            "000".to_string(),
            "01".to_string(),
            "0335180".to_string(),
            "53".to_string(),
            "52".to_string()
        ])
    );
    assert_eq!(parse_record(b""), None);
    let fields = parse_record(b"PLST,IN,000,01,0335180,53\n").unwrap();
    assert_eq!(record_logrecno(&fields), Some(335180));
    assert_eq!(record_logrecno(&fields[..4].to_vec()), None);
}

#[test]
fn logical_record_header_field() {
    let record = LogicalRecord {
        number: 1,
        header: header_line(1, "040", "", "", "", "Indiana"),
        name: "Indiana".to_string(),
        records: vec![],
    };
    assert_eq!(record.header_field(8..11), "040");
    assert_eq!(record.header_field(18..25), "0000001");
}

fn strings(cells: &[&str]) -> Vec<String> {
    cells.iter().map(|c| c.to_string()).collect()
}

#[test]
fn indexer_takes_parsed_records() {
    let mut indexer = TabularIndexer::new(4, 2);
    assert_eq!(
        indexer.add_record(0, Some((true, strings(&["PLST", "IN", "000", "04", "0000002", "9"])))),
        Ok(())
    );
    assert_eq!(indexer.add_record(10, Some((false, vec![]))), Ok(()));
    assert_eq!(
        indexer.add_record(20, None),
        Err(Error::CorruptTabular { file: 4, line: 3 })
    );
    assert_eq!(
        indexer.add_record(30, Some((true, strings(&["PLST", "IN", "000"])))),
        Err(Error::CorruptTabular { file: 4, line: 4 })
    );
    assert_eq!(
        indexer.add_record(40, Some((true, strings(&["PLST", "IN", "000", "04", "+1"])))),
        Ok(())
    );
    let index = indexer.finish().unwrap();
    assert_eq!(index.get(1), Some(40));
    assert_eq!(index.get(2), Some(0));
}

#[test]
fn projection_takes_the_segment_columns() {
    let fields = strings(&["PLST", "IN", "000", "01", "0000002", "a", "b", "c", "d"]);
    let seg = TableSegmentLocation { file: 1, start: 6, end: 8 };
    assert_eq!(project_record(2, seg, &fields), Some(strings(&["b", "c"])));
    assert_eq!(project_record(3, seg, &fields), None);
    let wide = TableSegmentLocation { file: 1, start: 6, end: 10 };
    assert_eq!(project_record(2, wide, &fields), None);
    let empty = TableSegmentLocation { file: 1, start: 9, end: 9 };
    assert_eq!(project_record(2, empty, &fields), Some(vec![]));
}
