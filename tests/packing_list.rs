use distringo::{
    extract_file_information, get_stusab, Error, FileType, Malformation, PackingList, Schema,
    Table, TableSegmentLocation,
};

const INDIANA: &str = "Packing List for Indiana P.L. 94-171 Redistricting Data 2010
in2010.pl.prd.packinglist.txt
STUSAB: IN
DATASET: PL94-171
################################################################################
ingeo2010.pl|2011-02-03 16:06:17|249567000|499133|
in000012010.pl|2011-02-03 16:06:20|101122453|499133|
in000022010.pl|2011-02-03 16:06:23|94021127|499133|
################################################################################
p1|1:71|
p2|1:73|
p3|2:71|
p4|2:73|
h1|2:3|
################################################################################
";

fn loc(file: u32, start: usize, end: usize) -> TableSegmentLocation {
    TableSegmentLocation { file, start, end }
}

fn locations(pl: &PackingList, t: Table) -> Vec<TableSegmentLocation> {
    pl.locations(t).expect("table is laid out").clone()
}

fn parse_err(text: &str) -> Error {
    match PackingList::parse(text) {
        Ok(_) => panic!("expected the packing list to be refused"),
        Err(e) => e,
    }
}

#[test]
fn indiana_packing_list_layout() {
    let pl: PackingList = INDIANA.parse().unwrap();
    assert_eq!(pl.schema(), Schema::Census2010Pl94_171(None));
    assert_eq!(pl.tabular_files().len(), 2);
    assert_eq!(pl.tabular_files()[&1], "in000012010.pl");
    assert_eq!(pl.tabular_files()[&2], "in000022010.pl");
    assert_eq!(pl.geographical_header_file(), "ingeo2010.pl");
    assert_eq!(pl.rows(), 499133);
    assert_eq!(pl.directory(), &None);
    let laid_out = [Table::P1, Table::P2, Table::P3, Table::P4, Table::H1, Table::P5]
        .iter()
        .filter(|t| pl.locations(**t).is_some())
        .count();
    assert_eq!(laid_out, 5);
    assert_eq!(locations(&pl, Table::P1), vec![loc(1, 5, 5 + 71)]);
    assert_eq!(locations(&pl, Table::P2), vec![loc(1, 5 + 71, 5 + 71 + 73)]);
    assert_eq!(locations(&pl, Table::P3), vec![loc(2, 5, 5 + 71)]);
    assert_eq!(locations(&pl, Table::P4), vec![loc(2, 5 + 71, 5 + 71 + 73)]);
    assert_eq!(locations(&pl, Table::H1), vec![loc(2, 5 + 71 + 73, 5 + 71 + 73 + 3)]);
}

#[test]
fn single_tabular_file_single_table() {
    let text = "STUSAB: DE\nde000012010.pl|2011-02-03|10|7|\ndegeo2010.pl|2011-02-03|20|7|\np1|1:4|\n";
    let pl = PackingList::parse(text).unwrap();
    assert_eq!(pl.rows(), 7);
    assert_eq!(pl.tabular_files().len(), 1);
    assert_eq!(locations(&pl, Table::P1), vec![loc(1, 5, 9)]);
    assert!(pl.locations(Table::P2).is_none());
}

#[test]
fn table_split_across_files_keeps_segment_order() {
    let text = "STUSAB: DE\nde000012010.pl|d|10|7|\nde000022010.pl|d|10|7|\ndegeo2010.pl|d|20|7|\np1|2:3|\np2|1:2 2:4|\np3|1:1|\n";
    let pl = PackingList::parse(text).unwrap();
    assert_eq!(locations(&pl, Table::P1), vec![loc(2, 5, 8)]);
    assert_eq!(locations(&pl, Table::P2), vec![loc(1, 5, 7), loc(2, 8, 12)]);
    assert_eq!(locations(&pl, Table::P3), vec![loc(1, 7, 8)]);
}

#[test]
fn malformed_location_tokens_are_skipped() {
    let text = "STUSAB: DE\nde000012010.pl|d|10|7|\ndegeo2010.pl|d|20|7|\np1|1:2  1:x 1:3|\n";
    let pl = PackingList::parse(text);
    // `1:x` cannot stand in a location text at all, so the line is no table line.
    assert!(pl.unwrap().locations(Table::P1).is_none());
    let text = "STUSAB: DE\nde000012010.pl|d|10|7|\ndegeo2010.pl|d|20|7|\np1|1:2  :5 1:3|\n";
    let pl = PackingList::parse(text).unwrap();
    assert_eq!(locations(&pl, Table::P1), vec![loc(1, 5, 7), loc(1, 7, 10)]);
}

#[test]
fn census_2020_has_table_p5() {
    let text = "STUSAB: IN\nin000012020.pl|d|1|3|\ningeo2020.pl|d|1|3|\np5|1:10|\nh1|1:3|\n";
    let pl = PackingList::parse(text).unwrap();
    assert_eq!(pl.schema(), Schema::Census2020Pl94_171(None));
    assert_eq!(locations(&pl, Table::P5), vec![loc(1, 5, 15)]);
    assert_eq!(locations(&pl, Table::H1), vec![loc(1, 15, 18)]);
}

#[test]
fn p5_is_unknown_in_2010() {
    let text = "STUSAB: IN\nin000012010.pl|d|1|3|\ningeo2010.pl|d|1|3|\np5|1:10|\n";
    assert_eq!(parse_err(text), Error::UnknownTable("p5".to_string()));
}

#[test]
fn missing_stusab_is_malformed() {
    let text = "in000012010.pl|d|1|3|\ningeo2010.pl|d|1|3|\n";
    assert_eq!(parse_err(text), Error::MalformedPackingList(Malformation::MissingStusab));
}

#[test]
fn stusab_is_lowercased() {
    assert_eq!(get_stusab("x\nSTUSAB: IN\nSTUSAB: OH\n"), Some("in".to_string()));
    assert_eq!(get_stusab("STUSAB: in\n"), None);
}

#[test]
fn no_file_name_is_unknown_schema() {
    let text = "STUSAB: IN\np1|1:3|\n";
    assert_eq!(
        parse_err(text),
        Error::UnknownSchema { year: String::new(), ext: String::new() }
    );
}

#[test]
fn unknown_extension_is_unknown_schema() {
    let text = "STUSAB: IN\nin000012010.sf1|d|1|3|\ningeo2010.pl|d|1|3|\n";
    assert_eq!(
        parse_err(text),
        Error::UnknownSchema { year: "2010".to_string(), ext: "sf1".to_string() }
    );
}

#[test]
fn two_vintages_are_ambiguous() {
    let text = "STUSAB: IN\nin000012010.pl|d|1|3|\ningeo2020.pl|d|1|3|\n";
    assert_eq!(parse_err(text), Error::AmbiguousSchema);
}

#[test]
fn non_numeric_identifier_is_unrecognized() {
    let text = "STUSAB: IN\ninabc2010.pl|d|1|3|\ningeo2010.pl|d|1|3|\n";
    assert_eq!(parse_err(text), Error::UnrecognizedFile("abc".to_string()));
}

#[test]
fn row_counts_must_agree() {
    let text = "STUSAB: IN\nin000012010.pl|d|1|3|\ningeo2010.pl|d|1|4|\n";
    assert_eq!(parse_err(text), Error::InconsistentRowCount(vec![3, 4]));
}

#[test]
fn geographic_header_is_required_once() {
    let none = "STUSAB: IN\nin000012010.pl|d|1|3|\n";
    assert_eq!(
        parse_err(none),
        Error::MalformedPackingList(Malformation::MissingGeographicalHeader)
    );
    let two = "STUSAB: IN\ningeo2010.pl|d|1|3|\ningeo2010.pl|d|1|3|\n";
    assert_eq!(
        parse_err(two),
        Error::MalformedPackingList(Malformation::DuplicateGeographicalHeader)
    );
}

#[test]
fn tabular_numbers_are_distinct() {
    let text = "STUSAB: IN\nin000012010.pl|d|1|3|\nin0012010.pl|d|1|3|\ningeo2010.pl|d|1|3|\n";
    assert_eq!(
        parse_err(text),
        Error::MalformedPackingList(Malformation::DuplicateTabularFile(1))
    );
}

#[test]
fn segment_of_unlisted_file_is_refused() {
    let text = "STUSAB: IN\nin000012010.pl|d|1|3|\ningeo2010.pl|d|1|3|\np1|3:2|\n";
    assert_eq!(
        parse_err(text),
        Error::MalformedPackingList(Malformation::UnlistedTabularFile(3))
    );
}

#[test]
fn column_overflow_is_refused() {
    let text = format!(
        "STUSAB: IN\nin000012010.pl|d|1|3|\ningeo2010.pl|d|1|3|\np1|1:{}|\n",
        usize::MAX - 2
    );
    assert_eq!(
        parse_err(&text),
        Error::MalformedPackingList(Malformation::ColumnOverflow(1))
    );
}

#[test]
fn oversized_line_count_is_refused() {
    let text = "STUSAB: IN\nin000012010.pl|d|1|99999999999999999999999|\ningeo2010.pl|d|1|3|\n";
    assert_eq!(
        parse_err(text),
        Error::MalformedPackingList(Malformation::NumberTooLarge(2))
    );
}

#[test]
fn file_information_lines_in_order() {
    let infos = match extract_file_information(INDIANA) {
        Ok(v) => v,
        Err(_) => panic!("file information should parse"),
    };
    assert_eq!(infos.len(), 3);
    assert_eq!(infos[0].filename, "ingeo2010.pl");
    assert_eq!(infos[0].date, "2011-02-03 16:06:17");
    assert_eq!(infos[0].file_size, 249567000);
    assert_eq!(infos[0].rows, 499133);
    assert_eq!(infos[0].ty, FileType::GeographicalHeader);
    assert_eq!(infos[2].filename, "in000022010.pl");
    assert_eq!(infos[2].ty, FileType::Tabular(2));
}

#[test]
fn pipes_in_dataset_name_stay_in_file_name() {
    let infos = match extract_file_information("in000012010.pl|x|d|1|3|\n") {
        Ok(v) => v,
        Err(_) => panic!("file information should parse"),
    };
    assert_eq!(infos.len(), 1);
    assert_eq!(infos[0].filename, "in000012010.pl|x");
    assert_eq!(infos[0].date, "d");
}

#[test]
fn directory_is_kept() {
    let pl = PackingList::parse(INDIANA)
        .unwrap()
        .with_directory(Some("data".to_string()));
    assert_eq!(pl.directory(), &Some("data".to_string()));
}

#[test]
fn unknown_table_name_is_reported() {
    let e = parse_err("STUSAB: IN\nin000012010.pl|d|1|3|\ningeo2010.pl|d|1|3|\nq7|1:2|\n");
    assert_eq!(e, Error::UnknownTable("q7".to_string()));
}

#[test]
fn table_locations_in_table_order() {
    let pl = PackingList::parse(INDIANA).unwrap();
    let listed = pl.table_locations();
    let tables: Vec<Table> = listed.iter().map(|(t, _)| *t).collect();
    assert_eq!(tables, vec![Table::P1, Table::P2, Table::P3, Table::P4, Table::H1]);
    assert_eq!(listed[4].1, vec![loc(2, 149, 152)]);
}

#[test]
fn packing_list_from_parts_keeps_last_layout_of_a_table() {
    let mut files = std::collections::HashMap::new();
    files.insert(1u32, "de000012010.pl".to_string());
    let pl = PackingList::new(
        Schema::Census2010Pl94_171(None),
        Some("data".to_string()),
        vec![
            (Table::P1, vec![loc(1, 5, 9)]),
            (Table::H1, vec![loc(1, 9, 12)]),
            (Table::P1, vec![loc(1, 12, 14)]),
        ],
        files,
        "degeo2010.pl".to_string(),
        7,
    );
    assert_eq!(locations(&pl, Table::P1), vec![loc(1, 12, 14)]);
    assert_eq!(locations(&pl, Table::H1), vec![loc(1, 9, 12)]);
    assert_eq!(pl.table_locations().len(), 2);
    assert_eq!(pl.rows(), 7);
    assert_eq!(pl.directory(), &Some("data".to_string()));
}
