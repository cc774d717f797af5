use tpcgen_cli::csv::{check_csv_headers, Csv};
use tpcgen_cli::tables::Table;

#[test]
fn csv_keeps_its_settings() {
    let csv = Csv::new("/tmp/tpcds".to_string(), '|', 7 * 1024 * 1024);
    assert_eq!(csv.output_dir(), "/tmp/tpcds");
    assert_eq!(csv.delimiter(), '|');
    assert_eq!(csv.chunk_bytes(), 7 * 1024 * 1024);
}

#[test]
fn every_table_needs_a_csv_header() {
    assert_eq!(check_csv_headers(&vec![]), Ok(()));
    assert_eq!(check_csv_headers(&vec![(Table::Reason, true), (Table::Store, true)]), Ok(()));
    assert_eq!(
        check_csv_headers(&vec![
            (Table::Reason, true),
            (Table::DbgenVersion, false),
            (Table::Store, false)
        ]),
        Err("table dbgen_version has no CSV output".to_string())
    );
}
