use parquet::basic::{Compression, Encoding as ParquetEncoding};
use parquet::file::properties::WriterProperties;
use parquet::schema::types::ColumnPath;
use tpcgen_cli::column_encodings::{apply_column_encodings, LeafColumn};
use tpcgen_cli::encoding::Encoding;

/// The leaf columns of the TPC-H region table.
fn region_columns() -> Vec<LeafColumn> {
    ["r_regionkey", "r_name", "r_comment"]
        .iter()
        .map(|name| LeafColumn { name: name.to_string(), path: vec![name.to_string()] })
        .collect()
}

fn path(name: &str) -> ColumnPath {
    ColumnPath::new(vec![name.to_string()])
}

#[test]
fn unknown_column_encoding_returns_error() {
    let err = apply_column_encodings(
        WriterProperties::builder(),
        &region_columns(),
        &[("not_a_column".to_string(), Encoding::DELTA_LENGTH_BYTE_ARRAY)],
    )
    .unwrap_err();
    assert!(err.contains("unknown column 'not_a_column'"), "{err}");
    assert_eq!(err, "unknown column 'not_a_column' for --column-encoding");
}

#[test]
fn dictionary_column_encodings_return_error() {
    for encoding in [Encoding::PLAIN_DICTIONARY, Encoding::RLE_DICTIONARY] {
        let err = apply_column_encodings(
            WriterProperties::builder(),
            &region_columns(),
            &[("r_name".to_string(), encoding)],
        )
        .unwrap_err();
        assert!(err.contains("cannot be set with --column-encoding"), "encoding {encoding:?}: {err}");
    }
}

#[test]
fn bit_packed_column_encoding_returns_error() {
    let err = apply_column_encodings(
        WriterProperties::builder(),
        &region_columns(),
        &[("r_regionkey".to_string(), Encoding::BIT_PACKED)],
    )
    .unwrap_err();
    assert!(err.contains("BIT_PACKED is not supported"), "{err}");
}

#[test]
fn the_first_error_is_reported() {
    let err = apply_column_encodings(
        WriterProperties::builder(),
        &region_columns(),
        &[
            ("r_name".to_string(), Encoding::PLAIN),
            ("nope".to_string(), Encoding::PLAIN),
            ("r_name".to_string(), Encoding::RLE_DICTIONARY),
        ],
    )
    .unwrap_err();
    assert_eq!(err, "unknown column 'nope' for --column-encoding");
}

#[test]
fn encodings_are_set_and_dictionary_disabled_per_column() {
    let builder = apply_column_encodings(
        WriterProperties::builder(),
        &region_columns(),
        &[
            ("r_regionkey".to_string(), Encoding::DELTA_BINARY_PACKED),
            ("r_name".to_string(), Encoding::PLAIN),
            ("r_name".to_string(), Encoding::DELTA_LENGTH_BYTE_ARRAY),
        ],
    )
    .unwrap();
    let properties = builder.build();
    assert_eq!(properties.encoding(&path("r_regionkey")), Some(ParquetEncoding::DELTA_BINARY_PACKED));
    assert_eq!(properties.encoding(&path("r_name")), Some(ParquetEncoding::DELTA_LENGTH_BYTE_ARRAY));
    assert_eq!(properties.encoding(&path("r_comment")), None);
    assert!(!properties.dictionary_enabled(&path("r_regionkey")));
    assert!(!properties.dictionary_enabled(&path("r_name")));
    assert!(properties.dictionary_enabled(&path("r_comment")));
}

#[test]
fn no_encodings_change_nothing() {
    let properties = apply_column_encodings(WriterProperties::builder(), &region_columns(), &[])
        .unwrap()
        .build();
    assert_eq!(properties.encoding(&path("r_name")), None);
    assert!(properties.dictionary_enabled(&path("r_name")));
}

#[test]
fn other_settings_are_kept() {
    let properties = apply_column_encodings(
        WriterProperties::builder().set_compression(Compression::SNAPPY).set_max_row_group_row_count(Some(7)),
        &region_columns(),
        &[("r_name".to_string(), Encoding::PLAIN)],
    )
    .unwrap()
    .build();
    assert_eq!(properties.compression(&path("r_name")), Compression::SNAPPY);
    assert_eq!(properties.compression(&path("r_comment")), Compression::SNAPPY);
    assert_eq!(properties.encoding(&path("r_name")), Some(ParquetEncoding::PLAIN));
}
