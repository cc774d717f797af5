use tpcgen_cli::encoding::{parse_column_encoding_pair, reject_unsupported_encoding, Encoding};

#[test]
fn reject_unsupported_encoding_rejects_dictionary_and_bit_packed() {
    assert!(reject_unsupported_encoding(Encoding::PLAIN_DICTIONARY).is_err());
    assert!(reject_unsupported_encoding(Encoding::RLE_DICTIONARY).is_err());
    {
        assert!(reject_unsupported_encoding(Encoding::BIT_PACKED).is_err());
    }
    assert!(reject_unsupported_encoding(Encoding::PLAIN).is_ok());
}

#[test]
fn rejected_encodings_explain_why() {
    let message = reject_unsupported_encoding(Encoding::RLE_DICTIONARY).unwrap_err();
    assert_eq!(
        message,
        "encoding RLE_DICTIONARY cannot be set with --column-encoding; dictionary encoding is the writer default. Use a non-dictionary encoding such as PLAIN or DELTA_LENGTH_BYTE_ARRAY"
    );
    assert!(message.contains("cannot be set with --column-encoding"));
    let message = reject_unsupported_encoding(Encoding::BIT_PACKED).unwrap_err();
    assert!(message.contains("BIT_PACKED is not supported"));
    for encoding in [
        Encoding::RLE,
        Encoding::DELTA_BINARY_PACKED,
        Encoding::DELTA_LENGTH_BYTE_ARRAY,
        Encoding::DELTA_BYTE_ARRAY,
        Encoding::BYTE_STREAM_SPLIT,
        Encoding::ALP,
    ] {
        assert!(reject_unsupported_encoding(encoding).is_ok());
    }
}

#[test]
fn parse_column_encoding_pair_accepts_trimmed_pairs() {
    assert_eq!(
        parse_column_encoding_pair("l_comment=DELTA_LENGTH_BYTE_ARRAY"),
        Ok(("l_comment".to_string(), Encoding::DELTA_LENGTH_BYTE_ARRAY))
    );
    assert_eq!(
        parse_column_encoding_pair("  r_name =\tplain "),
        Ok(("r_name".to_string(), Encoding::PLAIN))
    );
    // only the first '=' splits
    assert_eq!(
        parse_column_encoding_pair("a=rle=x"),
        Err("Parquet error: unknown encoding: rle=x".to_string())
    );
}

#[test]
fn parse_column_encoding_pair_rejects_malformed_pairs() {
    for s in ["", "l_comment", "=PLAIN", "l_comment=", " = ", "\u{3000}=PLAIN"] {
        assert_eq!(
            parse_column_encoding_pair(s),
            Err(format!("expected COLUMN=ENCODING, got: '{s}'"))
        );
    }
}

#[test]
fn parse_column_encoding_pair_rejects_unknown_encodings() {
    assert_eq!(
        parse_column_encoding_pair("c=Plain"),
        Err("Parquet error: unknown encoding: Plain".to_string())
    );
    assert_eq!(Encoding::DELTA_BYTE_ARRAY.name(), "DELTA_BYTE_ARRAY");
}

#[test]
fn every_encoding_name_parses_with_padding() {
    for encoding in [
        Encoding::PLAIN,
        Encoding::PLAIN_DICTIONARY,
        Encoding::RLE,
        Encoding::BIT_PACKED,
        Encoding::DELTA_BINARY_PACKED,
        Encoding::DELTA_LENGTH_BYTE_ARRAY,
        Encoding::DELTA_BYTE_ARRAY,
        Encoding::RLE_DICTIONARY,
        Encoding::BYTE_STREAM_SPLIT,
        Encoding::ALP,
    ] {
        for (w1, w2) in [("", ""), (" \t", "\n "), ("\u{3000}", "\u{a0}")] {
            let name = encoding.name();
            let argument = format!("{w1}l_comment{w2}={w1}{name}{w2}");
            assert_eq!(
                parse_column_encoding_pair(&argument),
                Ok(("l_comment".to_string(), encoding)),
                "{argument:?}"
            );
        }
    }
}
