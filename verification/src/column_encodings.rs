//! Applying `--column-encoding` choices to the Parquet writer properties.

use crate::encoding::{is_dictionary_encoding, unsupported_encoding_message, reject_unsupported_encoding, Encoding};
use parquet::basic::Encoding as ParquetEncoding;
use parquet::file::properties::WriterPropertiesBuilder;
use parquet::schema::types::ColumnPath;
use vstd::prelude::*;

verus! {

#[verifier::external_type_specification]
#[verifier::external_body]
pub struct ExWriterPropertiesBuilder(WriterPropertiesBuilder);

/// The encodings a writer properties builder holds for individual columns,
/// by column path.
pub uninterp spec fn column_encodings(builder: WriterPropertiesBuilder) -> Map<Seq<Seq<char>>, Encoding>;

/// The dictionary settings a writer properties builder holds for individual
/// columns, by column path.
pub uninterp spec fn column_dictionary_enabled(builder: WriterPropertiesBuilder) -> Map<
    Seq<Seq<char>>,
    bool,
>;

/// Every other setting a writer properties builder holds, as each resolves
/// for a column or for the file: setting name to value, as text.
pub uninterp spec fn other_builder_settings(builder: WriterPropertiesBuilder) -> Map<
    Seq<char>,
    Seq<char>,
>;

/// A column path as text, one part per nesting level.
pub open spec fn path_parts(path: Seq<String>) -> Seq<Seq<char>> {
    path.map_values(|part: String| part@)
}

/// Calls `WriterPropertiesBuilder::set_column_encoding` with the column path
/// made of `path`.
///
/// Per the parquet source, this records `encoding` for that path and leaves
/// the other columns, the dictionary settings and every other setting as
/// they were (a column without settings of its own gets an entry whose
/// settings are all unset, which resolves as before). It panics on
/// a dictionary encoding, which is therefore ruled out.
#[verifier::external_body]
fn set_column_encoding(builder: WriterPropertiesBuilder, path: &Vec<String>, encoding: Encoding) -> (r:
    WriterPropertiesBuilder)
    requires
        !is_dictionary_encoding(encoding),
    ensures
        column_encodings(r) == column_encodings(builder).insert(path_parts(path@), encoding),
        column_dictionary_enabled(r) == column_dictionary_enabled(builder),
        other_builder_settings(r) == other_builder_settings(builder),
{
    #[allow(deprecated)]
    let encoding = match encoding {
        Encoding::PLAIN => ParquetEncoding::PLAIN,
        Encoding::PLAIN_DICTIONARY => ParquetEncoding::PLAIN_DICTIONARY,
        Encoding::RLE => ParquetEncoding::RLE,
        Encoding::BIT_PACKED => ParquetEncoding::BIT_PACKED,
        Encoding::DELTA_BINARY_PACKED => ParquetEncoding::DELTA_BINARY_PACKED,
        Encoding::DELTA_LENGTH_BYTE_ARRAY => ParquetEncoding::DELTA_LENGTH_BYTE_ARRAY,
        Encoding::DELTA_BYTE_ARRAY => ParquetEncoding::DELTA_BYTE_ARRAY,
        Encoding::RLE_DICTIONARY => ParquetEncoding::RLE_DICTIONARY,
        Encoding::BYTE_STREAM_SPLIT => ParquetEncoding::BYTE_STREAM_SPLIT,
        Encoding::ALP => ParquetEncoding::ALP,
    };
    builder.set_column_encoding(ColumnPath::new(path.clone()), encoding)
}

/// Calls `WriterPropertiesBuilder::set_column_dictionary_enabled` with the
/// column path made of `path`.
///
/// Per the parquet source, this records `enabled` for that path and leaves
/// the other columns, the column encodings and every other setting as they
/// were.
#[verifier::external_body]
fn set_column_dictionary_enabled(builder: WriterPropertiesBuilder, path: &Vec<String>, enabled: bool) -> (r:
    WriterPropertiesBuilder)
    ensures
        column_dictionary_enabled(r) == column_dictionary_enabled(builder).insert(
            path_parts(path@),
            enabled,
        ),
        column_encodings(r) == column_encodings(builder),
        other_builder_settings(r) == other_builder_settings(builder),
{
    builder.set_column_dictionary_enabled(ColumnPath::new(path.clone()), enabled)
}

/// A leaf column of a Parquet schema: its name and its path.
#[derive(Debug, Clone)]
pub struct LeafColumn {
    pub name: String,
    pub path: Vec<String>,
}

/// The position of the first column named `name`, if there is one.
pub open spec fn first_column_named(columns: Seq<LeafColumn>, name: Seq<char>) -> Option<int>
    decreases columns.len(),
{
    if columns.len() == 0 {
        None
    } else if columns[0].name@ == name {
        Some(0)
    } else {
        match first_column_named(columns.drop_first(), name) {
            Some(i) => Some(i + 1),
            None => None,
        }
    }
}

/// The message of the error for a column the schema does not have.
pub open spec fn unknown_column_message(name: Seq<char>) -> Seq<char> {
    "unknown column '"@ + name + "' for --column-encoding"@
}

/// What applying the first `n` of `encodings` to a schema with `columns`
/// sets: for each `(column, encoding)` in order, the path of the first column
/// of that name and the encoding, or the first error. An encoding that
/// `--column-encoding` cannot use, or a column the schema does not have, is
/// an error.
pub open spec fn encoding_settings(
    columns: Seq<LeafColumn>,
    encodings: Seq<(String, Encoding)>,
    n: int,
) -> Result<Seq<(Seq<Seq<char>>, Encoding)>, Seq<char>>
    decreases n,
{
    if n <= 0 {
        Ok(seq![])
    } else {
        match encoding_settings(columns, encodings, n - 1) {
            Err(m) => Err(m),
            Ok(settings) => {
                let (column, encoding) = encodings[n - 1];
                match unsupported_encoding_message(encoding) {
                    Some(m) => Err(m),
                    None => match first_column_named(columns, column@) {
                        None => Err(unknown_column_message(column@)),
                        Some(i) => Ok(settings.push((path_parts(columns[i].path@), encoding))),
                    },
                }
            },
        }
    }
}

/// `encodings` with each of `settings` recorded, in order.
pub open spec fn with_encodings(
    encodings: Map<Seq<Seq<char>>, Encoding>,
    settings: Seq<(Seq<Seq<char>>, Encoding)>,
) -> Map<Seq<Seq<char>>, Encoding>
    decreases settings.len(),
{
    if settings.len() == 0 {
        encodings
    } else {
        with_encodings(encodings, settings.drop_last()).insert(
            settings.last().0,
            settings.last().1,
        )
    }
}

/// `dictionary` with dictionary encoding disabled for the path of each of
/// `settings`.
pub open spec fn with_dictionary_disabled(
    dictionary: Map<Seq<Seq<char>>, bool>,
    settings: Seq<(Seq<Seq<char>>, Encoding)>,
) -> Map<Seq<Seq<char>>, bool>
    decreases settings.len(),
{
    if settings.len() == 0 {
        dictionary
    } else {
        with_dictionary_disabled(dictionary, settings.drop_last()).insert(settings.last().0, false)
    }
}

proof fn lemma_first_column_named(columns: Seq<LeafColumn>, name: Seq<char>, k: int)
    requires
        0 <= k <= columns.len(),
        forall|j: int| 0 <= j < k ==> columns[j].name@ != name,
    ensures
        k < columns.len() && columns[k].name@ == name ==> first_column_named(columns, name) == Some(
            k,
        ),
        k == columns.len() ==> first_column_named(columns, name) is None,
    decreases k,
{
    if k > 0 {
        lemma_first_column_named(columns.drop_first(), name, k - 1);
    }
}

proof fn lemma_settings_error_persists(
    columns: Seq<LeafColumn>,
    encodings: Seq<(String, Encoding)>,
    k: int,
    n: int,
)
    requires
        0 <= k <= n,
        encoding_settings(columns, encodings, k) is Err,
    ensures
        encoding_settings(columns, encodings, n) == encoding_settings(columns, encodings, k),
    decreases n - k,
{
    if k < n {
        lemma_settings_error_persists(columns, encodings, k, n - 1);
    }
}

fn unknown_column(name: &String) -> (r: String)
    ensures
        r@ == unknown_column_message(name@),
{
    let mut message = "unknown column '".to_owned();
    message.append(name.as_str());
    message.append("' for --column-encoding");
    message
}

/// Applies `encodings` to `builder`, for a schema whose leaf columns are
/// `columns`: each named column gets its encoding, and dictionary encoding
/// is disabled for it.
///
/// Does not check an encoding against the column's physical type (RLE
/// needs a boolean column, for example). The parquet writer checks this
/// itself when the table is written.
pub fn apply_column_encodings(
    builder: WriterPropertiesBuilder,
    columns: &[LeafColumn],
    encodings: &[(String, Encoding)],
) -> (r: Result<WriterPropertiesBuilder, String>)
    ensures
        match (r, encoding_settings(columns@, encodings@, encodings@.len() as int)) {
            (Ok(b), Ok(settings)) => {
                &&& other_builder_settings(b) == other_builder_settings(builder)
                &&& column_encodings(b) == with_encodings(column_encodings(builder), settings)
                &&& column_dictionary_enabled(b) == with_dictionary_disabled(
                    column_dictionary_enabled(builder),
                    settings,
                )
            },
            (Err(m), Err(spec_m)) => m@ == spec_m,
            _ => false,
        },
{
    let mut builder = builder;
    let ghost given = builder;
    let n = encodings.len();
    for i in 0..n
        invariant
            n == encodings@.len(),
            encoding_settings(columns@, encodings@, i as int) is Ok,
            column_encodings(builder) == with_encodings(
                column_encodings(given),
                encoding_settings(columns@, encodings@, i as int)->Ok_0,
            ),
            column_dictionary_enabled(builder) == with_dictionary_disabled(
                column_dictionary_enabled(given),
                encoding_settings(columns@, encodings@, i as int)->Ok_0,
            ),
            other_builder_settings(builder) == other_builder_settings(given),
    {
        let column = &encodings[i].0;
        let encoding = encodings[i].1;
        let ghost settings = encoding_settings(columns@, encodings@, i as int)->Ok_0;
        match reject_unsupported_encoding(encoding) {
            Err(message) => {
                proof {
                    lemma_settings_error_persists(columns@, encodings@, i + 1, n as int);
                }
                return Err(message);
            },
            Ok(()) => {},
        }
        let mut j: usize = 0;
        while j < columns.len() && columns[j].name != *column
            invariant
                j <= columns.len(),
                forall|k: int| 0 <= k < j ==> columns@[k].name@ != column@,
            decreases columns.len() - j,
        {
            j = j + 1;
        }
        proof {
            lemma_first_column_named(columns@, column@, j as int);
        }
        if j == columns.len() {
            proof {
                lemma_settings_error_persists(columns@, encodings@, i + 1, n as int);
            }
            return Err(unknown_column(column));
        }
        let path = &columns[j].path;
        builder = set_column_encoding(builder, path, encoding);
        builder = set_column_dictionary_enabled(builder, path, false);
        proof {
            let next = settings.push((path_parts(path@), encoding));
            assert(next.drop_last() =~= settings);
        }
    }
    Ok(builder)
}


/// Column `i` is the first leaf column named `name`.
pub open spec fn is_first_column_named(columns: Seq<LeafColumn>, i: int, name: Seq<char>) -> bool {
    &&& 0 <= i < columns.len()
    &&& columns[i].name@ == name
    &&& forall|j: int| 0 <= j < i ==> columns[j].name@ != name
}

/// No leaf column is named `name`.
pub open spec fn has_no_column_named(columns: Seq<LeafColumn>, name: Seq<char>) -> bool {
    forall|j: int| 0 <= j < columns.len() ==> columns[j].name@ != name
}

/// `setting` is what the `--column-encoding` entry `entry` sets: its encoding
/// can be used, and it goes to the path of the first leaf column of its name.
pub open spec fn entry_sets(
    columns: Seq<LeafColumn>,
    entry: (String, Encoding),
    setting: (Seq<Seq<char>>, Encoding),
) -> bool {
    &&& unsupported_encoding_message(entry.1) is None
    &&& exists|i: int|
        #[trigger] is_first_column_named(columns, i, entry.0@) && setting == (
            path_parts(columns[i].path@),
            entry.1,
        )
}

/// `message` is the error for the `--column-encoding` entry `entry`: the
/// refusal of its encoding, or else the message that no leaf column has its
/// name, which is then true.
pub open spec fn entry_refused(
    columns: Seq<LeafColumn>,
    entry: (String, Encoding),
    message: Seq<char>,
) -> bool {
    match unsupported_encoding_message(entry.1) {
        Some(refusal) => message == refusal,
        None => has_no_column_named(columns, entry.0@) && message == unknown_column_message(
            entry.0@,
        ),
    }
}

/// Law: the column an entry names is the first leaf column of that name,
/// wherever it stands, and there is none exactly when no leaf column has
/// that name.
pub proof fn law_first_column_named(columns: Seq<LeafColumn>, name: Seq<char>)
    ensures
        match first_column_named(columns, name) {
            Some(i) => is_first_column_named(columns, i, name),
            None => has_no_column_named(columns, name),
        },
    decreases columns.len(),
{
    if columns.len() > 0 && columns[0].name@ != name {
        let rest = columns.drop_first();
        law_first_column_named(rest, name);
        assert forall|j: int| 1 <= j < columns.len() implies columns[j] == rest[j - 1] by {}
    }
}

/// Law: a single `--column-encoding` entry whose encoding can be used, for a
/// column the schema has (at any position, the last one included), succeeds
/// and sets that encoding at the path of the first leaf column of that name;
/// dictionary encoding is then disabled there.
pub proof fn law_single_entry_found(
    columns: Seq<LeafColumn>,
    column: String,
    encoding: Encoding,
    i: int,
    encodings: Map<Seq<Seq<char>>, Encoding>,
    dictionary: Map<Seq<Seq<char>>, bool>,
)
    requires
        is_first_column_named(columns, i, column@),
        unsupported_encoding_message(encoding) is None,
    ensures
        encoding_settings(columns, seq![(column, encoding)], 1) == Ok::<
            Seq<(Seq<Seq<char>>, Encoding)>,
            Seq<char>,
        >(seq![(path_parts(columns[i].path@), encoding)]),
        with_encodings(encodings, seq![(path_parts(columns[i].path@), encoding)]) == encodings.insert(
            path_parts(columns[i].path@),
            encoding,
        ),
        with_dictionary_disabled(dictionary, seq![(path_parts(columns[i].path@), encoding)])
            == dictionary.insert(path_parts(columns[i].path@), false),
{
    lemma_first_column_named(columns, column@, i);
    let one = seq![(path_parts(columns[i].path@), encoding)];
    assert(one.drop_last() =~= seq![]);
    assert(encoding_settings(columns, seq![(column, encoding)], 0) == Ok::<
        Seq<(Seq<Seq<char>>, Encoding)>,
        Seq<char>,
    >(seq![]));
    assert(seq![].push((path_parts(columns[i].path@), encoding)) =~= one);
    assert(with_encodings(encodings, one.drop_last()) == encodings);
    assert(with_dictionary_disabled(dictionary, one.drop_last()) == dictionary);
    assert(one.last() == (path_parts(columns[i].path@), encoding));
}

/// Law: a single `--column-encoding` entry whose encoding can be used fails
/// with the unknown-column error exactly when no leaf column has its name.
pub proof fn law_single_entry_unknown(columns: Seq<LeafColumn>, column: String, encoding: Encoding)
    requires
        unsupported_encoding_message(encoding) is None,
    ensures
        (encoding_settings(columns, seq![(column, encoding)], 1) == Err::<
            Seq<(Seq<Seq<char>>, Encoding)>,
            Seq<char>,
        >(unknown_column_message(column@))) <==> has_no_column_named(columns, column@),
        encoding_settings(columns, seq![(column, encoding)], 1) is Err ==> has_no_column_named(
            columns,
            column@,
        ),
{
    law_first_column_named(columns, column@);
    assert(encoding_settings(columns, seq![(column, encoding)], 0) == Ok::<
        Seq<(Seq<Seq<char>>, Encoding)>,
        Seq<char>,
    >(seq![]));
    assert(seq![(column, encoding)][0] == (column, encoding));
    match first_column_named(columns, column@) {
        Some(i) => {
            assert(columns[i].name@ == column@);
        },
        None => {},
    }
}

/// Law: applying `--column-encoding` entries succeeds exactly when every
/// entry's encoding can be used and a leaf column has its name; then entry
/// `k` sets its encoding at the path of the first leaf column of that name.
/// Otherwise the error is that of the first failing entry: the refusal of its
/// encoding, or that no leaf column has its name.

/// Law: applying `--column-encoding` entries succeeds exactly when every
/// entry's encoding can be used and a leaf column has its name; then entry
/// `k` sets its encoding at the path of the first leaf column of that name.
/// Otherwise the error is that of the first failing entry: the refusal of its
/// encoding, or that no leaf column has its name.

spec fn tmp_law(columns: Seq<LeafColumn>, encodings: Seq<(String, Encoding)>, n: int) -> bool {
        match encoding_settings(columns, encodings, n) {
            Ok(settings) => {
                &&& settings.len() == n
                &&& forall|k: int|
                    0 <= k < n ==> #[trigger] entry_sets(columns, encodings[k], settings[k])
            },
            Err(m) => exists|k: int|
                0 <= k < n && encoding_settings(columns, encodings, k) is Ok
                    && #[trigger] entry_refused(columns, encodings[k], m),
        }
}
pub proof fn law_encoding_settings(
    columns: Seq<LeafColumn>,
    encodings: Seq<(String, Encoding)>,
    n: int,
)
    requires
        0 <= n <= encodings.len(),
    ensures
        match encoding_settings(columns, encodings, n) {
            Ok(settings) => {
                &&& settings.len() == n
                &&& forall|k: int|
                    0 <= k < n ==> #[trigger] entry_sets(columns, encodings[k], settings[k])
            },
            Err(m) => exists|k: int|
                0 <= k < n && encoding_settings(columns, encodings, k) is Ok
                    && #[trigger] entry_refused(columns, encodings[k], m),
        },
    decreases n,
{
    if n > 0 {
        law_encoding_settings(columns, encodings, n - 1);
        let (column, encoding) = encodings[n - 1];
        law_first_column_named(columns, column@);
        let last = n - 1;
        match encoding_settings(columns, encodings, last) {
            Err(m) => {
                let k = choose|k: int|
                    0 <= k < last && encoding_settings(columns, encodings, k) is Ok
                        && #[trigger] entry_refused(columns, encodings[k], m);
                assert(entry_refused(columns, encodings[k], m));
            },
            Ok(settings) => {
                match (unsupported_encoding_message(encoding), first_column_named(columns, column@)) {
                    (None, Some(i)) => {
                        let next = settings.push((path_parts(columns[i].path@), encoding));
                        assert(is_first_column_named(columns, i, column@));
                        assert(entry_sets(columns, encodings[last], next[last]));
                        assert forall|k: int| 0 <= k < n implies #[trigger] entry_sets(
                            columns,
                            encodings[k],
                            next[k],
                        ) by {
                            if k < last {
                                assert(next[k] == settings[k]);
                            }
                        }
                    },
                    _ => {
                        assert(entry_refused(
                            columns,
                            encodings[last],
                            encoding_settings(columns, encodings, n)->Err_0,
                        ));
                    },
                }
            },
        }
    }
}

/// Law: after a list of settings, dictionary encoding is disabled for the
/// path of every entry, whatever its encoding.
pub proof fn law_dictionary_disabled_for_each_entry(
    dictionary: Map<Seq<Seq<char>>, bool>,
    settings: Seq<(Seq<Seq<char>>, Encoding)>,
    k: int,
)
    requires
        0 <= k < settings.len(),
    ensures
        with_dictionary_disabled(dictionary, settings).contains_key(settings[k].0),
        with_dictionary_disabled(dictionary, settings)[settings[k].0] == false,
    decreases settings.len(),
{
    if k < settings.len() - 1 {
        let prev = settings.drop_last();
        law_dictionary_disabled_for_each_entry(dictionary, prev, k);
        assert(prev[k] == settings[k]);
    }
}

/// Law: after a list of settings, the encoding of an entry's path is that of
/// the last entry for that path (a later entry for a column wins).
pub proof fn law_last_entry_wins(
    encodings: Map<Seq<Seq<char>>, Encoding>,
    settings: Seq<(Seq<Seq<char>>, Encoding)>,
    k: int,
)
    requires
        0 <= k < settings.len(),
        forall|j: int| k < j < settings.len() ==> #[trigger] settings[j].0 != settings[k].0,
    ensures
        with_encodings(encodings, settings).contains_key(settings[k].0),
        with_encodings(encodings, settings)[settings[k].0] == settings[k].1,
    decreases settings.len(),
{
    if k < settings.len() - 1 {
        let prev = settings.drop_last();
        assert(settings[settings.len() - 1].0 != settings[k].0);
        assert forall|j: int| k < j < prev.len() implies #[trigger] prev[j].0 != prev[k].0 by {
            assert(prev[j] == settings[j]);
            assert(settings[j].0 != settings[k].0);
        }
        law_last_entry_wins(encodings, prev, k);
        assert(prev[k] == settings[k]);
    }
}

/// Law: a path that no entry names keeps its encoding and its dictionary
/// setting.
pub proof fn law_other_paths_unchanged(
    encodings: Map<Seq<Seq<char>>, Encoding>,
    dictionary: Map<Seq<Seq<char>>, bool>,
    settings: Seq<(Seq<Seq<char>>, Encoding)>,
    path: Seq<Seq<char>>,
)
    requires
        forall|k: int| 0 <= k < settings.len() ==> #[trigger] settings[k].0 != path,
    ensures
        with_encodings(encodings, settings).contains_key(path) == encodings.contains_key(path),
        with_encodings(encodings, settings)[path] == encodings[path],
        with_dictionary_disabled(dictionary, settings).contains_key(path) == dictionary.contains_key(
            path,
        ),
        with_dictionary_disabled(dictionary, settings)[path] == dictionary[path],
    decreases settings.len(),
{
    if settings.len() > 0 {
        let prev = settings.drop_last();
        assert(settings[settings.len() - 1].0 != path);
        assert forall|k: int| 0 <= k < prev.len() implies #[trigger] prev[k].0 != path by {
            assert(prev[k] == settings[k]);
            assert(settings[k].0 != path);
        }
        law_other_paths_unchanged(encodings, dictionary, prev, path);
    }
}

} // verus!
