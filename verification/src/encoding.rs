//! Parquet column encodings as selected with `--column-encoding`.

use parquet::basic::Encoding as ParquetEncoding;
use std::str::FromStr;
use vstd::prelude::*;

verus! {

/// A Parquet encoding, by the names the Parquet format gives them.
#[allow(non_camel_case_types)]
#[derive(Clone, Copy, Debug, PartialEq, Eq, Hash, Structural)]
pub enum Encoding {
    PLAIN,
    PLAIN_DICTIONARY,
    RLE,
    BIT_PACKED,
    DELTA_BINARY_PACKED,
    DELTA_LENGTH_BYTE_ARRAY,
    DELTA_BYTE_ARRAY,
    RLE_DICTIONARY,
    BYTE_STREAM_SPLIT,
    ALP,
}

/// The upper case name of an encoding, which is also how it is displayed.
pub open spec fn encoding_name(e: Encoding) -> Seq<char> {
    match e {
        Encoding::PLAIN => "PLAIN"@,
        Encoding::PLAIN_DICTIONARY => "PLAIN_DICTIONARY"@,
        Encoding::RLE => "RLE"@,
        Encoding::BIT_PACKED => "BIT_PACKED"@,
        Encoding::DELTA_BINARY_PACKED => "DELTA_BINARY_PACKED"@,
        Encoding::DELTA_LENGTH_BYTE_ARRAY => "DELTA_LENGTH_BYTE_ARRAY"@,
        Encoding::DELTA_BYTE_ARRAY => "DELTA_BYTE_ARRAY"@,
        Encoding::RLE_DICTIONARY => "RLE_DICTIONARY"@,
        Encoding::BYTE_STREAM_SPLIT => "BYTE_STREAM_SPLIT"@,
        Encoding::ALP => "ALP"@,
    }
}

/// The encoding that `s` names, either in upper or in lower case.
pub open spec fn encoding_named(s: Seq<char>) -> Option<Encoding> {
    if s == "PLAIN"@ || s == "plain"@ {
        Some(Encoding::PLAIN)
    } else if s == "PLAIN_DICTIONARY"@ || s == "plain_dictionary"@ {
        Some(Encoding::PLAIN_DICTIONARY)
    } else if s == "RLE"@ || s == "rle"@ {
        Some(Encoding::RLE)
    } else if s == "BIT_PACKED"@ || s == "bit_packed"@ {
        Some(Encoding::BIT_PACKED)
    } else if s == "DELTA_BINARY_PACKED"@ || s == "delta_binary_packed"@ {
        Some(Encoding::DELTA_BINARY_PACKED)
    } else if s == "DELTA_LENGTH_BYTE_ARRAY"@ || s == "delta_length_byte_array"@ {
        Some(Encoding::DELTA_LENGTH_BYTE_ARRAY)
    } else if s == "DELTA_BYTE_ARRAY"@ || s == "delta_byte_array"@ {
        Some(Encoding::DELTA_BYTE_ARRAY)
    } else if s == "RLE_DICTIONARY"@ || s == "rle_dictionary"@ {
        Some(Encoding::RLE_DICTIONARY)
    } else if s == "BYTE_STREAM_SPLIT"@ || s == "byte_stream_split"@ {
        Some(Encoding::BYTE_STREAM_SPLIT)
    } else if s == "ALP"@ || s == "alp"@ {
        Some(Encoding::ALP)
    } else {
        None
    }
}

/// The message of the error that names no encoding.
pub open spec fn unknown_encoding_message(s: Seq<char>) -> Seq<char> {
    "Parquet error: unknown encoding: "@ + s
}

/// Calls `parquet::basic::Encoding::from_str` on `s` and renders its error
/// with `to_string`. Per the parquet source, the call accepts exactly the
/// upper and lower case names of the encodings and otherwise fails with the
/// general error `unknown encoding: {s}`.
#[verifier::external_body]
fn parquet_encoding_from_str(s: &str) -> (r: Result<Encoding, String>)
    ensures
        match r {
            Ok(e) => encoding_named(s@) == Some(e),
            Err(m) => encoding_named(s@) is None && m@ == unknown_encoding_message(s@),
        },
{
    #[allow(deprecated)]
    match ParquetEncoding::from_str(s) {
        Ok(ParquetEncoding::PLAIN) => Ok(Encoding::PLAIN),
        Ok(ParquetEncoding::PLAIN_DICTIONARY) => Ok(Encoding::PLAIN_DICTIONARY),
        Ok(ParquetEncoding::RLE) => Ok(Encoding::RLE),
        Ok(ParquetEncoding::BIT_PACKED) => Ok(Encoding::BIT_PACKED),
        Ok(ParquetEncoding::DELTA_BINARY_PACKED) => Ok(Encoding::DELTA_BINARY_PACKED),
        Ok(ParquetEncoding::DELTA_LENGTH_BYTE_ARRAY) => Ok(Encoding::DELTA_LENGTH_BYTE_ARRAY),
        Ok(ParquetEncoding::DELTA_BYTE_ARRAY) => Ok(Encoding::DELTA_BYTE_ARRAY),
        Ok(ParquetEncoding::RLE_DICTIONARY) => Ok(Encoding::RLE_DICTIONARY),
        Ok(ParquetEncoding::BYTE_STREAM_SPLIT) => Ok(Encoding::BYTE_STREAM_SPLIT),
        Ok(ParquetEncoding::ALP) => Ok(Encoding::ALP),
        Err(e) => Err(e.to_string()),
    }
}


impl Encoding {
    /// The name of this encoding, as parquet displays it.
    pub fn name(&self) -> (r: String)
        ensures
            r@ == encoding_name(*self),
    {
        match self {
            Encoding::PLAIN => "PLAIN".to_owned(),
            Encoding::PLAIN_DICTIONARY => "PLAIN_DICTIONARY".to_owned(),
            Encoding::RLE => "RLE".to_owned(),
            Encoding::BIT_PACKED => "BIT_PACKED".to_owned(),
            Encoding::DELTA_BINARY_PACKED => "DELTA_BINARY_PACKED".to_owned(),
            Encoding::DELTA_LENGTH_BYTE_ARRAY => "DELTA_LENGTH_BYTE_ARRAY".to_owned(),
            Encoding::DELTA_BYTE_ARRAY => "DELTA_BYTE_ARRAY".to_owned(),
            Encoding::RLE_DICTIONARY => "RLE_DICTIONARY".to_owned(),
            Encoding::BYTE_STREAM_SPLIT => "BYTE_STREAM_SPLIT".to_owned(),
            Encoding::ALP => "ALP".to_owned(),
        }
    }
}

/// Whether an encoding is one of the two dictionary encodings.
pub open spec fn is_dictionary_encoding(e: Encoding) -> bool {
    e == Encoding::PLAIN_DICTIONARY || e == Encoding::RLE_DICTIONARY
}

/// Why `--column-encoding` cannot use `e`, if it cannot.
///
/// Dictionary encoding is a writer setting, not a column encoding, and
/// `BIT_PACKED` cannot be written.
pub open spec fn unsupported_encoding_message(e: Encoding) -> Option<Seq<char>> {
    if is_dictionary_encoding(e) {
        Some(
            "encoding "@ + encoding_name(e)
                + " cannot be set with --column-encoding; dictionary encoding is the writer default. Use a non-dictionary encoding such as PLAIN or DELTA_LENGTH_BYTE_ARRAY"@,
        )
    } else if e == Encoding::BIT_PACKED {
        Some("encoding BIT_PACKED is not supported for Parquet writing"@)
    } else {
        None
    }
}

/// Rejects an encoding `--column-encoding` cannot use.
///
/// Dictionary encoding is a writer setting, not a column encoding.
/// `BIT_PACKED` is not supported for writing in this parquet version.
pub fn reject_unsupported_encoding(encoding: Encoding) -> (r: Result<(), String>)
    ensures
        match unsupported_encoding_message(encoding) {
            None => r is Ok,
            Some(m) => r matches Err(e) && e@ == m,
        },
{
    match encoding {
        Encoding::PLAIN_DICTIONARY | Encoding::RLE_DICTIONARY => {
            let mut message = "encoding ".to_owned();
            let name = encoding.name();
            message.append(name.as_str());
            message.append(
                " cannot be set with --column-encoding; dictionary encoding is the writer default. Use a non-dictionary encoding such as PLAIN or DELTA_LENGTH_BYTE_ARRAY",
            );
            Err(message)
        },
        Encoding::BIT_PACKED => Err("encoding BIT_PACKED is not supported for Parquet writing".to_owned()),
        _ => Ok(()),
    }
}

/// Whether `c` has the Unicode `White_Space` property.
pub open spec fn is_white_space(c: char) -> bool {
    let u = c as u32;
    (0x9 <= u <= 0xd) || u == 0x20 || u == 0x85 || u == 0xa0 || u == 0x1680 || (0x2000 <= u
        <= 0x200a) || u == 0x2028 || u == 0x2029 || u == 0x202f || u == 0x205f || u == 0x3000
}

/// `s` without its leading white space.
pub open spec fn trim_start(s: Seq<char>) -> Seq<char>
    decreases s.len(),
{
    if s.len() > 0 && is_white_space(s[0]) {
        trim_start(s.drop_first())
    } else {
        s
    }
}

/// `s` without its trailing white space.
pub open spec fn trim_end(s: Seq<char>) -> Seq<char>
    decreases s.len(),
{
    if s.len() > 0 && is_white_space(s.last()) {
        trim_end(s.drop_last())
    } else {
        s
    }
}

/// `s` without its leading and trailing white space.
pub open spec fn trimmed(s: Seq<char>) -> Seq<char> {
    trim_end(trim_start(s))
}

/// Calls `str::trim`, which per its documentation removes the leading and
/// trailing characters that have the Unicode `White_Space` property.
#[verifier::external_body]
fn str_trim(s: &str) -> (r: &str)
    ensures
        r@ == trimmed(s@),
{
    s.trim()
}

/// The index of the first `c` in `s`, if `s` holds one.
pub open spec fn first_index_of(s: Seq<char>, c: char) -> Option<int>
    decreases s.len(),
{
    if s.len() == 0 {
        None
    } else if s[0] == c {
        Some(0)
    } else {
        match first_index_of(s.drop_first(), c) {
            Some(i) => Some(i + 1),
            None => None,
        }
    }
}

/// The message of the error for a malformed `COLUMN=ENCODING` pair.
pub open spec fn malformed_pair_message(s: Seq<char>) -> Seq<char> {
    "expected COLUMN=ENCODING, got: '"@ + s + "'"@
}

/// What parsing the `COLUMN=ENCODING` argument `s` gives: the trimmed column
/// name and the encoding, or an error message.
///
/// The text is split at its first `=`; both sides are trimmed and must not be
/// empty, and the right side must name an encoding.
pub open spec fn column_encoding_pair(s: Seq<char>) -> Result<(Seq<char>, Encoding), Seq<char>> {
    match first_index_of(s, '=') {
        None => Err(malformed_pair_message(s)),
        Some(i) => {
            let name = trimmed(s.subrange(0, i));
            let encoding = trimmed(s.subrange(i + 1, s.len() as int));
            if name.len() == 0 || encoding.len() == 0 {
                Err(malformed_pair_message(s))
            } else {
                match encoding_named(encoding) {
                    Some(e) => Ok((name, e)),
                    None => Err(unknown_encoding_message(encoding)),
                }
            }
        },
    }
}

proof fn lemma_first_index_of(s: Seq<char>, c: char, k: int)
    requires
        0 <= k <= s.len(),
        forall|j: int| 0 <= j < k ==> s[j] != c,
    ensures
        k < s.len() && s[k] == c ==> first_index_of(s, c) == Some(k),
        k == s.len() ==> first_index_of(s, c) is None,
    decreases k,
{
    if k > 0 {
        lemma_first_index_of(s.drop_first(), c, k - 1);
    } else if s.len() > 0 {
    }
}

/// Parses a `COLUMN=ENCODING` argument of `--column-encoding`.
pub fn parse_column_encoding_pair(s: &str) -> (r: Result<(String, Encoding), String>)
    ensures
        match (r, column_encoding_pair(s@)) {
            (Ok((name, e)), Ok((spec_name, spec_e))) => name@ == spec_name && e == spec_e,
            (Err(m), Err(spec_m)) => m@ == spec_m,
            _ => false,
        },
{
    let len = s.unicode_len();
    let mut i: usize = 0;
    while i < len && s.get_char(i) != '='
        invariant
            len == s@.len(),
            i <= len,
            forall|j: int| 0 <= j < i ==> s@[j] != '=',
        decreases len - i,
    {
        i = i + 1;
    }
    proof {
        lemma_first_index_of(s@, '=', i as int);
    }
    if i == len {
        return Err(malformed_pair(s));
    }
    let name = str_trim(s.substring_char(0, i));
    let encoding = str_trim(s.substring_char(i + 1, len));
    if name.is_empty() || encoding.is_empty() {
        return Err(malformed_pair(s));
    }
    match parquet_encoding_from_str(encoding) {
        Ok(e) => Ok((name.to_owned(), e)),
        Err(m) => Err(m),
    }
}

fn malformed_pair(s: &str) -> (r: String)
    ensures
        r@ == malformed_pair_message(s@),
{
    let mut message = "expected COLUMN=ENCODING, got: '".to_owned();
    message.append(s);
    message.append("'");
    message
}


/// Law: the name an encoding is displayed by parses back to that encoding.
pub proof fn law_encoding_name_parses_back(e: Encoding)
    ensures
        encoding_named(encoding_name(e)) == Some(e),
{
    reveal_strlit("PLAIN");
    reveal_strlit("plain");
    reveal_strlit("PLAIN_DICTIONARY");
    reveal_strlit("plain_dictionary");
    reveal_strlit("RLE");
    reveal_strlit("rle");
    reveal_strlit("BIT_PACKED");
    reveal_strlit("bit_packed");
    reveal_strlit("DELTA_BINARY_PACKED");
    reveal_strlit("delta_binary_packed");
    reveal_strlit("DELTA_LENGTH_BYTE_ARRAY");
    reveal_strlit("delta_length_byte_array");
    reveal_strlit("DELTA_BYTE_ARRAY");
    reveal_strlit("delta_byte_array");
    reveal_strlit("RLE_DICTIONARY");
    reveal_strlit("rle_dictionary");
    reveal_strlit("BYTE_STREAM_SPLIT");
    reveal_strlit("byte_stream_split");
    reveal_strlit("ALP");
    reveal_strlit("alp");
    match e {
        Encoding::PLAIN => {
        },
        Encoding::PLAIN_DICTIONARY => {
            assert("PLAIN"@.len() != "PLAIN_DICTIONARY"@.len());
            assert("plain"@.len() != "PLAIN_DICTIONARY"@.len());
        },
        Encoding::RLE => {
            assert("PLAIN"@.len() != "RLE"@.len());
            assert("plain"@.len() != "RLE"@.len());
            assert("PLAIN_DICTIONARY"@.len() != "RLE"@.len());
            assert("plain_dictionary"@.len() != "RLE"@.len());
        },
        Encoding::BIT_PACKED => {
            assert("PLAIN"@.len() != "BIT_PACKED"@.len());
            assert("plain"@.len() != "BIT_PACKED"@.len());
            assert("PLAIN_DICTIONARY"@.len() != "BIT_PACKED"@.len());
            assert("plain_dictionary"@.len() != "BIT_PACKED"@.len());
            assert("RLE"@.len() != "BIT_PACKED"@.len());
            assert("rle"@.len() != "BIT_PACKED"@.len());
        },
        Encoding::DELTA_BINARY_PACKED => {
            assert("PLAIN"@.len() != "DELTA_BINARY_PACKED"@.len());
            assert("plain"@.len() != "DELTA_BINARY_PACKED"@.len());
            assert("PLAIN_DICTIONARY"@.len() != "DELTA_BINARY_PACKED"@.len());
            assert("plain_dictionary"@.len() != "DELTA_BINARY_PACKED"@.len());
            assert("RLE"@.len() != "DELTA_BINARY_PACKED"@.len());
            assert("rle"@.len() != "DELTA_BINARY_PACKED"@.len());
            assert("BIT_PACKED"@.len() != "DELTA_BINARY_PACKED"@.len());
            assert("bit_packed"@.len() != "DELTA_BINARY_PACKED"@.len());
        },
        Encoding::DELTA_LENGTH_BYTE_ARRAY => {
            assert("PLAIN"@.len() != "DELTA_LENGTH_BYTE_ARRAY"@.len());
            assert("plain"@.len() != "DELTA_LENGTH_BYTE_ARRAY"@.len());
            assert("PLAIN_DICTIONARY"@.len() != "DELTA_LENGTH_BYTE_ARRAY"@.len());
            assert("plain_dictionary"@.len() != "DELTA_LENGTH_BYTE_ARRAY"@.len());
            assert("RLE"@.len() != "DELTA_LENGTH_BYTE_ARRAY"@.len());
            assert("rle"@.len() != "DELTA_LENGTH_BYTE_ARRAY"@.len());
            assert("BIT_PACKED"@.len() != "DELTA_LENGTH_BYTE_ARRAY"@.len());
            assert("bit_packed"@.len() != "DELTA_LENGTH_BYTE_ARRAY"@.len());
            assert("DELTA_BINARY_PACKED"@.len() != "DELTA_LENGTH_BYTE_ARRAY"@.len());
            assert("delta_binary_packed"@.len() != "DELTA_LENGTH_BYTE_ARRAY"@.len());
        },
        Encoding::DELTA_BYTE_ARRAY => {
            assert("PLAIN"@.len() != "DELTA_BYTE_ARRAY"@.len());
            assert("plain"@.len() != "DELTA_BYTE_ARRAY"@.len());
            assert("PLAIN_DICTIONARY"@[0] != "DELTA_BYTE_ARRAY"@[0]);
            assert("plain_dictionary"@[0] != "DELTA_BYTE_ARRAY"@[0]);
            assert("RLE"@.len() != "DELTA_BYTE_ARRAY"@.len());
            assert("rle"@.len() != "DELTA_BYTE_ARRAY"@.len());
            assert("BIT_PACKED"@.len() != "DELTA_BYTE_ARRAY"@.len());
            assert("bit_packed"@.len() != "DELTA_BYTE_ARRAY"@.len());
            assert("DELTA_BINARY_PACKED"@.len() != "DELTA_BYTE_ARRAY"@.len());
            assert("delta_binary_packed"@.len() != "DELTA_BYTE_ARRAY"@.len());
            assert("DELTA_LENGTH_BYTE_ARRAY"@.len() != "DELTA_BYTE_ARRAY"@.len());
            assert("delta_length_byte_array"@.len() != "DELTA_BYTE_ARRAY"@.len());
        },
        Encoding::RLE_DICTIONARY => {
            assert("PLAIN"@.len() != "RLE_DICTIONARY"@.len());
            assert("plain"@.len() != "RLE_DICTIONARY"@.len());
            assert("PLAIN_DICTIONARY"@.len() != "RLE_DICTIONARY"@.len());
            assert("plain_dictionary"@.len() != "RLE_DICTIONARY"@.len());
            assert("RLE"@.len() != "RLE_DICTIONARY"@.len());
            assert("rle"@.len() != "RLE_DICTIONARY"@.len());
            assert("BIT_PACKED"@.len() != "RLE_DICTIONARY"@.len());
            assert("bit_packed"@.len() != "RLE_DICTIONARY"@.len());
            assert("DELTA_BINARY_PACKED"@.len() != "RLE_DICTIONARY"@.len());
            assert("delta_binary_packed"@.len() != "RLE_DICTIONARY"@.len());
            assert("DELTA_LENGTH_BYTE_ARRAY"@.len() != "RLE_DICTIONARY"@.len());
            assert("delta_length_byte_array"@.len() != "RLE_DICTIONARY"@.len());
            assert("DELTA_BYTE_ARRAY"@.len() != "RLE_DICTIONARY"@.len());
            assert("delta_byte_array"@.len() != "RLE_DICTIONARY"@.len());
        },
        Encoding::BYTE_STREAM_SPLIT => {
            assert("PLAIN"@.len() != "BYTE_STREAM_SPLIT"@.len());
            assert("plain"@.len() != "BYTE_STREAM_SPLIT"@.len());
            assert("PLAIN_DICTIONARY"@.len() != "BYTE_STREAM_SPLIT"@.len());
            assert("plain_dictionary"@.len() != "BYTE_STREAM_SPLIT"@.len());
            assert("RLE"@.len() != "BYTE_STREAM_SPLIT"@.len());
            assert("rle"@.len() != "BYTE_STREAM_SPLIT"@.len());
            assert("BIT_PACKED"@.len() != "BYTE_STREAM_SPLIT"@.len());
            assert("bit_packed"@.len() != "BYTE_STREAM_SPLIT"@.len());
            assert("DELTA_BINARY_PACKED"@.len() != "BYTE_STREAM_SPLIT"@.len());
            assert("delta_binary_packed"@.len() != "BYTE_STREAM_SPLIT"@.len());
            assert("DELTA_LENGTH_BYTE_ARRAY"@.len() != "BYTE_STREAM_SPLIT"@.len());
            assert("delta_length_byte_array"@.len() != "BYTE_STREAM_SPLIT"@.len());
            assert("DELTA_BYTE_ARRAY"@.len() != "BYTE_STREAM_SPLIT"@.len());
            assert("delta_byte_array"@.len() != "BYTE_STREAM_SPLIT"@.len());
            assert("RLE_DICTIONARY"@.len() != "BYTE_STREAM_SPLIT"@.len());
            assert("rle_dictionary"@.len() != "BYTE_STREAM_SPLIT"@.len());
        },
        Encoding::ALP => {
            assert("PLAIN"@.len() != "ALP"@.len());
            assert("plain"@.len() != "ALP"@.len());
            assert("PLAIN_DICTIONARY"@.len() != "ALP"@.len());
            assert("plain_dictionary"@.len() != "ALP"@.len());
            assert("RLE"@[0] != "ALP"@[0]);
            assert("rle"@[0] != "ALP"@[0]);
            assert("BIT_PACKED"@.len() != "ALP"@.len());
            assert("bit_packed"@.len() != "ALP"@.len());
            assert("DELTA_BINARY_PACKED"@.len() != "ALP"@.len());
            assert("delta_binary_packed"@.len() != "ALP"@.len());
            assert("DELTA_LENGTH_BYTE_ARRAY"@.len() != "ALP"@.len());
            assert("delta_length_byte_array"@.len() != "ALP"@.len());
            assert("DELTA_BYTE_ARRAY"@.len() != "ALP"@.len());
            assert("delta_byte_array"@.len() != "ALP"@.len());
            assert("RLE_DICTIONARY"@.len() != "ALP"@.len());
            assert("rle_dictionary"@.len() != "ALP"@.len());
            assert("BYTE_STREAM_SPLIT"@.len() != "ALP"@.len());
            assert("byte_stream_split"@.len() != "ALP"@.len());
        },
    }
}


/// Whether every character of `s` is white space.
pub open spec fn all_white_space(s: Seq<char>) -> bool {
    forall|i: int| 0 <= i < s.len() ==> is_white_space(#[trigger] s[i])
}

proof fn lemma_trim_lengths(s: Seq<char>)
    ensures
        trim_start(s).len() <= s.len(),
        trim_end(s).len() <= s.len(),
        s.len() > 0 && is_white_space(s[0]) ==> trim_start(s).len() < s.len(),
        s.len() > 0 && is_white_space(s.last()) ==> trim_end(s).len() < s.len(),
    decreases s.len(),
{
    if s.len() > 0 {
        lemma_trim_lengths(s.drop_first());
        lemma_trim_lengths(s.drop_last());
    }
}

proof fn lemma_trim_start_white(w: Seq<char>, x: Seq<char>)
    requires
        all_white_space(w),
    ensures
        trim_start(w + x) == trim_start(x),
    decreases w.len(),
{
    if w.len() > 0 {
        assert((w + x)[0] == w[0]);
        assert((w + x).drop_first() =~= w.drop_first() + x);
        lemma_trim_start_white(w.drop_first(), x);
    } else {
        assert(w + x =~= x);
    }
}

proof fn lemma_trim_end_white(x: Seq<char>, w: Seq<char>)
    requires
        all_white_space(w),
    ensures
        trim_end(x + w) == trim_end(x),
    decreases w.len(),
{
    if w.len() > 0 {
        assert((x + w).last() == w.last());
        assert((x + w).drop_last() =~= x + w.drop_last());
        lemma_trim_end_white(x, w.drop_last());
    } else {
        assert(x + w =~= x);
    }
}

/// Text that starts and ends with a character other than white space comes
/// out of white space on both sides trimmed to itself.
proof fn lemma_trimmed_padded(w1: Seq<char>, x: Seq<char>, w2: Seq<char>)
    requires
        all_white_space(w1),
        all_white_space(w2),
        x.len() > 0,
        !is_white_space(x[0]),
        !is_white_space(x.last()),
    ensures
        trimmed(w1 + x + w2) == x,
{
    assert(w1 + x + w2 =~= w1 + (x + w2));
    lemma_trim_start_white(w1, x + w2);
    assert((x + w2)[0] == x[0]);
    lemma_trim_end_white(x, w2);
    assert(trim_end(x) == trim_end(x.drop_last().push(x.last())));
    assert(x.drop_last().push(x.last()) =~= x);
}

/// Trimmed text that is not empty starts and ends with a character other
/// than white space.
proof fn lemma_trimmed_ends(n: Seq<char>)
    requires
        trimmed(n) == n,
        n.len() > 0,
    ensures
        !is_white_space(n[0]),
        !is_white_space(n.last()),
{
    lemma_trim_lengths(n);
    lemma_trim_lengths(trim_start(n));
    if is_white_space(n[0]) {
        assert(trimmed(n).len() < n.len());
    }
    assert(trim_start(n) == n);
}

/// The name of an encoding starts and ends with a letter.
proof fn lemma_encoding_name_ends(e: Encoding)
    ensures
        encoding_name(e).len() > 0,
        !is_white_space(encoding_name(e)[0]),
        !is_white_space(encoding_name(e).last()),
{
    match e {
        Encoding::PLAIN => {
            reveal_strlit("PLAIN");
            assert(encoding_name(e)[0] == 'P');
            assert(encoding_name(e).last() == 'N');
        },
        Encoding::PLAIN_DICTIONARY => {
            reveal_strlit("PLAIN_DICTIONARY");
            assert(encoding_name(e)[0] == 'P');
            assert(encoding_name(e).last() == 'Y');
        },
        Encoding::RLE => {
            reveal_strlit("RLE");
            assert(encoding_name(e)[0] == 'R');
            assert(encoding_name(e).last() == 'E');
        },
        Encoding::BIT_PACKED => {
            reveal_strlit("BIT_PACKED");
            assert(encoding_name(e)[0] == 'B');
            assert(encoding_name(e).last() == 'D');
        },
        Encoding::DELTA_BINARY_PACKED => {
            reveal_strlit("DELTA_BINARY_PACKED");
            assert(encoding_name(e)[0] == 'D');
            assert(encoding_name(e).last() == 'D');
        },
        Encoding::DELTA_LENGTH_BYTE_ARRAY => {
            reveal_strlit("DELTA_LENGTH_BYTE_ARRAY");
            assert(encoding_name(e)[0] == 'D');
            assert(encoding_name(e).last() == 'Y');
        },
        Encoding::DELTA_BYTE_ARRAY => {
            reveal_strlit("DELTA_BYTE_ARRAY");
            assert(encoding_name(e)[0] == 'D');
            assert(encoding_name(e).last() == 'Y');
        },
        Encoding::RLE_DICTIONARY => {
            reveal_strlit("RLE_DICTIONARY");
            assert(encoding_name(e)[0] == 'R');
            assert(encoding_name(e).last() == 'Y');
        },
        Encoding::BYTE_STREAM_SPLIT => {
            reveal_strlit("BYTE_STREAM_SPLIT");
            assert(encoding_name(e)[0] == 'B');
            assert(encoding_name(e).last() == 'T');
        },
        Encoding::ALP => {
            reveal_strlit("ALP");
            assert(encoding_name(e)[0] == 'A');
            assert(encoding_name(e).last() == 'P');
        },
    }
}

/// Law: a `COLUMN=ENCODING` argument parses to its column name and encoding,
/// with white space around either side trimmed, split at the first `=`.
pub proof fn law_column_encoding_pair_parses(
    name: Seq<char>,
    e: Encoding,
    w1: Seq<char>,
    w2: Seq<char>,
)
    requires
        trimmed(name) == name,
        name.len() > 0,
        !name.contains('='),
        all_white_space(w1),
        all_white_space(w2),
    ensures
        column_encoding_pair(w1 + name + w2 + "="@ + w1 + encoding_name(e) + w2) == Ok::<
            (Seq<char>, Encoding),
            Seq<char>,
        >((name, e)),
{
    reveal_strlit("=");
    let left = w1 + name + w2;
    let right = w1 + encoding_name(e) + w2;
    let s = w1 + name + w2 + "="@ + w1 + encoding_name(e) + w2;
    assert(s =~= left + seq!['='] + right);
    assert forall|j: int| 0 <= j < left.len() implies s[j] != '=' by {
        assert(s[j] == left[j]);
        if j < w1.len() {
            assert(is_white_space(w1[j]));
        } else if j < w1.len() + name.len() {
            assert(name[j - w1.len()] == left[j]);
        } else {
            assert(is_white_space(w2[j - w1.len() - name.len()]));
        }
    }
    lemma_first_index_of(s, '=', left.len() as int);
    assert(s.subrange(0, left.len() as int) =~= left);
    assert(s.subrange(left.len() as int + 1, s.len() as int) =~= right);
    lemma_trimmed_ends(name);
    lemma_trimmed_padded(w1, name, w2);
    lemma_encoding_name_ends(e);
    lemma_trimmed_padded(w1, encoding_name(e), w2);
    law_encoding_name_parses_back(e);
}

} // verus!
