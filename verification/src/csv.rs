//! TPC-DS CSV output settings.

use crate::tables::{table_name, Table};
use vstd::prelude::*;

verus! {

/// CSV output generator settings.
#[derive(Debug, Clone)]
pub struct Csv {
    output_dir: String,
    delimiter: char,
    /// Target size of each generated buffer
    chunk_bytes: i64,
}

impl Csv {
    /// The directory the CSV files are written to.
    pub closed spec fn spec_output_dir(&self) -> Seq<char> {
        self.output_dir@
    }

    /// The character between fields.
    pub closed spec fn spec_delimiter(&self) -> char {
        self.delimiter
    }

    /// The target size of each generated buffer.
    pub closed spec fn spec_chunk_bytes(&self) -> i64 {
        self.chunk_bytes
    }

    /// CSV output to `output_dir`, with fields separated by `delimiter` and
    /// buffers of about `chunk_bytes`.
    pub fn new(output_dir: String, delimiter: char, chunk_bytes: i64) -> (r: Self)
        ensures
            r.spec_output_dir() == output_dir@,
            r.spec_delimiter() == delimiter,
            r.spec_chunk_bytes() == chunk_bytes,
    {
        Self { output_dir, delimiter, chunk_bytes }
    }

    /// The directory the CSV files are written to.
    pub fn output_dir(&self) -> (r: &str)
        ensures
            r@ == self.spec_output_dir(),
    {
        self.output_dir.as_str()
    }

    /// The character between fields.
    pub fn delimiter(&self) -> (r: char)
        ensures
            r == self.spec_delimiter(),
    {
        self.delimiter
    }

    /// The target size of each generated buffer.
    pub fn chunk_bytes(&self) -> (r: i64)
        ensures
            r == self.spec_chunk_bytes(),
    {
        self.chunk_bytes
    }
}


/// The position of the first table without a CSV header, if there is one.
pub open spec fn first_without_header(tables: Seq<(Table, bool)>) -> Option<int>
    decreases tables.len(),
{
    if tables.len() == 0 {
        None
    } else if !tables[0].1 {
        Some(0)
    } else {
        match first_without_header(tables.drop_first()) {
            Some(i) => Some(i + 1),
            None => None,
        }
    }
}

/// The message of the error for a table without CSV output.
pub open spec fn no_csv_output_message(table: Table) -> Seq<char> {
    "table "@ + table_name(table) + " has no CSV output"@
}

proof fn lemma_first_without_header(tables: Seq<(Table, bool)>, k: int)
    requires
        0 <= k <= tables.len(),
        forall|j: int| 0 <= j < k ==> tables[j].1,
    ensures
        k < tables.len() && !tables[k].1 ==> first_without_header(tables) == Some(k),
        k == tables.len() ==> first_without_header(tables) is None,
    decreases k,
{
    if k > 0 {
        lemma_first_without_header(tables.drop_first(), k - 1);
    }
}

/// Checks that every requested table has a CSV header, before any file is
/// created: unlike DAT, a CSV file is not valid without one. `tables` holds
/// each table with whether it has a header.
pub fn check_csv_headers(tables: &Vec<(Table, bool)>) -> (r: Result<(), String>)
    ensures
        match first_without_header(tables@) {
            None => r is Ok,
            Some(i) => r matches Err(m) && m@ == no_csv_output_message(tables@[i].0),
        },
{
    let mut k: usize = 0;
    while k < tables.len() && tables[k].1
        invariant
            k <= tables.len(),
            forall|j: int| 0 <= j < k ==> tables@[j].1,
        decreases tables.len() - k,
    {
        k = k + 1;
    }
    proof {
        lemma_first_without_header(tables@, k as int);
    }
    if k == tables.len() {
        Ok(())
    } else {
        let mut message = "table ".to_owned();
        message.append(tables[k].0.get_name());
        message.append(" has no CSV output");
        Err(message)
    }
}

} // verus!
