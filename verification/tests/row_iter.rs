use tpcgen_cli::row_iter::{RowGenerator, RowIter};

/// One row per source row: the row number.
struct Simple {
    skipped_to: u64,
    consumed: u64,
}

impl RowGenerator for Simple {
    type Row = u64;
    type Session = ();
    type Error = String;

    // The spec functions describe the calls to the verifier; they are never called.
    fn spec_generate(&self, _row_number: u64, _session: &()) -> Option<(Vec<u64>, bool)> {
        unreachable!()
    }

    fn spec_after_generate(&self, _row_number: u64, _session: &()) -> Self {
        unreachable!()
    }

    fn spec_after_skip(&self, _starting_row_number: u64) -> Self {
        unreachable!()
    }

    fn spec_after_consume(&self) -> Self {
        unreachable!()
    }

    fn generate_row_and_child_rows(&mut self, row_number: u64, _session: &()) -> Result<(Vec<u64>, bool), String> {
        Ok((vec![row_number], true))
    }

    fn skip_rows_until_starting_row_number(&mut self, starting_row_number: u64) {
        self.skipped_to = starting_row_number;
    }

    fn consume_remaining_seeds_for_row(&mut self) {
        self.consumed += 1;
    }
}

/// Four calls per source row: a sale, an empty call, a sale with a return,
/// and an empty call that ends the row.
struct Paired {
    call: u64,
}

impl RowGenerator for Paired {
    type Row = (u64, &'static str);
    type Session = u64;
    type Error = ();

    // The spec functions describe the calls to the verifier; they are never called.
    fn spec_generate(&self, _row_number: u64, _session: &u64) -> Option<(Vec<(u64, &'static str)>, bool)> {
        unreachable!()
    }

    fn spec_after_generate(&self, _row_number: u64, _session: &u64) -> Self {
        unreachable!()
    }

    fn spec_after_skip(&self, _starting_row_number: u64) -> Self {
        unreachable!()
    }

    fn spec_after_consume(&self) -> Self {
        unreachable!()
    }

    fn generate_row_and_child_rows(
        &mut self,
        row_number: u64,
        _session: &u64,
    ) -> Result<(Vec<(u64, &'static str)>, bool), ()> {
        self.call += 1;
        Ok(match self.call % 4 {
            1 => (vec![(row_number, "sale")], false),
            2 => (vec![], false),
            3 => (vec![(row_number, "sale"), (row_number, "return")], false),
            _ => (vec![], true),
        })
    }

    fn skip_rows_until_starting_row_number(&mut self, _starting_row_number: u64) {}

    fn consume_remaining_seeds_for_row(&mut self) {}
}

fn drain<G: RowGenerator>(iter: &mut RowIter<G>) -> Vec<G::Row> {
    let mut rows = Vec::new();
    while let Some(row) = iter.next() {
        rows.push(row);
    }
    rows
}

#[test]
fn simple_generator_yields_one_row_per_source_row() {
    let mut iter = RowIter::new(Simple { skipped_to: 0, consumed: 0 }, (), 5);
    assert_eq!(drain(&mut iter), vec![1, 2, 3, 4, 5]);
    assert_eq!(iter.next(), None);
}

#[test]
fn source_row_range_restricts_generation() {
    let mut iter = RowIter::new(Simple { skipped_to: 0, consumed: 0 }, (), 10);
    iter.set_source_row_range(4, 6);
    assert_eq!(drain(&mut iter), vec![4, 5, 6]);

    // the ending row number is clamped to the row count
    let mut iter = RowIter::new(Simple { skipped_to: 0, consumed: 0 }, (), 10);
    iter.set_source_row_range(9, 20);
    assert_eq!(drain(&mut iter), vec![9, 10]);

    // a range past the end yields nothing
    let mut iter = RowIter::new(Simple { skipped_to: 0, consumed: 0 }, (), 3);
    iter.skip_rows_until_starting_row_number(7);
    assert_eq!(drain(&mut iter), Vec::<u64>::new());
}

#[test]
fn ranges_together_generate_the_whole_table() {
    let mut whole = RowIter::new(Simple { skipped_to: 0, consumed: 0 }, (), 10);
    let all = drain(&mut whole);
    let mut parts = Vec::new();
    for (start, end) in [(1, 3), (4, 7), (8, 10)] {
        let mut iter = RowIter::new(Simple { skipped_to: 0, consumed: 0 }, (), 10);
        iter.set_source_row_range(start, end);
        parts.extend(drain(&mut iter));
    }
    assert_eq!(parts, all);
}

#[test]
fn paired_generator_advances_when_the_row_ends() {
    let mut iter = RowIter::new(Paired { call: 0 }, 0, 2);
    assert_eq!(
        drain(&mut iter),
        vec![(1, "sale"), (1, "sale"), (1, "return"), (2, "sale"), (2, "sale"), (2, "return")]
    );
}

/// Counts the calls it gets.
struct Counting {
    generated: Vec<u64>,
    consumed: u64,
    skipped: Vec<u64>,
}

impl RowGenerator for Counting {
    type Row = u64;
    type Session = ();
    type Error = ();

    // The spec functions describe the calls to the verifier; they are never called.
    fn spec_generate(&self, _row_number: u64, _session: &()) -> Option<(Vec<u64>, bool)> {
        unreachable!()
    }

    fn spec_after_generate(&self, _row_number: u64, _session: &()) -> Self {
        unreachable!()
    }

    fn spec_after_skip(&self, _starting_row_number: u64) -> Self {
        unreachable!()
    }

    fn spec_after_consume(&self) -> Self {
        unreachable!()
    }

    fn generate_row_and_child_rows(&mut self, row_number: u64, _session: &()) -> Result<(Vec<u64>, bool), ()> {
        self.generated.push(row_number);
        Ok((vec![row_number * 10], true))
    }

    fn skip_rows_until_starting_row_number(&mut self, starting_row_number: u64) {
        self.skipped.push(starting_row_number);
    }

    fn consume_remaining_seeds_for_row(&mut self) {
        self.consumed += 1;
    }
}

#[test]
fn generator_calls_follow_the_source_rows() {
    let mut iter = RowIter::new(Counting { generated: vec![], consumed: 0, skipped: vec![] }, (), 6);
    iter.set_source_row_range(3, 5);
    assert_eq!(drain(&mut iter), vec![30, 40, 50]);
    assert_eq!(iter.next(), None);
    let mut iter = RowIter::new(Counting { generated: vec![], consumed: 0, skipped: vec![] }, (), 2);
    assert_eq!(iter.next(), Some(10));
    assert_eq!(iter.next(), Some(20));
    assert_eq!(iter.next(), None);
    assert_eq!(iter.next(), None);
}

#[test]
fn source_row_range_is_clamped_to_the_table() {
    // A second range is clamped to the table's row count, not to the first range.
    let mut iter = RowIter::new(Simple { skipped_to: 0, consumed: 0 }, (), 10);
    iter.set_source_row_range(1, 5);
    iter.set_source_row_range(4, 8);
    assert_eq!(drain(&mut iter), vec![4, 5, 6, 7, 8]);
    iter.set_source_row_range(9, 20);
    assert_eq!(drain(&mut iter), vec![9, 10]);
}
