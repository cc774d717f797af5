//! [`RowIter`]: stream generated rows from a [`RowGenerator`].

use std::collections::VecDeque;
use vstd::prelude::*;

verus! {

/// A generator of the rows of a table, one source row at a time.
///
/// A simple generator emits one row per source row and ends the row on every
/// call. A paired fact-table generator (for example `store_sales` with
/// `store_returns`) is called several times per source row and says with the
/// flag it returns when the source row is complete.
///
/// Each implementation describes its calls with the spec functions below:
/// what a call gives in a given state, and the state it leaves behind.
pub trait RowGenerator: Sized {
    /// A generated row.
    type Row;
    /// What generation is configured by (scale, parts, compatibility mode).
    type Session;
    /// Why a row could not be generated.
    type Error;

    /// What a call for source row `row_number` gives in this state: the rows
    /// and whether the source row is complete, or `None` if it fails.
    spec fn spec_generate(&self, row_number: u64, session: &Self::Session) -> Option<
        (Vec<Self::Row>, bool),
    >;

    /// The state a call for source row `row_number` leaves behind.
    spec fn spec_after_generate(&self, row_number: u64, session: &Self::Session) -> Self;

    /// The state after fast forwarding to `starting_row_number`.
    spec fn spec_after_skip(&self, starting_row_number: u64) -> Self;

    /// The state after consuming the seeds a completed source row left.
    spec fn spec_after_consume(&self) -> Self;

    /// Generates the rows of one call for source row `row_number`, and
    /// whether the source row is complete.
    fn generate_row_and_child_rows(&mut self, row_number: u64, session: &Self::Session) -> (r:
        Result<(Vec<Self::Row>, bool), Self::Error>)
        ensures
            match r {
                Ok((rows, end)) => old(self).spec_generate(row_number, session) matches Some(
                    (spec_rows, spec_end),
                ) && spec_rows@ == rows@ && spec_end == end,
                Err(_) => old(self).spec_generate(row_number, session) is None,
            },
            *final(self) == old(self).spec_after_generate(row_number, session),
    ;

    /// Fast forwards the random number streams to `starting_row_number`.
    fn skip_rows_until_starting_row_number(&mut self, starting_row_number: u64)
        ensures
            *final(self) == old(self).spec_after_skip(starting_row_number),
    ;

    /// Consumes the random numbers the completed source row did not use.
    fn consume_remaining_seeds_for_row(&mut self)
        ensures
            *final(self) == old(self).spec_after_consume(),
    ;
}

/// One round of the row loop at source row `row`: the generator's call, and
/// if it completes the row, the consumed seeds and the next row. Gives the
/// new state, the new row and the generated rows, or `None` if the call
/// fails or the row number would overflow.
pub open spec fn generation_step<G: RowGenerator>(g: G, session: &G::Session, row: u64) -> Option<
    (G, u64, Seq<G::Row>),
> {
    match g.spec_generate(row, session) {
        None => None,
        Some((rows, end)) => {
            let after = g.spec_after_generate(row, session);
            if !end {
                Some((after, row, rows@))
            } else if row == u64::MAX {
                None
            } else {
                Some((after.spec_after_consume(), (row + 1) as u64, rows@))
            }
        },
    }
}

/// Where the row loop stops, within `fuel` rounds, starting at `row`: the
/// state, the row and the first non-empty batch of rows, or no rows once the
/// row is past `row_count`. `None` if it does not stop within `fuel` rounds
/// or a round fails.
pub open spec fn fill<G: RowGenerator>(
    g: G,
    session: &G::Session,
    row: u64,
    row_count: u64,
    fuel: nat,
) -> Option<(G, u64, Seq<G::Row>)>
    decreases fuel,
{
    if row > row_count {
        Some((g, row, seq![]))
    } else if fuel == 0 {
        None
    } else {
        match generation_step(g, session, row) {
            None => None,
            Some((g2, row2, rows)) => if rows.len() > 0 {
                Some((g2, row2, rows))
            } else {
                fill(g2, session, row2, row_count, (fuel - 1) as nat)
            },
        }
    }
}

/// All the rows generated from `row` up to `row_count`, in order, within
/// `fuel` rounds.
pub open spec fn rows_within<G: RowGenerator>(
    g: G,
    session: &G::Session,
    row: u64,
    row_count: u64,
    fuel: nat,
) -> Option<Seq<G::Row>>
    decreases fuel,
{
    if row > row_count {
        Some(seq![])
    } else if fuel == 0 {
        None
    } else {
        match generation_step(g, session, row) {
            None => None,
            Some((g2, row2, rows)) => match rows_within(
                g2,
                session,
                row2,
                row_count,
                (fuel - 1) as nat,
            ) {
                Some(rest) => Some(rows + rest),
                None => None,
            },
        }
    }
}

/// All the rows generated for source rows `row..=row_count`, in order: the
/// rows of every call, a row advancing after each call that completes it.
/// `None` if that never ends, or a call fails.
pub open spec fn generated_rows<G: RowGenerator>(
    g: G,
    session: &G::Session,
    row: u64,
    row_count: u64,
) -> Option<Seq<G::Row>> {
    if exists|fuel: nat| #[trigger] rows_within(g, session, row, row_count, fuel) is Some {
        rows_within(
            g,
            session,
            row,
            row_count,
            choose|fuel: nat| #[trigger] rows_within(g, session, row, row_count, fuel) is Some,
        )
    } else {
        None
    }
}

/// Where the row loop stops from `row`, if it stops.
pub open spec fn next_fill<G: RowGenerator>(
    g: G,
    session: &G::Session,
    row: u64,
    row_count: u64,
) -> Option<(G, u64, Seq<G::Row>)> {
    if exists|fuel: nat| #[trigger] fill(g, session, row, row_count, fuel) is Some {
        fill(
            g,
            session,
            row,
            row_count,
            choose|fuel: nat| #[trigger] fill(g, session, row, row_count, fuel) is Some,
        )
    } else {
        None
    }
}

proof fn lemma_fill_stops<G: RowGenerator>(g: G, session: &G::Session, row: u64, row_count: u64, fuel: nat)
    requires
        fill(g, session, row, row_count, fuel) is Some,
    ensures
        ({
            let (g2, row2, rows) = fill(g, session, row, row_count, fuel)->Some_0;
            rows.len() > 0 || row2 > row_count
        }),
    decreases fuel,
{
    if row <= row_count {
        let (g2, row2, rows) = generation_step(g, session, row)->Some_0;
        if rows.len() == 0 {
            lemma_fill_stops(g2, session, row2, row_count, (fuel - 1) as nat);
        }
    }
}

proof fn lemma_rows_within_unique<G: RowGenerator>(
    g: G,
    session: &G::Session,
    row: u64,
    row_count: u64,
    a: nat,
    b: nat,
)
    requires
        rows_within(g, session, row, row_count, a) is Some,
        rows_within(g, session, row, row_count, b) is Some,
    ensures
        rows_within(g, session, row, row_count, a) == rows_within(g, session, row, row_count, b),
    decreases a,
{
    if row <= row_count {
        let (g2, row2, rows) = generation_step(g, session, row)->Some_0;
        lemma_rows_within_unique(g2, session, row2, row_count, (a - 1) as nat, (b - 1) as nat);
    }
}

/// The rows from where the loop stops on are the rest of all the rows.
proof fn lemma_fill_then_rest<G: RowGenerator>(
    g: G,
    session: &G::Session,
    row: u64,
    row_count: u64,
    fill_fuel: nat,
    fuel: nat,
)
    requires
        fill(g, session, row, row_count, fill_fuel) is Some,
        rows_within(g, session, row, row_count, fuel) is Some,
    ensures
        ({
            let (g2, row2, rows) = fill(g, session, row, row_count, fill_fuel)->Some_0;
            &&& generated_rows(g2, session, row2, row_count) is Some
            &&& rows_within(g, session, row, row_count, fuel)->Some_0 == rows
                + generated_rows(g2, session, row2, row_count)->Some_0
        }),
    decreases fuel,
{
    let (g2, row2, rows) = fill(g, session, row, row_count, fill_fuel)->Some_0;
    if row > row_count {
        assert(rows_within(g, session, row, row_count, 0) is Some);
        lemma_generated_rows(g2, session, row2, row_count, 0);
        assert(rows + seq![] =~= seq![]);
    } else {
        let (g1, row1, batch) = generation_step(g, session, row)->Some_0;
        if batch.len() > 0 {
            lemma_generated_rows(g1, session, row1, row_count, (fuel - 1) as nat);
        } else {
            lemma_fill_then_rest(g1, session, row1, row_count, (fill_fuel - 1) as nat, (fuel - 1) as nat);
            assert(batch + rows_within(g1, session, row1, row_count, (fuel - 1) as nat)->Some_0
                =~= rows_within(g1, session, row1, row_count, (fuel - 1) as nat)->Some_0);
        }
    }
}

/// `generated_rows` is what any sufficient fuel gives.
proof fn lemma_generated_rows<G: RowGenerator>(
    g: G,
    session: &G::Session,
    row: u64,
    row_count: u64,
    fuel: nat,
)
    requires
        rows_within(g, session, row, row_count, fuel) is Some,
    ensures
        generated_rows(g, session, row, row_count) == rows_within(g, session, row, row_count, fuel),
{
    let chosen = choose|f: nat| #[trigger] rows_within(g, session, row, row_count, f) is Some;
    lemma_rows_within_unique(g, session, row, row_count, chosen, fuel);
}

/// Adapts a [`RowGenerator`] into a stream of rows.
///
/// Handles both simple generators (one row per call, `should_end_row` always
/// true) and paired fact-table generators (multiple calls per source row,
/// `should_end_row` signals when to advance the row counter).
///
/// Restricting the iterator to a range of source rows with
/// [`Self::set_source_row_range`] is what makes parallel generation possible:
/// each range can be generated independently.
pub struct RowIter<G: RowGenerator> {
    generator: G,
    session: G::Session,
    current_row: u64,
    row_count: u64,
    /// The number of source rows of the table
    table_row_count: u64,
    pending: VecDeque<G::Row>,
}

impl<G: RowGenerator> RowIter<G> {
    /// The generator the rows come from.
    pub closed spec fn spec_generator(&self) -> G {
        self.generator
    }

    /// The session handed to every generator call.
    pub closed spec fn spec_session(&self) -> G::Session {
        self.session
    }

    /// The next source row to generate (1-based).
    pub closed spec fn spec_current_row(&self) -> u64 {
        self.current_row
    }

    /// The last source row to generate (1-based, inclusive).
    pub closed spec fn spec_row_count(&self) -> u64 {
        self.row_count
    }

    /// The number of source rows of the table, which the end of a source
    /// row range is clamped to.
    pub closed spec fn spec_table_row_count(&self) -> u64 {
        self.table_row_count
    }

    /// Rows generated but not handed out yet, in order.
    pub closed spec fn spec_pending(&self) -> Seq<G::Row> {
        self.pending@
    }

    /// Whether every row has been handed out.
    pub open spec fn spec_is_done(&self) -> bool {
        self.spec_pending().len() == 0 && self.spec_current_row() > self.spec_row_count()
    }

    /// Every row still to be handed out, in order: the pending rows, then
    /// the rows generated for the remaining source rows. `None` if
    /// generating them never ends or fails.
    pub open spec fn spec_remaining(&self) -> Option<Seq<G::Row>> {
        match generated_rows(
            self.spec_generator(),
            &self.spec_session(),
            self.spec_current_row(),
            self.spec_row_count(),
        ) {
            Some(rows) => Some(self.spec_pending() + rows),
            None => None,
        }
    }

    /// Where the next call of [`Self::next`] stops generating, when nothing
    /// is pending.
    pub open spec fn spec_next_fill(&self) -> Option<(G, u64, Seq<G::Row>)> {
        next_fill(
            self.spec_generator(),
            &self.spec_session(),
            self.spec_current_row(),
            self.spec_row_count(),
        )
    }

    /// Whether [`Self::next`] can be called: rows are pending, or generating
    /// from the current source row stops and succeeds.
    pub open spec fn spec_can_advance(&self) -> bool {
        self.spec_pending().len() > 0 || self.spec_next_fill() is Some
    }

    /// What a call of [`Self::next`] does: from state `self` to state
    /// `after`, returning `r`.
    ///
    /// A pending row is handed out first, without calling the generator.
    /// Otherwise the generator is called, row after row, until a call emits
    /// rows (the first is returned, the rest become pending) or the rows run
    /// out (`None`). Everything still to be handed out is `r`, then what is
    /// still to be handed out afterwards.
    pub open spec fn spec_next_post(&self, after: Self, r: Option<G::Row>) -> bool {
        &&& after.spec_row_count() == self.spec_row_count()
        &&& after.spec_table_row_count() == self.spec_table_row_count()
        &&& after.spec_session() == self.spec_session()
        &&& self.spec_pending().len() > 0 ==> {
            &&& r == Some(self.spec_pending()[0])
            &&& after.spec_pending() == self.spec_pending().drop_first()
            &&& after.spec_current_row() == self.spec_current_row()
            &&& after.spec_generator() == self.spec_generator()
        }
        &&& self.spec_pending().len() == 0 ==> {
            let (g, row, rows) = self.spec_next_fill()->Some_0;
            &&& after.spec_generator() == g
            &&& after.spec_current_row() == row
            &&& rows.len() == 0 ==> r is None && row > self.spec_row_count()
            &&& rows.len() > 0 ==> r == Some(rows[0]) && after.spec_pending() == rows.drop_first()
        }
        &&& self.spec_is_done() ==> r is None && after == *self
        &&& r is None ==> after.spec_is_done()
        &&& self.spec_remaining() is Some ==> {
            let all = self.spec_remaining()->Some_0;
            &&& after.spec_remaining() is Some
            &&& r is None ==> all.len() == 0
            &&& r matches Some(row) ==> all == seq![row] + after.spec_remaining()->Some_0
        }
    }

    /// Generate source rows `1..=row_count`.
    pub fn new(generator: G, session: G::Session, row_count: u64) -> (r: Self)
        ensures
            r.spec_generator() == generator,
            r.spec_session() == session,
            r.spec_current_row() == 1,
            r.spec_row_count() == row_count,
            r.spec_table_row_count() == row_count,
            r.spec_pending().len() == 0,
            r.spec_remaining() == generated_rows(generator, &session, 1, row_count),
    {
        let r = Self {
            generator,
            session,
            current_row: 1,
            row_count,
            table_row_count: row_count,
            pending: VecDeque::new(),
        };
        proof {
            if let Some(rows) = generated_rows(generator, &session, 1, row_count) {
                assert(r.pending@ + rows =~= rows);
            }
        }
        r
    }

    /// Start generating at `starting_row_number` (1-based), fast forwarding
    /// the generator's random number streams to that row.
    pub fn skip_rows_until_starting_row_number(&mut self, starting_row_number: u64)
        ensures
            final(self).spec_generator() == old(self).spec_generator().spec_after_skip(
                starting_row_number,
            ),
            final(self).spec_current_row() == starting_row_number,
            final(self).spec_pending().len() == 0,
            final(self).spec_row_count() == old(self).spec_row_count(),
            final(self).spec_table_row_count() == old(self).spec_table_row_count(),
            final(self).spec_session() == old(self).spec_session(),
            final(self).spec_remaining() == generated_rows(
                old(self).spec_generator().spec_after_skip(starting_row_number),
                &old(self).spec_session(),
                starting_row_number,
                old(self).spec_row_count(),
            ),
    {
        self.generator.skip_rows_until_starting_row_number(starting_row_number);
        self.current_row = starting_row_number;
        self.pending.clear();
        proof {
            if let Some(rows) = generated_rows(
                self.generator,
                &self.session,
                self.current_row,
                self.row_count,
            ) {
                assert(self.pending@ + rows =~= rows);
            }
        }
    }

    /// Restrict generation to source rows
    /// `starting_row_number..=ending_row_number` (1-based, inclusive).
    ///
    /// The ending row number is clamped to the table's row count.
    pub fn set_source_row_range(&mut self, starting_row_number: u64, ending_row_number: u64)
        ensures
            final(self).spec_generator() == old(self).spec_generator().spec_after_skip(
                starting_row_number,
            ),
            final(self).spec_current_row() == starting_row_number,
            final(self).spec_pending().len() == 0,
            final(self).spec_row_count() == if ending_row_number < old(
                self,
            ).spec_table_row_count() {
                ending_row_number
            } else {
                old(self).spec_table_row_count()
            },
            final(self).spec_table_row_count() == old(self).spec_table_row_count(),
            final(self).spec_session() == old(self).spec_session(),
            final(self).spec_remaining() == generated_rows(
                old(self).spec_generator().spec_after_skip(starting_row_number),
                &old(self).spec_session(),
                starting_row_number,
                final(self).spec_row_count(),
            ),
    {
        self.skip_rows_until_starting_row_number(starting_row_number);
        self.row_count = if ending_row_number < self.table_row_count {
            ending_row_number
        } else {
            self.table_row_count
        };
        proof {
            if let Some(rows) = generated_rows(
                self.generator,
                &self.session,
                self.current_row,
                self.row_count,
            ) {
                assert(self.pending@ + rows =~= rows);
            }
        }
    }

    /// The next generated row, or `None` once the last source row is done.
    ///
    /// Rows already generated are handed out first, in order, without
    /// calling the generator. Otherwise the generator is called for the
    /// current source row until a call emits rows or the source rows run out;
    /// after each call that completes the source row, the remaining seeds of
    /// the row are consumed and the next source row follows.
    ///
    /// Generating must stop and succeed: otherwise the row loop runs
    /// forever, or a failed call or an overflowing row number panics.
    pub fn next(&mut self) -> (r: Option<G::Row>)
        requires
            old(self).spec_can_advance(),
        ensures
            old(self).spec_next_post(*final(self), r),
    {
        let ghost old_self = *self;
        let ghost mut fuel: nat = 0;
        let ghost mut target: Option<(G, u64, Seq<G::Row>)> = None;
        if self.pending.len() == 0 {
            proof {
                fuel = choose|f: nat| #[trigger] fill(
                    self.generator,
                    &self.session,
                    self.current_row,
                    self.row_count,
                    f,
                ) is Some;
                target = self.spec_next_fill();
            }
        }
        proof {
            if old_self.pending@.len() == 0 {
                lemma_fill_stops(
                    old_self.generator,
                    &old_self.session,
                    old_self.current_row,
                    old_self.row_count,
                    choose|f: nat| #[trigger] fill(
                        old_self.generator,
                        &old_self.session,
                        old_self.current_row,
                        old_self.row_count,
                        f,
                    ) is Some,
                );
            }
            if let Some(all) = old_self.spec_remaining() {
                let g = old_self.generator;
                let s = &old_self.session;
                let fuel_all = choose|f: nat| #[trigger] rows_within(
                    g,
                    s,
                    old_self.current_row,
                    old_self.row_count,
                    f,
                ) is Some;
                if old_self.pending@.len() == 0 {
                    let fill_fuel = choose|f: nat| #[trigger] fill(
                        g,
                        s,
                        old_self.current_row,
                        old_self.row_count,
                        f,
                    ) is Some;
                    lemma_fill_then_rest(
                        g,
                        s,
                        old_self.current_row,
                        old_self.row_count,
                        fill_fuel,
                        fuel_all,
                    );
                }
            }
        }
        while self.pending.len() == 0
            invariant
                old_self == *old(self),
                old_self.spec_is_done() ==> *self == old_self,
                old_self.pending@.len() == 0 ==> {
                    let (g, row, rows) = target->Some_0;
                    &&& rows.len() > 0 || row > old_self.row_count
                    &&& old_self.spec_remaining() is Some ==> generated_rows(
                        g,
                        &old_self.session,
                        row,
                        old_self.row_count,
                    ) is Some && old_self.spec_remaining()->Some_0 == rows + generated_rows(
                        g,
                        &old_self.session,
                        row,
                        old_self.row_count,
                    )->Some_0
                },
                self.row_count == old_self.row_count,
                self.table_row_count == old_self.table_row_count,
                self.session == old_self.session,
                old_self.pending@.len() > 0 ==> *self == old_self,
                old_self.pending@.len() == 0 ==> target == old_self.spec_next_fill() && target is Some,
                old_self.pending@.len() == 0 && self.pending@.len() == 0 ==> fill(
                    self.generator,
                    &self.session,
                    self.current_row,
                    self.row_count,
                    fuel,
                ) == target,
                old_self.pending@.len() == 0 && self.pending@.len() > 0 ==> target == Some(
                    (self.generator, self.current_row, self.pending@),
                ),
            decreases fuel,
        {
            if self.current_row > self.row_count {
                proof {
                    assert(rows_within(self.generator, &self.session, self.current_row, self.row_count, 0) is Some);
                    lemma_generated_rows(self.generator, &self.session, self.current_row, self.row_count, 0);
                    if let Some(all) = old_self.spec_remaining() {
                        assert(all =~= seq![]);
                    }
                }
                return None;
            }
            let ghost before = self.generator;
            let ghost row = self.current_row;
            let result = self.generator.generate_row_and_child_rows(self.current_row, &self.session);
            let (mut rows, should_end_row) = match result {
                Ok(parts) => parts,
                Err(_) => {
                    proof {
                        assert(generation_step(before, &self.session, row) is None);
                        assert(false);
                    }
                    return None;
                },
            };
            let mut batch: VecDeque<G::Row> = VecDeque::new();
            let ghost generated = rows@;
            while rows.len() > 0
                invariant
                    generated == rows@ + batch@,
                decreases rows.len(),
            {
                let row = rows.pop().unwrap();
                batch.push_front(row);
                proof {
                    assert(generated =~= rows@ + batch@);
                }
            }
            assert(batch@ =~= generated);
            self.pending.append(&mut batch);
            if should_end_row {
                proof {
                    if row == u64::MAX {
                        assert(generation_step(before, &self.session, row) is None);
                    }
                }
                self.generator.consume_remaining_seeds_for_row();
                self.current_row = self.current_row + 1;
            }
            proof {
                assert(generation_step(before, &self.session, row) == Some(
                    (self.generator, self.current_row, generated),
                ));
                fuel = (fuel - 1) as nat;
            }
        }
        let r = self.pending.pop_front();
        proof {
            if let Some(all) = old_self.spec_remaining() {
                let rest = generated_rows(
                    self.generator,
                    &self.session,
                    self.current_row,
                    self.row_count,
                )->Some_0;
                assert(all =~= seq![r->Some_0] + (self.pending@ + rest));
            }
        }
        r
    }
}


/// The rows handed out by successive results, in order.
pub open spec fn handed_out<R>(results: Seq<Option<R>>) -> Seq<R>
    decreases results.len(),
{
    if results.len() == 0 {
        seq![]
    } else {
        let prev = handed_out(results.drop_last());
        match results.last() {
            Some(row) => prev.push(row),
            None => prev,
        }
    }
}

/// Whether `states` and `results` record successive calls of
/// [`RowIter::next`]: call `i` goes from `states[i]` to `states[i + 1]` and
/// returns `results[i]`.
pub open spec fn is_next_chain<G: RowGenerator>(
    states: Seq<RowIter<G>>,
    results: Seq<Option<G::Row>>,
) -> bool {
    &&& states.len() == results.len() + 1
    &&& forall|i: int|
        0 <= i < results.len() ==> #[trigger] states[i].spec_next_post(states[i + 1], results[i])
}

proof fn lemma_chain_prefix<G: RowGenerator>(states: Seq<RowIter<G>>, results: Seq<Option<G::Row>>)
    requires
        is_next_chain(states, results),
        results.len() > 0,
    ensures
        is_next_chain(states.drop_last(), results.drop_last()),
{
    assert forall|i: int| 0 <= i < results.drop_last().len() implies #[trigger] states.drop_last()[i].spec_next_post(
        states.drop_last()[i + 1],
        results.drop_last()[i],
    ) by {
        assert(states[i].spec_next_post(states[i + 1], results[i]));
    }
}

/// Law: once [`RowIter::next`] returns `None`, every later call returns
/// `None` and changes nothing.
pub proof fn law_next_none_is_final<G: RowGenerator>(
    states: Seq<RowIter<G>>,
    results: Seq<Option<G::Row>>,
    i: int,
    j: int,
)
    requires
        is_next_chain(states, results),
        0 <= i < j < results.len(),
        results[i] is None,
    ensures
        results[j] is None,
        states[j + 1] == states[i + 1],
        states[j + 1].spec_is_done(),
    decreases j - i,
{
    assert(states[i].spec_next_post(states[i + 1], results[i]));
    if j > i + 1 {
        law_next_none_is_final(states, results, i, j - 1);
    }
    assert(states[j].spec_next_post(states[j + 1], results[j]));
}

/// Law: successive calls of [`RowIter::next`] hand out every row still to
/// be handed out, in order: the rows returned so far, then what remains,
/// are what remained at the start. Once a call returns `None`, all of them
/// have been handed out.
pub proof fn law_next_hands_out_rows_in_order<G: RowGenerator>(
    states: Seq<RowIter<G>>,
    results: Seq<Option<G::Row>>,
)
    requires
        is_next_chain(states, results),
        states[0].spec_remaining() is Some,
    ensures
        states.last().spec_remaining() is Some,
        states[0].spec_remaining()->Some_0 == handed_out(results) + states.last().spec_remaining()->Some_0,
        (exists|i: int| 0 <= i < results.len() && #[trigger] results[i] is None) ==> states[0].spec_remaining()->Some_0
            == handed_out(results),
    decreases results.len(),
{
    let n = results.len() as int;
    if n == 0 {
        assert(handed_out(results) + states.last().spec_remaining()->Some_0 =~= states[0].spec_remaining()->Some_0);
    } else {
        lemma_chain_prefix(states, results);
        law_next_hands_out_rows_in_order(states.drop_last(), results.drop_last());
        assert(states.drop_last().last() == states[n - 1]);
        assert(states[n - 1].spec_next_post(states[n], results[n - 1]));
        let before = handed_out(results.drop_last());
        let mid = states[n - 1].spec_remaining()->Some_0;
        let last = states[n].spec_remaining()->Some_0;
        match results[n - 1] {
            Some(row) => {
                assert(handed_out(results) == before.push(row));
                assert(before + mid =~= before.push(row) + last);
            },
            None => {
                assert(handed_out(results) == before);
            },
        }
        if exists|i: int| 0 <= i < results.len() && #[trigger] results[i] is None {
            let i = choose|i: int| 0 <= i < results.len() && #[trigger] results[i] is None;
            if i < n - 1 {
                law_next_none_is_final(states, results, i, n - 1);
            }
            let done = states[n];
            assert(rows_within(
                done.spec_generator(),
                &done.spec_session(),
                done.spec_current_row(),
                done.spec_row_count(),
                0,
            ) is Some);
            lemma_generated_rows(
                done.spec_generator(),
                &done.spec_session(),
                done.spec_current_row(),
                done.spec_row_count(),
                0,
            );
            assert(last =~= seq![]);
            assert(handed_out(results) + last =~= handed_out(results));
        }
    }
}

/// The generator calls the row loop makes from source row `row` within
/// `fuel` rounds: for each, the source row it is for and whether it
/// completed that row.
pub open spec fn fill_calls<G: RowGenerator>(
    g: G,
    session: &G::Session,
    row: u64,
    row_count: u64,
    fuel: nat,
) -> Seq<(u64, bool)>
    decreases fuel,
{
    if row > row_count || fuel == 0 {
        seq![]
    } else {
        match g.spec_generate(row, session) {
            None => seq![],
            Some((_rows, end)) => match generation_step(g, session, row) {
                None => seq![(row, end)],
                Some((g2, row2, batch)) => if batch.len() > 0 {
                    seq![(row, end)]
                } else {
                    seq![(row, end)] + fill_calls(g2, session, row2, row_count, (fuel - 1) as nat)
                },
            },
        }
    }
}

/// Law: the row loop calls the generator only for source rows up to the
/// bound, starting at the current row, and moves to the next source row
/// exactly after a call that completes the row (where `generation_step`
/// also consumes the row's remaining seeds, once).
pub proof fn law_row_loop_calls<G: RowGenerator>(
    g: G,
    session: &G::Session,
    row: u64,
    row_count: u64,
    fuel: nat,
)
    requires
        fill(g, session, row, row_count, fuel) is Some,
    ensures
        ({
            let calls = fill_calls(g, session, row, row_count, fuel);
            let (g2, row2, rows) = fill(g, session, row, row_count, fuel)->Some_0;
            &&& calls.len() == 0 <==> row > row_count
            &&& calls.len() > 0 ==> calls[0].0 == row
            &&& forall|i: int| 0 <= i < calls.len() ==> #[trigger] calls[i].0 <= row_count
            &&& forall|i: int|
                0 <= i < calls.len() - 1 ==> #[trigger] calls[i + 1].0 == calls[i].0 + if calls[i].1 {
                    1int
                } else {
                    0
                }
            &&& calls.len() > 0 ==> row2 == calls.last().0 + if calls.last().1 {
                1int
            } else {
                0
            }
            &&& calls.len() == 0 ==> row2 == row && g2 == g && rows.len() == 0
        }),
    decreases fuel,
{
    if row <= row_count {
        let (_rows, end) = g.spec_generate(row, session)->Some_0;
        let (g1, row1, batch) = generation_step(g, session, row)->Some_0;
        if batch.len() == 0 {
            law_row_loop_calls(g1, session, row1, row_count, (fuel - 1) as nat);
            let rest = fill_calls(g1, session, row1, row_count, (fuel - 1) as nat);
            let calls = fill_calls(g, session, row, row_count, fuel);
            assert(calls == seq![(row, end)] + rest);
            assert forall|i: int| 0 <= i < calls.len() implies #[trigger] calls[i].0 <= row_count by {
                if i > 0 {
                    assert(calls[i] == rest[i - 1]);
                }
            }
            assert forall|i: int| 0 <= i < calls.len() - 1 implies #[trigger] calls[i + 1].0 == calls[i].0
                + if calls[i].1 {
                1int
            } else {
                0
            } by {
                assert(calls[i + 1] == rest[i]);
                if i > 0 {
                    assert(calls[i] == rest[i - 1]);
                    let k = i - 1;
                    assert(0 <= k < rest.len() - 1);
                    assert(rest[k + 1].0 == rest[k].0 + if rest[k].1 {
                        1int
                    } else {
                        0
                    });
                } else {
                    assert(calls[0] == (row, end));
                    assert(rest[0].0 == row1);
                    assert(row1 == row + if end {
                        1int
                    } else {
                        0
                    });
                }
            }
            if rest.len() > 0 {
                assert(calls.last() == rest.last());
            }
        }
    }
}


proof fn lemma_fill_unique<G: RowGenerator>(
    g: G,
    session: &G::Session,
    row: u64,
    row_count: u64,
    a: nat,
    b: nat,
)
    requires
        fill(g, session, row, row_count, a) is Some,
        fill(g, session, row, row_count, b) is Some,
    ensures
        fill(g, session, row, row_count, a) == fill(g, session, row, row_count, b),
    decreases a,
{
    if row <= row_count {
        let (g2, row2, rows) = generation_step(g, session, row)->Some_0;
        if rows.len() == 0 {
            lemma_fill_unique(g2, session, row2, row_count, (a - 1) as nat, (b - 1) as nat);
        }
    }
}

/// Law: what one call of [`RowIter::next`] does with nothing pending, in
/// terms of the generator's own calls. The generator is called for the
/// current source row. A call that does not complete the row leaves the
/// generator as that call left it, with no seeds consumed, and the source
/// row stays. A call that completes the row is followed by consuming the
/// row's remaining seeds, once, and the next source row. The first row of
/// the first call that emits rows is returned and the rest of its rows are
/// pending; a call that emits no rows is followed by the next call from the
/// state it left.
pub proof fn law_next_calls_the_generator<G: RowGenerator>(
    it: RowIter<G>,
    after: RowIter<G>,
    r: Option<G::Row>,
)
    requires
        it.spec_can_advance(),
        it.spec_next_post(after, r),
        it.spec_pending().len() == 0,
        it.spec_current_row() <= it.spec_row_count(),
    ensures
        ({
            let g = it.spec_generator();
            let session = it.spec_session();
            let row = it.spec_current_row();
            let called = g.spec_after_generate(row, &session);
            match g.spec_generate(row, &session) {
                Some((rows, end)) => {
                    let (next_g, next_row) = if end {
                        (called.spec_after_consume(), (row + 1) as u64)
                    } else {
                        (called, row)
                    };
                    &&& end ==> row < u64::MAX
                    &&& rows.len() > 0 ==> {
                        &&& r == Some(rows@[0])
                        &&& after.spec_pending() == rows@.drop_first()
                        &&& after.spec_generator() == next_g
                        &&& after.spec_current_row() == next_row
                    }
                    &&& rows.len() == 0 ==> it.spec_next_fill() == next_fill(
                        next_g,
                        &session,
                        next_row,
                        it.spec_row_count(),
                    )
                },
                None => false,
            }
        }),
{
    let g = it.spec_generator();
    let session = it.spec_session();
    let row = it.spec_current_row();
    let rc = it.spec_row_count();
    let fuel = choose|f: nat| #[trigger] fill(g, &session, row, rc, f) is Some;
    assert(fill(g, &session, row, rc, fuel) is Some);
    let (g2, row2, rows) = generation_step(g, &session, row)->Some_0;
    if rows.len() == 0 {
        let rest = fill(g2, &session, row2, rc, (fuel - 1) as nat);
        assert(rest is Some);
        assert(exists|f: nat| #[trigger] fill(g2, &session, row2, rc, f) is Some);
        let other = choose|f: nat| #[trigger] fill(g2, &session, row2, rc, f) is Some;
        lemma_fill_unique(g2, &session, row2, rc, (fuel - 1) as nat, other);
    }
}

} // verus!
