//! Planning TPC-DS table generation: which parts of which tables are
//! generated, which progress bar each reports to, and in which order the
//! planned tables are scheduled.

use crate::tables::Table;
use vstd::prelude::*;

verus! {

/// One requested `(table, session)` pair, with what planning needs to know
/// of it: whether the session's source row range of the table is empty,
/// whether the session is one part of a `--parts` run, and how many chunks
/// the generation plan of that range has.
#[derive(Clone, Copy, Debug, PartialEq, Eq, Structural)]
pub struct TableSession {
    pub table: Table,
    pub rows_empty: bool,
    pub partitioned: bool,
    pub chunk_count: usize,
}

/// One unit of schedulable work: the chunks of one table for one `--parts`
/// chunk, together with the progress bar they report to.
#[derive(Clone, Copy, Debug, PartialEq, Eq, Structural)]
pub struct PlannedTable {
    /// The table to write
    pub table: Table,
    /// The position of its `(table, session)` pair in the request
    pub part: usize,
    /// How many chunks its source rows are split into
    pub chunk_count: usize,
    /// The position of the progress bar it reports to
    pub progress: usize,
}

/// A progress bar to register: one per table, sized to all of its chunks.
#[derive(Clone, Copy, Debug, PartialEq, Eq, Structural)]
pub struct ProgressBar {
    pub table: Table,
    pub total_units: u64,
}

/// Whether a requested part is generated: empty `--parts` chunks are
/// dropped, as there is no file to write for them.
pub open spec fn is_planned(s: TableSession) -> bool {
    !(s.rows_empty && s.partitioned)
}

/// The tables that get a progress bar, from the first `n` requests, in the
/// order in which their first planned part was requested.
pub open spec fn bar_tables(parts: Seq<TableSession>, n: int) -> Seq<Table>
    decreases n,
{
    if n <= 0 {
        seq![]
    } else {
        let prev = bar_tables(parts, n - 1);
        let p = parts[n - 1];
        if is_planned(p) && !prev.contains(p.table) {
            prev.push(p.table)
        } else {
            prev
        }
    }
}

/// The chunks of the planned parts of `table` among the first `n` requests.
pub open spec fn table_total(parts: Seq<TableSession>, table: Table, n: int) -> nat
    decreases n,
{
    if n <= 0 {
        0
    } else {
        table_total(parts, table, n - 1) + if parts[n - 1].table == table && is_planned(
            parts[n - 1],
        ) {
            parts[n - 1].chunk_count as nat
        } else {
            0
        }
    }
}

/// The planned parts of `table` among the first `n` requests, in request
/// order, reporting to bar `bar`.
pub open spec fn table_work(parts: Seq<TableSession>, table: Table, bar: nat, n: int) -> Seq<
    PlannedTable,
>
    decreases n,
{
    if n <= 0 {
        seq![]
    } else {
        let prev = table_work(parts, table, bar, n - 1);
        if parts[n - 1].table == table && is_planned(parts[n - 1]) {
            prev.push(
                PlannedTable {
                    table,
                    part: (n - 1) as usize,
                    chunk_count: parts[n - 1].chunk_count,
                    progress: bar as usize,
                },
            )
        } else {
            prev
        }
    }
}

/// The work for the first `m` bars, table by table.
pub open spec fn planned_work(parts: Seq<TableSession>, tables: Seq<Table>, m: int) -> Seq<
    PlannedTable,
>
    decreases m,
{
    if m <= 0 {
        seq![]
    } else {
        planned_work(parts, tables, m - 1) + table_work(
            parts,
            tables[m - 1],
            (m - 1) as nat,
            parts.len() as int,
        )
    }
}

/// The progress bars to register: one per table with a planned part, sized
/// to the chunks of all its planned parts.
pub open spec fn progress_bars(parts: Seq<TableSession>) -> Seq<ProgressBar> {
    bar_tables(parts, parts.len() as int).map_values(
        |t: Table|
            ProgressBar { table: t, total_units: table_total(parts, t, parts.len() as int) as u64 },
    )
}

/// All the work, bar by bar.
pub open spec fn all_planned_work(parts: Seq<TableSession>) -> Seq<PlannedTable> {
    let tables = bar_tables(parts, parts.len() as int);
    planned_work(parts, tables, tables.len() as int)
}

/// Whether no table has more chunks in all than a progress bar can count.
pub open spec fn totals_fit(parts: Seq<TableSession>) -> bool {
    forall|t: Table| #[trigger] table_total(parts, t, parts.len() as int) <= u64::MAX
}

proof fn lemma_total_monotone(parts: Seq<TableSession>, table: Table, k: int, n: int)
    requires
        0 <= k <= n,
    ensures
        table_total(parts, table, k) <= table_total(parts, table, n),
    decreases n - k,
{
    if k < n {
        lemma_total_monotone(parts, table, k, n - 1);
    }
}

proof fn lemma_bar_tables_prefix(parts: Seq<TableSession>, table: Table, n: int)
    requires
        0 <= n,
    ensures
        !bar_tables(parts, n).contains(table) ==> table_total(parts, table, n) == 0,
        bar_tables(parts, n).no_duplicates(),
    decreases n,
{
    if n > 0 {
        lemma_bar_tables_prefix(parts, table, n - 1);
        let prev = bar_tables(parts, n - 1);
        let p = parts[n - 1];
        if is_planned(p) && !prev.contains(p.table) {
            assert(prev.push(p.table)[prev.len() as int] == p.table);
            assert forall|x: Table| prev.contains(x) implies prev.push(p.table).contains(x) by {
                let i = choose|i: int| 0 <= i < prev.len() && prev[i] == x;
                assert(prev.push(p.table)[i] == x);
            }
        }
    }
}

/// Plan every requested `(table, session)` pair and the progress bars.
///
/// A table split across `--parts` gets one bar for all of its parts combined,
/// not one bar per part. Empty `--parts` chunks are dropped: dsdgen generates
/// a table below its 1M source row threshold entirely in chunk 1, so the
/// later chunks have no rows and no file to write.
///
/// Returns the work, grouped by table in the order of the bars and in request
/// order within a table, and the bars to register, in order.
pub fn plan_tables(table_sessions: &Vec<TableSession>) -> (r: (Vec<PlannedTable>, Vec<ProgressBar>))
    requires
        totals_fit(table_sessions@),
    ensures
        r.0@ == all_planned_work(table_sessions@),
        r.1@ == progress_bars(table_sessions@),
{
    let ghost parts = table_sessions@;
    let n = table_sessions.len();
    // Group the planned sessions by table, in order of first appearance.
    let mut tables: Vec<Table> = Vec::new();
    let mut totals: Vec<u64> = Vec::new();
    for k in 0..n
        invariant
            n == parts.len(),
            parts == table_sessions@,
            totals_fit(parts),
            tables@ == bar_tables(parts, k as int),
            totals.len() == tables.len(),
            forall|j: int|
                0 <= j < tables.len() ==> #[trigger] totals@[j] == table_total(
                    parts,
                    tables@[j],
                    k as int,
                ),
    {
        let s = table_sessions[k];
        let ghost old_tables = tables@;
        let ghost old_totals = totals@;
        let mut j: usize = 0;
        if !(s.rows_empty && s.partitioned) {
            while j < tables.len() && tables[j] != s.table
                invariant
                    j <= tables.len(),
                    forall|i: int| 0 <= i < j ==> tables@[i] != s.table,
                decreases tables.len() - j,
            {
                j = j + 1;
            }
            if j < tables.len() {
                proof {
                    lemma_total_monotone(parts, s.table, k + 1, n as int);
                    assert(table_total(parts, s.table, n as int) <= u64::MAX);
                }
                let total = totals[j] + s.chunk_count as u64;
                totals.set(j, total);
            } else {
                proof {
                    assert(!tables@.contains(s.table));
                    lemma_bar_tables_prefix(parts, s.table, k as int);
                    lemma_total_monotone(parts, s.table, k + 1, n as int);
                    assert(table_total(parts, s.table, n as int) <= u64::MAX);
                }
                tables.push(s.table);
                totals.push(s.chunk_count as u64);
            }
        }
        proof {
            lemma_bar_tables_prefix(parts, s.table, k as int);
            assert(parts[k as int] == s);
            assert forall|i: int| 0 <= i < tables.len() implies #[trigger] totals@[i]
                == table_total(parts, tables@[i], k + 1) by {
                if i < old_tables.len() {
                    assert(old_totals[i] == table_total(parts, old_tables[i], k as int));
                    assert(tables@[i] == old_tables[i]);
                    if is_planned(s) && old_tables[i] == s.table {
                        if i < j {
                        } else if i > j {
                            assert(old_tables[j as int] == s.table);
                        }
                        assert(i == j);
                    }
                }
            }
        }
    }
    // The work, bar by bar, and the bars.
    let mut work: Vec<PlannedTable> = Vec::new();
    let mut bars: Vec<ProgressBar> = Vec::new();
    for i in 0..tables.len()
        invariant
            n == parts.len(),
            parts == table_sessions@,
            tables@ == bar_tables(parts, n as int),
            totals.len() == tables.len(),
            forall|j: int|
                0 <= j < tables.len() ==> #[trigger] totals@[j] == table_total(
                    parts,
                    tables@[j],
                    n as int,
                ),
            work@ == planned_work(parts, tables@, i as int),
            bars@ == progress_bars(parts).take(i as int),
    {
        let table = tables[i];
        for k in 0..n
            invariant
                n == parts.len(),
                parts == table_sessions@,
                i < tables.len(),
                table == tables@[i as int],
                work@ == planned_work(parts, tables@, i as int) + table_work(
                    parts,
                    table,
                    i as nat,
                    k as int,
                ),
        {
            let s = table_sessions[k];
            if s.table == table && !(s.rows_empty && s.partitioned) {
                work.push(PlannedTable { table, part: k, chunk_count: s.chunk_count, progress: i });
            }
            proof {
                assert(work@ =~= planned_work(parts, tables@, i as int) + table_work(
                    parts,
                    table,
                    i as nat,
                    k + 1,
                ));
            }
        }
        bars.push(ProgressBar { table, total_units: totals[i] });
        proof {
            assert(bars@ =~= progress_bars(parts).take(i + 1));
        }
    }
    proof {
        assert(bars@ =~= progress_bars(parts));
    }
    (work, bars)
}


/// The chunks of the work items that report to bar `bar`.
pub open spec fn reported_chunks(work: Seq<PlannedTable>, bar: int) -> nat
    decreases work.len(),
{
    if work.len() == 0 {
        0
    } else {
        reported_chunks(work.drop_last(), bar) + if work.last().progress == bar {
            work.last().chunk_count as nat
        } else {
            0
        }
    }
}

/// How many work items come from request `part`.
pub open spec fn occurrences(work: Seq<PlannedTable>, part: int) -> nat
    decreases work.len(),
{
    if work.len() == 0 {
        0
    } else {
        occurrences(work.drop_last(), part) + if work.last().part == part {
            1nat
        } else {
            0
        }
    }
}

proof fn lemma_reported_concat(a: Seq<PlannedTable>, b: Seq<PlannedTable>, bar: int)
    ensures
        reported_chunks(a + b, bar) == reported_chunks(a, bar) + reported_chunks(b, bar),
        occurrences(a + b, bar) == occurrences(a, bar) + occurrences(b, bar),
    decreases b.len(),
{
    if b.len() > 0 {
        lemma_reported_concat(a, b.drop_last(), bar);
        assert((a + b).drop_last() =~= a + b.drop_last());
    } else {
        assert(a + b =~= a);
    }
}

proof fn lemma_table_work(parts: Seq<TableSession>, table: Table, j: nat, n: int, bar: int, k: int)
    requires
        0 <= n <= parts.len() <= usize::MAX,
        j <= usize::MAX,
    ensures
        reported_chunks(table_work(parts, table, j, n), bar) == if bar == j {
            table_total(parts, table, n)
        } else {
            0
        },
        occurrences(table_work(parts, table, j, n), k) == if 0 <= k < n && parts[k].table == table
            && is_planned(parts[k]) {
            1nat
        } else {
            0
        },
        forall|i: int|
            0 <= i < table_work(parts, table, j, n).len() ==> {
                let w = #[trigger] table_work(parts, table, j, n)[i];
                &&& w.table == table
                &&& w.progress == j
                &&& 0 <= w.part < n
                &&& parts[w.part as int].table == table
                &&& is_planned(parts[w.part as int])
                &&& w.chunk_count == parts[w.part as int].chunk_count
            },
    decreases n,
{
    if n > 0 {
        lemma_table_work(parts, table, j, n - 1, bar, k);
        let prev = table_work(parts, table, j, n - 1);
        if parts[n - 1].table == table && is_planned(parts[n - 1]) {
            let w = PlannedTable {
                table,
                part: (n - 1) as usize,
                chunk_count: parts[n - 1].chunk_count,
                progress: j as usize,
            };
            assert(prev.push(w).drop_last() =~= prev);
            assert forall|i: int| 0 <= i < prev.len() implies prev.push(w)[i] == prev[i] by {}
        }
    }
}

proof fn lemma_bar_tables_len(parts: Seq<TableSession>, n: int)
    requires
        0 <= n,
    ensures
        bar_tables(parts, n).len() <= n,
    decreases n,
{
    if n > 0 {
        lemma_bar_tables_len(parts, n - 1);
    }
}

proof fn lemma_planned_table_has_bar(parts: Seq<TableSession>, k: int, n: int)
    requires
        0 <= k < n <= parts.len(),
        is_planned(parts[k]),
    ensures
        bar_tables(parts, n).contains(parts[k].table),
    decreases n,
{
    let prev = bar_tables(parts, n - 1);
    let p = parts[n - 1];
    if k < n - 1 {
        lemma_planned_table_has_bar(parts, k, n - 1);
    }
    if is_planned(p) && !prev.contains(p.table) {
        assert(prev.push(p.table)[prev.len() as int] == p.table);
        if k < n - 1 {
            let i = choose|i: int| 0 <= i < prev.len() && prev[i] == parts[k].table;
            assert(prev.push(p.table)[i] == parts[k].table);
        }
    }
}

proof fn lemma_bar_tables_planned(parts: Seq<TableSession>, n: int)
    requires
        0 <= n <= parts.len(),
    ensures
        forall|i: int|
            #![trigger bar_tables(parts, n)[i]]
            0 <= i < bar_tables(parts, n).len() ==> exists|k: int|
                0 <= k < n && #[trigger] parts[k].table == bar_tables(parts, n)[i] && is_planned(
                    parts[k],
                ),
    decreases n,
{
    if n > 0 {
        lemma_bar_tables_planned(parts, n - 1);
        let prev = bar_tables(parts, n - 1);
        let p = parts[n - 1];
        if is_planned(p) && !prev.contains(p.table) {
            assert forall|i: int|
                #![trigger prev.push(p.table)[i]]
                0 <= i < prev.push(p.table).len() implies exists|k: int|
                0 <= k < n && #[trigger] parts[k].table == prev.push(p.table)[i] && is_planned(
                    parts[k],
                ) by {
                if i < prev.len() {
                    assert(prev.push(p.table)[i] == prev[i]);
                    let k = choose|k: int|
                        0 <= k < n - 1 && #[trigger] parts[k].table == prev[i] && is_planned(
                            parts[k],
                        );
                    assert(parts[k].table == prev.push(p.table)[i]);
                } else {
                    assert(parts[n - 1].table == prev.push(p.table)[i]);
                }
            }
        }
    }
}

proof fn lemma_planned_work(parts: Seq<TableSession>, m: int, bar: int, k: int)
    requires
        parts.len() <= usize::MAX,
        0 <= m <= bar_tables(parts, parts.len() as int).len(),
    ensures
        ({
            let tables = bar_tables(parts, parts.len() as int);
            let work = planned_work(parts, tables, m);
            &&& reported_chunks(work, bar) == if 0 <= bar < m {
                table_total(parts, tables[bar], parts.len() as int)
            } else {
                0
            }
            &&& occurrences(work, k) == if 0 <= k < parts.len() && is_planned(parts[k]) && exists|
                b: int,
            | 0 <= b < m && tables[b] == parts[k].table {
                1nat
            } else {
                0
            }
            &&& forall|i: int|
                0 <= i < work.len() ==> {
                    let w = #[trigger] work[i];
                    &&& 0 <= w.progress < m
                    &&& w.table == tables[w.progress as int]
                    &&& 0 <= w.part < parts.len()
                    &&& parts[w.part as int].table == w.table
                    &&& is_planned(parts[w.part as int])
                    &&& w.chunk_count == parts[w.part as int].chunk_count
                }
        }),
    decreases m,
{
    let n = parts.len() as int;
    let tables = bar_tables(parts, n);
    if m > 0 {
        lemma_planned_work(parts, m - 1, bar, k);
        lemma_bar_tables_prefix(parts, tables[m - 1], n);
        lemma_bar_tables_len(parts, n);
        let prev = planned_work(parts, tables, m - 1);
        let last = table_work(parts, tables[m - 1], (m - 1) as nat, n);
        lemma_table_work(parts, tables[m - 1], (m - 1) as nat, n, bar, k);
        lemma_reported_concat(prev, last, bar);
        lemma_reported_concat(prev, last, k);
        assert forall|i: int| 0 <= i < (prev + last).len() implies {
            let w = #[trigger] (prev + last)[i];
            &&& 0 <= w.progress < m
            &&& w.table == tables[w.progress as int]
            &&& 0 <= w.part < parts.len()
            &&& parts[w.part as int].table == w.table
            &&& is_planned(parts[w.part as int])
            &&& w.chunk_count == parts[w.part as int].chunk_count
        } by {
            if i < prev.len() {
                assert((prev + last)[i] == prev[i]);
            } else {
                assert((prev + last)[i] == last[i - prev.len()]);
            }
        }
        if 0 <= k < n && is_planned(parts[k]) {
            if exists|b: int| 0 <= b < m - 1 && tables[b] == parts[k].table {
                let b = choose|b: int| 0 <= b < m - 1 && tables[b] == parts[k].table;
                assert(tables[m - 1] != parts[k].table);
            }
            if tables[m - 1] == parts[k].table {
                assert(0 <= m - 1 < m && tables[m - 1] == parts[k].table);
            }
        }
    }
}

/// Law: one progress bar per table. The bars name distinct tables, and a
/// table has a bar exactly when one of its requested parts is planned.
pub proof fn law_one_bar_per_table(table_sessions: Seq<TableSession>, table: Table)
    ensures
        progress_bars(table_sessions).map_values(|b: ProgressBar| b.table).no_duplicates(),
        progress_bars(table_sessions).map_values(|b: ProgressBar| b.table).contains(table) <==> exists|
            k: int,
        |
            0 <= k < table_sessions.len() && #[trigger] table_sessions[k].table == table
                && is_planned(table_sessions[k]),
{
    let n = table_sessions.len() as int;
    let tables = bar_tables(table_sessions, n);
    lemma_bar_tables_prefix(table_sessions, table, n);
    lemma_bar_tables_planned(table_sessions, n);
    assert(progress_bars(table_sessions).map_values(|b: ProgressBar| b.table) =~= tables);
    if exists|k: int|
        0 <= k < n && #[trigger] table_sessions[k].table == table && is_planned(
            table_sessions[k],
        ) {
        let k = choose|k: int|
            0 <= k < n && #[trigger] table_sessions[k].table == table && is_planned(
                table_sessions[k],
            );
        lemma_planned_table_has_bar(table_sessions, k, n);
    }
    if tables.contains(table) {
        let i = choose|i: int| 0 <= i < tables.len() && tables[i] == table;
        assert(exists|k: int|
            0 <= k < n && #[trigger] table_sessions[k].table == tables[i] && is_planned(
                table_sessions[k],
            ));
    }
}

/// Law: the total of each progress bar is the sum of the chunks of the work
/// items that report to it, so a table split across `--parts` reports all of
/// its parts to one bar of the right size.
pub proof fn law_bar_totals_match_work(table_sessions: Seq<TableSession>)
    requires
        table_sessions.len() <= usize::MAX,
        totals_fit(table_sessions),
    ensures
        forall|i: int|
            0 <= i < progress_bars(table_sessions).len() ==> #[trigger] progress_bars(
                table_sessions,
            )[i].total_units == reported_chunks(all_planned_work(table_sessions), i),
{
    let n = table_sessions.len() as int;
    let tables = bar_tables(table_sessions, n);
    assert forall|i: int| 0 <= i < progress_bars(table_sessions).len() implies #[trigger] progress_bars(
        table_sessions,
    )[i].total_units == reported_chunks(all_planned_work(table_sessions), i) by {
        lemma_planned_work(table_sessions, tables.len() as int, i, 0);
        assert(table_total(table_sessions, tables[i], n) <= u64::MAX);
    }
}

/// Law: every planned request is generated exactly once and every dropped
/// one never, and each work item reports to the bar of its own table.
pub proof fn law_work_covers_planned_parts(table_sessions: Seq<TableSession>)
    requires
        table_sessions.len() <= usize::MAX,
    ensures
        forall|k: int|
            0 <= k < table_sessions.len() ==> #[trigger] occurrences(
                all_planned_work(table_sessions),
                k,
            ) == if is_planned(table_sessions[k]) {
                1nat
            } else {
                0
            },
        forall|i: int|
            0 <= i < all_planned_work(table_sessions).len() ==> {
                let w = #[trigger] all_planned_work(table_sessions)[i];
                &&& 0 <= w.progress < progress_bars(table_sessions).len()
                &&& progress_bars(table_sessions)[w.progress as int].table == w.table
                &&& 0 <= w.part < table_sessions.len()
                &&& table_sessions[w.part as int].table == w.table
                &&& is_planned(table_sessions[w.part as int])
                &&& w.chunk_count == table_sessions[w.part as int].chunk_count
            },
{
    let n = table_sessions.len() as int;
    let tables = bar_tables(table_sessions, n);
    lemma_planned_work(table_sessions, tables.len() as int, 0, 0);
    assert forall|k: int| 0 <= k < table_sessions.len() implies #[trigger] occurrences(
        all_planned_work(table_sessions),
        k,
    ) == if is_planned(table_sessions[k]) {
        1nat
    } else {
        0
    } by {
        lemma_planned_work(table_sessions, tables.len() as int, 0, k);
        if is_planned(table_sessions[k]) {
            lemma_planned_table_has_bar(table_sessions, k, n);
            let b = choose|b: int| 0 <= b < tables.len() && tables[b] == table_sessions[k].table;
            assert(tables[b] == table_sessions[k].table);
        }
    }
}


/// Whether work item `a` is generated before work item `b`: items with more
/// chunks first, and of items with as many chunks, the later one first.
pub open spec fn scheduled_before(work: Seq<PlannedTable>, a: int, b: int) -> bool {
    work[a].chunk_count > work[b].chunk_count || (work[a].chunk_count == work[b].chunk_count && a
        > b)
}

/// The order in which the planned tables are generated, as positions in
/// `work`.
///
/// The largest tables (most chunks) are scheduled first, for the best thread
/// utilization: the work is sorted by chunk count, stably, and taken from
/// the back.
pub fn scheduling_order(work: &Vec<PlannedTable>) -> (r: Vec<usize>)
    ensures
        r.len() == work.len(),
        forall|i: int| 0 <= i < r.len() ==> #[trigger] r@[i] < work.len(),
        forall|k: int| 0 <= k < work.len() ==> #[trigger] r@.contains(k as usize),
        forall|i: int, j: int|
            0 <= i < j < r.len() ==> scheduled_before(work@, #[trigger] r@[i] as int, #[trigger] r@[j] as int),
{
    let n = work.len();
    let mut order: Vec<usize> = Vec::new();
    for k in 0..n
        invariant
            n == work.len(),
            order.len() == k,
            forall|i: int| 0 <= i < order.len() ==> #[trigger] order@[i] < k,
            forall|x: int| 0 <= x < k ==> #[trigger] order@.contains(x as usize),
            forall|i: int, j: int|
                0 <= i < j < order.len() ==> scheduled_before(
                    work@,
                    #[trigger] order@[i] as int,
                    #[trigger] order@[j] as int,
                ),
    {
        // Later items go before earlier ones with as many chunks.
        let mut pos: usize = 0;
        while pos < order.len() && work[order[pos]].chunk_count > work[k].chunk_count
            invariant
                pos <= order.len(),
                n == work.len(),
                k < n,
                forall|i: int| 0 <= i < order.len() ==> #[trigger] order@[i] < k,
                forall|i: int| 0 <= i < pos ==> scheduled_before(work@, #[trigger] order@[i] as int, k as int),
            decreases order.len() - pos,
        {
            pos = pos + 1;
        }
        let ghost old_order = order@;
        order.insert(pos, k);
        proof {
            assert forall|i: int, j: int|
                0 <= i < j < order.len() implies scheduled_before(
                work@,
                #[trigger] order@[i] as int,
                #[trigger] order@[j] as int,
            ) by {
                if j < pos {
                    assert(order@[i] == old_order[i] && order@[j] == old_order[j]);
                } else if j == pos {
                    assert(order@[i] == old_order[i]);
                } else if i < pos {
                    assert(order@[i] == old_order[i] && order@[j] == old_order[j - 1]);
                    assert(scheduled_before(work@, old_order[i] as int, k as int));
                    if pos < old_order.len() {
                        assert(scheduled_before(work@, k as int, old_order[pos as int] as int));
                    }
                    if j - 1 > pos {
                        assert(scheduled_before(work@, old_order[pos as int] as int, old_order[j - 1] as int));
                    }
                } else if i == pos {
                    assert(order@[j] == old_order[j - 1]);
                    assert(scheduled_before(work@, k as int, old_order[pos as int] as int));
                    if j - 1 > pos {
                        assert(scheduled_before(work@, old_order[pos as int] as int, old_order[j - 1] as int));
                    }
                } else {
                    assert(order@[i] == old_order[i - 1] && order@[j] == old_order[j - 1]);
                }
            }
            assert forall|x: int| 0 <= x < k + 1 implies #[trigger] order@.contains(x as usize) by {
                if x < k {
                    assert(old_order.contains(x as usize));
                    let i = choose|i: int| 0 <= i < old_order.len() && old_order[i] == x as usize;
                    if i < pos {
                        assert(order@[i] == x as usize);
                    } else {
                        assert(order@[i + 1] == x as usize);
                    }
                } else {
                    assert(order@[pos as int] == k);
                }
            }
        }
    }
    order
}


/// The threads a planned table is given: as many as it has chunks, at least
/// one, within the overall budget.
pub fn threads_for(chunk_count: usize, budget: usize) -> (r: usize)
    requires
        budget >= 1,
    ensures
        r == if chunk_count < 1 {
            1
        } else if chunk_count > budget {
            budget
        } else {
            chunk_count
        },
{
    if chunk_count < 1 {
        1
    } else if chunk_count > budget {
        budget
    } else {
        chunk_count
    }
}

} // verus!
