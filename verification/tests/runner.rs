use tpcgen_cli::runner::{plan_tables, scheduling_order, threads_for, PlannedTable, TableSession};
use tpcgen_cli::tables::Table;

/// A part of a `--parts total --part n` run of `table`, with `chunks` chunks
/// (or with no source rows at all when `chunks` is zero).
fn chunk(table: Table, chunks: usize) -> TableSession {
    TableSession { table, rows_empty: chunks == 0, partitioned: true, chunk_count: chunks }
}

/// The whole of `table`, in `chunks` chunks.
fn whole(table: Table, chunks: usize) -> TableSession {
    TableSession { table, rows_empty: chunks == 0, partitioned: false, chunk_count: chunks }
}

#[test]
fn every_part_of_a_table_reports_to_one_bar() {
    let sessions: Vec<TableSession> =
        (1..=4).map(|part| chunk(Table::StoreSales, 3 + part % 2)).collect();

    let (work, registered) = plan_tables(&sessions);

    assert_eq!(registered.len(), 1, "expected a single store_sales bar");
    assert_eq!(registered[0].table.get_name(), "store_sales");
    // The bar's total is the sum of what its parts will generate
    let planned_chunks: usize = work.iter().map(|w| w.chunk_count).sum();
    assert_eq!(registered[0].total_units, planned_chunks as u64);
    assert!(work.iter().all(|w| w.progress == 0));
}

#[test]
fn all_parts_together_plan_the_whole_table() {
    // The chunk counts stand for the plans of the whole table and of its
    // four parts, which round each part up.
    let (one, one_bars) = plan_tables(&vec![whole(Table::StoreSales, 13)]);
    let (four, four_bars) = plan_tables(&(0..4).map(|_| chunk(Table::StoreSales, 4)).collect());

    assert_eq!(one.len(), 1);
    assert_eq!(four.len(), 4);
    let one_chunks: usize = one.iter().map(|w| w.chunk_count).sum();
    let four_chunks: usize = four.iter().map(|w| w.chunk_count).sum();
    // splitting into parts rounds each part up, so allow a chunk per part
    assert!(
        four_chunks >= one_chunks && four_chunks <= one_chunks + 4,
        "{four_chunks} chunks across 4 parts vs {one_chunks} for the whole table"
    );
    assert_eq!(four.iter().map(|w| w.part).collect::<Vec<_>>(), vec![0, 1, 2, 3]);
    // Planning keeps every chunk of every part, under one bar each way.
    assert_eq!(one_bars.len(), 1);
    assert_eq!(four_bars.len(), 1);
    assert_eq!(one_bars[0].total_units, one_chunks as u64);
    assert_eq!(four_bars[0].total_units, four_chunks as u64);
    assert_eq!(four_chunks, 16);
}

#[test]
fn empty_parts_are_dropped() {
    // `reason` is far below dsdgen's 1M source row threshold, so chunk 1
    // generates all of it and the other chunks have no file to write.
    let sessions = vec![
        chunk(Table::Reason, 1),
        chunk(Table::Reason, 0),
        chunk(Table::Reason, 0),
        chunk(Table::Reason, 0),
    ];

    let (work, bars) = plan_tables(&sessions);

    assert_eq!(work.len(), 1);
    assert_eq!(work[0].part, 0);
    assert_eq!(bars.len(), 1);
    assert_eq!(bars[0].total_units, 1);
}

#[test]
fn whole_tables_are_kept_even_when_empty() {
    let (work, bars) = plan_tables(&vec![whole(Table::DbgenVersion, 0)]);
    assert_eq!(work.len(), 1);
    assert_eq!(bars[0].total_units, 0);
}

#[test]
fn tables_are_grouped_in_order_of_first_request() {
    let sessions = vec![
        chunk(Table::StoreSales, 5),
        whole(Table::Reason, 1),
        chunk(Table::StoreSales, 6),
        chunk(Table::Item, 0),
        whole(Table::Store, 2),
    ];
    let (work, bars) = plan_tables(&sessions);
    let bar_tables: Vec<Table> = bars.iter().map(|b| b.table).collect();
    assert_eq!(bar_tables, vec![Table::StoreSales, Table::Reason, Table::Store]);
    assert_eq!(bars.iter().map(|b| b.total_units).collect::<Vec<_>>(), vec![11, 1, 2]);
    assert_eq!(
        work,
        vec![
            PlannedTable { table: Table::StoreSales, part: 0, chunk_count: 5, progress: 0 },
            PlannedTable { table: Table::StoreSales, part: 2, chunk_count: 6, progress: 0 },
            PlannedTable { table: Table::Reason, part: 1, chunk_count: 1, progress: 1 },
            PlannedTable { table: Table::Store, part: 4, chunk_count: 2, progress: 2 },
        ]
    );
    // every bar's total is what its work items generate
    for (i, bar) in bars.iter().enumerate() {
        let reported: usize =
            work.iter().filter(|w| w.progress == i).map(|w| w.chunk_count).sum();
        assert_eq!(bar.total_units, reported as u64);
    }
}

#[test]
fn largest_tables_are_scheduled_first() {
    let work: Vec<PlannedTable> = [3usize, 9, 1, 9, 3, 0]
        .iter()
        .enumerate()
        .map(|(part, &chunk_count)| PlannedTable {
            table: Table::StoreSales,
            part,
            chunk_count,
            progress: 0,
        })
        .collect();
    // a stable sort by chunk count, taken from the back
    let mut sorted: Vec<usize> = (0..work.len()).collect();
    sorted.sort_by_key(|&i| work[i].chunk_count);
    sorted.reverse();
    assert_eq!(scheduling_order(&work), vec![3, 1, 4, 0, 2, 5]);
    assert_eq!(scheduling_order(&work), sorted);
    assert_eq!(scheduling_order(&Vec::new()), Vec::<usize>::new());
}

#[test]
fn tables_get_a_thread_per_chunk_within_the_budget() {
    assert_eq!(threads_for(0, 8), 1);
    assert_eq!(threads_for(3, 8), 3);
    assert_eq!(threads_for(8, 8), 8);
    assert_eq!(threads_for(20, 8), 8);
    assert_eq!(threads_for(20, 1), 1);
}
