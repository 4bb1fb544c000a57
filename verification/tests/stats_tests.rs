use cbstats::errors::StatsError;
use cbstats::stats::{report_stats, CbTable, GlobalCbTable};

// Callback ids used by the small test configurations.
const NONE: usize = 0;
const ENQUEUE: usize = 1;
const DISPATCH: usize = 2;

#[test]
fn fresh_store_is_all_zero() {
    let store = GlobalCbTable::new(3, 2, true);
    let agg = store.aggregate();
    for p in 0..3 {
        for n in 0..3 {
            assert_eq!(agg.get_counter(p, n), 0);
        }
    }
    assert_eq!(store.events(), 0);
}

#[test]
fn first_event_lands_in_row_none() {
    let mut store = GlobalCbTable::new(3, 2, true);
    store.record(1, DISPATCH).unwrap();
    let agg = store.aggregate();
    assert_eq!(agg.get_counter(NONE, DISPATCH), 1);
    for p in 0..3 {
        for n in 0..3 {
            if (p, n) != (NONE, DISPATCH) {
                assert_eq!(agg.get_counter(p, n), 0);
            }
        }
    }
}

#[test]
fn replay_example_single_cpu() {
    // NR_CBS = 3, one CPU, events [ENQUEUE, DISPATCH, ENQUEUE, DISPATCH].
    let mut store = GlobalCbTable::new(3, 1, true);
    for cb in [ENQUEUE, DISPATCH, ENQUEUE, DISPATCH] {
        store.record(0, cb).unwrap();
    }
    let agg = store.aggregate();
    assert_eq!(agg.get_counter(NONE, ENQUEUE), 1);
    assert_eq!(agg.get_counter(ENQUEUE, DISPATCH), 2);
    assert_eq!(agg.get_counter(DISPATCH, ENQUEUE), 1);
    for p in 0..3 {
        for n in 0..3 {
            if (p, n) != (NONE, ENQUEUE) && (p, n) != (ENQUEUE, DISPATCH) && (p, n) != (
                DISPATCH,
                ENQUEUE,
            ) {
                assert_eq!(agg.get_counter(p, n), 0);
            }
        }
    }
    assert_eq!(store.events(), 4);
}

#[test]
fn replay_counts_transitions_per_cpu() {
    // Two CPUs with interleaved events: each CPU's chain is independent.
    let mut store = GlobalCbTable::new(3, 2, true);
    store.record(0, ENQUEUE).unwrap();
    store.record(1, DISPATCH).unwrap();
    store.record(0, DISPATCH).unwrap();
    store.record(1, DISPATCH).unwrap();
    let agg = store.aggregate();
    assert_eq!(agg.get_counter(NONE, ENQUEUE), 1); // cpu 0 first event
    assert_eq!(agg.get_counter(NONE, DISPATCH), 1); // cpu 1 first event
    assert_eq!(agg.get_counter(ENQUEUE, DISPATCH), 1); // cpu 0
    assert_eq!(agg.get_counter(DISPATCH, DISPATCH), 1); // cpu 1
    assert_eq!(agg.get_counter(DISPATCH, ENQUEUE), 0);
}

#[test]
fn record_rejects_cpu_at_bound() {
    // A CPU index equal to the configured CPU count must surface an
    // IndexError, not wrap around.
    let mut store = GlobalCbTable::new(3, 2, true);
    assert_eq!(store.record(2, ENQUEUE), Err(StatsError::IndexError));
    assert_eq!(store.events(), 0);
    let agg = store.aggregate();
    for p in 0..3 {
        for n in 0..3 {
            assert_eq!(agg.get_counter(p, n), 0);
        }
    }
}

#[test]
fn record_rejects_callback_at_bound() {
    let mut store = GlobalCbTable::new(3, 2, true);
    assert_eq!(store.record(0, 3), Err(StatsError::IndexError));
    assert_eq!(store.events(), 0);
}

#[test]
fn capture_disabled_records_nothing() {
    let mut store = GlobalCbTable::new(3, 2, false);
    store.record(0, ENQUEUE).unwrap();
    store.record(1, DISPATCH).unwrap();
    assert_eq!(store.events(), 0);
    let agg = store.aggregate();
    for p in 0..3 {
        for n in 0..3 {
            assert_eq!(agg.get_counter(p, n), 0);
        }
    }
    // Bounds are still enforced when capture is off.
    assert_eq!(store.record(2, 0), Err(StatsError::IndexError));
}

#[test]
fn report_is_idempotent() {
    let mut store = GlobalCbTable::new(3, 1, true);
    for cb in [ENQUEUE, DISPATCH, ENQUEUE, DISPATCH] {
        store.record(0, cb).unwrap();
    }
    let first = store.report();
    let second = store.report();
    assert_eq!(first, second);
    let agg = store.aggregate();
    assert_eq!(agg.get_counter(ENQUEUE, DISPATCH), 2);
    assert_eq!(store.events(), 4);
}

#[test]
fn transition_report_layout() {
    let mut store = GlobalCbTable::new(3, 1, true);
    for cb in [ENQUEUE, DISPATCH, ENQUEUE, DISPATCH] {
        store.record(0, cb).unwrap();
    }
    let text = store.report();
    let lines: Vec<&str> = text.lines().collect();
    assert_eq!(lines[0], "| prev \\ next |     (none) |       init |       exit |");
    assert_eq!(lines[1], "=".repeat(15 + 13 * 3));
    assert_eq!(lines[2], "|      (none) |          0 |          1 |          0 |");
    assert_eq!(lines[3], "|        init |          0 |          0 |          2 |");
    assert_eq!(lines[4], "|        exit |          0 |          1 |          0 |");
    assert_eq!(lines.len(), 5);
}

#[test]
fn cb_table_report_csv_layout() {
    let mut table = CbTable::new(2);
    table.record(0, 1).unwrap();
    table.record(0, 1).unwrap();
    table.record(1, 0).unwrap();
    let text = table.report_csv();
    assert_eq!(text, ", (none), init, \n(none), 0, 2, \ninit, 1, 0, \n");
}

#[test]
fn cb_table_records_and_reads() {
    let mut table = CbTable::new(4);
    assert_eq!(table.get_counter(2, 3), 0);
    table.record(2, 3).unwrap();
    table.record(2, 3).unwrap();
    assert_eq!(table.get_counter(2, 3), 2);
    assert_eq!(table.record(4, 0), Err(StatsError::IndexError));
    assert_eq!(table.record(0, 4), Err(StatsError::IndexError));
    table.add_counter(2, 3, 5);
    assert_eq!(table.get_counter(2, 3), 7);
}

#[test]
fn close_reports_exactly_once() {
    let mut store = GlobalCbTable::new(3, 1, true);
    store.record(0, ENQUEUE).unwrap();
    let expected = store.report();
    let first = store.close();
    assert_eq!(first, Some(expected));
    let second = store.close();
    assert_eq!(second, None);
}

#[test]
fn close_without_capture_reports_nothing() {
    let mut store = GlobalCbTable::new(3, 1, false);
    assert_eq!(store.close(), None);
}

#[test]
fn counter_report_sums_rows() {
    // NR_CPUS = 2, stat "dispatch" (index 14) holds [5, 7]: its sum is 12.
    let mut values: Vec<Vec<u64>> = vec![vec![0, 0]; 17];
    values[14] = vec![5, 7];
    let text = report_stats(&values, 2).unwrap();
    let lines: Vec<&str> = text.lines().collect();
    assert_eq!(lines[0], "|            |   0   |   1   |   sum |");
    assert_eq!(lines[1], "=".repeat(14 + 8 * 3));
    assert_eq!(lines[2 + 14], "|   dispatch |     5 |     7 |    12 |");
    assert_eq!(lines[2], "|     (none) |     0 |     0 |     0 |");
    // Header, rule, 17 rows, and the closing blank line.
    assert_eq!(lines.len(), 2 + 17 + 1);
    assert_eq!(lines[19], "");
}

#[test]
fn counter_report_rejects_wrong_row_count() {
    let values: Vec<Vec<u64>> = vec![vec![0, 0]; 16];
    assert_eq!(report_stats(&values, 2), Err(StatsError::MapLookupError));
}

#[test]
fn counter_report_rejects_wrong_row_width() {
    let mut values: Vec<Vec<u64>> = vec![vec![0, 0]; 17];
    values[3] = vec![0, 0, 0];
    assert_eq!(report_stats(&values, 2), Err(StatsError::MapLookupError));
}

#[test]
fn counter_report_large_values() {
    // Row sums larger than any single cell keep their exact decimal digits.
    let mut values: Vec<Vec<u64>> = vec![vec![0, 0]; 17];
    values[1] = vec![u64::MAX, 1];
    let text = report_stats(&values, 2).unwrap();
    let lines: Vec<&str> = text.lines().collect();
    assert_eq!(
        lines[2 + 1],
        format!("|       init | {} |     1 | {} |", u64::MAX, (u64::MAX as u128) + 1)
    );
}
