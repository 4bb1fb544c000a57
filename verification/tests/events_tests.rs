use cbstats::errors::StatsError;
use cbstats::events::{cb_history_recorder, consume_batch, decode_counter, decode_event};
use cbstats::stats::GlobalCbTable;

fn record_bytes(cpu: u32, cb: u32) -> Vec<u8> {
    let mut b = Vec::new();
    b.extend_from_slice(&cpu.to_le_bytes());
    b.extend_from_slice(&cb.to_le_bytes());
    b
}

#[test]
fn decode_event_reads_both_fields() {
    let b = record_bytes(1, 2);
    let e = decode_event(&b).unwrap();
    assert_eq!(e.cpu, 1);
    assert_eq!(e.cb, 2);
}

#[test]
fn decode_event_is_little_endian() {
    let b = vec![0x01, 0x02, 0x00, 0x00, 0xff, 0x00, 0x01, 0x00];
    let e = decode_event(&b).unwrap();
    assert_eq!(e.cpu, 0x0201);
    assert_eq!(e.cb, 0x0100ff);
}

#[test]
fn decode_event_ignores_trailing_bytes() {
    let mut b = record_bytes(3, 4);
    b.extend_from_slice(&[0xaa, 0xbb]);
    let e = decode_event(&b).unwrap();
    assert_eq!(e.cpu, 3);
    assert_eq!(e.cb, 4);
}

#[test]
fn decode_event_rejects_short_record() {
    let b = vec![1, 0, 0, 0, 2, 0, 0];
    assert_eq!(decode_event(&b), Err(StatsError::DecodeError));
    assert_eq!(decode_event(&[]), Err(StatsError::DecodeError));
}

#[test]
fn decode_counter_reads_eight_bytes() {
    assert_eq!(decode_counter(&42u64.to_le_bytes()), Ok(42));
    assert_eq!(decode_counter(&u64::MAX.to_le_bytes()), Ok(u64::MAX));
    let b = vec![0x01, 0x02, 0, 0, 0, 0, 0, 0];
    assert_eq!(decode_counter(&b), Ok(0x0201));
}

#[test]
fn decode_counter_rejects_wrong_size() {
    assert_eq!(decode_counter(&[1, 2, 3]), Err(StatsError::MapLookupError));
    assert_eq!(decode_counter(&[0; 9]), Err(StatsError::MapLookupError));
}

#[test]
fn truncated_record_does_not_stop_the_batch() {
    // A short record is dropped; the following well-formed record is still
    // processed.
    let mut store = GlobalCbTable::new(3, 1, true);
    let batch = vec![record_bytes(0, 1), vec![9, 9, 9], record_bytes(0, 2)];
    let n = consume_batch(&mut store, &batch).unwrap();
    assert_eq!(n, 2);
    assert_eq!(store.events(), 2);
    let agg = store.aggregate();
    assert_eq!(agg.get_counter(0, 1), 1);
    assert_eq!(agg.get_counter(1, 2), 1);
}

#[test]
fn out_of_bounds_record_stops_the_batch() {
    let mut store = GlobalCbTable::new(3, 1, true);
    let batch = vec![record_bytes(0, 1), record_bytes(7, 1), record_bytes(0, 2)];
    assert_eq!(consume_batch(&mut store, &batch), Err(StatsError::IndexError));
    // Only the record before the offending one was counted.
    assert_eq!(store.events(), 1);
    let agg = store.aggregate();
    assert_eq!(agg.get_counter(0, 1), 1);
    assert_eq!(agg.get_counter(1, 2), 0);
}

#[test]
fn recorder_drops_short_record_and_continues() {
    let mut store = GlobalCbTable::new(3, 1, true);
    assert_eq!(cb_history_recorder(&[1, 2], &mut store), 0);
    assert_eq!(store.events(), 0);
    assert_eq!(cb_history_recorder(&record_bytes(0, 2), &mut store), 0);
    assert_eq!(store.events(), 1);
    let agg = store.aggregate();
    assert_eq!(agg.get_counter(0, 2), 1);
}

#[test]
fn recorder_flags_out_of_bounds_ids() {
    let mut store = GlobalCbTable::new(3, 1, true);
    assert_eq!(cb_history_recorder(&record_bytes(1, 0), &mut store), -1);
    assert_eq!(cb_history_recorder(&record_bytes(0, 3), &mut store), -1);
    assert_eq!(store.events(), 0);
}
