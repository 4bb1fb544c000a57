//! Decoding of the fixed-size binary event records drained from the
//! kernel-to-user channel, and batch consumption into the transition store.

use vstd::prelude::*;

use crate::errors::StatsError;
use crate::stats::{step_model, GlobalCbTable, StoreModel};

verus! {

/// Size in bytes of one event record: a 32-bit CPU id followed by a 32-bit
/// callback index, both little-endian.
pub const CB_RECORD_SIZE: usize = 8;

/// A decoded event: which callback ran on which CPU.
#[derive(Clone, Copy, Debug, PartialEq, Eq, Structural)]
pub struct CbEvent {
    pub cpu: u32,
    pub cb: u32,
}

/// The 32-bit little-endian value held in four bytes.
pub open spec fn le_u32(b: Seq<u8>) -> nat
    recommends
        b.len() == 4,
{
    (b[0] + b[1] * 0x100 + b[2] * 0x10000 + b[3] * 0x1000000) as nat
}

/// The 64-bit little-endian value held in eight bytes.
pub open spec fn le_u64(b: Seq<u8>) -> nat
    recommends
        b.len() == 8,
{
    (b[0] + b[1] * 0x100 + b[2] * 0x10000 + b[3] * 0x1000000 + b[4] * 0x100000000 + b[5]
        * 0x10000000000 + b[6] * 0x1000000000000 + b[7] * 0x100000000000000) as nat
}

/// The (cpu, callback) pair held in a record's first eight bytes.
pub open spec fn decoded_event(b: Seq<u8>) -> (nat, nat)
    recommends
        b.len() >= CB_RECORD_SIZE,
{
    (le_u32(b.subrange(0, 4)), le_u32(b.subrange(4, 8)))
}

/// Decodes one event record. A record shorter than the fixed layout is
/// malformed and rejected with `DecodeError`; extra trailing bytes (padding
/// or reserved fields) are ignored.
pub fn decode_event(data: &[u8]) -> (r: Result<CbEvent, StatsError>)
    ensures
        data@.len() >= CB_RECORD_SIZE ==> (r matches Ok(e) && e.cpu as nat == decoded_event(
            data@,
        ).0 && e.cb as nat == decoded_event(data@).1),
        data@.len() < CB_RECORD_SIZE ==> r == Result::<CbEvent, StatsError>::Err(
            StatsError::DecodeError,
        ),
{
    if data.len() < CB_RECORD_SIZE {
        return Err(StatsError::DecodeError);
    }
    let cpu = data[0] as u32 + data[1] as u32 * 0x100 + data[2] as u32 * 0x10000 + data[3] as u32
        * 0x1000000;
    let cb = data[4] as u32 + data[5] as u32 * 0x100 + data[6] as u32 * 0x10000 + data[7] as u32
        * 0x1000000;
    proof {
        let lo = data@.subrange(0, 4);
        let hi = data@.subrange(4, 8);
        assert(lo[0] == data@[0] && lo[1] == data@[1] && lo[2] == data@[2] && lo[3] == data@[3]);
        assert(hi[0] == data@[4] && hi[1] == data@[5] && hi[2] == data@[6] && hi[3] == data@[7]);
    }
    Ok(CbEvent { cpu, cb })
}

/// Decodes one per-CPU counter value: exactly eight little-endian bytes. A
/// value of any other size means the counter table handed back something of
/// the wrong shape, a `MapLookupError`.
pub fn decode_counter(data: &[u8]) -> (r: Result<u64, StatsError>)
    ensures
        data@.len() == 8 ==> (r matches Ok(v) && v as nat == le_u64(data@)),
        data@.len() != 8 ==> r == Result::<u64, StatsError>::Err(StatsError::MapLookupError),
{
    if data.len() != 8 {
        return Err(StatsError::MapLookupError);
    }
    let v = data[0] as u64 + data[1] as u64 * 0x100 + data[2] as u64 * 0x10000 + data[3] as u64
        * 0x1000000 + data[4] as u64 * 0x100000000 + data[5] as u64 * 0x10000000000 + data[6] as u64
        * 0x1000000000000 + data[7] as u64 * 0x100000000000000;
    Ok(v)
}

/// The raw records of a batch as byte sequences.
pub open spec fn batch_model(records: Seq<Vec<u8>>) -> Seq<Seq<u8>> {
    records.map_values(|v: Vec<u8>| v@)
}

/// What consuming a batch front to back does: a short record is dropped and
/// consumption continues; a well-formed in-bounds record steps the model
/// and is counted; the first out-of-bounds record stops everything with
/// `IndexError`. The result is the final model and either the processed
/// count or that error.
pub open spec fn consume_outcome(m: StoreModel, records: Seq<Seq<u8>>) -> (
    StoreModel,
    Result<nat, StatsError>,
)
    decreases records.len(),
{
    if records.len() == 0 {
        (m, Result::<nat, StatsError>::Ok(0))
    } else {
        let b = records.first();
        if b.len() < CB_RECORD_SIZE {
            consume_outcome(m, records.drop_first())
        } else {
            let e = decoded_event(b);
            if e.0 < m.nr_cpus && e.1 < m.nr_cbs {
                let rest = consume_outcome(step_model(m, e.0, e.1), records.drop_first());
                (
                    rest.0,
                    match rest.1 {
                        Ok(k) => Result::<nat, StatsError>::Ok((k + 1) as nat),
                        Err(err) => Result::<nat, StatsError>::Err(err),
                    },
                )
            } else {
                (m, Result::<nat, StatsError>::Err(StatsError::IndexError))
            }
        }
    }
}

/// Consumes one drained batch of raw records, in order: each record is
/// decoded and recorded. A malformed (short) record is dropped and the
/// following records are still processed; a record naming a CPU or callback
/// outside the configured bounds stops the batch with `IndexError`. Returns
/// how many records were recorded.
pub fn consume_batch(table: &mut GlobalCbTable, records: &Vec<Vec<u8>>) -> (r: Result<
    usize,
    StatsError,
>)
    requires
        old(table).wf(),
        old(table).events_total() + records@.len() <= u64::MAX,
    ensures
        final(table).wf(),
        final(table).spec_reported() == old(table).spec_reported(),
        final(table).model() == consume_outcome(old(table).model(), batch_model(records@)).0,
        ({
            let out = consume_outcome(old(table).model(), batch_model(records@)).1;
            match r {
                Ok(n) => out == Result::<nat, StatsError>::Ok(n as nat),
                Err(e) => out == Result::<nat, StatsError>::Err(e),
            }
        }),
{
    let ghost m0 = old(table).model();
    let ghost rs = batch_model(records@);
    let ghost oc = consume_outcome(m0, rs);
    proof {
        assert(rs.skip(0) =~= rs);
    }
    let mut i: usize = 0;
    let mut n: usize = 0;
    while i < records.len()
        invariant
            table.wf(),
            table.spec_reported() == old(table).spec_reported(),
            m0 == old(table).model(),
            rs == batch_model(records@),
            oc == consume_outcome(m0, rs),
            i <= records@.len(),
            n <= i,
            table.events_total() <= old(table).events_total() + i,
            old(table).events_total() + records@.len() <= u64::MAX,
            ({
                let sub = consume_outcome(table.model(), rs.skip(i as int));
                oc.0 == sub.0 && (match sub.1 {
                    Ok(k) => oc.1 == Result::<nat, StatsError>::Ok((k + n) as nat),
                    Err(e) => oc.1 == Result::<nat, StatsError>::Err(e),
                })
            }),
        decreases records@.len() - i,
    {
        proof {
            assert(rs[i as int] == records@[i as int]@);
            assert(rs.skip(i as int).first() == rs[i as int]);
            assert(rs.skip(i as int).drop_first() =~= rs.skip(i as int + 1));
        }
        let ghost tl = *table;
        let rec = &records[i];
        match decode_event(rec.as_slice()) {
            Err(_) => {
                // Malformed record: dropped; the rest of the batch goes on.
            },
            Ok(e) => {
                let cb = e.cb as usize;
                let res = table.record(e.cpu, cb);
                match res {
                    Ok(()) => {
                        n += 1;
                    },
                    Err(err) => {
                        proof {
                            assert(consume_outcome(tl.model(), rs.skip(i as int)).1
                                == Result::<nat, StatsError>::Err(StatsError::IndexError));
                        }
                        return Err(err);
                    },
                }
            },
        }
        i += 1;
    }
    proof {
        assert(rs.skip(records@.len() as int) =~= Seq::<Seq<u8>>::empty());
        assert(consume_outcome(table.model(), rs.skip(i as int)).1 == Result::<
            nat,
            StatsError,
        >::Ok(0));
    }
    Ok(n)
}

/// One channel record handed to the consumer as it drains: decodes it and
/// records the event. A malformed (short) record is dropped with status 0,
/// so consumption continues; a record naming an out-of-range CPU or
/// callback stops the consumer with a negative status.
pub fn cb_history_recorder(data: &[u8], table: &mut GlobalCbTable) -> (r: i32)
    requires
        old(table).wf(),
        old(table).events_total() < u64::MAX,
    ensures
        final(table).wf(),
        final(table).spec_reported() == old(table).spec_reported(),
        ({
            let m = old(table).model();
            if data@.len() < CB_RECORD_SIZE {
                &&& r == 0
                &&& final(table).model() == m
                &&& final(table).events_total() == old(table).events_total()
            } else {
                let e = decoded_event(data@);
                if e.0 < m.nr_cpus && e.1 < m.nr_cbs {
                    &&& r == 0
                    &&& final(table).model() == step_model(m, e.0, e.1)
                } else {
                    &&& r == -1
                    &&& final(table).model() == m
                }
            }
        }),
{
    match decode_event(data) {
        Err(_) => 0,
        Ok(e) => {
            match table.record(e.cpu, e.cb as usize) {
                Ok(()) => 0,
                Err(_) => -1,
            }
        },
    }
}

} // verus!
