//! Callback-transition statistics: one square matrix per CPU counting
//! (previous callback, next callback) pairs, a store owning one matrix and
//! one "last callback" cursor per CPU, and the aggregate over all CPUs.

use vstd::prelude::*;

use crate::errors::StatsError;
use crate::names::{idx_to_name_usize, stat_name, NR_STATS};
use crate::render::{
    center_str, counter_header_cells, counter_row, counter_rows, counter_val_cells,
    csv_name_cells, csv_rows, csv_val_cells, dec_string, lemma_sum_vals_bound, pad_left,
    pad_left_str, render_counter_header, render_counter_table, render_transition_csv,
    render_transition_header, render_transition_table, rule_row_string, spaces, spaces_string,
    sum_vals, trans_header_cells, trans_row_cells, trans_rows, trunc_pad_str,
};

verus! {

/// Index of the sentinel callback meaning "no callback observed yet".
pub const CB_NONE: usize = 0;

/// Mathematical model of the per-CPU transition store: the configured
/// dimensions, the capture toggle, the last callback seen on each CPU and
/// each CPU's transition matrix. Matrix entry `tables[c][p][n]` counts how
/// often callback `n` was observed immediately after `p` on CPU `c`.
pub struct StoreModel {
    pub nr_cbs: nat,
    pub nr_cpus: nat,
    pub capture: bool,
    pub prev: Seq<nat>,
    pub tables: Seq<Seq<Seq<nat>>>,
}

/// The all-zero `nr_cbs` x `nr_cbs` matrix.
pub open spec fn zero_matrix(nr_cbs: nat) -> Seq<Seq<nat>> {
    Seq::new(nr_cbs, |p: int| Seq::new(nr_cbs, |n: int| 0nat))
}

/// The model of a fresh store: every matrix entry zero, every cursor at
/// `CB_NONE`.
pub open spec fn init_model(nr_cbs: nat, nr_cpus: nat, capture: bool) -> StoreModel {
    StoreModel {
        nr_cbs,
        nr_cpus,
        capture,
        prev: Seq::new(nr_cpus, |c: int| CB_NONE as nat),
        tables: Seq::new(nr_cpus, |c: int| zero_matrix(nr_cbs)),
    }
}

/// Dimensions and cursor bounds that every reachable store model satisfies.
pub open spec fn model_wf(m: StoreModel) -> bool {
    &&& m.nr_cbs >= 1
    &&& m.prev.len() == m.nr_cpus
    &&& m.tables.len() == m.nr_cpus
    &&& forall|c: int| 0 <= c < m.nr_cpus ==> (#[trigger] m.prev[c]) < m.nr_cbs
    &&& forall|c: int| 0 <= c < m.nr_cpus ==> (#[trigger] m.tables[c]).len() == m.nr_cbs
    &&& forall|c: int, p: int|
        0 <= c < m.nr_cpus && 0 <= p < m.nr_cbs ==> (#[trigger] m.tables[c][p]).len() == m.nr_cbs
}

/// One event applied to the model: with capture enabled, the entry at
/// (last callback on `cpu`, `cb`) in `cpu`'s matrix grows by one and the
/// cursor moves to `cb`; with capture disabled nothing changes.
pub open spec fn step_model(m: StoreModel, cpu: nat, cb: nat) -> StoreModel
    recommends
        cpu < m.nr_cpus,
        cb < m.nr_cbs,
{
    if !m.capture {
        m
    } else {
        let p = m.prev[cpu as int];
        StoreModel {
            prev: m.prev.update(cpu as int, cb),
            tables: m.tables.update(
                cpu as int,
                m.tables[cpu as int].update(
                    p as int,
                    m.tables[cpu as int][p as int].update(
                        cb as int,
                        m.tables[cpu as int][p as int][cb as int] + 1,
                    ),
                ),
            ),
            ..m
        }
    }
}

/// Sum of one matrix entry over a sequence of per-CPU matrices: the
/// aggregate count for the transition (p, n).
pub open spec fn agg_entry(tables: Seq<Seq<Seq<nat>>>, p: int, n: int) -> nat
    decreases tables.len(),
{
    if tables.len() == 0 {
        0
    } else {
        agg_entry(tables.drop_last(), p, n) + tables.last()[p][n]
    }
}

/// Updating one entry of one CPU's matrix moves exactly one aggregate
/// entry, by exactly the same amount.
pub proof fn lemma_agg_update(ts: Seq<Seq<Seq<nat>>>, nr_cbs: nat, c: int, p0: int, n0: int, delta: nat)
    requires
        0 <= c < ts.len(),
        0 <= p0 < nr_cbs,
        0 <= n0 < nr_cbs,
        forall|i: int| 0 <= i < ts.len() ==> (#[trigger] ts[i]).len() == nr_cbs,
        forall|i: int, p: int|
            0 <= i < ts.len() && 0 <= p < nr_cbs ==> (#[trigger] ts[i][p]).len() == nr_cbs,
    ensures
        forall|p: int, n: int|
            0 <= p < nr_cbs && 0 <= n < nr_cbs ==> agg_entry(
                ts.update(c, ts[c].update(p0, ts[c][p0].update(n0, (ts[c][p0][n0] + delta) as nat))),
                p,
                n,
            ) == agg_entry(ts, p, n) + (if p == p0 && n == n0 {
                delta
            } else {
                0nat
            }),
    decreases ts.len(),
{
    let ts2 = ts.update(c, ts[c].update(p0, ts[c][p0].update(n0, (ts[c][p0][n0] + delta) as nat)));
    if c == ts.len() - 1 {
        assert(ts2.drop_last() =~= ts.drop_last());
        assert forall|p: int, n: int| 0 <= p < nr_cbs && 0 <= n < nr_cbs implies agg_entry(
            ts2,
            p,
            n,
        ) == agg_entry(ts, p, n) + (if p == p0 && n == n0 {
            delta
        } else {
            0nat
        }) by {
            assert(ts2.last() == ts[c].update(p0, ts[c][p0].update(n0, (ts[c][p0][n0] + delta) as nat)));
            assert(ts2.last()[p][n] == ts.last()[p][n] + (if p == p0 && n == n0 {
                delta
            } else {
                0nat
            }));
        }
    } else {
        let tsd = ts.drop_last();
        lemma_agg_update(tsd, nr_cbs, c, p0, n0, delta);
        let tsd2 = tsd.update(c, tsd[c].update(p0, tsd[c][p0].update(n0, (tsd[c][p0][n0] + delta) as nat)));
        assert(ts2.drop_last() =~= tsd2);
        assert forall|p: int, n: int| 0 <= p < nr_cbs && 0 <= n < nr_cbs implies agg_entry(
            ts2,
            p,
            n,
        ) == agg_entry(ts, p, n) + (if p == p0 && n == n0 {
            delta
        } else {
            0nat
        }) by {
            assert(agg_entry(tsd2, p, n) == agg_entry(tsd, p, n) + (if p == p0 && n == n0 {
                delta
            } else {
                0nat
            }));
            assert(ts2.last() == ts.last());
        }
    }
}

/// The aggregate over a prefix never exceeds the aggregate over the whole.
pub proof fn lemma_agg_prefix(ts: Seq<Seq<Seq<nat>>>, k: int, p: int, n: int)
    requires
        0 <= k <= ts.len(),
    ensures
        agg_entry(ts.take(k), p, n) <= agg_entry(ts, p, n),
    decreases ts.len(),
{
    if k == ts.len() {
        assert(ts.take(k) =~= ts);
    } else {
        lemma_agg_prefix(ts.drop_last(), k, p, n);
        assert(ts.drop_last().take(k) =~= ts.take(k));
    }
}

/// One CPU's entry never exceeds the aggregate entry.
pub proof fn lemma_entry_le_agg(ts: Seq<Seq<Seq<nat>>>, c: int, p: int, n: int)
    requires
        0 <= c < ts.len(),
    ensures
        ts[c][p][n] <= agg_entry(ts, p, n),
    decreases ts.len(),
{
    if c == ts.len() - 1 {
    } else {
        lemma_entry_le_agg(ts.drop_last(), c, p, n);
    }
}

/// The aggregate of all-zero matrices is zero.
pub proof fn lemma_agg_zero(ts: Seq<Seq<Seq<nat>>>, nr_cbs: nat, p: int, n: int)
    requires
        forall|i: int| 0 <= i < ts.len() ==> (#[trigger] ts[i]) == zero_matrix(nr_cbs),
        0 <= p < nr_cbs,
        0 <= n < nr_cbs,
    ensures
        agg_entry(ts, p, n) == 0,
    decreases ts.len(),
{
    if ts.len() > 0 {
        lemma_agg_zero(ts.drop_last(), nr_cbs, p, n);
        assert(ts.last()[p][n] == zero_matrix(nr_cbs)[p][n]);
        assert(zero_matrix(nr_cbs)[p][n] == 0);
    }
}

/// A single CPU's transition matrix: an `nr_cbs` x `nr_cbs` grid of counts.
/// `table[p][n]` is the number of times callback `n` was observed
/// immediately after callback `p`.
pub struct CbTable {
    nr_cbs: usize,
    table: Vec<Vec<u64>>,
}

impl View for CbTable {
    type V = Seq<Seq<nat>>;

    closed spec fn view(&self) -> Seq<Seq<nat>> {
        self.table@.map_values(|row: Vec<u64>| row@.map_values(|x: u64| x as nat))
    }
}

impl CbTable {
    /// The configured number of callbacks (the matrix's side length).
    pub closed spec fn spec_nr_cbs(&self) -> nat {
        self.nr_cbs as nat
    }

    /// The matrix is square with side `nr_cbs`.
    pub closed spec fn wf(&self) -> bool {
        &&& self.table.len() == self.nr_cbs
        &&& forall|p: int| 0 <= p < self.table.len() ==> (#[trigger] self.table[p]).len() == self.nr_cbs
    }

    /// The view has the same shape as the underlying storage.
    pub proof fn lemma_view_shape(&self)
        requires
            self.wf(),
        ensures
            self@.len() == self.spec_nr_cbs(),
            forall|p: int| 0 <= p < self@.len() ==> (#[trigger] self@[p]).len() == self.spec_nr_cbs(),
            forall|p: int, n: int|
                0 <= p < self@.len() && 0 <= n < self@.len() ==> (#[trigger] self@[p][n]) <= u64::MAX,
    {
        assert forall|p: int, n: int|
            0 <= p < self@.len() && 0 <= n < self@.len() implies (#[trigger] self@[p][n]) <= u64::MAX by {
            assert(self@[p][n] == self.table[p][n] as nat);
        }
    }

    /// A fresh matrix: all entries zero.
    pub fn new(nr_cbs: usize) -> (r: CbTable)
        ensures
            r.wf(),
            r.spec_nr_cbs() == nr_cbs,
            r@ == zero_matrix(nr_cbs as nat),
    {
        let mut table: Vec<Vec<u64>> = Vec::new();
        let mut p: usize = 0;
        while p < nr_cbs
            invariant
                p <= nr_cbs,
                table.len() == p,
                forall|i: int| 0 <= i < p ==> (#[trigger] table[i]).len() == nr_cbs,
                forall|i: int, j: int|
                    0 <= i < p && 0 <= j < nr_cbs ==> (#[trigger] table[i][j]) == 0u64,
            decreases nr_cbs - p,
        {
            let mut row: Vec<u64> = Vec::new();
            let mut n: usize = 0;
            while n < nr_cbs
                invariant
                    n <= nr_cbs,
                    row.len() == n,
                    forall|j: int| 0 <= j < n ==> (#[trigger] row[j]) == 0u64,
                decreases nr_cbs - n,
            {
                row.push(0);
                n += 1;
            }
            table.push(row);
            p += 1;
        }
        let r = CbTable { nr_cbs, table };
        proof {
            assert(r@ =~= zero_matrix(nr_cbs as nat)) by {
                assert forall|i: int| 0 <= i < nr_cbs implies r@[i] =~= zero_matrix(
                    nr_cbs as nat,
                )[i] by {
                    assert(r@[i] == r.table[i]@.map_values(|x: u64| x as nat));
                }
            }
        }
        r
    }

    /// Records one transition: the entry at (prev, next) grows by one.
    /// Out-of-range indices are rejected with `IndexError`; the matrix is
    /// then unchanged.
    pub fn record(&mut self, prev_cb: usize, next_cb: usize) -> (r: Result<(), StatsError>)
        requires
            old(self).wf(),
            prev_cb < old(self).spec_nr_cbs() && next_cb < old(self).spec_nr_cbs()
                ==> old(self)@[prev_cb as int][next_cb as int] < u64::MAX,
        ensures
            final(self).wf(),
            final(self).spec_nr_cbs() == old(self).spec_nr_cbs(),
            if prev_cb < old(self).spec_nr_cbs() && next_cb < old(self).spec_nr_cbs() {
                &&& r is Ok
                &&& final(self)@ == old(self)@.update(
                    prev_cb as int,
                    old(self)@[prev_cb as int].update(
                        next_cb as int,
                        old(self)@[prev_cb as int][next_cb as int] + 1,
                    ),
                )
            } else {
                &&& r == Result::<(), StatsError>::Err(StatsError::IndexError)
                &&& final(self)@ == old(self)@
            },
    {
        if prev_cb >= self.nr_cbs || next_cb >= self.nr_cbs {
            return Err(StatsError::IndexError);
        }
        proof {
            assert(self@[prev_cb as int][next_cb as int] == self.table[prev_cb as int][next_cb as int] as nat);
        }
        let row: &mut Vec<u64> = &mut self.table[prev_cb];
        let v = row[next_cb];
        row.set(next_cb, v + 1);
        proof {
            assert(final(self)@ =~= old(self)@.update(
                prev_cb as int,
                old(self)@[prev_cb as int].update(
                    next_cb as int,
                    old(self)@[prev_cb as int][next_cb as int] + 1,
                ),
            )) by {
                assert forall|i: int| 0 <= i < self.table.len() implies self@[i] == self.table[i]@.map_values(|x: u64| x as nat) by {}
                assert(self@[prev_cb as int] =~= old(self)@[prev_cb as int].update(
                    next_cb as int,
                    old(self)@[prev_cb as int][next_cb as int] + 1,
                ));
            }
        }
        Ok(())
    }

    /// Reads the entry at (prev, next).
    pub fn get_counter(&self, prev_cb: usize, next_cb: usize) -> (r: u64)
        requires
            self.wf(),
            prev_cb < self.spec_nr_cbs(),
            next_cb < self.spec_nr_cbs(),
        ensures
            r as nat == self@[prev_cb as int][next_cb as int],
    {
        self.table[prev_cb][next_cb]
    }

    /// Adds `n` to the entry at (prev, next); used while folding per-CPU
    /// matrices into an aggregate.
    pub fn add_counter(&mut self, prev_cb: usize, next_cb: usize, n: u64)
        requires
            old(self).wf(),
            prev_cb < old(self).spec_nr_cbs(),
            next_cb < old(self).spec_nr_cbs(),
            old(self)@[prev_cb as int][next_cb as int] + n <= u64::MAX,
        ensures
            final(self).wf(),
            final(self).spec_nr_cbs() == old(self).spec_nr_cbs(),
            final(self)@ == old(self)@.update(
                prev_cb as int,
                old(self)@[prev_cb as int].update(
                    next_cb as int,
                    (old(self)@[prev_cb as int][next_cb as int] + n) as nat,
                ),
            ),
    {
        proof {
            assert(self@[prev_cb as int][next_cb as int] == self.table[prev_cb as int][next_cb as int] as nat);
        }
        let row: &mut Vec<u64> = &mut self.table[prev_cb];
        let v = row[next_cb];
        row.set(next_cb, v + n);
        proof {
            assert(final(self)@ =~= old(self)@.update(
                prev_cb as int,
                old(self)@[prev_cb as int].update(
                    next_cb as int,
                    (old(self)@[prev_cb as int][next_cb as int] + n) as nat,
                ),
            )) by {
                assert(self@[prev_cb as int] =~= old(self)@[prev_cb as int].update(
                    next_cb as int,
                    (old(self)@[prev_cb as int][next_cb as int] + n) as nat,
                ));
            }
        }
    }

    /// Renders the matrix as a fixed-width table: a header row of callback
    /// names, then one row per "previous callback" with one count cell per
    /// "next callback". Pure formatting: the result is a function of the
    /// matrix alone.
    pub fn report(&self) -> (r: String)
        requires
            self.wf(),
            15 + 13 * self.spec_nr_cbs() <= usize::MAX,
        ensures
            r@ == render_transition_table(self@, self.spec_nr_cbs()),
    {
        proof {
            self.lemma_view_shape();
        }
        let mut out = String::new();
        out.append("| prev \\ next |");
        let mut i: usize = 0;
        while i < self.nr_cbs
            invariant
                self.wf(),
                i <= self.nr_cbs,
                out@ =~= "| prev \\ next |"@ + trans_header_cells(i as nat),
            decreases self.nr_cbs - i,
        {
            out.append(" ");
            let cell = trunc_pad_str(idx_to_name_usize(i), 10);
            out.append(cell.as_str());
            out.append(" |");
            i += 1;
        }
        out.append("\n");
        let rr = rule_row_string(15 + 13 * self.nr_cbs);
        out.append(rr.as_str());
        out.append("\n");
        proof {
            assert(out@ =~= render_transition_header(self.spec_nr_cbs()));
        }
        let ghost cbs = self.spec_nr_cbs();
        let mut p: usize = 0;
        while p < self.nr_cbs
            invariant
                self.wf(),
                cbs == self.spec_nr_cbs(),
                p <= self.nr_cbs,
                out@ =~= render_transition_header(cbs) + trans_rows(self@, cbs, p as nat),
            decreases self.nr_cbs - p,
        {
            proof {
                self.lemma_view_shape();
            }
            out.append("| ");
            let name = pad_left_str(idx_to_name_usize(p), 11);
            out.append(name.as_str());
            out.append(" |");
            let mut n: usize = 0;
            while n < self.nr_cbs
                invariant
                    self.wf(),
                    cbs == self.spec_nr_cbs(),
                    p < self.nr_cbs,
                    n <= self.nr_cbs,
                    out@ =~= render_transition_header(cbs) + trans_rows(self@, cbs, p as nat)
                        + "| "@ + pad_left(stat_name(p as int), 11) + " |"@ + trans_row_cells(
                        self@[p as int],
                        n as nat,
                    ),
                decreases self.nr_cbs - n,
            {
                let v = self.get_counter(p, n);
                out.append(" ");
                let cell = pad_left_str(dec_string(v as u128).as_str(), 10);
                out.append(cell.as_str());
                out.append(" |");
                n += 1;
            }
            out.append("\n");
            proof {
                assert(out@ =~= render_transition_header(cbs) + trans_rows(
                    self@,
                    cbs,
                    (p + 1) as nat,
                ));
            }
            p += 1;
        }
        out
    }

    /// Renders the matrix in CSV form: a header of callback names, then one
    /// comma-separated row per "previous callback".
    pub fn report_csv(&self) -> (r: String)
        requires
            self.wf(),
        ensures
            r@ == render_transition_csv(self@, self.spec_nr_cbs()),
    {
        proof {
            self.lemma_view_shape();
        }
        let mut out = String::new();
        out.append(", ");
        let mut i: usize = 0;
        while i < self.nr_cbs
            invariant
                self.wf(),
                i <= self.nr_cbs,
                out@ =~= ", "@ + csv_name_cells(i as nat),
            decreases self.nr_cbs - i,
        {
            out.append(idx_to_name_usize(i));
            out.append(", ");
            i += 1;
        }
        out.append("\n");
        let ghost cbs = self.spec_nr_cbs();
        let mut p: usize = 0;
        while p < self.nr_cbs
            invariant
                self.wf(),
                cbs == self.spec_nr_cbs(),
                p <= self.nr_cbs,
                out@ =~= ", "@ + csv_name_cells(cbs) + "\n"@ + csv_rows(self@, cbs, p as nat),
            decreases self.nr_cbs - p,
        {
            proof {
                self.lemma_view_shape();
            }
            out.append(idx_to_name_usize(p));
            out.append(", ");
            let mut n: usize = 0;
            while n < self.nr_cbs
                invariant
                    self.wf(),
                    cbs == self.spec_nr_cbs(),
                    p < self.nr_cbs,
                    n <= self.nr_cbs,
                    out@ =~= ", "@ + csv_name_cells(cbs) + "\n"@ + csv_rows(self@, cbs, p as nat)
                        + stat_name(p as int) + ", "@ + csv_val_cells(self@[p as int], n as nat),
                decreases self.nr_cbs - n,
            {
                let v = self.get_counter(p, n);
                out.append(dec_string(v as u128).as_str());
                out.append(", ");
                n += 1;
            }
            out.append("\n");
            proof {
                assert(out@ =~= ", "@ + csv_name_cells(cbs) + "\n"@ + csv_rows(
                    self@,
                    cbs,
                    (p + 1) as nat,
                ));
            }
            p += 1;
        }
        out
    }
}

/// The per-CPU transition store: one `CbTable` and one "last callback"
/// cursor per CPU, plus the capture toggle decided at startup. When capture
/// is disabled, recording is a no-op and every count stays zero.
pub struct GlobalCbTable {
    nr_cbs: usize,
    nr_cpus: usize,
    capture: bool,
    reported: bool,
    prev_cb: Vec<usize>,
    table: Vec<CbTable>,
    total: u64,
}

impl GlobalCbTable {
    /// The mathematical model of the store.
    pub closed spec fn model(&self) -> StoreModel {
        StoreModel {
            nr_cbs: self.nr_cbs as nat,
            nr_cpus: self.nr_cpus as nat,
            capture: self.capture,
            prev: self.prev_cb@.map_values(|x: usize| x as nat),
            tables: self.table@.map_values(|t: CbTable| t@),
        }
    }

    /// How many events have been recorded so far.
    pub closed spec fn events_total(&self) -> nat {
        self.total as nat
    }

    /// Whether the one final report owed at teardown has already been taken.
    pub closed spec fn spec_reported(&self) -> bool {
        self.reported
    }

    /// Internal consistency: dimensions match the configuration, cursors are
    /// in range, every aggregate entry is bounded by the number of recorded
    /// events, and a disabled store has recorded nothing.
    pub closed spec fn wf(&self) -> bool {
        &&& self.nr_cbs >= 1
        &&& self.prev_cb.len() == self.nr_cpus
        &&& self.table.len() == self.nr_cpus
        &&& forall|c: int|
            0 <= c < self.nr_cpus ==> (#[trigger] self.table[c]).wf() && self.table[c].spec_nr_cbs()
                == self.nr_cbs
        &&& forall|c: int| 0 <= c < self.nr_cpus ==> (#[trigger] self.prev_cb[c]) < self.nr_cbs
        &&& forall|p: int, n: int|
            0 <= p < self.nr_cbs && 0 <= n < self.nr_cbs ==> agg_entry(
                self.model().tables,
                p,
                n,
            ) <= self.total
        &&& !self.capture ==> self.total == 0
    }

    /// A well-formed store has a well-formed model, and its aggregate is
    /// bounded by the number of recorded events.
    pub proof fn lemma_model_wf(&self)
        requires
            self.wf(),
        ensures
            model_wf(self.model()),
            forall|p: int, n: int|
                0 <= p < self.model().nr_cbs && 0 <= n < self.model().nr_cbs ==> agg_entry(
                    self.model().tables,
                    p,
                    n,
                ) <= self.events_total(),
    {
        assert forall|c: int, p: int|
            0 <= c < self.model().nr_cpus && 0 <= p < self.model().nr_cbs implies (
        #[trigger] self.model().tables[c][p]).len() == self.model().nr_cbs by {
            assert(self.model().tables[c] == self.table[c]@);
            self.table[c].lemma_view_shape();
        }
        assert forall|c: int| 0 <= c < self.model().nr_cpus implies (#[trigger] self.model().tables[c]).len()
            == self.model().nr_cbs by {
            assert(self.model().tables[c] == self.table[c]@);
            self.table[c].lemma_view_shape();
        }
    }

    /// A fresh store: every matrix entry zero and every cursor at `CB_NONE`.
    /// `capture` decides whether later events are recorded at all.
    pub fn new(nr_cbs: usize, nr_cpus: usize, capture: bool) -> (r: GlobalCbTable)
        requires
            nr_cbs >= 1,
        ensures
            r.wf(),
            r.model() == init_model(nr_cbs as nat, nr_cpus as nat, capture),
            r.events_total() == 0,
            !r.spec_reported(),
    {
        let mut prev_cb: Vec<usize> = Vec::new();
        let mut table: Vec<CbTable> = Vec::new();
        let mut c: usize = 0;
        while c < nr_cpus
            invariant
                c <= nr_cpus,
                nr_cbs >= 1,
                prev_cb.len() == c,
                table.len() == c,
                forall|i: int| 0 <= i < c ==> (#[trigger] prev_cb[i]) == CB_NONE,
                forall|i: int|
                    0 <= i < c ==> (#[trigger] table[i]).wf() && table[i].spec_nr_cbs() == nr_cbs
                        && table[i]@ == zero_matrix(nr_cbs as nat),
            decreases nr_cpus - c,
        {
            prev_cb.push(CB_NONE);
            table.push(CbTable::new(nr_cbs));
            c += 1;
        }
        let r = GlobalCbTable { nr_cbs, nr_cpus, capture, reported: false, prev_cb, table, total: 0 };
        proof {
            assert(r.model().prev =~= init_model(nr_cbs as nat, nr_cpus as nat, capture).prev);
            assert(r.model().tables =~= init_model(nr_cbs as nat, nr_cpus as nat, capture).tables);
            assert(r.model() == init_model(nr_cbs as nat, nr_cpus as nat, capture));
            assert forall|p: int, n: int|
                0 <= p < nr_cbs && 0 <= n < nr_cbs implies agg_entry(r.model().tables, p, n)
                <= r.total by {
                lemma_agg_zero(r.model().tables, nr_cbs as nat, p, n);
            }
        }
        r
    }

    /// Records one event: with capture enabled, the transition from the last
    /// callback seen on `cpu` to `cb` is counted and the cursor moves to
    /// `cb`. A CPU or callback id outside the configured bounds is rejected
    /// with `IndexError` and the store is unchanged.
    pub fn record(&mut self, cpu: u32, cb: usize) -> (r: Result<(), StatsError>)
        requires
            old(self).wf(),
            old(self).events_total() < u64::MAX,
        ensures
            final(self).wf(),
            final(self).spec_reported() == old(self).spec_reported(),
            if (cpu as nat) < old(self).model().nr_cpus && (cb as nat) < old(self).model().nr_cbs {
                &&& r is Ok
                &&& final(self).model() == step_model(old(self).model(), cpu as nat, cb as nat)
                &&& final(self).events_total() == old(self).events_total() + (
                if old(self).model().capture {
                    1nat
                } else {
                    0nat
                })
            } else {
                &&& r == Result::<(), StatsError>::Err(StatsError::IndexError)
                &&& final(self).model() == old(self).model()
                &&& final(self).events_total() == old(self).events_total()
            },
    {
        if cpu as usize >= self.nr_cpus || cb >= self.nr_cbs {
            return Err(StatsError::IndexError);
        }
        if !self.capture {
            return Ok(());
        }
        let c = cpu as usize;
        let p = self.prev_cb[c];
        proof {
            self.lemma_model_wf();
            lemma_entry_le_agg(self.model().tables, c as int, p as int, cb as int);
            assert(self.model().tables[c as int] == self.table[c as int]@);
            self.table[c as int].lemma_view_shape();
        }
        let t: &mut CbTable = &mut self.table[c];
        let _ = t.record(p, cb);
        self.prev_cb.set(c, cb);
        self.total = self.total + 1;
        proof {
            let m0 = old(self).model();
            let m1 = self.model();
            assert(m1.prev =~= m0.prev.update(c as int, cb as nat));
            assert(m1.tables =~= m0.tables.update(
                c as int,
                m0.tables[c as int].update(
                    p as int,
                    m0.tables[c as int][p as int].update(
                        cb as int,
                        (m0.tables[c as int][p as int][cb as int] + 1) as nat,
                    ),
                ),
            ));
            assert(m1 == step_model(m0, cpu as nat, cb as nat));
            old(self).lemma_model_wf();
            lemma_agg_update(m0.tables, m0.nr_cbs, c as int, p as int, cb as int, 1);
            assert forall|pp: int, nn: int|
                0 <= pp < self.nr_cbs && 0 <= nn < self.nr_cbs implies agg_entry(
                m1.tables,
                pp,
                nn,
            ) <= self.total by {
                assert(agg_entry(m1.tables, pp, nn) == agg_entry(m0.tables, pp, nn) + (
                if pp == p as int && nn == cb as int {
                    1nat
                } else {
                    0nat
                }));
            }
        }
        Ok(())
    }

    /// The element-wise sum of all per-CPU matrices: a fresh zero matrix
    /// with every per-CPU matrix folded in.
    pub fn aggregate(&self) -> (r: CbTable)
        requires
            self.wf(),
        ensures
            r.wf(),
            r.spec_nr_cbs() == self.model().nr_cbs,
            forall|p: int, n: int|
                0 <= p < self.model().nr_cbs && 0 <= n < self.model().nr_cbs ==> (#[trigger] r@[p][n])
                    == agg_entry(self.model().tables, p, n),
    {
        proof {
            self.lemma_model_wf();
        }
        let ghost ts = self.model().tables;
        let mut acc = CbTable::new(self.nr_cbs);
        proof {
            assert forall|p: int, n: int|
                0 <= p < self.nr_cbs && 0 <= n < self.nr_cbs implies (#[trigger] acc@[p][n])
                == agg_entry(ts.take(0), p, n) by {
                assert(ts.take(0) =~= Seq::<Seq<Seq<nat>>>::empty());
            }
        }
        let mut c: usize = 0;
        while c < self.nr_cpus
            invariant
                self.wf(),
                c <= self.nr_cpus,
                ts == self.model().tables,
                acc.wf(),
                acc.spec_nr_cbs() == self.nr_cbs,
                forall|p: int, n: int|
                    0 <= p < self.nr_cbs && 0 <= n < self.nr_cbs ==> (#[trigger] acc@[p][n])
                        == agg_entry(ts.take(c as int), p, n),
            decreases self.nr_cpus - c,
        {
            let mut p: usize = 0;
            while p < self.nr_cbs
                invariant
                    self.wf(),
                    c < self.nr_cpus,
                    p <= self.nr_cbs,
                    ts == self.model().tables,
                    acc.wf(),
                    acc.spec_nr_cbs() == self.nr_cbs,
                    forall|pp: int, nn: int|
                        0 <= pp < self.nr_cbs && 0 <= nn < self.nr_cbs ==> (#[trigger] acc@[pp][nn])
                            == agg_entry(ts.take(c as int), pp, nn) + (if pp < p {
                            ts[c as int][pp][nn]
                        } else {
                            0nat
                        }),
                decreases self.nr_cbs - p,
            {
                let mut n: usize = 0;
                while n < self.nr_cbs
                    invariant
                        self.wf(),
                        c < self.nr_cpus,
                        p < self.nr_cbs,
                        n <= self.nr_cbs,
                        ts == self.model().tables,
                        acc.wf(),
                        acc.spec_nr_cbs() == self.nr_cbs,
                        forall|pp: int, nn: int|
                            0 <= pp < self.nr_cbs && 0 <= nn < self.nr_cbs ==> (
                            #[trigger] acc@[pp][nn]) == agg_entry(ts.take(c as int), pp, nn) + (
                            if pp < p || (pp == p && nn < n) {
                                ts[c as int][pp][nn]
                            } else {
                                0nat
                            }),
                    decreases self.nr_cbs - n,
                {
                    let v = self.table[c].get_counter(p, n);
                    proof {
                        assert(self.model().tables[c as int] == self.table[c as int]@);
                        assert(v as nat == ts[c as int][p as int][n as int]);
                        assert(ts.take(c as int + 1).drop_last() =~= ts.take(c as int));
                        assert(ts.take(c as int + 1).last() == ts[c as int]);
                        assert(agg_entry(ts.take(c as int + 1), p as int, n as int) == agg_entry(
                            ts.take(c as int),
                            p as int,
                            n as int,
                        ) + ts[c as int][p as int][n as int]);
                        lemma_agg_prefix(ts, c as int + 1, p as int, n as int);
                        self.lemma_model_wf();
                    }
                    acc.add_counter(p, n, v);
                    n += 1;
                }
                p += 1;
            }
            proof {
                assert forall|pp: int, nn: int|
                    0 <= pp < self.nr_cbs && 0 <= nn < self.nr_cbs implies (#[trigger] acc@[pp][nn])
                    == agg_entry(ts.take(c as int + 1), pp, nn) by {
                    assert(ts.take(c as int + 1).drop_last() =~= ts.take(c as int));
                    assert(ts.take(c as int + 1).last() == ts[c as int]);
                }
            }
            c += 1;
        }
        proof {
            assert(ts.take(self.nr_cpus as int) =~= ts);
        }
        acc
    }

    /// How many events have been recorded so far.
    pub fn events(&self) -> (r: u64)
        ensures
            r as nat == self.events_total(),
    {
        self.total
    }

    /// Renders the aggregate of all per-CPU matrices as a transition table.
    /// The result is a function of the store's counts alone and the store is
    /// read, never changed: rendering twice in a row gives byte-identical
    /// output.
    pub fn report(&self) -> (r: String)
        requires
            self.wf(),
            15 + 13 * self.model().nr_cbs <= usize::MAX,
        ensures
            r@ == render_transition_table(agg_matrix(self.model()), self.model().nr_cbs),
    {
        let acc = self.aggregate();
        proof {
            acc.lemma_view_shape();
            assert(acc@ =~= agg_matrix(self.model())) by {
                assert forall|p: int| 0 <= p < acc@.len() implies acc@[p] =~= agg_matrix(
                    self.model(),
                )[p] by {}
            }
        }
        acc.report()
    }

    /// The store's scoped teardown: on the first close of a store built with
    /// capture enabled, the final aggregate report is handed back, exactly
    /// once; a second close, or a store with capture disabled, yields
    /// nothing. Counts and cursors are untouched.
    pub fn close(&mut self) -> (r: Option<String>)
        requires
            old(self).wf(),
            15 + 13 * old(self).model().nr_cbs <= usize::MAX,
        ensures
            final(self).wf(),
            final(self).model() == old(self).model(),
            final(self).events_total() == old(self).events_total(),
            final(self).spec_reported(),
            if old(self).model().capture && !old(self).spec_reported() {
                r matches Some(s) && s@ == render_transition_table(
                    agg_matrix(old(self).model()),
                    old(self).model().nr_cbs,
                )
            } else {
                r is None
            },
    {
        let owed = self.capture && !self.reported;
        self.reported = true;
        if owed {
            Some(self.report())
        } else {
            None
        }
    }
}

/// The aggregate matrix of a store model: entry (p, n) is the sum of that
/// entry over all per-CPU matrices.
pub open spec fn agg_matrix(m: StoreModel) -> Seq<Seq<nat>> {
    Seq::new(m.nr_cbs, |p: int| Seq::new(m.nr_cbs, |n: int| agg_entry(m.tables, p, n)))
}

/// The per-stat, per-CPU counter rows as sequences.
pub open spec fn rows_model(values: Seq<Vec<u64>>) -> Seq<Seq<u64>> {
    values.map_values(|v: Vec<u64>| v@)
}

/// The shape the counter values must have: one row per known stat index,
/// each row with one value per CPU.
pub open spec fn counters_ok(values: Seq<Vec<u64>>, nr_cpus: nat) -> bool {
    &&& values.len() == NR_STATS
    &&& forall|i: int|
        0 <= i < values.len() ==> (#[trigger] rows_model(values)[i]).len() == nr_cpus
}

/// One counter-table row: the stat's name, its per-CPU values, and their
/// sum.
fn counter_row_string(idx: usize, row: &Vec<u64>, nr_cpus: usize) -> (r: String)
    requires
        row@.len() == nr_cpus,
    ensures
        r@ == counter_row(idx as int, row@),
{
    let mut out = String::new();
    out.append("| ");
    let name = pad_left_str(idx_to_name_usize(idx), 10);
    out.append(name.as_str());
    out.append(" |");
    let mut sum: u128 = 0;
    let mut c: usize = 0;
    while c < nr_cpus
        invariant
            row@.len() == nr_cpus,
            c <= nr_cpus,
            sum as nat == sum_vals(row@.take(c as int)),
            out@ =~= "| "@ + pad_left(stat_name(idx as int), 10) + " |"@ + counter_val_cells(
                row@,
                c as nat,
            ),
        decreases nr_cpus - c,
    {
        let v = row[c];
        out.append(" ");
        let cell = pad_left_str(dec_string(v as u128).as_str(), 5);
        out.append(cell.as_str());
        out.append(" |");
        proof {
            assert(row@.take(c + 1).drop_last() =~= row@.take(c as int));
            assert(row@.take(c + 1).last() == row@[c as int]);
            assert(sum_vals(row@.take(c + 1)) == (sum_vals(row@.take(c as int))
                + row@[c as int]) as nat);
            lemma_sum_vals_bound(row@.take(c + 1));
            assert((c + 1) * (u64::MAX as nat) <= (u64::MAX as nat) * (u64::MAX as nat));
            assert((u64::MAX as nat) * (u64::MAX as nat) <= u128::MAX as nat);
        }
        sum = sum + v as u128;
        c += 1;
    }
    proof {
        assert(row@.take(nr_cpus as int) =~= row@);
    }
    out.append(" ");
    let total_cell = pad_left_str(dec_string(sum).as_str(), 5);
    out.append(total_cell.as_str());
    out.append(" |");
    out.append("\n");
    proof {
        assert(out@ =~= counter_row(idx as int, row@));
    }
    out
}

/// Renders the counter table: one row per stat index, in the fixed declared
/// order, with the stat's per-CPU values and their sum, under a header of
/// CPU columns and a "sum" column. A value set of the wrong shape (not one
/// row per known stat index, or a row without one value per CPU) is
/// rejected with `MapLookupError`.
pub fn report_stats(values: &Vec<Vec<u64>>, nr_cpus: usize) -> (r: Result<String, StatsError>)
    requires
        14 + 8 * (nr_cpus + 1) <= usize::MAX,
    ensures
        counters_ok(values@, nr_cpus as nat) ==> (r matches Ok(s) && s@ == render_counter_table(
            rows_model(values@),
            nr_cpus as nat,
        )),
        !counters_ok(values@, nr_cpus as nat) ==> r == Result::<String, StatsError>::Err(
            StatsError::MapLookupError,
        ),
{
    let ghost vm = rows_model(values@);
    if values.len() != NR_STATS as usize {
        return Err(StatsError::MapLookupError);
    }
    let mut i: usize = 0;
    while i < values.len()
        invariant
            i <= values@.len(),
            vm == rows_model(values@),
            forall|j: int| 0 <= j < i ==> (#[trigger] vm[j]).len() == nr_cpus,
        decreases values@.len() - i,
    {
        if values[i].len() != nr_cpus {
            proof {
                assert(vm[i as int] == values@[i as int]@);
                assert(!counters_ok(values@, nr_cpus as nat));
            }
            return Err(StatsError::MapLookupError);
        }
        proof {
            assert(vm[i as int] == values@[i as int]@);
        }
        i += 1;
    }
    let mut out = String::new();
    out.append("| ");
    let blank = spaces_string(10);
    out.append(blank.as_str());
    out.append(" |");
    let mut c: usize = 0;
    while c < nr_cpus
        invariant
            c <= nr_cpus,
            out@ =~= "| "@ + spaces(10) + " |"@ + counter_header_cells(c as nat),
        decreases nr_cpus - c,
    {
        out.append(" ");
        let cell = center_str(dec_string(c as u128).as_str(), 5);
        out.append(cell.as_str());
        out.append(" |");
        c += 1;
    }
    out.append(" ");
    let sum_label = pad_left_str("sum", 5);
    out.append(sum_label.as_str());
    out.append(" |");
    out.append("\n");
    let rr = rule_row_string(14 + 8 * (nr_cpus + 1));
    out.append(rr.as_str());
    out.append("\n");
    proof {
        assert(out@ =~= render_counter_header(nr_cpus as nat));
    }
    let mut idx: usize = 0;
    while idx < values.len()
        invariant
            idx <= values@.len(),
            values@.len() == NR_STATS,
            vm == rows_model(values@),
            forall|j: int| 0 <= j < values@.len() ==> (#[trigger] vm[j]).len() == nr_cpus,
            out@ =~= render_counter_header(nr_cpus as nat) + counter_rows(vm, idx as nat),
        decreases values@.len() - idx,
    {
        proof {
            assert(vm[idx as int] == values@[idx as int]@);
        }
        let row_text = counter_row_string(idx, &values[idx], nr_cpus);
        out.append(row_text.as_str());
        proof {
            assert(out@ =~= render_counter_header(nr_cpus as nat) + counter_rows(
                vm,
                (idx + 1) as nat,
            ));
        }
        idx += 1;
    }
    out.append("\n");
    proof {
        assert(out@ =~= render_counter_table(vm, nr_cpus as nat));
    }
    Ok(out)
}

/// The model reached by feeding `events` (as `(cpu, callback)` pairs, in
/// order) to a fresh capture-enabled store.
pub open spec fn replay(nr_cbs: nat, nr_cpus: nat, events: Seq<(nat, nat)>) -> StoreModel
    decreases events.len(),
{
    if events.len() == 0 {
        init_model(nr_cbs, nr_cpus, true)
    } else {
        step_model(replay(nr_cbs, nr_cpus, events.drop_last()), events.last().0, events.last().1)
    }
}

/// The callback most recently observed on `cpu` in `events`, or `CB_NONE`
/// if `events` holds no event for `cpu`.
pub open spec fn last_cb_of(events: Seq<(nat, nat)>, cpu: nat) -> nat
    decreases events.len(),
{
    if events.len() == 0 {
        CB_NONE as nat
    } else if events.last().0 == cpu {
        events.last().1
    } else {
        last_cb_of(events.drop_last(), cpu)
    }
}

/// How many events in `events` observe callback `n` on a CPU whose previous
/// observation (or `CB_NONE` if it had none) was `p`: the number of times
/// `n` directly followed `p` on any CPU.
pub open spec fn count_follows(events: Seq<(nat, nat)>, p: nat, n: nat) -> nat
    decreases events.len(),
{
    if events.len() == 0 {
        0
    } else {
        count_follows(events.drop_last(), p, n) + (if events.last().1 == n && last_cb_of(
            events.drop_last(),
            events.last().0,
        ) == p {
            1nat
        } else {
            0nat
        })
    }
}

/// Every event in the sequence names a CPU and a callback inside the
/// configured bounds.
pub open spec fn events_in_bounds(events: Seq<(nat, nat)>, nr_cbs: nat, nr_cpus: nat) -> bool {
    forall|i: int|
        0 <= i < events.len() ==> (#[trigger] events[i]).0 < nr_cpus && events[i].1 < nr_cbs
}

/// After any replay, each CPU's cursor holds the callback most recently
/// observed on that CPU, and the model stays well-formed.
pub proof fn lemma_replay_prev(nr_cbs: nat, nr_cpus: nat, events: Seq<(nat, nat)>)
    requires
        nr_cbs >= 1,
        events_in_bounds(events, nr_cbs, nr_cpus),
    ensures
        model_wf(replay(nr_cbs, nr_cpus, events)),
        replay(nr_cbs, nr_cpus, events).nr_cbs == nr_cbs,
        replay(nr_cbs, nr_cpus, events).nr_cpus == nr_cpus,
        replay(nr_cbs, nr_cpus, events).capture,
        forall|c: nat| c < nr_cpus ==> replay(nr_cbs, nr_cpus, events).prev[c as int] == last_cb_of(events, c),
    decreases events.len(),
{
    if events.len() == 0 {
        assert forall|c: nat| c < nr_cpus implies replay(nr_cbs, nr_cpus, events).prev[c as int]
            == last_cb_of(events, c) by {
            assert(init_model(nr_cbs, nr_cpus, true).prev[c as int] == CB_NONE as nat);
        }
    } else {
        let head = events.drop_last();
        let e = events.last();
        assert(events_in_bounds(head, nr_cbs, nr_cpus)) by {
            assert forall|i: int|
                0 <= i < head.len() implies (#[trigger] head[i]).0 < nr_cpus && head[i].1
                < nr_cbs by {
                assert(head[i] == events[i]);
            }
        }
        lemma_replay_prev(nr_cbs, nr_cpus, head);
        let m0 = replay(nr_cbs, nr_cpus, head);
        let m1 = replay(nr_cbs, nr_cpus, events);
        assert(events[events.len() - 1] == e);
        assert(e.0 < nr_cpus && e.1 < nr_cbs);
        assert(m1 == step_model(m0, e.0, e.1));
        assert forall|c: nat| c < nr_cpus implies m1.prev[c as int] == last_cb_of(events, c) by {
            if c == e.0 {
                assert(last_cb_of(events, c) == e.1);
                assert(m1.prev[c as int] == e.1);
            } else {
                assert(last_cb_of(events, c) == last_cb_of(head, c));
                assert(m0.prev[c as int] == last_cb_of(head, c));
                assert(m1.prev[c as int] == m0.prev[c as int]);
            }
        }
    }
}

/// The law of replay: for every in-bounds event sequence fed to a fresh
/// capture-enabled store, the aggregate matrix entry (p, n) equals the
/// number of times callback n directly followed callback p on any CPU.
pub proof fn lemma_replay_counts(nr_cbs: nat, nr_cpus: nat, events: Seq<(nat, nat)>, p: nat, n: nat)
    requires
        nr_cbs >= 1,
        events_in_bounds(events, nr_cbs, nr_cpus),
        p < nr_cbs,
        n < nr_cbs,
    ensures
        agg_entry(replay(nr_cbs, nr_cpus, events).tables, p as int, n as int) == count_follows(
            events,
            p,
            n,
        ),
    decreases events.len(),
{
    if events.len() == 0 {
        lemma_agg_zero(init_model(nr_cbs, nr_cpus, true).tables, nr_cbs, p as int, n as int);
    } else {
        let head = events.drop_last();
        let e = events.last();
        assert(events_in_bounds(head, nr_cbs, nr_cpus)) by {
            assert forall|i: int|
                0 <= i < head.len() implies (#[trigger] head[i]).0 < nr_cpus && head[i].1
                < nr_cbs by {
                assert(head[i] == events[i]);
            }
        }
        assert(events[events.len() - 1] == e);
        assert(e.0 < nr_cpus && e.1 < nr_cbs);
        lemma_replay_counts(nr_cbs, nr_cpus, head, p, n);
        lemma_replay_prev(nr_cbs, nr_cpus, head);
        let m0 = replay(nr_cbs, nr_cpus, head);
        let m1 = replay(nr_cbs, nr_cpus, events);
        let p0 = m0.prev[e.0 as int];
        assert(p0 == last_cb_of(head, e.0));
        assert(p0 < nr_cbs);
        lemma_agg_update(m0.tables, nr_cbs, e.0 as int, p0 as int, e.1 as int, 1);
        assert(m1.tables == m0.tables.update(
            e.0 as int,
            m0.tables[e.0 as int].update(
                p0 as int,
                m0.tables[e.0 as int][p0 as int].update(
                    e.1 as int,
                    (m0.tables[e.0 as int][p0 as int][e.1 as int] + 1) as nat,
                ),
            ),
        ));
    }
}

/// A fresh store is all zeros: every aggregate entry of the initial model
/// is zero, and every cursor sits at `CB_NONE`.
pub proof fn lemma_fresh_store_zero(nr_cbs: nat, nr_cpus: nat, capture: bool, p: nat, n: nat)
    requires
        p < nr_cbs,
        n < nr_cbs,
    ensures
        agg_entry(init_model(nr_cbs, nr_cpus, capture).tables, p as int, n as int) == 0,
        forall|c: int|
            0 <= c < nr_cpus ==> init_model(nr_cbs, nr_cpus, capture).prev[c] == CB_NONE as nat,
        forall|c: int|
            0 <= c < nr_cpus ==> init_model(nr_cbs, nr_cpus, capture).tables[c][p as int][n as int]
                == 0,
{
    lemma_agg_zero(init_model(nr_cbs, nr_cpus, capture).tables, nr_cbs, p as int, n as int);
    assert forall|c: int|
        0 <= c < nr_cpus implies init_model(nr_cbs, nr_cpus, capture).tables[c][p as int][n as int]
        == 0 by {
        assert(init_model(nr_cbs, nr_cpus, capture).tables[c] == zero_matrix(nr_cbs));
        assert(zero_matrix(nr_cbs)[p as int][n as int] == 0);
    }
}

/// The first event recorded on any CPU of a fresh capture-enabled store
/// lands in row `CB_NONE`: that CPU's matrix holds a single one at
/// (`CB_NONE`, cb) and nothing anywhere else changes.
pub proof fn lemma_first_event_row_none(nr_cbs: nat, nr_cpus: nat, cpu: nat, cb: nat)
    requires
        nr_cbs >= 1,
        cpu < nr_cpus,
        cb < nr_cbs,
    ensures
        step_model(init_model(nr_cbs, nr_cpus, true), cpu, cb).tables[cpu as int][CB_NONE as int][cb as int] == 1,
        forall|p: nat, n: nat|
            p < nr_cbs && n < nr_cbs ==> agg_entry(
                step_model(init_model(nr_cbs, nr_cpus, true), cpu, cb).tables,
                p as int,
                n as int,
            ) == (if p == CB_NONE as nat && n == cb {
                1nat
            } else {
                0nat
            }),
{
    let m0 = init_model(nr_cbs, nr_cpus, true);
    let m1 = step_model(m0, cpu, cb);
    assert(m0.prev[cpu as int] == CB_NONE as nat);
    assert(m0.tables[cpu as int] == zero_matrix(nr_cbs));
    assert(zero_matrix(nr_cbs)[CB_NONE as int][cb as int] == 0);
    assert(m1.tables[cpu as int][CB_NONE as int][cb as int] == 1);
    lemma_agg_update(m0.tables, nr_cbs, cpu as int, CB_NONE as int, cb as int, 1);
    assert forall|p: nat, n: nat|
        p < nr_cbs && n < nr_cbs implies agg_entry(m1.tables, p as int, n as int) == (
    if p == CB_NONE as nat && n == cb {
        1nat
    } else {
        0nat
    }) by {
        lemma_agg_zero(m0.tables, nr_cbs, p as int, n as int);
    }
}

} // verus!
