//! Fixed-width text rendering for the two report tables: decimal numbers,
//! space padding, and the header/row layout of the transition table and the
//! counter table.

use vstd::prelude::*;

use crate::names::stat_name;

verus! {

/// The single decimal digit `d` as characters.
pub open spec fn digit_seq(d: nat) -> Seq<char> {
    if d == 0 {
        "0"@
    } else if d == 1 {
        "1"@
    } else if d == 2 {
        "2"@
    } else if d == 3 {
        "3"@
    } else if d == 4 {
        "4"@
    } else if d == 5 {
        "5"@
    } else if d == 6 {
        "6"@
    } else if d == 7 {
        "7"@
    } else if d == 8 {
        "8"@
    } else {
        "9"@
    }
}

/// The decimal rendering of `n`, most significant digit first, with no
/// leading zeros (a single zero for `n == 0`).
pub open spec fn dec_seq(n: nat) -> Seq<char>
    decreases n,
{
    if n < 10 {
        digit_seq(n)
    } else {
        dec_seq(n / 10) + digit_seq(n % 10)
    }
}

/// `k` spaces.
pub open spec fn spaces(k: nat) -> Seq<char>
    decreases k,
{
    if k == 0 {
        Seq::empty()
    } else {
        spaces((k - 1) as nat) + " "@
    }
}

/// `k` equals signs, the tables' separator rule.
pub open spec fn rule_row(k: nat) -> Seq<char>
    decreases k,
{
    if k == 0 {
        Seq::empty()
    } else {
        rule_row((k - 1) as nat) + "="@
    }
}

/// `s` right-aligned in a field of width `w`; a longer `s` is kept whole.
pub open spec fn pad_left(s: Seq<char>, w: nat) -> Seq<char> {
    if s.len() >= w {
        s
    } else {
        spaces((w - s.len()) as nat) + s
    }
}

/// `s` cut to at most `w` characters.
pub open spec fn trunc(s: Seq<char>, w: nat) -> Seq<char> {
    if s.len() > w {
        s.take(w as int)
    } else {
        s
    }
}

/// `s` centred in a field of width `w`, the extra space on the right; a
/// longer `s` is kept whole.
pub open spec fn center(s: Seq<char>, w: nat) -> Seq<char> {
    if s.len() >= w {
        s
    } else {
        spaces(((w - s.len()) / 2) as nat) + s + spaces(
            ((w - s.len()) - (w - s.len()) / 2) as nat,
        )
    }
}

/// The first `k` header cells of the transition table: each callback name
/// cut and right-aligned to ten characters.
pub open spec fn trans_header_cells(k: nat) -> Seq<char>
    decreases k,
{
    if k == 0 {
        Seq::empty()
    } else {
        trans_header_cells((k - 1) as nat) + " "@ + pad_left(trunc(stat_name(k as int - 1), 10), 10)
            + " |"@
    }
}

/// The transition table's header: the corner label, one column label per
/// callback, and the separator rule.
pub open spec fn render_transition_header(nr_cbs: nat) -> Seq<char> {
    "| prev \\ next |"@ + trans_header_cells(nr_cbs) + "\n"@ + rule_row(15 + 13 * nr_cbs) + "\n"@
}

/// The first `k` count cells of one transition-table row.
pub open spec fn trans_row_cells(row: Seq<nat>, k: nat) -> Seq<char>
    decreases k,
{
    if k == 0 {
        Seq::empty()
    } else {
        trans_row_cells(row, (k - 1) as nat) + " "@ + pad_left(dec_seq(row[k as int - 1]), 10)
            + " |"@
    }
}

/// The first `k` rows of the transition table: one labelled row per
/// "previous callback".
pub open spec fn trans_rows(m: Seq<Seq<nat>>, nr_cbs: nat, k: nat) -> Seq<char>
    decreases k,
{
    if k == 0 {
        Seq::empty()
    } else {
        trans_rows(m, nr_cbs, (k - 1) as nat) + "| "@ + pad_left(stat_name(k as int - 1), 11)
            + " |"@ + trans_row_cells(m[k as int - 1], nr_cbs) + "\n"@
    }
}

/// The whole transition table for matrix `m` with side `nr_cbs`.
pub open spec fn render_transition_table(m: Seq<Seq<nat>>, nr_cbs: nat) -> Seq<char> {
    render_transition_header(nr_cbs) + trans_rows(m, nr_cbs, nr_cbs)
}

/// The first `k` name cells of the CSV header.
pub open spec fn csv_name_cells(k: nat) -> Seq<char>
    decreases k,
{
    if k == 0 {
        Seq::empty()
    } else {
        csv_name_cells((k - 1) as nat) + stat_name(k as int - 1) + ", "@
    }
}

/// The first `k` count cells of one CSV row.
pub open spec fn csv_val_cells(row: Seq<nat>, k: nat) -> Seq<char>
    decreases k,
{
    if k == 0 {
        Seq::empty()
    } else {
        csv_val_cells(row, (k - 1) as nat) + dec_seq(row[k as int - 1]) + ", "@
    }
}

/// The first `k` rows of the CSV rendering.
pub open spec fn csv_rows(m: Seq<Seq<nat>>, nr_cbs: nat, k: nat) -> Seq<char>
    decreases k,
{
    if k == 0 {
        Seq::empty()
    } else {
        csv_rows(m, nr_cbs, (k - 1) as nat) + stat_name(k as int - 1) + ", "@ + csv_val_cells(
            m[k as int - 1],
            nr_cbs,
        ) + "\n"@
    }
}

/// The whole transition table in CSV form.
pub open spec fn render_transition_csv(m: Seq<Seq<nat>>, nr_cbs: nat) -> Seq<char> {
    ", "@ + csv_name_cells(nr_cbs) + "\n"@ + csv_rows(m, nr_cbs, nr_cbs)
}

/// Sum of one stat's per-CPU counter values.
pub open spec fn sum_vals(row: Seq<u64>) -> nat
    decreases row.len(),
{
    if row.len() == 0 {
        0
    } else {
        (sum_vals(row.drop_last()) + row.last()) as nat
    }
}

/// A row's sum is bounded by its length times the largest counter value.
pub proof fn lemma_sum_vals_bound(row: Seq<u64>)
    ensures
        sum_vals(row) <= row.len() * (u64::MAX as nat),
    decreases row.len(),
{
    if row.len() > 0 {
        lemma_sum_vals_bound(row.drop_last());
    }
}

/// The first `k` CPU column labels of the counter table: the CPU numbers,
/// centred.
pub open spec fn counter_header_cells(k: nat) -> Seq<char>
    decreases k,
{
    if k == 0 {
        Seq::empty()
    } else {
        counter_header_cells((k - 1) as nat) + " "@ + center(dec_seq((k - 1) as nat), 5) + " |"@
    }
}

/// The counter table's header: a blank corner, one column per CPU, a "sum"
/// column, and the separator rule.
pub open spec fn render_counter_header(nr_cpus: nat) -> Seq<char> {
    "| "@ + spaces(10) + " |"@ + counter_header_cells(nr_cpus) + " "@ + pad_left("sum"@, 5) + " |"@
        + "\n"@ + rule_row(14 + 8 * (nr_cpus + 1)) + "\n"@
}

/// The first `k` value cells of one counter-table row.
pub open spec fn counter_val_cells(row: Seq<u64>, k: nat) -> Seq<char>
    decreases k,
{
    if k == 0 {
        Seq::empty()
    } else {
        counter_val_cells(row, (k - 1) as nat) + " "@ + pad_left(dec_seq(row[k as int - 1] as nat), 5)
            + " |"@
    }
}

/// One counter-table row: the stat's name, its per-CPU values, and their
/// sum.
pub open spec fn counter_row(idx: int, row: Seq<u64>) -> Seq<char> {
    "| "@ + pad_left(stat_name(idx), 10) + " |"@ + counter_val_cells(row, row.len()) + " "@
        + pad_left(dec_seq(sum_vals(row)), 5) + " |"@ + "\n"@
}

/// The first `k` rows of the counter table, one per stat index.
pub open spec fn counter_rows(values: Seq<Seq<u64>>, k: nat) -> Seq<char>
    decreases k,
{
    if k == 0 {
        Seq::empty()
    } else {
        counter_rows(values, (k - 1) as nat) + counter_row(k as int - 1, values[k as int - 1])
    }
}

/// The whole counter table: header, one row per stat, and a closing blank
/// line.
pub open spec fn render_counter_table(values: Seq<Seq<u64>>, nr_cpus: nat) -> Seq<char> {
    render_counter_header(nr_cpus) + counter_rows(values, values.len()) + "\n"@
}

fn digit_str(d: u128) -> (r: &'static str)
    requires
        d < 10,
    ensures
        r@ == digit_seq(d as nat),
{
    if d == 0 {
        "0"
    } else if d == 1 {
        "1"
    } else if d == 2 {
        "2"
    } else if d == 3 {
        "3"
    } else if d == 4 {
        "4"
    } else if d == 5 {
        "5"
    } else if d == 6 {
        "6"
    } else if d == 7 {
        "7"
    } else if d == 8 {
        "8"
    } else {
        "9"
    }
}

/// `n` in decimal.
pub fn dec_string(n: u128) -> (r: String)
    ensures
        r@ == dec_seq(n as nat),
    decreases n,
{
    if n < 10 {
        digit_str(n).to_owned()
    } else {
        let mut s = dec_string(n / 10);
        s.append(digit_str(n % 10));
        s
    }
}

/// `k` spaces.
pub fn spaces_string(k: usize) -> (r: String)
    ensures
        r@ == spaces(k as nat),
{
    let mut s = String::new();
    let mut i: usize = 0;
    while i < k
        invariant
            i <= k,
            s@ =~= spaces(i as nat),
        decreases k - i,
    {
        s.append(" ");
        i += 1;
    }
    s
}

/// `k` equals signs.
pub fn rule_row_string(k: usize) -> (r: String)
    ensures
        r@ == rule_row(k as nat),
{
    let mut s = String::new();
    let mut i: usize = 0;
    while i < k
        invariant
            i <= k,
            s@ =~= rule_row(i as nat),
        decreases k - i,
    {
        s.append("=");
        i += 1;
    }
    s
}

/// `s` right-aligned in a field of width `w`.
pub fn pad_left_str(s: &str, w: usize) -> (r: String)
    ensures
        r@ == pad_left(s@, w as nat),
{
    let len = s.unicode_len();
    if len >= w {
        s.to_owned()
    } else {
        let mut r = spaces_string(w - len);
        r.append(s);
        r
    }
}

/// `s` cut to `w` characters and right-aligned in a field of width `w`.
pub fn trunc_pad_str(s: &str, w: usize) -> (r: String)
    ensures
        r@ == pad_left(trunc(s@, w as nat), w as nat),
{
    let len = s.unicode_len();
    if len > w {
        let t = s.substring_char(0, w);
        proof {
            assert(t@ =~= trunc(s@, w as nat));
        }
        t.to_owned()
    } else {
        pad_left_str(s, w)
    }
}

/// `s` centred in a field of width `w`.
pub fn center_str(s: &str, w: usize) -> (r: String)
    ensures
        r@ == center(s@, w as nat),
{
    let len = s.unicode_len();
    if len >= w {
        s.to_owned()
    } else {
        let left = (w - len) / 2;
        let right = (w - len) - left;
        let mut r = spaces_string(left);
        r.append(s);
        let rs = spaces_string(right);
        r.append(rs.as_str());
        r
    }
}

} // verus!
