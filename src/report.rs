//! Execution records and the run report built from them.
use vstd::prelude::*;
use vstd::multiset::Multiset;
use crate::decimal::{decimal, pad_left, pad_right, push_decimal, push_padded_right, push_zero_padded};

verus! {

broadcast use vstd::seq_lib::group_to_multiset_ensures;

/// What one task returned, and how long it took in microseconds.
#[derive(PartialEq, Eq, Debug)]
pub struct Record {
    pub result: String,
    pub micros: u64,
}

impl View for Record {
    type V = (Seq<char>, u64);

    open spec fn view(&self) -> (Seq<char>, u64) {
        (self.result@, self.micros)
    }
}

/// The records of a run, sorted by duration, with the run's timing totals.
#[derive(PartialEq, Eq, Debug)]
pub struct Report {
    pub records: Vec<Record>,
    /// Wall-clock time of the whole run, measured once.
    pub total_micros: u64,
    /// The durations of the records added up.
    pub sum_micros: u64,
}

/// The contents of a list of records.
pub open spec fn record_views(s: Seq<Record>) -> Seq<(Seq<char>, u64)> {
    s.map_values(|r: Record| r@)
}

/// The result texts of a list of records.
pub open spec fn record_results(s: Seq<Record>) -> Seq<Seq<char>> {
    s.map_values(|r: Record| r.result@)
}

/// The durations of the records added up.
pub open spec fn sum_micros(s: Seq<Record>) -> nat
    decreases s.len(),
{
    if s.len() == 0 {
        0
    } else {
        sum_micros(s.drop_last()) + s.last().micros as nat
    }
}

/// Whether the records are in ascending order of duration.
pub open spec fn sorted_by_duration(s: Seq<Record>) -> bool {
    forall|i: int, j: int| 0 <= i < j < s.len() ==> s[i].micros <= s[j].micros
}

/// Inserting a record adds its duration to the total.
pub proof fn lemma_sum_insert(s: Seq<Record>, p: int, x: Record)
    requires
        0 <= p <= s.len(),
    ensures
        sum_micros(s.insert(p, x)) == sum_micros(s) + x.micros,
    decreases s.len(),
{
    if p == s.len() {
        assert(s.insert(p, x).drop_last() =~= s);
    } else {
        let t = s.insert(p, x);
        assert(t.drop_last() =~= s.drop_last().insert(p, x));
        lemma_sum_insert(s.drop_last(), p, x);
    }
}

/// Orders the records by ascending duration. Records of equal duration may come
/// out in any relative order.
pub fn sort_by_duration(records: Vec<Record>) -> (r: Vec<Record>)
    ensures
        record_views(r@).to_multiset() == record_views(records@).to_multiset(),
        record_results(r@).to_multiset() == record_results(records@).to_multiset(),
        sorted_by_duration(r@),
        sum_micros(r@) == sum_micros(records@),
{
    let ghost orig = records@;
    let mut rest = records;
    let mut out: Vec<Record> = Vec::new();
    while rest.len() > 0
        invariant
            record_views(out@).to_multiset().add(record_views(rest@).to_multiset())
                == record_views(orig).to_multiset(),
            record_results(out@).to_multiset().add(record_results(rest@).to_multiset())
                == record_results(orig).to_multiset(),
            sum_micros(out@) + sum_micros(rest@) == sum_micros(orig),
            sorted_by_duration(out@),
        decreases rest.len(),
    {
        let ghost before = rest@;
        let x = rest.pop().unwrap();
        proof {
            assert(before =~= rest@.push(x));
            assert(record_views(before) =~= record_views(rest@).push(x@));
            assert(record_results(before) =~= record_results(rest@).push(x.result@));
            assert(rest@ =~= before.drop_last());
        }
        let mut p: usize = 0;
        while p < out.len() && out[p].micros <= x.micros
            invariant
                p <= out@.len(),
                forall|k: int| 0 <= k < p ==> (#[trigger] out@[k]).micros <= x.micros,
            decreases out@.len() - p,
        {
            p = p + 1;
        }
        let ghost prev = out@;
        out.insert(p, x);
        proof {
            lemma_sum_insert(prev, p as int, x);
            assert(record_views(out@) =~= record_views(prev).insert(p as int, x@));
            assert(record_results(out@) =~= record_results(prev).insert(p as int, x.result@));
            assert(sorted_by_duration(out@)) by {
                assert forall|i: int, j: int| 0 <= i < j < out@.len() implies out@[i].micros
                    <= out@[j].micros by {
                    if j < p {
                    } else if j == p {
                    } else if i < p {
                        assert(out@[j] == prev[j - 1]);
                    } else if i == p {
                        assert(out@[j] == prev[j - 1]);
                        assert(p < prev.len());
                    } else {
                        assert(out@[j] == prev[j - 1]);
                        assert(out@[i] == prev[i - 1]);
                    }
                }
            }
        }
    }
    proof {
        assert(record_views(rest@) =~= Seq::<(Seq<char>, u64)>::empty());
        assert(record_views(rest@).to_multiset() =~= Multiset::empty());
        assert(record_views(out@).to_multiset().add(Multiset::empty()) =~= record_views(out@).to_multiset());
        assert(record_results(rest@) =~= Seq::<Seq<char>>::empty());
        assert(record_results(rest@).to_multiset() =~= Multiset::empty());
        assert(record_results(out@).to_multiset().add(Multiset::empty()) =~= record_results(out@).to_multiset());
    }
    out
}

/// Microseconds in a duration of `secs` seconds and `subsec_nanos` nanoseconds;
/// what is left below a microsecond is dropped.
pub fn get_duration(secs: u64, subsec_nanos: u32) -> (r: u64)
    requires
        secs * 1_000_000 + subsec_nanos / 1000 <= u64::MAX,
    ensures
        r == secs * 1_000_000 + subsec_nanos / 1000,
{
    secs * 1_000_000 + (subsec_nanos / 1000) as u64
}

/// The durations of the records added up.
pub fn sum_of_durations(records: &Vec<Record>) -> (s: u64)
    requires
        sum_micros(records@) <= u64::MAX,
    ensures
        s == sum_micros(records@),
{
    let mut s: u64 = 0;
    let mut i: usize = 0;
    while i < records.len()
        invariant
            i <= records@.len(),
            sum_micros(records@) <= u64::MAX,
            s == sum_micros(records@.subrange(0, i as int)),
        decreases records@.len() - i,
    {
        proof {
            let next = records@.subrange(0, i + 1);
            assert(next.drop_last() =~= records@.subrange(0, i as int));
            lemma_sum_prefix(records@, i + 1);
        }
        s = s + records[i].micros;
        i = i + 1;
    }
    assert(records@.subrange(0, i as int) =~= records@);
    s
}

/// A prefix of the records takes no longer than all of them.
pub proof fn lemma_sum_prefix(s: Seq<Record>, n: int)
    requires
        0 <= n <= s.len(),
    ensures
        sum_micros(s.subrange(0, n)) <= sum_micros(s),
    decreases s.len() - n,
{
    if n < s.len() {
        lemma_sum_prefix(s, n + 1);
        assert(s.subrange(0, n + 1).drop_last() =~= s.subrange(0, n));
    } else {
        assert(s.subrange(0, n) =~= s);
    }
}

/// The parallel speedup factor `sum / total` in thousandths, rounded half up;
/// none where the run took no measurable time.
pub fn speedup_thousandths(sum: u64, total: u64) -> (r: Option<u128>)
    ensures
        total == 0 ==> r is None,
        total > 0 ==> r == Some(((sum * 1000 + total / 2) / total as int) as u128),
{
    if total == 0 {
        None
    } else {
        Some((sum as u128 * 1000 + (total / 2) as u128) / total as u128)
    }
}

/// The report of a run: the records sorted by ascending duration, the run's
/// wall-clock time, and the sum of the records' durations.
pub fn make_report(records: Vec<Record>, total_micros: u64) -> (r: Report)
    requires
        sum_micros(records@) <= u64::MAX,
    ensures
        record_views(r.records@).to_multiset() == record_views(records@).to_multiset(),
        record_results(r.records@).to_multiset() == record_results(records@).to_multiset(),
        r.records@.len() == records@.len(),
        sorted_by_duration(r.records@),
        r.total_micros == total_micros,
        r.sum_micros == sum_micros(records@),
        r.sum_micros == sum_micros(r.records@),
{
    let sorted = sort_by_duration(records);
    proof {
        vstd::seq_lib::to_multiset_len(record_views(sorted@));
        vstd::seq_lib::to_multiset_len(record_views(records@));
    }
    let sum = sum_of_durations(&sorted);
    Report { records: sorted, total_micros, sum_micros: sum }
}

impl Report {
    /// The parallel speedup factor of the run in thousandths; none where no task
    /// ran or the run took no measurable time.
    pub fn speedup(&self) -> (r: Option<u128>)
        ensures
            self.records@.len() == 0 || self.total_micros == 0 ==> r is None,
            self.records@.len() > 0 && self.total_micros > 0 ==> r == Some(
                ((self.sum_micros * 1000 + self.total_micros / 2) / self.total_micros as int) as u128,
            ),
    {
        if self.records.len() == 0 {
            None
        } else {
            speedup_thousandths(self.sum_micros, self.total_micros)
        }
    }
}

/// A duration of `micros` microseconds in seconds, with six decimals.
pub open spec fn seconds_text(micros: nat) -> Seq<char> {
    decimal(micros / 1_000_000) + "."@ + pad_left(decimal(micros % 1_000_000), 6, '0')
}

/// A factor given in thousandths, with three decimals.
pub open spec fn factor_text(thousandths: nat) -> Seq<char> {
    decimal(thousandths / 1000) + "."@ + pad_left(decimal(thousandths % 1000), 3, '0')
}

/// The report line of one record: its result, padded to 25 characters, and
/// its duration.
pub open spec fn record_text(r: (Seq<char>, u64)) -> Seq<char> {
    pad_right(r.0, 25, ' ') + ", time = "@ + seconds_text(r.1 as nat) + " s"@
}

/// Appends `micros` as seconds with six decimals.
pub fn push_seconds(s: &mut String, micros: u64)
    ensures
        final(s)@ == old(s)@ + seconds_text(micros as nat),
{
    push_decimal(s, (micros / 1_000_000) as u128);
    s.append(".");
    push_zero_padded(s, (micros % 1_000_000) as u128, 6);
    proof {
        reveal_strlit(".");
    }
    assert(final(s)@ =~= old(s)@ + seconds_text(micros as nat));
}

/// The report line of one record.
pub fn record_line(r: &Record) -> (line: String)
    ensures
        line@ == record_text(r@),
{
    let mut s = String::new();
    push_padded_right(&mut s, r.result.as_str(), 25);
    s.append(", time = ");
    push_seconds(&mut s, r.micros);
    s.append(" s");
    assert(s@ =~= record_text(r@));
    s
}

impl Report {
    /// The lines of the report: a heading with the number of tasks, one line
    /// per record in report order, then the wall-clock time, the sum of the
    /// durations and the speedup factor (or that it does not apply, where no
    /// task ran or no time was measured).
    pub fn lines(&self) -> (lines: Vec<String>)
        requires
            self.records@.len() <= u64::MAX,
        ensures
            lines@.len() == self.records@.len() + 5,
            lines@[0]@ == "Solving "@ + decimal(self.records@.len()) + " Euler functions in parallel"@,
            forall|i: int|
                0 <= i < self.records@.len() ==> #[trigger] lines@[i + 1]@ == record_text(
                    self.records@[i]@,
                ),
            lines@[self.records@.len() + 1int]@ == Seq::<char>::empty(),
            lines@[self.records@.len() + 2int]@ == "     total elapsed time: "@ + seconds_text(
                self.total_micros as nat,
            ) + " s"@,
            lines@[self.records@.len() + 3int]@ == " sum of execution times: "@ + seconds_text(
                self.sum_micros as nat,
            ) + " s"@,
            self.records@.len() == 0 || self.total_micros == 0 ==> lines@[self.records@.len() + 4int]@
                == "parallel speedup factor: not applicable"@,
            self.records@.len() > 0 && self.total_micros > 0 ==> lines@[self.records@.len() + 4int]@ == "parallel speedup factor: "@
                + factor_text(
                ((self.sum_micros * 1000 + self.total_micros / 2) / self.total_micros as int) as nat,
            ),
    {
        let mut lines: Vec<String> = Vec::new();
        let mut head = String::from_str("Solving ");
        push_decimal(&mut head, self.records.len() as u128);
        head.append(" Euler functions in parallel");
        lines.push(head);
        let mut i: usize = 0;
        while i < self.records.len()
            invariant
                i <= self.records@.len(),
                lines@.len() == i + 1,
                lines@[0]@ == "Solving "@ + decimal(self.records@.len()) + " Euler functions in parallel"@,
                forall|k: int|
                    0 <= k < i ==> #[trigger] lines@[k + 1]@ == record_text(self.records@[k]@),
            decreases self.records@.len() - i,
        {
            lines.push(record_line(&self.records[i]));
            i = i + 1;
        }
        lines.push(String::new());
        let mut total = String::from_str("     total elapsed time: ");
        push_seconds(&mut total, self.total_micros);
        total.append(" s");
        lines.push(total);
        let mut sum = String::from_str(" sum of execution times: ");
        push_seconds(&mut sum, self.sum_micros);
        sum.append(" s");
        lines.push(sum);
        let mut factor = String::from_str("parallel speedup factor: ");
        proof {
            reveal_strlit(".");
        }
        match self.speedup() {
            Some(t) => {
                push_decimal(&mut factor, t / 1000);
                factor.append(".");
                push_zero_padded(&mut factor, t % 1000, 3);
                assert(factor@ =~= "parallel speedup factor: "@ + factor_text(t as nat));
            },
            None => {
                factor.append("not applicable");
                proof {
                    reveal_strlit("parallel speedup factor: ");
                    reveal_strlit("not applicable");
                    reveal_strlit("parallel speedup factor: not applicable");
                }
                assert(factor@ =~= "parallel speedup factor: not applicable"@);
            },
        }
        lines.push(factor);
        assert(lines@[self.records@.len() + 4int]@ =~= if self.records@.len() == 0
            || self.total_micros == 0 {
            "parallel speedup factor: not applicable"@
        } else {
            "parallel speedup factor: "@ + factor_text(
                ((self.sum_micros * 1000 + self.total_micros / 2) / self.total_micros as int) as nat,
            )
        });
        lines
    }
}

/// As the wall-clock time of a run spans every task, no task takes longer than
/// it; then the durations add up to at most the number of tasks times the
/// wall-clock time, and the speedup factor is at most the number of tasks.
pub proof fn lemma_speedup_at_most_task_count(records: Seq<Record>, total: u64)
    requires
        total > 0,
        forall|i: int| 0 <= i < records.len() ==> (#[trigger] records[i]).micros <= total,
    ensures
        sum_micros(records) <= records.len() * total,
        (sum_micros(records) * 1000 + total / 2) / total as int <= 1000 * records.len(),
    decreases records.len(),
{
    if records.len() > 0 {
        let rest = records.drop_last();
        assert forall|i: int| 0 <= i < rest.len() implies (#[trigger] rest[i]).micros <= total by {
            assert(rest[i] == records[i]);
        }
        lemma_speedup_at_most_task_count(rest, total);
        assert(records.last() == records[records.len() - 1]);
        assert(rest.len() * total + total == records.len() * total) by (nonlinear_arith)
            requires
                rest.len() + 1 == records.len(),
        ;
    }
    let s = sum_micros(records);
    let n = records.len();
    assert((s * 1000 + total / 2) / total as int <= 1000 * n) by (nonlinear_arith)
        requires
            s <= n * total,
            total > 0,
    ;
}

} // verus!
