//! Latency statistics, and the report on them.
//!
//! Durations are in nanoseconds. Clocks and floating point are the caller's.

use vstd::prelude::*;
use vstd::relations::sorted_by;

use crate::bytes;
use crate::trace;
use crate::trace::{fmt_f64, fmt_usize, put, F64Parts};

verus! {

/// The longest duration.
pub const DURATION_MAX: u128 = 18446744073709551615_999999999;

/// The duration from which the minimum starts.
pub const MINIMUM_START: u128 = 18446744073709551615_000000000;

/// `a` is not more than `b`.
pub open spec fn not_more() -> spec_fn(u64, u64) -> bool {
    |a: u64, b: u64| a <= b
}

/// `s` in ascending order.
pub open spec fn ascending(s: Seq<u64>) -> Seq<u64> {
    s.sort_by(not_more())
}

/// The place of percentile `p` among `len` values in ascending order.
pub open spec fn percentile_place(len: nat, p: nat) -> int {
    if len * p / 100 < len {
        (len * p / 100) as int
    } else {
        len - 1
    }
}

/// Percentile `p` of the values.
pub open spec fn percentile_of(s: Seq<u64>, p: nat) -> u64 {
    if s.len() == 0 {
        0
    } else {
        ascending(s)[percentile_place(s.len(), p)]
    }
}

/// The sum of the values.
pub open spec fn total(s: Seq<u64>) -> nat
    decreases s.len(),
{
    if s.len() == 0 {
        0
    } else {
        total(s.drop_last()) + s.last() as nat
    }
}

/// `<[u64]>::sort_unstable`: the same values, in ascending order.
#[verifier::external_body]
fn sort_unstable(values: Vec<u64>) -> (r: Vec<u64>)
    ensures
        r@.to_multiset() == values@.to_multiset(),
        forall|i: int, j: int| 0 <= i < j < r@.len() ==> r@[i] <= r@[j],
{
    let mut sorted = values;
    sorted.sort_unstable();
    sorted
}

/// What was measured so far.
pub struct Benchmarks {
    pub minimum: u128,
    pub maximum: u128,
    pub sum: u128,
    pub count: usize,
    pub latencies: Vec<u64>,
    pub start_cpu_time: u64,
    pub end_cpu_time: u64,
}

/// What the measurements come to, as far as it is not floating point.
#[derive(Debug, Clone, Copy, PartialEq, Eq, Structural)]
pub struct Summary {
    pub message_count: usize,
    pub average: u128,
    pub minimum: u128,
    pub maximum: u128,
    pub p50: u64,
    pub p90: u64,
    pub p99: u64,
    pub cpu_time_used: u64,
}

impl Benchmarks {
    pub open spec fn inv(&self) -> bool {
        self.latencies@.len() == self.count && self.sum <= DURATION_MAX
    }

    /// The totals are those of the latencies.
    pub open spec fn consistent(&self) -> bool {
        &&& self.inv()
        &&& self.sum == total(self.latencies@)
        &&& forall|i: int|
            0 <= i < self.latencies@.len() ==> self.minimum <= #[trigger] self.latencies@[i]
                <= self.maximum
        &&& self.count > 0 ==> self.latencies@.contains(self.minimum as u64)
            && self.latencies@.contains(self.maximum as u64)
        &&& self.count > 0 ==> self.minimum <= u64::MAX && self.maximum <= u64::MAX
        &&& self.count == 0 ==> self.minimum == MINIMUM_START && self.maximum == 0
    }

    pub fn new() -> (r: Self)
        ensures
            r.consistent(),
            r.count == 0,
            r.start_cpu_time == 0 && r.end_cpu_time == 0,
    {
        Benchmarks {
            minimum: MINIMUM_START,
            maximum: 0,
            sum: 0,
            count: 0,
            latencies: Vec::new(),
            start_cpu_time: 0,
            end_cpu_time: 0,
        }
    }

    /// Starts the clock of the whole at `cpu_time`.
    pub fn reset_total_start(&mut self, cpu_time: u64)
        ensures
            *final(self) == (Benchmarks { start_cpu_time: cpu_time, ..*old(self) }),
    {
        self.start_cpu_time = cpu_time;
    }

    /// Takes in one measurement.
    pub fn update(&mut self, duration: u128)
        requires
            old(self).inv(),
            old(self).sum + duration <= DURATION_MAX,
            old(self).count < usize::MAX,
        ensures
            final(self).inv(),
            final(self).latencies@ == old(self).latencies@.push(
                (duration % 0x1_0000_0000_0000_0000) as u64,
            ),
            final(self).minimum == (if duration < old(self).minimum {
                duration
            } else {
                old(self).minimum
            }),
            final(self).maximum == (if duration > old(self).maximum {
                duration
            } else {
                old(self).maximum
            }),
            final(self).sum == old(self).sum + duration,
            final(self).count == old(self).count + 1,
            final(self).start_cpu_time == old(self).start_cpu_time,
            final(self).end_cpu_time == old(self).end_cpu_time,
            old(self).consistent() && duration <= u64::MAX ==> final(self).consistent(),
    {
        let ghost before = self.latencies@;
        let nanos = (duration % 0x1_0000_0000_0000_0000) as u64;
        self.latencies.push(nanos);
        if duration < self.minimum {
            self.minimum = duration;
        }
        if duration > self.maximum {
            self.maximum = duration;
        }
        self.sum = self.sum + duration;
        self.count = self.count + 1;
        proof {
            let after = self.latencies@;
            assert(after.drop_last() =~= before);
            if old(self).consistent() && duration <= u64::MAX {
                assert(nanos == duration);
                assert(after[before.len() as int] == nanos);
                assert forall|i: int| 0 <= i < after.len() implies self.minimum
                    <= #[trigger] after[i] <= self.maximum by {
                    if i < before.len() {
                        assert(after[i] == before[i]);
                    }
                }
                assert(after.contains(nanos));
                if old(self).count > 0 {
                    let i = choose|i: int|
                        0 <= i < before.len() && before[i] == old(self).minimum as u64;
                    assert(after[i] == old(self).minimum as u64);
                    let j = choose|j: int|
                        0 <= j < before.len() && before[j] == old(self).maximum as u64;
                    assert(after[j] == old(self).maximum as u64);
                }
            }
        }
    }

    /// Percentile `p` of the latencies; 0 where there are none.
    pub fn percentile(&self, p: u64) -> (r: u64)
        ensures
            r == percentile_of(self.latencies@, p as nat),
    {
        if self.latencies.len() == 0 {
            return 0;
        }
        let mut copy: Vec<u64> = Vec::new();
        copy.extend_from_slice(self.latencies.as_slice());
        assert(copy@ =~= self.latencies@);
        let sorted = sort_unstable(copy);
        proof {
            lemma_ascending(self.latencies@);
            vstd::seq_lib::lemma_sorted_unique(
                sorted@,
                ascending(self.latencies@),
                not_more(),
            );
        }
        let len: u128 = sorted.len() as u128;
        assert(len * p <= 0xFFFF_FFFF_FFFF_FFFF * 0xFFFF_FFFF_FFFF_FFFF) by (nonlinear_arith)
            requires
                len <= 0xFFFF_FFFF_FFFF_FFFF,
                p <= 0xFFFF_FFFF_FFFF_FFFF,
        ;
        let index = len * (p as u128) / 100;
        if index < len {
            sorted[index as usize]
        } else {
            sorted[sorted.len() - 1]
        }
    }

    /// What the measurements come to at `cpu_time`. The average divides by the low 32 bits of
    /// the count.
    pub fn evaluate(&mut self, cpu_time: u64) -> (r: Summary)
        requires
            old(self).inv(),
            old(self).count as nat % 0x1_0000_0000 != 0,
        ensures
            *final(self) == (Benchmarks { end_cpu_time: cpu_time, ..*old(self) }),
            r == (Summary {
                message_count: old(self).count,
                average: (old(self).sum as nat / (old(self).count as nat % 0x1_0000_0000)) as u128,
                minimum: old(self).minimum,
                maximum: old(self).maximum,
                p50: percentile_of(old(self).latencies@, 50),
                p90: percentile_of(old(self).latencies@, 90),
                p99: percentile_of(old(self).latencies@, 99),
                cpu_time_used: if cpu_time >= old(self).start_cpu_time {
                    (cpu_time - old(self).start_cpu_time) as u64
                } else {
                    0
                },
            }),
    {
        let divisor: u128 = (self.count as u64 % 0x1_0000_0000) as u128;
        let average = self.sum / divisor;
        self.end_cpu_time = cpu_time;
        Summary {
            message_count: self.count,
            average,
            minimum: self.minimum,
            maximum: self.maximum,
            p50: self.percentile(50),
            p90: self.percentile(90),
            p99: self.percentile(99),
            cpu_time_used: self.end_cpu_time.saturating_sub(self.start_cpu_time),
        }
    }
}

/// What `ascending` gives: the same values, in order.
proof fn lemma_ascending(s: Seq<u64>)
    ensures
        ascending(s).len() == s.len(),
        ascending(s).to_multiset() == s.to_multiset(),
        sorted_by(ascending(s), not_more()),
        vstd::relations::total_ordering(not_more()),
{
    broadcast use vstd::seq_lib::group_to_multiset_ensures;

    assert(vstd::relations::total_ordering(not_more()));
    s.lemma_sort_by_ensures(not_more());
    assert(ascending(s).to_multiset().len() == s.to_multiset().len());
}

/// Higher percentiles are no lower, and every percentile is one of the values.
pub proof fn lemma_percentiles_rise(s: Seq<u64>, p: nat, q: nat)
    requires
        s.len() > 0,
        p <= q,
    ensures
        percentile_of(s, p) <= percentile_of(s, q),
        s.contains(percentile_of(s, p)),
{
    broadcast use vstd::seq_lib::group_to_multiset_ensures;

    lemma_ascending(s);
    let n = s.len();
    let a = ascending(s);
    assert(n * p <= n * q) by (nonlinear_arith)
        requires
            p <= q,
    ;
    let i = percentile_place(n, p);
    let j = percentile_place(n, q);
    assert(0 <= i <= j < n);
    if i < j {
        assert(not_more()(a[i], a[j]));
    }
    assert(a.contains(a[i]));
    assert(a.to_multiset().count(a[i]) > 0);
    assert(s.to_multiset().count(a[i]) > 0);
}

/// The sum lies between as many times the least and as many times the largest value.
proof fn lemma_total_bounds(s: Seq<u64>, low: nat, high: nat)
    requires
        forall|i: int| 0 <= i < s.len() ==> low <= #[trigger] s[i] <= high,
    ensures
        s.len() * low <= total(s) <= s.len() * high,
    decreases s.len(),
{
    if s.len() > 0 {
        let t = s.drop_last();
        assert forall|i: int| 0 <= i < t.len() implies low <= #[trigger] t[i] <= high by {
            assert(t[i] == s[i]);
        }
        lemma_total_bounds(t, low, high);
        assert(s.len() * low == t.len() * low + low) by (nonlinear_arith)
            requires
                s.len() == t.len() + 1,
        ;
        assert(s.len() * high == t.len() * high + high) by (nonlinear_arith)
            requires
                s.len() == t.len() + 1,
        ;
        assert(low <= s[s.len() - 1] <= high);
    }
}

/// The average of consistent measurements lies between the least and the largest.
pub proof fn lemma_average_is_between(b: Benchmarks)
    requires
        b.consistent(),
        0 < b.count < 0x1_0000_0000,
    ensures
        b.minimum <= b.sum as nat / (b.count as nat % 0x1_0000_0000) <= b.maximum,
{
    let n = b.count as nat;
    let low = b.minimum as nat;
    let high = b.maximum as nat;
    lemma_total_bounds(b.latencies@, low, high);
    let sum = b.sum as nat;
    assert(n % 0x1_0000_0000 == n);
    assert(low <= sum / n <= high) by (nonlinear_arith)
        requires
            n > 0,
            n * low <= sum <= n * high,
    ;
}

/// The figures of a report.
#[derive(Debug, Clone, Copy, PartialEq, Eq, Structural)]
pub struct BenchmarkResult {
    pub message_count: usize,
    pub total_duration_ms: F64Parts,
    pub average_duration_us: F64Parts,
    pub minimum_duration_us: F64Parts,
    pub maximum_duration_us: F64Parts,
    pub standard_deviation_us: F64Parts,
    pub p50_us: F64Parts,
    pub p90_us: F64Parts,
    pub p99_us: F64Parts,
    pub message_rate: F64Parts,
    pub cpu_usage: F64Parts,
}

/// The bytes of a text of plain characters.
pub open spec fn ascii(s: Seq<char>) -> Seq<u8> {
    Seq::new(s.len(), |i: int| (s[i] as u32 % 256) as u8)
}

/// A line with a count.
pub open spec fn count_line(label: Seq<char>, n: nat) -> Seq<u8> {
    ascii(label) + trace::decimal_bytes(n) + seq![10u8]
}

/// A line with a figure and its unit.
pub open spec fn figure_line(label: Seq<char>, x: F64Parts, unit: Seq<char>) -> Seq<u8> {
    ascii(label) + trace::fixed_text(x) + ascii(unit) + seq![10u8]
}

/// The whole report.
pub open spec fn report_text(r: BenchmarkResult) -> Seq<u8> {
    ascii("\n============ RESULTS ================\n"@) + count_line(
        "Message count:      "@,
        r.message_count as nat,
    ) + figure_line("Total duration:     "@, r.total_duration_ms, " ms"@) + figure_line(
        "Average duration:   "@,
        r.average_duration_us,
        " us"@,
    ) + figure_line("Minimum duration:   "@, r.minimum_duration_us, " us"@) + figure_line(
        "Maximum duration:   "@,
        r.maximum_duration_us,
        " us"@,
    ) + figure_line("Standard deviation: "@, r.standard_deviation_us, " us"@) + figure_line(
        "Latency P50:        "@,
        r.p50_us,
        " us"@,
    ) + figure_line("Latency P90:        "@, r.p90_us, " us"@) + figure_line(
        "Latency P99:        "@,
        r.p99_us,
        " us"@,
    ) + figure_line("Message rate:       "@, r.message_rate, " msg/s"@) + figure_line(
        "CPU usage:          "@,
        r.cpu_usage,
        "%"@,
    ) + ascii("=====================================\n"@)
}

/// The bytes of a text of plain characters.
fn ascii_bytes(s: &str) -> (r: Vec<u8>)
    ensures
        r@ == ascii(s@),
{
    let len = s.unicode_len();
    let mut out: Vec<u8> = Vec::new();
    let mut i: usize = 0;
    while i < len
        invariant
            i <= len == s@.len(),
            out@.len() == i,
            forall|k: int| 0 <= k < i ==> out@[k] == (s@[k] as u32 % 256) as u8,
        decreases len - i,
    {
        let c = s.get_char(i);
        out.push((c as u32 % 256) as u8);
        i += 1;
    }
    assert(out@ =~= ascii(s@));
    out
}

/// Adds `piece` to the text in `buf`, as far as there is room. Returns the end of the text.
fn extend(
    buf: &mut [u8],
    off: usize,
    piece: &[u8],
    Ghost(before): Ghost<Seq<u8>>,
    Ghost(text): Ghost<Seq<u8>>,
) -> (r: usize)
    requires
        old(buf)@ == trace::with_text(before, text),
        off == bytes::least(text.len(), before.len()),
    ensures
        final(buf)@ == trace::with_text(before, text + piece@),
        r == bytes::least((text + piece@).len(), before.len()),
{
    proof {
        trace::lemma_put_extends(before, text, piece@);
    }
    put(buf, off, piece)
}

/// Adds a line with a count.
fn push_u(
    buf: &mut [u8],
    off: usize,
    label: &str,
    n: usize,
    Ghost(before): Ghost<Seq<u8>>,
    Ghost(text): Ghost<Seq<u8>>,
) -> (r: usize)
    requires
        old(buf)@ == trace::with_text(before, text),
        off == bytes::least(text.len(), before.len()),
    ensures
        final(buf)@ == trace::with_text(before, text + count_line(label@, n as nat)),
        r == bytes::least((text + count_line(label@, n as nat)).len(), before.len()),
{
    let a = ascii_bytes(label);
    let off = extend(buf, off, a.as_slice(), Ghost(before), Ghost(text));
    let mut digits: Vec<u8> = vec![0u8; 32];
    let len = fmt_usize(n, digits.as_mut_slice());
    proof {
        trace::lemma_decimal_fits(n as nat);
    }
    digits.truncate(len);
    assert(digits@ =~= trace::decimal_bytes(n as nat));
    let off = extend(buf, off, digits.as_slice(), Ghost(before), Ghost(text + a@));
    let end: [u8; 1] = [10u8];
    let off = extend(buf, off, &end, Ghost(before), Ghost(text + a@ + digits@));
    assert(text + a@ + digits@ + end@ =~= text + count_line(label@, n as nat));
    off
}

/// Adds a line with a figure and its unit.
fn push_f(
    buf: &mut [u8],
    off: usize,
    label: &str,
    x: F64Parts,
    unit: &str,
    Ghost(before): Ghost<Seq<u8>>,
    Ghost(text): Ghost<Seq<u8>>,
) -> (r: usize)
    requires
        old(buf)@ == trace::with_text(before, text),
        off == bytes::least(text.len(), before.len()),
    ensures
        final(buf)@ == trace::with_text(before, text + figure_line(label@, x, unit@)),
        r == bytes::least((text + figure_line(label@, x, unit@)).len(), before.len()),
{
    let a = ascii_bytes(label);
    let off = extend(buf, off, a.as_slice(), Ghost(before), Ghost(text));
    let mut figure: Vec<u8> = vec![0u8; 64];
    let len = fmt_f64(x, figure.as_mut_slice());
    proof {
        trace::lemma_fixed_text_fits(x);
    }
    figure.truncate(len);
    assert(figure@ =~= trace::fixed_text(x));
    let off = extend(buf, off, figure.as_slice(), Ghost(before), Ghost(text + a@));
    let u = ascii_bytes(unit);
    let off = extend(buf, off, u.as_slice(), Ghost(before), Ghost(text + a@ + figure@));
    let end: [u8; 1] = [10u8];
    let off = extend(buf, off, &end, Ghost(before), Ghost(text + a@ + figure@ + u@));
    assert(text + a@ + figure@ + u@ + end@ =~= text + figure_line(label@, x, unit@));
    off
}

impl Benchmarks {
    /// Puts the report at the start of `buf`, as far as there is room. Returns its length there.
    pub fn print_results(&self, result: &BenchmarkResult, buf: &mut [u8]) -> (r: usize)
        ensures
            final(buf)@ == trace::with_text(old(buf)@, report_text(*result)),
            r == bytes::least(report_text(*result).len(), old(buf)@.len()),
    {
        let ghost before = buf@;
        let ghost mut text = Seq::<u8>::empty();
        assert(buf@ =~= trace::with_text(before, text));
        let head = ascii_bytes("\n============ RESULTS ================\n");
        let off = extend(buf, 0, head.as_slice(), Ghost(before), Ghost(text));
        proof {
            assert(text + head@ =~= head@);
            text = head@;
        }
        let off = push_u(
            buf,
            off,
            "Message count:      ",
            result.message_count,
            Ghost(before),
            Ghost(text),
        );
        proof {
            text = text + count_line("Message count:      "@, result.message_count as nat);
        }
        let off = push_f(
            buf,
            off,
            "Total duration:     ",
            result.total_duration_ms,
            " ms",
            Ghost(before),
            Ghost(text),
        );
        proof {
            text = text + figure_line("Total duration:     "@, result.total_duration_ms, " ms"@);
        }
        let off = push_f(
            buf,
            off,
            "Average duration:   ",
            result.average_duration_us,
            " us",
            Ghost(before),
            Ghost(text),
        );
        proof {
            text = text + figure_line("Average duration:   "@, result.average_duration_us, " us"@);
        }
        let off = push_f(
            buf,
            off,
            "Minimum duration:   ",
            result.minimum_duration_us,
            " us",
            Ghost(before),
            Ghost(text),
        );
        proof {
            text = text + figure_line("Minimum duration:   "@, result.minimum_duration_us, " us"@);
        }
        let off = push_f(
            buf,
            off,
            "Maximum duration:   ",
            result.maximum_duration_us,
            " us",
            Ghost(before),
            Ghost(text),
        );
        proof {
            text = text + figure_line("Maximum duration:   "@, result.maximum_duration_us, " us"@);
        }
        let off = push_f(
            buf,
            off,
            "Standard deviation: ",
            result.standard_deviation_us,
            " us",
            Ghost(before),
            Ghost(text),
        );
        proof {
            text = text + figure_line("Standard deviation: "@, result.standard_deviation_us, " us"@);
        }
        let off = push_f(
            buf,
            off,
            "Latency P50:        ",
            result.p50_us,
            " us",
            Ghost(before),
            Ghost(text),
        );
        proof {
            text = text + figure_line("Latency P50:        "@, result.p50_us, " us"@);
        }
        let off = push_f(
            buf,
            off,
            "Latency P90:        ",
            result.p90_us,
            " us",
            Ghost(before),
            Ghost(text),
        );
        proof {
            text = text + figure_line("Latency P90:        "@, result.p90_us, " us"@);
        }
        let off = push_f(
            buf,
            off,
            "Latency P99:        ",
            result.p99_us,
            " us",
            Ghost(before),
            Ghost(text),
        );
        proof {
            text = text + figure_line("Latency P99:        "@, result.p99_us, " us"@);
        }
        let off = push_f(
            buf,
            off,
            "Message rate:       ",
            result.message_rate,
            " msg/s",
            Ghost(before),
            Ghost(text),
        );
        proof {
            text = text + figure_line("Message rate:       "@, result.message_rate, " msg/s"@);
        }
        let off = push_f(
            buf,
            off,
            "CPU usage:          ",
            result.cpu_usage,
            "%",
            Ghost(before),
            Ghost(text),
        );
        proof {
            text = text + figure_line("CPU usage:          "@, result.cpu_usage, "%"@);
        }
        let foot = ascii_bytes("=====================================\n");
        let off = extend(buf, off, foot.as_slice(), Ghost(before), Ghost(text));
        assert(text + foot@ == report_text(*result));
        off
    }
}

/// How many of the values are less than `limit`.
pub open spec fn below(s: Seq<u64>, limit: nat) -> nat
    decreases s.len(),
{
    if s.len() == 0 {
        0
    } else {
        below(s.drop_last(), limit) + if s.last() < limit {
            1nat
        } else {
            0nat
        }
    }
}

proof fn lemma_below_without_one(s: Seq<u64>, j: int, limit: nat)
    requires
        0 <= j < s.len(),
    ensures
        below(s, limit) == below(s.remove(j), limit) + if s[j] < limit {
            1nat
        } else {
            0nat
        },
    decreases s.len(),
{
    let t = s.remove(j);
    if j == s.len() - 1 {
        assert(t =~= s.drop_last());
    } else {
        lemma_below_without_one(s.drop_last(), j, limit);
        assert(t.drop_last() =~= s.drop_last().remove(j));
        assert(t.last() == s.last());
    }
}

proof fn lemma_below_of_same_values(s: Seq<u64>, t: Seq<u64>, limit: nat)
    requires
        s.to_multiset() == t.to_multiset(),
    ensures
        below(s, limit) == below(t, limit),
    decreases s.len(),
{
    broadcast use vstd::seq_lib::group_to_multiset_ensures;

    assert(s.len() == s.to_multiset().len());
    assert(t.len() == t.to_multiset().len());
    if s.len() > 0 {
        let x = s.last();
        let shorter = s.drop_last();
        assert(s =~= shorter.push(x));
        assert(s.to_multiset() =~= shorter.to_multiset().insert(x));
        assert(t.to_multiset().count(x) > 0);
        assert(t.contains(x));
        let j = choose|j: int| 0 <= j < t.len() && t[j] == x;
        assert(t.remove(j).to_multiset() =~= t.to_multiset().remove(x));
        assert(shorter.to_multiset() =~= t.remove(j).to_multiset());
        lemma_below_of_same_values(shorter, t.remove(j), limit);
        lemma_below_without_one(t, j, limit);
    }
}

proof fn lemma_few_are_below(a: Seq<u64>, i: int, limit: nat)
    requires
        0 <= i,
        forall|k: int| i <= k < a.len() ==> #[trigger] a[k] >= limit,
    ensures
        below(a, limit) <= i,
        below(a, limit) <= a.len(),
    decreases a.len(),
{
    if a.len() > 0 {
        let t = a.drop_last();
        assert forall|k: int| i <= k < t.len() implies #[trigger] t[k] >= limit by {
            assert(t[k] == a[k]);
        }
        lemma_few_are_below(t, i, limit);
        assert(a.last() == a[a.len() - 1]);
    }
}

proof fn lemma_many_are_below(a: Seq<u64>, i: int, limit: nat)
    requires
        0 <= i <= a.len(),
        forall|k: int| 0 <= k < i ==> #[trigger] a[k] < limit,
    ensures
        below(a, limit) >= i,
    decreases a.len(),
{
    if a.len() > 0 {
        let t = a.drop_last();
        let m = if i < a.len() {
            i
        } else {
            i - 1
        };
        assert forall|k: int| 0 <= k < m implies #[trigger] t[k] < limit by {
            assert(t[k] == a[k]);
        }
        lemma_many_are_below(t, m, limit);
        if i == a.len() {
            assert(a[a.len() - 1] < limit);
        }
    }
}

/// A percentile is one of the values, and it stands where it should: with `n` values, no more
/// than `n * p / 100` of them are less than percentile `p`, and more than that are not greater.
/// From one hundred on it is the greatest value.
pub proof fn lemma_percentile_splits_the_values(s: Seq<u64>, p: nat)
    requires
        s.len() > 0,
    ensures
        s.contains(percentile_of(s, p)),
        below(s, percentile_of(s, p) as nat) <= s.len() * p / 100,
        p < 100 ==> below(s, (percentile_of(s, p) + 1) as nat) > s.len() * p / 100,
        p >= 100 ==> below(s, (percentile_of(s, p) + 1) as nat) == s.len(),
{
    lemma_ascending(s);
    lemma_percentiles_rise(s, p, p);
    let n = s.len();
    let a = ascending(s);
    let i = percentile_place(n, p);
    let r = percentile_of(s, p);
    assert(n * p / 100 < n <==> p < 100) by (nonlinear_arith)
        requires
            n > 0,
    ;
    assert forall|k: int| i <= k < a.len() implies #[trigger] a[k] >= r as nat by {
        if k > i {
            assert(not_more()(a[i], a[k]));
        }
    }
    assert forall|k: int| 0 <= k < i + 1 implies #[trigger] a[k] < (r + 1) as nat by {
        if k < i {
            assert(not_more()(a[k], a[i]));
        }
    }
    lemma_few_are_below(a, i, r as nat);
    lemma_many_are_below(a, i + 1, (r + 1) as nat);
    lemma_below_of_same_values(s, a, r as nat);
    lemma_below_of_same_values(s, a, (r + 1) as nat);
    lemma_few_are_below(a, a.len() as int, (r + 1) as nat);
}

/// The sum of values is that of its parts, in any order.
pub proof fn lemma_sum_adds_up(s: Seq<u64>, x: u64, y: u64)
    ensures
        total(Seq::empty()) == 0,
        total(s.push(x)) == total(s) + x,
        total(s.push(x).push(y)) == total(s.push(y).push(x)),
{
    assert(s.push(x).drop_last() =~= s);
    assert(s.push(y).drop_last() =~= s);
    assert(s.push(x).push(y).drop_last() =~= s.push(x));
    assert(s.push(y).push(x).drop_last() =~= s.push(y));
    assert(total(s.push(x)) == total(s) + x);
    assert(total(s.push(y)) == total(s) + y);
}

/// `piece` stands in `text` from `at` on.
pub open spec fn stands_at(text: Seq<u8>, at: int, piece: Seq<u8>) -> bool {
    &&& 0 <= at
    &&& at + piece.len() <= text.len()
    &&& text.subrange(at, at + piece.len()) == piece
}

/// `text` holds a line that begins with `label`, goes on with `figure` and ends with `unit`.
pub open spec fn shows(
    text: Seq<u8>,
    label: Seq<char>,
    figure: Seq<u8>,
    unit: Seq<char>,
) -> bool {
    exists|at: int| #[trigger]
        stands_at(text, at, seq![10u8] + ascii(label) + figure + ascii(unit) + seq![10u8])
}

/// What a text shows it shows with more behind it.
proof fn lemma_longer_text_shows_as_much(text: Seq<u8>, more: Seq<u8>)
    ensures
        forall|label: Seq<char>, figure: Seq<u8>, unit: Seq<char>| #[trigger]
            shows(text, label, figure, unit) ==> shows(text + more, label, figure, unit),
{
    assert forall|label: Seq<char>, figure: Seq<u8>, unit: Seq<char>| #[trigger]
        shows(text, label, figure, unit) implies shows(text + more, label, figure, unit) by {
        let piece = seq![10u8] + ascii(label) + figure + ascii(unit) + seq![10u8];
        let at = choose|at: int| #[trigger] stands_at(text, at, piece);
        assert((text + more).subrange(at, at + piece.len()) =~= text.subrange(
            at,
            at + piece.len(),
        ));
        assert(stands_at(text + more, at, piece));
    }
}

/// A line behind others is shown.
proof fn lemma_next_line_is_shown(
    text: Seq<u8>,
    label: Seq<char>,
    figure: Seq<u8>,
    unit: Seq<char>,
)
    requires
        text.len() > 0,
        text.last() == 10,
    ensures
        shows(text + (ascii(label) + figure + ascii(unit) + seq![10u8]), label, figure, unit),
{
    let piece = seq![10u8] + ascii(label) + figure + ascii(unit) + seq![10u8];
    let all = text + (ascii(label) + figure + ascii(unit) + seq![10u8]);
    let at = text.len() - 1;
    assert(all.subrange(at, at + piece.len()) =~= piece);
    assert(stands_at(all, at, piece));
}

/// The report shows each figure on the line with its label: none is missing, none stands for
/// another, and each has its unit.
pub proof fn lemma_report_shows_each_figure(r: BenchmarkResult)
    ensures
        ({
            let t = report_text(r);
            let us = " us"@;
            let n = trace::decimal_bytes(r.message_count as nat);
            &&& shows(t, "Message count:      "@, n, Seq::empty())
            &&& shows(t, "Total duration:     "@, trace::fixed_text(r.total_duration_ms), " ms"@)
            &&& shows(t, "Average duration:   "@, trace::fixed_text(r.average_duration_us), us)
            &&& shows(t, "Minimum duration:   "@, trace::fixed_text(r.minimum_duration_us), us)
            &&& shows(t, "Maximum duration:   "@, trace::fixed_text(r.maximum_duration_us), us)
            &&& shows(t, "Standard deviation: "@, trace::fixed_text(r.standard_deviation_us), us)
            &&& shows(t, "Latency P50:        "@, trace::fixed_text(r.p50_us), us)
            &&& shows(t, "Latency P90:        "@, trace::fixed_text(r.p90_us), us)
            &&& shows(t, "Latency P99:        "@, trace::fixed_text(r.p99_us), us)
            &&& shows(t, "Message rate:       "@, trace::fixed_text(r.message_rate), " msg/s"@)
            &&& shows(t, "CPU usage:          "@, trace::fixed_text(r.cpu_usage), "%"@)
        }),
{
    reveal_strlit("\n============ RESULTS ================\n");
    let us = " us"@;
    let none = Seq::<char>::empty();
    let t0 = ascii("\n============ RESULTS ================\n"@);
    assert(t0.last() == 10);
    let n = trace::decimal_bytes(r.message_count as nat);
    lemma_next_line_is_shown(t0, "Message count:      "@, n, none);
    let l1 = count_line("Message count:      "@, r.message_count as nat);
    assert(l1 =~= ascii("Message count:      "@) + n + ascii(none) + seq![10u8]);
    let t1 = t0 + l1;
    let l2 = figure_line("Total duration:     "@, r.total_duration_ms, " ms"@);
    lemma_longer_text_shows_as_much(t1, l2);
    lemma_next_line_is_shown(t1, "Total duration:     "@, trace::fixed_text(r.total_duration_ms), " ms"@);
    let t2 = t1 + l2;
    let l3 = figure_line("Average duration:   "@, r.average_duration_us, us);
    lemma_longer_text_shows_as_much(t2, l3);
    lemma_next_line_is_shown(t2, "Average duration:   "@, trace::fixed_text(r.average_duration_us), us);
    let t3 = t2 + l3;
    let l4 = figure_line("Minimum duration:   "@, r.minimum_duration_us, us);
    lemma_longer_text_shows_as_much(t3, l4);
    lemma_next_line_is_shown(t3, "Minimum duration:   "@, trace::fixed_text(r.minimum_duration_us), us);
    let t4 = t3 + l4;
    let l5 = figure_line("Maximum duration:   "@, r.maximum_duration_us, us);
    lemma_longer_text_shows_as_much(t4, l5);
    lemma_next_line_is_shown(t4, "Maximum duration:   "@, trace::fixed_text(r.maximum_duration_us), us);
    let t5 = t4 + l5;
    let l6 = figure_line("Standard deviation: "@, r.standard_deviation_us, us);
    lemma_longer_text_shows_as_much(t5, l6);
    lemma_next_line_is_shown(t5, "Standard deviation: "@, trace::fixed_text(r.standard_deviation_us), us);
    let t6 = t5 + l6;
    let l7 = figure_line("Latency P50:        "@, r.p50_us, us);
    lemma_longer_text_shows_as_much(t6, l7);
    lemma_next_line_is_shown(t6, "Latency P50:        "@, trace::fixed_text(r.p50_us), us);
    let t7 = t6 + l7;
    let l8 = figure_line("Latency P90:        "@, r.p90_us, us);
    lemma_longer_text_shows_as_much(t7, l8);
    lemma_next_line_is_shown(t7, "Latency P90:        "@, trace::fixed_text(r.p90_us), us);
    let t8 = t7 + l8;
    let l9 = figure_line("Latency P99:        "@, r.p99_us, us);
    lemma_longer_text_shows_as_much(t8, l9);
    lemma_next_line_is_shown(t8, "Latency P99:        "@, trace::fixed_text(r.p99_us), us);
    let t9 = t8 + l9;
    let l10 = figure_line("Message rate:       "@, r.message_rate, " msg/s"@);
    lemma_longer_text_shows_as_much(t9, l10);
    lemma_next_line_is_shown(t9, "Message rate:       "@, trace::fixed_text(r.message_rate), " msg/s"@);
    let t10 = t9 + l10;
    let l11 = figure_line("CPU usage:          "@, r.cpu_usage, "%"@);
    lemma_longer_text_shows_as_much(t10, l11);
    lemma_next_line_is_shown(t10, "CPU usage:          "@, trace::fixed_text(r.cpu_usage), "%"@);
    let t11 = t10 + l11;
    let foot = ascii("=====================================\n"@);
    lemma_longer_text_shows_as_much(t11, foot);
    assert(report_text(r) == t11 + foot);
}

/// Plain characters are their own bytes, one each.
pub proof fn lemma_plain_characters_are_bytes(s: Seq<char>, i: int)
    requires
        0 <= i < s.len(),
    ensures
        ascii(s).len() == s.len(),
        (s[i] as u32) < 256 ==> ascii(s)[i] == s[i] as u32,
{
}

} // verus!
