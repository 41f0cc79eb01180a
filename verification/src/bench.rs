//! The arithmetic and configuration of the plugin-host benchmarks: payload
//! size presets, the host configuration, and the summary statistics of a
//! run's timings (durations are held as whole nanoseconds).

use vstd::prelude::*;
use crate::text::{chars_of, string_of, push_all, is_text, lower_str, unicode_lower_str};

verus! {

/// Payload size presets for benchmarking.
#[derive(Debug, Clone, Copy, PartialEq, Eq, Structural)]
pub enum PayloadSize {
    /// About 2.4 KB: the default benchmark payload.
    Small,
    /// About 10 KB.
    Medium,
    /// About 50 KB, with many fields.
    Large,
    /// About 100 KB: the stress test.
    XLarge,
}

/// The target size in bytes of a preset.
pub open spec fn payload_target(p: PayloadSize) -> usize {
    match p {
        PayloadSize::Small => 2_400,
        PayloadSize::Medium => 10_000,
        PayloadSize::Large => 50_000,
        PayloadSize::XLarge => 100_000,
    }
}

/// The human-readable name of a preset.
pub open spec fn payload_name(p: PayloadSize) -> Seq<char> {
    match p {
        PayloadSize::Small => "small (~2.4KB)"@,
        PayloadSize::Medium => "medium (~10KB)"@,
        PayloadSize::Large => "large (~50KB)"@,
        PayloadSize::XLarge => "xlarge (~100KB)"@,
    }
}

/// The preset a command-line word names, lowercased: its name, its initial
/// or its nominal size.
pub open spec fn payload_of(s: Seq<char>) -> Option<PayloadSize> {
    let k = unicode_lower_str(s);
    if k == "small"@ || k == "s"@ || k == "2k"@ {
        Some(PayloadSize::Small)
    } else if k == "medium"@ || k == "m"@ || k == "10k"@ {
        Some(PayloadSize::Medium)
    } else if k == "large"@ || k == "l"@ || k == "50k"@ {
        Some(PayloadSize::Large)
    } else if k == "xlarge"@ || k == "xl"@ || k == "100k"@ {
        Some(PayloadSize::XLarge)
    } else {
        None
    }
}

/// A word without ASCII capitals and outside-ASCII characters lowercases to
/// itself.
proof fn lemma_lower_word(w: Seq<char>)
    requires
        forall|i: int| 0 <= i < w.len() ==> (#[trigger] w[i] as u32) < 128 && !('A' <= w[i] && w[i] <= 'Z'),
    ensures
        unicode_lower_str(w) == w,
{
    assert(crate::text::all_ascii(w));
    assert(crate::text::ascii_lower_seq(w) =~= w);
}

/// The payload preset names and their aliases, as data.
pub open spec fn payload_words_table() -> Seq<(Seq<char>, PayloadSize)> {
    seq![
        ("small"@, PayloadSize::Small),
        ("s"@, PayloadSize::Small),
        ("2k"@, PayloadSize::Small),
        ("medium"@, PayloadSize::Medium),
        ("m"@, PayloadSize::Medium),
        ("10k"@, PayloadSize::Medium),
        ("large"@, PayloadSize::Large),
        ("l"@, PayloadSize::Large),
        ("50k"@, PayloadSize::Large),
        ("xlarge"@, PayloadSize::XLarge),
        ("xl"@, PayloadSize::XLarge),
        ("100k"@, PayloadSize::XLarge),
    ]
}

/// Each preset word names its preset.
pub proof fn law_payload_words(i: int)
    requires
        0 <= i < payload_words_table().len(),
    ensures
        payload_of(payload_words_table()[i].0) == Some(payload_words_table()[i].1),
{
    reveal_strlit("100k");
    reveal_strlit("10k");
    reveal_strlit("2k");
    reveal_strlit("50k");
    reveal_strlit("l");
    reveal_strlit("large");
    reveal_strlit("m");
    reveal_strlit("medium");
    reveal_strlit("s");
    reveal_strlit("small");
    reveal_strlit("xl");
    reveal_strlit("xlarge");
    assert("100k"@.len() == 4 && "100k"@[0] == '1' && "100k"@[1] == '0' && "100k"@[2] == '0' && "100k"@[3] == 'k');
    assert("10k"@.len() == 3 && "10k"@[0] == '1' && "10k"@[1] == '0' && "10k"@[2] == 'k');
    assert("2k"@.len() == 2 && "2k"@[0] == '2' && "2k"@[1] == 'k');
    assert("50k"@.len() == 3 && "50k"@[0] == '5' && "50k"@[1] == '0' && "50k"@[2] == 'k');
    assert("l"@.len() == 1 && "l"@[0] == 'l');
    assert("large"@.len() == 5 && "large"@[0] == 'l' && "large"@[1] == 'a' && "large"@[2] == 'r' && "large"@[3] == 'g' && "large"@[4] == 'e');
    assert("m"@.len() == 1 && "m"@[0] == 'm');
    assert("medium"@.len() == 6 && "medium"@[0] == 'm' && "medium"@[1] == 'e' && "medium"@[2] == 'd' && "medium"@[3] == 'i' && "medium"@[4] == 'u' && "medium"@[5] == 'm');
    assert("s"@.len() == 1 && "s"@[0] == 's');
    assert("small"@.len() == 5 && "small"@[0] == 's' && "small"@[1] == 'm' && "small"@[2] == 'a' && "small"@[3] == 'l' && "small"@[4] == 'l');
    assert("xl"@.len() == 2 && "xl"@[0] == 'x' && "xl"@[1] == 'l');
    assert("xlarge"@.len() == 6 && "xlarge"@[0] == 'x' && "xlarge"@[1] == 'l' && "xlarge"@[2] == 'a' && "xlarge"@[3] == 'r' && "xlarge"@[4] == 'g' && "xlarge"@[5] == 'e');
    let t = payload_words_table();
    if i == 0 {
        lemma_lower_word("small"@);
        assert(t[0] == ("small"@, PayloadSize::Small));
    }
    if i == 1 {
        lemma_lower_word("s"@);
        assert(t[1] == ("s"@, PayloadSize::Small));
    }
    if i == 2 {
        lemma_lower_word("2k"@);
        assert(t[2] == ("2k"@, PayloadSize::Small));
    }
    if i == 3 {
        lemma_lower_word("medium"@);
        assert(t[3] == ("medium"@, PayloadSize::Medium));
    }
    if i == 4 {
        lemma_lower_word("m"@);
        assert(t[4] == ("m"@, PayloadSize::Medium));
    }
    if i == 5 {
        lemma_lower_word("10k"@);
        assert(t[5] == ("10k"@, PayloadSize::Medium));
    }
    if i == 6 {
        lemma_lower_word("large"@);
        assert(t[6] == ("large"@, PayloadSize::Large));
    }
    if i == 7 {
        lemma_lower_word("l"@);
        assert(t[7] == ("l"@, PayloadSize::Large));
    }
    if i == 8 {
        lemma_lower_word("50k"@);
        assert(t[8] == ("50k"@, PayloadSize::Large));
    }
    if i == 9 {
        lemma_lower_word("xlarge"@);
        assert(t[9] == ("xlarge"@, PayloadSize::XLarge));
    }
    if i == 10 {
        lemma_lower_word("xl"@);
        assert(t[10] == ("xl"@, PayloadSize::XLarge));
    }
    if i == 11 {
        lemma_lower_word("100k"@);
        assert(t[11] == ("100k"@, PayloadSize::XLarge));
    }
}

impl PayloadSize {
    /// Target size in bytes for this preset.
    pub fn target_bytes(&self) -> (r: usize)
        ensures
            r == payload_target(*self),
    {
        match self {
            PayloadSize::Small => 2_400,
            PayloadSize::Medium => 10_000,
            PayloadSize::Large => 50_000,
            PayloadSize::XLarge => 100_000,
        }
    }

    /// Human-readable name.
    pub fn name(&self) -> (r: &'static str)
        ensures
            r@ == payload_name(*self),
    {
        match self {
            PayloadSize::Small => "small (~2.4KB)",
            PayloadSize::Medium => "medium (~10KB)",
            PayloadSize::Large => "large (~50KB)",
            PayloadSize::XLarge => "xlarge (~100KB)",
        }
    }

    /// Parse a preset from a command-line word; the error names the word and
    /// the legal presets.
    pub fn parse(s: &str) -> (r: Result<PayloadSize, String>)
        ensures
            match r {
                Ok(p) => payload_of(s@) == Some(p),
                Err(e) => payload_of(s@) is None && e@ == "Unknown payload size: "@ + s@
                    + ". Use: small, medium, large, xlarge"@,
            },
    {
        let k = lower_str(&chars_of(s));
        if is_text(&k, "small") || is_text(&k, "s") || is_text(&k, "2k") {
            Ok(PayloadSize::Small)
        } else if is_text(&k, "medium") || is_text(&k, "m") || is_text(&k, "10k") {
            Ok(PayloadSize::Medium)
        } else if is_text(&k, "large") || is_text(&k, "l") || is_text(&k, "50k") {
            Ok(PayloadSize::Large)
        } else if is_text(&k, "xlarge") || is_text(&k, "xl") || is_text(&k, "100k") {
            Ok(PayloadSize::XLarge)
        } else {
            let mut m = chars_of("Unknown payload size: ");
            push_all(&mut m, &chars_of(s));
            push_all(&mut m, &chars_of(". Use: small, medium, large, xlarge"));
            Err(string_of(&m))
        }
    }
}

impl std::str::FromStr for PayloadSize {
    type Err = String;

    fn from_str(s: &str) -> (r: Result<PayloadSize, String>)
        ensures
            match r {
                Ok(p) => payload_of(s@) == Some(p),
                Err(e) => payload_of(s@) is None && e@ == "Unknown payload size: "@ + s@
                    + ". Use: small, medium, large, xlarge"@,
            },
    {
        PayloadSize::parse(s)
    }
}

/// Configuration for the benchmark host environment.
#[derive(Debug, Clone)]
pub struct HostConfig {
    /// Maximum number of concurrent instances (for the pooling allocator).
    pub max_instances: u32,
    /// Maximum memory pages per instance (64 KB per page).
    pub max_memory_pages: u64,
    /// Whether async host functions are supported.
    pub async_support: bool,
}

impl Default for HostConfig {
    /// A thousand instances of at most 64 MB each, with async support.
    fn default() -> (r: HostConfig)
        ensures
            r.max_instances == 1000,
            r.max_memory_pages == 1024,
            r.async_support,
    {
        HostConfig { max_instances: 1000, max_memory_pages: 1024, async_support: true }
    }
}

/// The largest duration `std::time::Duration` holds, in nanoseconds.
pub const MAX_DURATION_NANOS: u128 = 18_446_744_073_709_551_615_999_999_999;

/// The summary statistics of one benchmark's timings (nanoseconds).
#[derive(Debug, Clone, PartialEq, Eq)]
pub struct BenchResult {
    /// The benchmark's name.
    pub name: String,
    /// How many timed calls there were.
    pub total_calls: u64,
    /// The sum of the timings.
    pub total_time: u128,
    /// The mean timing.
    pub per_call_avg: u128,
    /// The median timing.
    pub p50: u128,
    /// The 95th-percentile timing.
    pub p95: u128,
    /// The 99th-percentile timing.
    pub p99: u128,
}

/// The sum of the timings.
pub open spec fn timings_sum(ds: Seq<u128>) -> int
    decreases ds.len(),
{
    if ds.len() == 0 {
        0
    } else {
        timings_sum(ds.drop_last()) + ds.last()
    }
}

/// The timing at index `i` of the sorted timings, or zero when there is none.
pub open spec fn timing_at(ds: Seq<u128>, i: int) -> u128 {
    if 0 <= i < ds.len() {
        ds[i]
    } else {
        0
    }
}

/// Timings sum to at least their prefix sums, each non-negative.
proof fn lemma_sum_monotone(ds: Seq<u128>, i: int)
    requires
        0 <= i <= ds.len(),
    ensures
        timings_sum(ds.take(i)) <= timings_sum(ds),
        timings_sum(ds.take(i)) >= 0,
    decreases ds.len() - i,
{
    lemma_sum_nonneg(ds.take(i));
    if i < ds.len() {
        lemma_sum_monotone(ds, i + 1);
        assert(ds.take(i + 1).drop_last() == ds.take(i));
    } else {
        assert(ds.take(i) == ds);
    }
}

/// A sum of timings is non-negative.
proof fn lemma_sum_nonneg(ds: Seq<u128>)
    ensures
        timings_sum(ds) >= 0,
    decreases ds.len(),
{
    if ds.len() > 0 {
        lemma_sum_nonneg(ds.drop_last());
    }
}

impl BenchResult {
    /// Summarize a sorted list of timings: the call count, the total, the
    /// mean (the total divided by the count taken as a `u32`, as the timer
    /// type divides), and the timings at the 50th, 95th and 99th percentile
    /// positions (`n/2`, `floor(0.95 n)`, `floor(0.99 n)`), zero when there
    /// are no timings.
    pub fn from_durations(name: &str, durations: &[u128]) -> (r: BenchResult)
        requires
            timings_sum(durations@) <= MAX_DURATION_NANOS,
            durations@.len() < 0x100_0000_0000,
            durations@.len() == 0 || durations@.len() % 0x1_0000_0000 != 0,
        ensures
            r.name@ == name@,
            r.total_calls == durations@.len(),
            r.total_time == timings_sum(durations@),
            r.per_call_avg == (if durations@.len() > 0 {
                timings_sum(durations@) / (durations@.len() % 0x1_0000_0000) as int
            } else {
                0
            }),
            r.p50 == timing_at(durations@, (durations@.len() / 2) as int),
            r.p95 == timing_at(durations@, (durations@.len() * 95 / 100) as int),
            r.p99 == timing_at(durations@, (durations@.len() * 99 / 100) as int),
    {
        let n = durations.len();
        let mut total: u128 = 0;
        let mut i: usize = 0;
        while i < n
            invariant
                i <= n,
                n == durations@.len(),
                timings_sum(durations@) <= MAX_DURATION_NANOS,
                total == timings_sum(durations@.take(i as int)),
            decreases n - i,
        {
            proof {
                lemma_sum_monotone(durations@, i as int + 1);
                assert(durations@.take(i as int + 1).drop_last() == durations@.take(i as int));
                assert(durations@.take(i as int + 1).last() == durations@[i as int]);
            }
            total = total + durations[i];
            i += 1;
        }
        assert(durations@.take(n as int) == durations@);
        let per_call_avg: u128 = if n > 0 {
            let divisor: u128 = (n as u128) % 0x1_0000_0000;
            total / divisor
        } else {
            0
        };
        let i50 = n / 2;
        let i95 = ((n as u64) * 95 / 100) as usize;
        let i99 = ((n as u64) * 99 / 100) as usize;
        let p50 = if i50 < n { durations[i50] } else { 0 };
        let p95 = if i95 < n { durations[i95] } else { 0 };
        let p99 = if i99 < n { durations[i99] } else { 0 };
        BenchResult {
            name: string_of(&chars_of(name)),
            total_calls: n as u64,
            total_time: total,
            per_call_avg,
            p50,
            p95,
            p99,
        }
    }
}

/// Timings of a handle-based benchmark run.
#[derive(Debug, Clone)]
pub struct HandleBenchmarkResults {
    /// Instantiation plus tap call.
    pub total: BenchResult,
    /// Tap call only.
    pub tap_only: BenchResult,
    /// Instantiation only.
    pub instantiation_only: BenchResult,
}

/// Timings of a full-serialization benchmark run.
#[derive(Debug, Clone)]
pub struct SerializeBenchmarkResults {
    /// Instantiation, memory setup and tap call.
    pub total: BenchResult,
    /// Tap call only.
    pub tap_only: BenchResult,
    /// Instantiation and memory setup.
    pub instantiation_only: BenchResult,
}

/// Timings of a concurrency benchmark run.
#[derive(Debug, Clone)]
pub struct ConcurrencyBenchmarkResults {
    /// Instantiation plus tap call.
    pub total: BenchResult,
    /// Instantiation only.
    pub instantiation_only: BenchResult,
    /// Tap call only.
    pub tap_only: BenchResult,
    /// Number of concurrent requests.
    pub concurrency: u32,
    /// Whether every request succeeded.
    pub all_succeeded: bool,
}

/// Timings of an async benchmark run.
#[derive(Debug, Clone)]
pub struct AsyncBenchmarkResults {
    /// Instantiation plus async tap call.
    pub total: BenchResult,
    /// Number of concurrent requests.
    pub concurrency: u32,
    /// Whether every request completed without deadlock.
    pub completed_without_deadlock: bool,
    /// Wall-clock time for all the concurrent requests (nanoseconds).
    pub wall_clock_time: u128,
}

} // verus!
