//! The benchmark runner's command line: which benchmark, what payload, how
//! many iterations and how many concurrent tasks.

use vstd::prelude::*;
use crate::bench::{PayloadSize, payload_of};
use crate::num::{parse_u32, parse_u32_spec};
use crate::text::{chars_of, string_of, push_all, is_text, lower_str, unicode_lower_str};

verus! {

/// Which benchmark to run.
#[derive(Debug, Clone, Copy, PartialEq, Eq, Structural)]
pub enum BenchmarkType {
    All,
    Handle,
    Serialize,
    Concurrency,
    Async,
    /// Every payload size in turn.
    PayloadScaling,
    /// A write-heavy workload.
    Mutation,
}

/// The benchmark a command-line word names, lowercased.
pub open spec fn benchmark_of(s: Seq<char>) -> Option<BenchmarkType> {
    let k = unicode_lower_str(s);
    if k == "all"@ {
        Some(BenchmarkType::All)
    } else if k == "handle"@ {
        Some(BenchmarkType::Handle)
    } else if k == "serialize"@ || k == "serialization"@ {
        Some(BenchmarkType::Serialize)
    } else if k == "concurrency"@ || k == "concurrent"@ {
        Some(BenchmarkType::Concurrency)
    } else if k == "async"@ {
        Some(BenchmarkType::Async)
    } else if k == "payload"@ || k == "payload-scaling"@ || k == "payloads"@ {
        Some(BenchmarkType::PayloadScaling)
    } else if k == "mutation"@ || k == "mutations"@ || k == "write"@ {
        Some(BenchmarkType::Mutation)
    } else {
        None
    }
}

/// A word without ASCII capitals and outside-ASCII characters lowercases to
/// itself.
proof fn lemma_lower_word(w: Seq<char>)
    requires
        forall|i: int| 0 <= i < w.len() ==> (#[trigger] w[i] as u32) < 128 && !('A' <= w[i] && w[i] <= 'Z'),
    ensures
        unicode_lower_str(w) == w,
{
    assert(crate::text::all_ascii(w));
    assert(crate::text::ascii_lower_seq(w) =~= w);
}

/// The benchmark names and their aliases, as data.
pub open spec fn benchmark_words_table() -> Seq<(Seq<char>, BenchmarkType)> {
    seq![
        ("all"@, BenchmarkType::All),
        ("handle"@, BenchmarkType::Handle),
        ("serialize"@, BenchmarkType::Serialize),
        ("serialization"@, BenchmarkType::Serialize),
        ("concurrency"@, BenchmarkType::Concurrency),
        ("concurrent"@, BenchmarkType::Concurrency),
        ("async"@, BenchmarkType::Async),
        ("payload"@, BenchmarkType::PayloadScaling),
        ("payload-scaling"@, BenchmarkType::PayloadScaling),
        ("payloads"@, BenchmarkType::PayloadScaling),
        ("mutation"@, BenchmarkType::Mutation),
        ("mutations"@, BenchmarkType::Mutation),
        ("write"@, BenchmarkType::Mutation),
    ]
}

/// Each benchmark word names its benchmark.
pub proof fn law_benchmark_words(i: int)
    requires
        0 <= i < benchmark_words_table().len(),
    ensures
        benchmark_of(benchmark_words_table()[i].0) == Some(benchmark_words_table()[i].1),
{
    reveal_strlit("all");
    reveal_strlit("async");
    reveal_strlit("concurrency");
    reveal_strlit("concurrent");
    reveal_strlit("handle");
    reveal_strlit("mutation");
    reveal_strlit("mutations");
    reveal_strlit("payload");
    reveal_strlit("payload-scaling");
    reveal_strlit("payloads");
    reveal_strlit("serialization");
    reveal_strlit("serialize");
    reveal_strlit("write");
    assert("all"@.len() == 3 && "all"@[0] == 'a' && "all"@[1] == 'l' && "all"@[2] == 'l');
    assert("async"@.len() == 5 && "async"@[0] == 'a' && "async"@[1] == 's' && "async"@[2] == 'y' && "async"@[3] == 'n' && "async"@[4] == 'c');
    assert("concurrency"@.len() == 11 && "concurrency"@[0] == 'c' && "concurrency"@[1] == 'o' && "concurrency"@[2] == 'n' && "concurrency"@[3] == 'c' && "concurrency"@[4] == 'u' && "concurrency"@[5] == 'r' && "concurrency"@[6] == 'r' && "concurrency"@[7] == 'e' && "concurrency"@[8] == 'n' && "concurrency"@[9] == 'c' && "concurrency"@[10] == 'y');
    assert("concurrent"@.len() == 10 && "concurrent"@[0] == 'c' && "concurrent"@[1] == 'o' && "concurrent"@[2] == 'n' && "concurrent"@[3] == 'c' && "concurrent"@[4] == 'u' && "concurrent"@[5] == 'r' && "concurrent"@[6] == 'r' && "concurrent"@[7] == 'e' && "concurrent"@[8] == 'n' && "concurrent"@[9] == 't');
    assert("handle"@.len() == 6 && "handle"@[0] == 'h' && "handle"@[1] == 'a' && "handle"@[2] == 'n' && "handle"@[3] == 'd' && "handle"@[4] == 'l' && "handle"@[5] == 'e');
    assert("mutation"@.len() == 8 && "mutation"@[0] == 'm' && "mutation"@[1] == 'u' && "mutation"@[2] == 't' && "mutation"@[3] == 'a' && "mutation"@[4] == 't' && "mutation"@[5] == 'i' && "mutation"@[6] == 'o' && "mutation"@[7] == 'n');
    assert("mutations"@.len() == 9 && "mutations"@[0] == 'm' && "mutations"@[1] == 'u' && "mutations"@[2] == 't' && "mutations"@[3] == 'a' && "mutations"@[4] == 't' && "mutations"@[5] == 'i' && "mutations"@[6] == 'o' && "mutations"@[7] == 'n' && "mutations"@[8] == 's');
    assert("payload"@.len() == 7 && "payload"@[0] == 'p' && "payload"@[1] == 'a' && "payload"@[2] == 'y' && "payload"@[3] == 'l' && "payload"@[4] == 'o' && "payload"@[5] == 'a' && "payload"@[6] == 'd');
    assert("payload-scaling"@.len() == 15 && "payload-scaling"@[0] == 'p' && "payload-scaling"@[1] == 'a' && "payload-scaling"@[2] == 'y' && "payload-scaling"@[3] == 'l' && "payload-scaling"@[4] == 'o' && "payload-scaling"@[5] == 'a' && "payload-scaling"@[6] == 'd' && "payload-scaling"@[7] == '-' && "payload-scaling"@[8] == 's' && "payload-scaling"@[9] == 'c' && "payload-scaling"@[10] == 'a' && "payload-scaling"@[11] == 'l' && "payload-scaling"@[12] == 'i' && "payload-scaling"@[13] == 'n' && "payload-scaling"@[14] == 'g');
    assert("payloads"@.len() == 8 && "payloads"@[0] == 'p' && "payloads"@[1] == 'a' && "payloads"@[2] == 'y' && "payloads"@[3] == 'l' && "payloads"@[4] == 'o' && "payloads"@[5] == 'a' && "payloads"@[6] == 'd' && "payloads"@[7] == 's');
    assert("serialization"@.len() == 13 && "serialization"@[0] == 's' && "serialization"@[1] == 'e' && "serialization"@[2] == 'r' && "serialization"@[3] == 'i' && "serialization"@[4] == 'a' && "serialization"@[5] == 'l' && "serialization"@[6] == 'i' && "serialization"@[7] == 'z' && "serialization"@[8] == 'a' && "serialization"@[9] == 't' && "serialization"@[10] == 'i' && "serialization"@[11] == 'o' && "serialization"@[12] == 'n');
    assert("serialize"@.len() == 9 && "serialize"@[0] == 's' && "serialize"@[1] == 'e' && "serialize"@[2] == 'r' && "serialize"@[3] == 'i' && "serialize"@[4] == 'a' && "serialize"@[5] == 'l' && "serialize"@[6] == 'i' && "serialize"@[7] == 'z' && "serialize"@[8] == 'e');
    assert("write"@.len() == 5 && "write"@[0] == 'w' && "write"@[1] == 'r' && "write"@[2] == 'i' && "write"@[3] == 't' && "write"@[4] == 'e');
    let t = benchmark_words_table();
    if i == 0 {
        lemma_lower_word("all"@);
        assert(t[0] == ("all"@, BenchmarkType::All));
    }
    if i == 1 {
        lemma_lower_word("handle"@);
        assert(t[1] == ("handle"@, BenchmarkType::Handle));
    }
    if i == 2 {
        lemma_lower_word("serialize"@);
        assert(t[2] == ("serialize"@, BenchmarkType::Serialize));
    }
    if i == 3 {
        lemma_lower_word("serialization"@);
        assert(t[3] == ("serialization"@, BenchmarkType::Serialize));
    }
    if i == 4 {
        lemma_lower_word("concurrency"@);
        assert(t[4] == ("concurrency"@, BenchmarkType::Concurrency));
    }
    if i == 5 {
        lemma_lower_word("concurrent"@);
        assert(t[5] == ("concurrent"@, BenchmarkType::Concurrency));
    }
    if i == 6 {
        lemma_lower_word("async"@);
        assert(t[6] == ("async"@, BenchmarkType::Async));
    }
    if i == 7 {
        lemma_lower_word("payload"@);
        assert(t[7] == ("payload"@, BenchmarkType::PayloadScaling));
    }
    if i == 8 {
        lemma_lower_word("payload-scaling"@);
        assert(t[8] == ("payload-scaling"@, BenchmarkType::PayloadScaling));
    }
    if i == 9 {
        lemma_lower_word("payloads"@);
        assert(t[9] == ("payloads"@, BenchmarkType::PayloadScaling));
    }
    if i == 10 {
        lemma_lower_word("mutation"@);
        assert(t[10] == ("mutation"@, BenchmarkType::Mutation));
    }
    if i == 11 {
        lemma_lower_word("mutations"@);
        assert(t[11] == ("mutations"@, BenchmarkType::Mutation));
    }
    if i == 12 {
        lemma_lower_word("write"@);
        assert(t[12] == ("write"@, BenchmarkType::Mutation));
    }
}

/// The message for a word that names no benchmark.
pub open spec fn unknown_benchmark(s: Seq<char>) -> Seq<char> {
    "Unknown benchmark: "@ + s + ". Use: all, handle, serialize, concurrency, async, payload, mutation"@
}

impl BenchmarkType {
    /// Parse a benchmark name; the error names the word and the legal names.
    pub fn parse(s: &str) -> (r: Result<BenchmarkType, String>)
        ensures
            match r {
                Ok(b) => benchmark_of(s@) == Some(b),
                Err(e) => benchmark_of(s@) is None && e@ == unknown_benchmark(s@),
            },
    {
        let k = lower_str(&chars_of(s));
        if is_text(&k, "all") {
            Ok(BenchmarkType::All)
        } else if is_text(&k, "handle") {
            Ok(BenchmarkType::Handle)
        } else if is_text(&k, "serialize") || is_text(&k, "serialization") {
            Ok(BenchmarkType::Serialize)
        } else if is_text(&k, "concurrency") || is_text(&k, "concurrent") {
            Ok(BenchmarkType::Concurrency)
        } else if is_text(&k, "async") {
            Ok(BenchmarkType::Async)
        } else if is_text(&k, "payload") || is_text(&k, "payload-scaling") || is_text(&k, "payloads") {
            Ok(BenchmarkType::PayloadScaling)
        } else if is_text(&k, "mutation") || is_text(&k, "mutations") || is_text(&k, "write") {
            Ok(BenchmarkType::Mutation)
        } else {
            let mut m = chars_of("Unknown benchmark: ");
            push_all(&mut m, &chars_of(s));
            push_all(&mut m, &chars_of(". Use: all, handle, serialize, concurrency, async, payload, mutation"));
            Err(string_of(&m))
        }
    }
}

impl std::str::FromStr for BenchmarkType {
    type Err = String;

    fn from_str(s: &str) -> (r: Result<BenchmarkType, String>)
        ensures
            match r {
                Ok(b) => benchmark_of(s@) == Some(b),
                Err(e) => benchmark_of(s@) is None && e@ == unknown_benchmark(s@),
            },
    {
        BenchmarkType::parse(s)
    }
}

/// What the command line asks for.
#[derive(Debug, Clone, Copy, PartialEq, Eq, Structural)]
pub struct BenchConfig {
    pub benchmark: BenchmarkType,
    pub payload_size: PayloadSize,
    /// Iterations of the sequential benchmarks.
    pub iterations: u32,
    /// Concurrent tasks.
    pub concurrency: u32,
}

/// Every benchmark, the small payload, 500 iterations, 100 tasks.
pub open spec fn default_config() -> BenchConfig {
    BenchConfig {
        benchmark: BenchmarkType::All,
        payload_size: PayloadSize::Small,
        iterations: 500,
        concurrency: 100,
    }
}

/// What the command line comes to.
#[derive(Debug, Clone, PartialEq, Eq)]
pub enum ParsedArgs {
    /// Run with this configuration.
    Run(BenchConfig),
    /// Print the help and stop successfully.
    Help,
    /// Print the message (and the help, when asked) and stop with a failure.
    Fail(String, bool),
}

/// What the arguments from index `i` on make of `cfg`, read left to right:
/// `Ok(Some(c))` to run with `c`, `Ok(None)` for the help, `Err((m, h))` to
/// fail with the message `m`, printing the help too when `h`. An option
/// whose value is missing at the end is ignored.
pub open spec fn args_outcome(args: Seq<Seq<char>>, i: int, cfg: BenchConfig) -> Result<
    Option<BenchConfig>,
    (Seq<char>, bool),
>
    decreases args.len() - i,
{
    if i < 0 || i >= args.len() {
        Ok(Some(cfg))
    } else {
        let a = args[i];
        let has_value = i + 1 < args.len();
        if a == "--help"@ || a == "-h"@ {
            Ok(None)
        } else if a == "--benchmark"@ || a == "-b"@ {
            if !has_value {
                Ok(Some(cfg))
            } else {
                match benchmark_of(args[i + 1]) {
                    Some(b) => args_outcome(args, i + 2, BenchConfig { benchmark: b, ..cfg }),
                    None => Err(("Error: "@ + unknown_benchmark(args[i + 1]), false)),
                }
            }
        } else if a == "--payload"@ || a == "-p"@ {
            if !has_value {
                Ok(Some(cfg))
            } else {
                match payload_of(args[i + 1]) {
                    Some(p) => args_outcome(args, i + 2, BenchConfig { payload_size: p, ..cfg }),
                    None => Err(
                        (
                            "Error: "@ + ("Unknown payload size: "@ + args[i + 1] + ". Use: small, medium, large, xlarge"@),
                            false,
                        ),
                    ),
                }
            }
        } else if a == "--iterations"@ || a == "-i"@ {
            if !has_value {
                Ok(Some(cfg))
            } else {
                match parse_u32_spec(args[i + 1]) {
                    Some(n) => args_outcome(args, i + 2, BenchConfig { iterations: n, ..cfg }),
                    None => Err(("Error: Invalid iteration count"@, false)),
                }
            }
        } else if a == "--concurrency"@ || a == "-c"@ {
            if !has_value {
                Ok(Some(cfg))
            } else {
                match parse_u32_spec(args[i + 1]) {
                    Some(n) => args_outcome(args, i + 2, BenchConfig { concurrency: n, ..cfg }),
                    None => Err(("Error: Invalid concurrency level"@, false)),
                }
            }
        } else {
            Err(("Unknown argument: "@ + a, true))
        }
    }
}

/// The views of the arguments.
pub open spec fn arg_views(args: Seq<String>) -> Seq<Seq<char>> {
    Seq::new(args.len(), |i: int| args[i]@)
}

/// The view of what the command line comes to.
pub open spec fn parsed_view(p: ParsedArgs) -> Result<Option<BenchConfig>, (Seq<char>, bool)> {
    match p {
        ParsedArgs::Run(c) => Ok(Some(c)),
        ParsedArgs::Help => Ok(None),
        ParsedArgs::Fail(m, h) => Err((m@, h)),
    }
}

/// Read the command line (`args[0]` is the program) into a configuration,
/// starting from the defaults.
pub fn parse_args(args: &Vec<String>) -> (r: ParsedArgs)
    ensures
        parsed_view(r) == args_outcome(arg_views(args@), 1, default_config()),
{
    let ghost v = arg_views(args@);
    let mut cfg = BenchConfig {
        benchmark: BenchmarkType::All,
        payload_size: PayloadSize::Small,
        iterations: 500,
        concurrency: 100,
    };
    let mut i: usize = 1;
    while i < args.len()
        invariant
            1 <= i,
            v == arg_views(args@),
            args_outcome(v, 1, default_config()) == args_outcome(v, i as int, cfg),
        decreases args.len() - i,
    {
        let a = chars_of(args[i].as_str());
        let has_value = i + 1 < args.len();
        if is_text(&a, "--help") || is_text(&a, "-h") {
            return ParsedArgs::Help;
        } else if is_text(&a, "--benchmark") || is_text(&a, "-b") {
            if !has_value {
                return ParsedArgs::Run(cfg);
            }
            match BenchmarkType::parse(args[i + 1].as_str()) {
                Ok(b) => {
                    cfg = BenchConfig { benchmark: b, ..cfg };
                },
                Err(e) => {
                    let mut m = chars_of("Error: ");
                    push_all(&mut m, &chars_of(e.as_str()));
                    return ParsedArgs::Fail(string_of(&m), false);
                },
            }
        } else if is_text(&a, "--payload") || is_text(&a, "-p") {
            if !has_value {
                return ParsedArgs::Run(cfg);
            }
            match PayloadSize::parse(args[i + 1].as_str()) {
                Ok(p) => {
                    cfg = BenchConfig { payload_size: p, ..cfg };
                },
                Err(e) => {
                    let mut m = chars_of("Error: ");
                    push_all(&mut m, &chars_of(e.as_str()));
                    return ParsedArgs::Fail(string_of(&m), false);
                },
            }
        } else if is_text(&a, "--iterations") || is_text(&a, "-i") {
            if !has_value {
                return ParsedArgs::Run(cfg);
            }
            match parse_u32(&chars_of(args[i + 1].as_str())) {
                Some(n) => {
                    cfg = BenchConfig { iterations: n, ..cfg };
                },
                None => {
                    return ParsedArgs::Fail(string_of(&chars_of("Error: Invalid iteration count")), false);
                },
            }
        } else if is_text(&a, "--concurrency") || is_text(&a, "-c") {
            if !has_value {
                return ParsedArgs::Run(cfg);
            }
            match parse_u32(&chars_of(args[i + 1].as_str())) {
                Some(n) => {
                    cfg = BenchConfig { concurrency: n, ..cfg };
                },
                None => {
                    return ParsedArgs::Fail(string_of(&chars_of("Error: Invalid concurrency level")), false);
                },
            }
        } else {
            let mut m = chars_of("Unknown argument: ");
            push_all(&mut m, &a);
            return ParsedArgs::Fail(string_of(&m), true);
        }
        i += 2;
    }
    ParsedArgs::Run(cfg)
}

} // verus!
