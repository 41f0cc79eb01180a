use argus_core::bench::PayloadSize;
use argus_core::cli::{parse_args, BenchConfig, BenchmarkType, ParsedArgs};

fn args(words: &[&str]) -> Vec<String> {
    std::iter::once("phase0").chain(words.iter().copied()).map(String::from).collect()
}

fn defaults() -> BenchConfig {
    BenchConfig { benchmark: BenchmarkType::All, payload_size: PayloadSize::Small, iterations: 500, concurrency: 100 }
}

#[test]
fn no_arguments_run_the_defaults() {
    assert_eq!(parse_args(&args(&[])), ParsedArgs::Run(defaults()));
}

#[test]
fn every_option_is_read_in_long_and_short_form() {
    let long = parse_args(&args(&["--benchmark", "Serialization", "--payload", "xl", "--iterations", "20",
        "--concurrency", "+7"]));
    let short = parse_args(&args(&["-b", "serialize", "-p", "100k", "-i", "20", "-c", "7"]));
    let want = BenchConfig {
        benchmark: BenchmarkType::Serialize,
        payload_size: PayloadSize::XLarge,
        iterations: 20,
        concurrency: 7,
    };
    assert_eq!(long, ParsedArgs::Run(want));
    assert_eq!(short, ParsedArgs::Run(want));
}

#[test]
fn help_stops_reading_wherever_it_stands() {
    assert_eq!(parse_args(&args(&["-i", "3", "--help", "--bogus"])), ParsedArgs::Help);
    assert_eq!(parse_args(&args(&["-h"])), ParsedArgs::Help);
}

#[test]
fn bad_values_fail_with_the_message_the_runner_prints() {
    assert_eq!(
        parse_args(&args(&["--benchmark", "speed"])),
        ParsedArgs::Fail(
            "Error: Unknown benchmark: speed. Use: all, handle, serialize, concurrency, async, payload, mutation"
                .to_string(),
            false
        )
    );
    assert_eq!(
        parse_args(&args(&["-p", "tiny"])),
        ParsedArgs::Fail("Error: Unknown payload size: tiny. Use: small, medium, large, xlarge".to_string(), false)
    );
    assert_eq!(
        parse_args(&args(&["-i", "-1"])),
        ParsedArgs::Fail("Error: Invalid iteration count".to_string(), false)
    );
    assert_eq!(
        parse_args(&args(&["-c", "4294967296"])),
        ParsedArgs::Fail("Error: Invalid concurrency level".to_string(), false)
    );
    assert_eq!(
        parse_args(&args(&["--verbose"])),
        ParsedArgs::Fail("Unknown argument: --verbose".to_string(), true)
    );
}

#[test]
fn an_option_missing_its_value_at_the_end_is_ignored() {
    assert_eq!(parse_args(&args(&["-i", "9", "-b"])), ParsedArgs::Run(BenchConfig { iterations: 9, ..defaults() }));
}

#[test]
fn benchmark_names_parse_case_insensitively() {
    assert_eq!("PAYLOAD-SCALING".parse::<BenchmarkType>(), Ok(BenchmarkType::PayloadScaling));
    assert_eq!("write".parse::<BenchmarkType>(), Ok(BenchmarkType::Mutation));
    assert_eq!("concurrent".parse::<BenchmarkType>(), Ok(BenchmarkType::Concurrency));
    assert_eq!(BenchmarkType::parse("Async"), Ok(BenchmarkType::Async));
    assert_eq!(BenchmarkType::parse("handle"), Ok(BenchmarkType::Handle));
}
