use bench_migrate::benchmark_parser::BenchmarkParser;

#[test]
fn test_parse_benchmarks() {
    let input = "benchmarks!";
    let (rest, parsed) = BenchmarkParser::parse_benchmark(input).unwrap();
    assert_eq!(rest, "");
    assert_eq!(parsed, "benchmarks");
}

#[test]
fn test_parse_benchmarks_instance_pallet() {
    let input = "benchmarks_instance_pallet!";
    let (rest, parsed) = BenchmarkParser::parse_benchmark(input).unwrap();
    assert_eq!(rest, "");
    assert_eq!(parsed, "benchmarks_instance_pallet");
}

#[test]
fn test_parse_benchmarks_with_whitespace() {
    let input = "    benchmarks!"; // Input with leading whitespace
    let (rest, parsed) = BenchmarkParser::parse_benchmark(input).unwrap();
    assert_eq!(rest, "");
    assert_eq!(parsed, "benchmarks");
}
