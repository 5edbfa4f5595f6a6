use blake_bench::buffer::make_buf;
use blake_bench::driver::{
    default_sizes, make_inputs, measure_case, route, run, ConfigError, ExperimentConfig, Input,
    DEFAULT_LATENCY_THRESHOLD, DEFAULT_MIN_DURATION_MS, DEFAULT_TRIALS,
};
use blake_bench::report::{render_csv, render_tables};
use blake_bench::rows::Metric;
use blake_bench::selector::{ImplKind, Pattern};

#[test]
fn defaults_are_fixed() {
    assert_eq!(DEFAULT_MIN_DURATION_MS, 600);
    assert_eq!(DEFAULT_TRIALS, 5);
    assert_eq!(DEFAULT_LATENCY_THRESHOLD, 1024);
    assert_eq!(
        default_sizes(),
        vec![
            0,
            1,
            32,
            64,
            128,
            1024,
            4 * 1024,
            16 * 1024,
            64 * 1024,
            256 * 1024,
            1024 * 1024,
            8 * 1024 * 1024,
            64 * 1024 * 1024
        ]
    );
}

#[test]
fn routing_by_threshold() {
    assert_eq!(route(0, 1024), Metric::Latency);
    assert_eq!(route(1023, 1024), Metric::Latency);
    assert_eq!(route(1024, 1024), Metric::Latency);
    assert_eq!(route(1025, 1024), Metric::Throughput);
    assert_eq!(route(usize::MAX, 1024), Metric::Throughput);
    assert_eq!(route(0, 0), Metric::Latency);
    assert_eq!(route(1, 0), Metric::Throughput);
    assert_eq!(route(usize::MAX, usize::MAX), Metric::Latency);
}

#[test]
fn routing_invariant_over_a_grid() {
    for size in [0usize, 1, 63, 64, 65, 1024, 1025, 4096] {
        for threshold in [0usize, 1, 64, 1024, 4096, usize::MAX] {
            let expected = if size <= threshold { Metric::Latency } else { Metric::Throughput };
            assert_eq!(route(size, threshold), expected);
        }
    }
}

#[test]
fn resolve_fills_in_the_defaults() {
    let config = ExperimentConfig::resolve(vec![], vec![], vec![], 600, 5, 1024, false).unwrap();
    assert_eq!(config.impls, ImplKind::all(false));
    assert_eq!(config.patterns, vec![Pattern::Random, Pattern::Zero, Pattern::Repeat16]);
    assert_eq!(config.sizes, default_sizes());
    assert_eq!(config.min_duration_ms, 600);
    assert_eq!(config.trials, 5);
    assert_eq!(config.latency_threshold, 1024);
    let parallel = ExperimentConfig::resolve(vec![], vec![], vec![], 600, 5, 1024, true).unwrap();
    assert_eq!(parallel.impls, ImplKind::all(true));
}

#[test]
fn resolve_keeps_what_was_asked_for() {
    let config = ExperimentConfig::resolve(
        vec![ImplKind::Blake2s256, ImplKind::Blake2s256],
        vec![Pattern::Zero],
        vec![2048, 0],
        7,
        1,
        99,
        true,
    )
    .unwrap();
    assert_eq!(config.impls, vec![ImplKind::Blake2s256, ImplKind::Blake2s256]);
    assert_eq!(config.patterns, vec![Pattern::Zero]);
    assert_eq!(config.sizes, vec![2048, 0]);
    assert_eq!(config.min_duration_ms, 7);
    assert_eq!(config.trials, 1);
    assert_eq!(config.latency_threshold, 99);
}

#[test]
fn resolve_refuses_zero_trials() {
    let refused = ExperimentConfig::resolve(vec![], vec![], vec![], 600, 0, 1024, false);
    assert_eq!(refused.err(), Some(ConfigError::NoTrials));
    assert_eq!(ConfigError::NoTrials.message(), "the number of trials must be at least 1");
}

#[test]
fn inputs_are_made_sizes_outer_patterns_inner() {
    let inputs = make_inputs(&[3, 0, 20], &[Pattern::Zero, Pattern::Repeat16]);
    let keys: Vec<(usize, Pattern)> = inputs.iter().map(|i| (i.size, i.pattern)).collect();
    assert_eq!(
        keys,
        vec![
            (3, Pattern::Zero),
            (3, Pattern::Repeat16),
            (0, Pattern::Zero),
            (0, Pattern::Repeat16),
            (20, Pattern::Zero),
            (20, Pattern::Repeat16)
        ]
    );
    for input in &inputs {
        assert_eq!(input.data, make_buf(input.size, input.pattern));
    }
    assert!(make_inputs(&[], &[Pattern::Zero]).is_empty());
    assert!(make_inputs(&[1, 2], &[]).is_empty());
}

#[test]
fn measure_case_files_the_row_under_its_protocol() {
    let input = Input { size: 2048, pattern: Pattern::Zero, data: make_buf(2048, Pattern::Zero) };
    let (metric, row) = measure_case(ImplKind::Blake3Single, &input, 3, 2, 1024);
    assert_eq!(metric, Metric::Throughput);
    assert_eq!((row.kind, row.size, row.pattern), (ImplKind::Blake3Single, 2048, Pattern::Zero));
    assert!(row.value > 0);
}

#[test]
fn end_to_end_single_backend() {
    let config = ExperimentConfig::resolve(
        vec![ImplKind::Blake3Single],
        vec![Pattern::Zero],
        vec![0, 2048],
        10,
        1,
        1024,
        false,
    )
    .unwrap();
    let report = run(&config);
    assert_eq!(report.latency.len() + report.throughput.len(), 2);
    assert_eq!(report.latency.len(), 1);
    assert_eq!(report.throughput.len(), 1);
    let slow = report.latency[0];
    assert_eq!((slow.kind, slow.size, slow.pattern), (ImplKind::Blake3Single, 0, Pattern::Zero));
    let fast = report.throughput[0];
    assert_eq!((fast.kind, fast.size, fast.pattern), (ImplKind::Blake3Single, 2048, Pattern::Zero));

    let text = render_tables(&report.throughput, &report.latency);
    assert_eq!(text.matches("## Throughput (MiB/s)").count(), 1);
    assert_eq!(text.matches("## Latency (ns/op)").count(), 1);
    let data_lines: Vec<&str> =
        text.lines().filter(|l| l.starts_with("| blake3_single |")).collect();
    assert_eq!(data_lines.len(), 2);
    assert!(data_lines[0].starts_with("| blake3_single | 2048 | "));
    assert!(data_lines[1].starts_with("| blake3_single | 0 | "));

}

#[test]
fn csv_round_trip_of_a_fixed_configuration() {
    let config = ExperimentConfig::resolve(
        vec![ImplKind::Blake3Single],
        vec![Pattern::Zero],
        vec![0, 2048],
        10,
        1,
        1024,
        false,
    )
    .unwrap();
    let report = run(&config);
    let slow = report.latency[0];
    let csv = render_csv(&report.throughput, &report.latency);
    let lines: Vec<&str> = csv.lines().collect();
    assert_eq!(lines.len(), 3);
    assert_eq!(lines[0], "kind,size,pattern,metric,value");
    let first: Vec<&str> = lines[1].split(',').collect();
    assert_eq!(&first[..4], &["blake3_single", "2048", "zero", "mib_per_s"]);
    let decimals = first[4].split('.').nth(1).unwrap();
    assert_eq!(decimals.len(), 3);
    assert!(first[4].parse::<f64>().unwrap() > 0.0);
    let second: Vec<&str> = lines[2].split(',').collect();
    assert_eq!(&second[..4], &["blake3_single", "0", "zero", "ns_per_op"]);
    assert_eq!(second[4].parse::<u128>().unwrap(), slow.value);
}

#[test]
fn reference_backend_above_the_threshold() {
    let config = ExperimentConfig::resolve(
        vec![ImplKind::Blake2s256],
        vec![Pattern::Zero],
        vec![2048],
        5,
        1,
        1024,
        false,
    )
    .unwrap();
    let report = run(&config);
    assert!(report.latency.is_empty());
    assert_eq!(report.throughput.len(), 1);
    let row = report.throughput[0];
    assert_eq!((row.kind, row.size, row.pattern), (ImplKind::Blake2s256, 2048, Pattern::Zero));
    assert!(row.value > 0);
}

#[test]
fn run_walks_impls_outer_inputs_inner() {
    let config = ExperimentConfig::resolve(
        vec![ImplKind::Blake3Single, ImplKind::Blake2b256],
        vec![Pattern::Zero, Pattern::Random],
        vec![4096, 2048],
        1,
        2,
        1024,
        false,
    )
    .unwrap();
    let report = run(&config);
    assert!(report.latency.is_empty());
    let keys: Vec<(ImplKind, usize, Pattern)> =
        report.throughput.iter().map(|r| (r.kind, r.size, r.pattern)).collect();
    assert_eq!(
        keys,
        vec![
            (ImplKind::Blake3Single, 4096, Pattern::Zero),
            (ImplKind::Blake3Single, 4096, Pattern::Random),
            (ImplKind::Blake3Single, 2048, Pattern::Zero),
            (ImplKind::Blake3Single, 2048, Pattern::Random),
            (ImplKind::Blake2b256, 4096, Pattern::Zero),
            (ImplKind::Blake2b256, 4096, Pattern::Random),
            (ImplKind::Blake2b256, 2048, Pattern::Zero),
            (ImplKind::Blake2b256, 2048, Pattern::Random)
        ]
    );
}
