use blake_bench::report::{render, render_csv, render_markdown, render_tables, OutputFormat};
use blake_bench::rows::Row;
use blake_bench::selector::{ImplKind, Pattern};
use blake_bench::text::{digit, push_decimal, push_thousandths};

fn row(kind: ImplKind, size: usize, pattern: Pattern, value: u128) -> Row {
    Row { kind, size, pattern, value }
}

#[test]
fn decimal_text_of_integers() {
    for n in [0u128, 1, 9, 10, 11, 99, 100, 1024, 67_108_864, u64::MAX as u128, u128::MAX] {
        let mut out = String::from("x");
        push_decimal(&mut out, n);
        assert_eq!(out, format!("x{}", n));
    }
}

#[test]
fn thousandths_text_has_three_decimals() {
    let cases: [(u128, &str); 8] = [
        (0, "0.000"),
        (1, "0.001"),
        (10, "0.010"),
        (100, "0.100"),
        (999, "0.999"),
        (1_000, "1.000"),
        (1_953_125, "1953.125"),
        (106_667, "106.667"),
    ];
    for (v, text) in cases {
        let mut out = String::new();
        push_thousandths(&mut out, v);
        assert_eq!(out, text);
    }
}

#[test]
fn digits_are_ascii_digits() {
    for d in 0u8..10 {
        assert_eq!(digit(d), (b'0' + d) as char);
    }
}

#[test]
fn output_format_precedence() {
    assert_eq!(OutputFormat::select(false, false), OutputFormat::Tables);
    assert_eq!(OutputFormat::select(true, false), OutputFormat::Csv);
    assert_eq!(OutputFormat::select(false, true), OutputFormat::Markdown);
    assert_eq!(OutputFormat::select(true, true), OutputFormat::Csv);
}

#[test]
fn csv_of_no_rows_is_the_header() {
    assert_eq!(render_csv(&[], &[]), "kind,size,pattern,metric,value\n");
}

#[test]
fn csv_lists_throughput_before_latency() {
    let throughput = vec![
        row(ImplKind::Blake3Single, 2048, Pattern::Zero, 1_953_125),
        row(ImplKind::Blake2b256, 4096, Pattern::Random, 812_004),
    ];
    let latency = vec![
        row(ImplKind::Blake3Single, 0, Pattern::Zero, 57),
        row(ImplKind::Blake2s256, 64, Pattern::Repeat16, 0),
    ];
    assert_eq!(
        render_csv(&throughput, &latency),
        "kind,size,pattern,metric,value\n\
         blake3_single,2048,zero,mib_per_s,1953.125\n\
         blake2b_256,4096,random,mib_per_s,812.004\n\
         blake3_single,0,zero,ns_per_op,57\n\
         blake2s_256v1,64,repeat16,ns_per_op,0\n"
    );
}

#[test]
fn csv_keeps_the_order_of_recording() {
    let latency = vec![
        row(ImplKind::Blake3Single, 64, Pattern::Zero, 2),
        row(ImplKind::Blake2b256, 0, Pattern::Random, 1),
    ];
    assert_eq!(
        render_csv(&[], &latency),
        "kind,size,pattern,metric,value\n\
         blake3_single,64,zero,ns_per_op,2\n\
         blake2b_256,0,random,ns_per_op,1\n"
    );
}

#[test]
fn tables_of_no_rows_are_empty() {
    assert_eq!(render_tables(&[], &[]), "");
}

#[test]
fn tables_with_one_row_each() {
    let throughput = vec![row(ImplKind::Blake2s256, 2048, Pattern::Zero, 412_500)];
    let latency = vec![row(ImplKind::Blake2s256, 0, Pattern::Zero, 93)];
    assert_eq!(
        render_tables(&throughput, &latency),
        "\n## Throughput (MiB/s) — pattern: zero\n\n\
         | Impl | Size (B) | MiB/s |\n|------|---------:|------:|\n\
         | blake2s_256v1 | 2048 | 412.500 |\n\
         \n\
         \n## Latency (ns/op) — tiny sizes, pattern: zero\n\n\
         | Impl | Size (B) | ns/op |\n|------|---------:|-----:|\n\
         | blake2s_256v1 | 0 | 93 |\n\
         \n"
    );
}

#[test]
fn tables_group_rows_by_pattern() {
    let latency = vec![
        row(ImplKind::Blake3Single, 64, Pattern::Zero, 70),
        row(ImplKind::Blake3Single, 0, Pattern::Random, 50),
        row(ImplKind::Blake2b256, 64, Pattern::Zero, 150),
        row(ImplKind::Blake2b256, 0, Pattern::Random, 120),
        row(ImplKind::Blake3Single, 0, Pattern::Zero, 51),
    ];
    assert_eq!(
        render_tables(&[], &latency),
        "\n## Latency (ns/op) — tiny sizes, pattern: random\n\n\
         | Impl | Size (B) | ns/op |\n|------|---------:|-----:|\n\
         | blake2b_256 | 0 | 120 |\n\
         | blake3_single | 0 | 50 |\n\
         \n\
         \n## Latency (ns/op) — tiny sizes, pattern: zero\n\n\
         | Impl | Size (B) | ns/op |\n|------|---------:|-----:|\n\
         | blake3_single | 0 | 51 |\n\
         | blake2b_256 | 64 | 150 |\n\
         | blake3_single | 64 | 70 |\n\
         \n"
    );
}

#[test]
fn throughput_tables_only() {
    let throughput = vec![
        row(ImplKind::Blake3Parallel, 1_048_576, Pattern::Repeat16, 5_000_001),
        row(ImplKind::Blake3Single, 1_048_576, Pattern::Repeat16, 2_000_000),
    ];
    assert_eq!(
        render_tables(&throughput, &[]),
        "\n## Throughput (MiB/s) — pattern: repeat16\n\n\
         | Impl | Size (B) | MiB/s |\n|------|---------:|------:|\n\
         | blake3_parallel | 1048576 | 5000.001 |\n\
         | blake3_single | 1048576 | 2000.000 |\n\
         \n"
    );
}

#[test]
fn markdown_wraps_the_tables() {
    let latency = vec![row(ImplKind::Blake3Single, 0, Pattern::Zero, 51)];
    let metadata = "**Host:** test  \n\n";
    let text = render_markdown(metadata, &[], &latency);
    assert_eq!(
        text,
        format!(
            "# Hash Benchmarks (BLAKE3 vs BLAKE2)\n\n{}{}\n## Conclusion\n\
             - Summarize whether BLAKE3 ≥ BLAKE2 across sizes & platforms.\n\
             - Call out any exceptions.\n\n",
            metadata,
            render_tables(&[], &latency)
        )
    );
    assert!(text.starts_with("# Hash Benchmarks (BLAKE3 vs BLAKE2)\n\n**Host:** test  \n\n\n## Latency"));
}

#[test]
fn markdown_of_no_rows() {
    assert_eq!(
        render_markdown("", &[], &[]),
        "# Hash Benchmarks (BLAKE3 vs BLAKE2)\n\n\n## Conclusion\n\
         - Summarize whether BLAKE3 ≥ BLAKE2 across sizes & platforms.\n\
         - Call out any exceptions.\n\n"
    );
}

#[test]
fn render_follows_the_format() {
    let throughput = vec![row(ImplKind::Blake2b256, 2048, Pattern::Zero, 1_000)];
    let latency = vec![row(ImplKind::Blake2b256, 0, Pattern::Zero, 80)];
    assert_eq!(
        render(OutputFormat::Csv, "meta", &throughput, &latency),
        render_csv(&throughput, &latency)
    );
    assert_eq!(
        render(OutputFormat::Tables, "meta", &throughput, &latency),
        render_tables(&throughput, &latency)
    );
    assert_eq!(
        render(OutputFormat::Markdown, "meta", &throughput, &latency),
        render_markdown("meta", &throughput, &latency)
    );
}
