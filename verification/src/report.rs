//! Reports: the collected rows as CSV, as plain tables, or as a Markdown
//! document. Each renderer returns the whole text; writing it out is left to
//! the caller.

use crate::rows::{key_le, ordered, sort_rows, sorted_rows, Metric, Row};
use crate::selector::Pattern;
use crate::text::{decimal, push_decimal, push_thousandths, thousandths};
use vstd::prelude::*;
use vstd::string::StringExecFns;

verus! {

/// The three forms of a report.
#[derive(Clone, Copy, Debug, PartialEq, Eq, Structural)]
pub enum OutputFormat {
    Tables,
    Csv,
    Markdown,
}

impl OutputFormat {
    /// CSV wins over Markdown where both are asked for; plain tables are what
    /// is left where neither is.
    pub open spec fn select_spec(csv: bool, markdown: bool) -> OutputFormat {
        if csv {
            OutputFormat::Csv
        } else if markdown {
            OutputFormat::Markdown
        } else {
            OutputFormat::Tables
        }
    }

    /// Chooses the form of the report from the two switches.
    pub fn select(csv: bool, markdown: bool) -> (format: OutputFormat)
        ensures
            format == Self::select_spec(csv, markdown),
    {
        if csv {
            OutputFormat::Csv
        } else if markdown {
            OutputFormat::Markdown
        } else {
            OutputFormat::Tables
        }
    }
}

/// The word that names a metric in CSV.
pub open spec fn metric_tag(metric: Metric) -> Seq<char> {
    match metric {
        Metric::Throughput => "mib_per_s"@,
        Metric::Latency => "ns_per_op"@,
    }
}

/// A row's value as a report shows it: MiB per second with three decimal
/// places, nanoseconds as a whole number.
pub open spec fn value_text(value: u128, metric: Metric) -> Seq<char> {
    match metric {
        Metric::Throughput => thousandths(value as nat),
        Metric::Latency => decimal(value as nat),
    }
}

/// The first line of every CSV report.
pub open spec fn csv_header() -> Seq<char> {
    "kind,size,pattern,metric,value\n"@
}

/// One CSV line: backend, size, pattern, metric and value.
pub open spec fn csv_line(row: Row, metric: Metric) -> Seq<char> {
    row.kind.name_spec() + ","@ + decimal(row.size as nat) + ","@ + row.pattern.name_spec() + ","@
        + metric_tag(metric) + ","@ + value_text(row.value, metric) + "\n"@
}

/// The CSV lines of `rows`, in their order.
pub open spec fn csv_lines(rows: Seq<Row>, metric: Metric) -> Seq<char>
    decreases rows.len(),
{
    if rows.len() == 0 {
        Seq::empty()
    } else {
        csv_lines(rows.drop_last(), metric) + csv_line(rows.last(), metric)
    }
}

/// A CSV report: the header, every throughput row, then every latency row,
/// each group in the order in which it was recorded.
pub open spec fn csv_text(throughput: Seq<Row>, latency: Seq<Row>) -> Seq<char> {
    csv_header() + csv_lines(throughput, Metric::Throughput) + csv_lines(latency, Metric::Latency)
}

/// What a table's heading says before it names the pattern.
pub open spec fn table_title(metric: Metric) -> Seq<char> {
    match metric {
        Metric::Throughput => "\n## Throughput (MiB/s) \u{2014} pattern: "@,
        Metric::Latency => "\n## Latency (ns/op) \u{2014} tiny sizes, pattern: "@,
    }
}

/// The column heads of a table and the rule under them.
pub open spec fn table_columns(metric: Metric) -> Seq<char> {
    match metric {
        Metric::Throughput => "| Impl | Size (B) | MiB/s |\n|------|---------:|------:|\n"@,
        Metric::Latency => "| Impl | Size (B) | ns/op |\n|------|---------:|-----:|\n"@,
    }
}

/// Everything that stands above the first row of a pattern's table.
pub open spec fn table_head(pattern: Pattern, metric: Metric) -> Seq<char> {
    table_title(metric) + pattern.name_spec() + "\n\n"@ + table_columns(metric)
}

/// One table line: backend, size and value.
pub open spec fn table_line(row: Row, metric: Metric) -> Seq<char> {
    "| "@ + row.kind.name_spec() + " | "@ + decimal(row.size as nat) + " | "@ + value_text(
        row.value,
        metric,
    ) + " |\n"@
}

/// Row `i` is the first of its pattern's table.
pub open spec fn opens_table(rows: Seq<Row>, i: int) -> bool {
    i == 0 || rows[i - 1].pattern != rows[i].pattern
}

/// What row `i` adds to the text: its line, and before it, where the row
/// opens a table, that table's head. Every table but the first is set off
/// from the one before it by an empty line.
pub open spec fn table_piece(rows: Seq<Row>, i: int, metric: Metric) -> Seq<char> {
    let lead = if i == 0 {
        table_head(rows[i].pattern, metric)
    } else if opens_table(rows, i) {
        "\n"@ + table_head(rows[i].pattern, metric)
    } else {
        Seq::empty()
    };
    lead + table_line(rows[i], metric)
}

/// The text of the first `n` rows.
pub open spec fn table_body(rows: Seq<Row>, n: nat, metric: Metric) -> Seq<char>
    decreases n,
{
    if n == 0 {
        Seq::empty()
    } else {
        table_body(rows, (n - 1) as nat, metric) + table_piece(rows, n - 1, metric)
    }
}

/// The tables of one metric, for rows that stand in table order: one table
/// for each pattern that occurs, each closed by an empty line. No rows, no
/// text.
pub open spec fn tables_of(rows: Seq<Row>, metric: Metric) -> Seq<char> {
    table_body(rows, rows.len(), metric) + if rows.len() > 0 {
        "\n"@
    } else {
        Seq::empty()
    }
}

/// A plain report: the throughput tables, then the latency tables.
pub open spec fn tables_text(throughput: Seq<Row>, latency: Seq<Row>) -> Seq<char> {
    tables_of(sorted_rows(throughput), Metric::Throughput) + tables_of(
        sorted_rows(latency),
        Metric::Latency,
    )
}

/// The line that opens a Markdown report, with the empty line after it.
pub open spec fn markdown_title() -> Seq<char> {
    "# Hash Benchmarks (BLAKE3 vs BLAKE2)\n\n"@
}

/// The section that closes a Markdown report.
pub open spec fn markdown_conclusion() -> Seq<char> {
    "\n## Conclusion\n- Summarize whether BLAKE3 \u{2265} BLAKE2 across sizes & platforms.\n- Call out any exceptions.\n\n"@
}

/// A Markdown report: title, the description of the host as it was handed
/// in, the tables, and the closing section.
pub open spec fn markdown_text(metadata: Seq<char>, throughput: Seq<Row>, latency: Seq<Row>) -> Seq<
    char,
> {
    markdown_title() + metadata + tables_text(throughput, latency) + markdown_conclusion()
}

/// The report in the chosen form.
pub open spec fn report_text(
    format: OutputFormat,
    metadata: Seq<char>,
    throughput: Seq<Row>,
    latency: Seq<Row>,
) -> Seq<char> {
    match format {
        OutputFormat::Csv => csv_text(throughput, latency),
        OutputFormat::Markdown => markdown_text(metadata, throughput, latency),
        OutputFormat::Tables => tables_text(throughput, latency),
    }
}

/// Among rows in table order a pattern gets one table only: a row that opens
/// a table is of another pattern than every row before it.
pub proof fn lemma_one_table_per_pattern(rows: Seq<Row>, i: int, j: int)
    requires
        ordered(rows),
        0 <= i < j < rows.len(),
        opens_table(rows, j),
    ensures
        rows[i].pattern != rows[j].pattern,
{
    assert(key_le(rows[i], rows[j - 1]));
    assert(key_le(rows[j - 1], rows[j]));
    crate::selector::lemma_pattern_rank_orders_names(rows[j - 1].pattern, rows[j].pattern);
    crate::selector::lemma_pattern_rank_orders_names(rows[i].pattern, rows[j].pattern);
}

fn push_value(out: &mut String, value: u128, metric: Metric)
    ensures
        final(out)@ == old(out)@ + value_text(value, metric),
{
    match metric {
        Metric::Throughput => push_thousandths(out, value),
        Metric::Latency => push_decimal(out, value),
    }
}

fn push_csv_line(out: &mut String, row: &Row, metric: Metric)
    ensures
        final(out)@ == old(out)@ + csv_line(*row, metric),
{
    out.append(row.kind.name());
    out.append(",");
    push_decimal(out, row.size as u128);
    out.append(",");
    out.append(row.pattern.name());
    out.append(",");
    match metric {
        Metric::Throughput => out.append("mib_per_s"),
        Metric::Latency => out.append("ns_per_op"),
    }
    out.append(",");
    push_value(out, row.value, metric);
    out.append("\n");
    assert(out@ =~= old(out)@ + csv_line(*row, metric));
}

fn push_csv_lines(out: &mut String, rows: &[Row], metric: Metric)
    ensures
        final(out)@ == old(out)@ + csv_lines(rows@, metric),
{
    let mut i: usize = 0;
    assert(rows@.subrange(0, 0) =~= Seq::<Row>::empty());
    assert(out@ =~= old(out)@ + csv_lines(rows@.subrange(0, 0), metric));
    while i < rows.len()
        invariant
            i <= rows.len(),
            out@ == old(out)@ + csv_lines(rows@.subrange(0, i as int), metric),
        decreases rows.len() - i,
    {
        push_csv_line(out, &rows[i], metric);
        proof {
            let next = rows@.subrange(0, i + 1);
            assert(next.drop_last() =~= rows@.subrange(0, i as int));
            assert(next.last() == rows@[i as int]);
            assert(out@ =~= old(out)@ + csv_lines(next, metric));
        }
        i += 1;
    }
    assert(rows@.subrange(0, rows.len() as int) =~= rows@);
}

/// Renders the rows as CSV.
pub fn render_csv(throughput: &[Row], latency: &[Row]) -> (out: String)
    ensures
        out@ == csv_text(throughput@, latency@),
{
    let mut out = String::new();
    out.append("kind,size,pattern,metric,value\n");
    push_csv_lines(&mut out, throughput, Metric::Throughput);
    push_csv_lines(&mut out, latency, Metric::Latency);
    assert(out@ =~= csv_text(throughput@, latency@));
    out
}

fn push_table_head(out: &mut String, pattern: Pattern, metric: Metric)
    ensures
        final(out)@ == old(out)@ + table_head(pattern, metric),
{
    match metric {
        Metric::Throughput => out.append("\n## Throughput (MiB/s) \u{2014} pattern: "),
        Metric::Latency => out.append("\n## Latency (ns/op) \u{2014} tiny sizes, pattern: "),
    }
    out.append(pattern.name());
    out.append("\n\n");
    match metric {
        Metric::Throughput => out.append(
            "| Impl | Size (B) | MiB/s |\n|------|---------:|------:|\n",
        ),
        Metric::Latency => out.append("| Impl | Size (B) | ns/op |\n|------|---------:|-----:|\n"),
    }
    assert(out@ =~= old(out)@ + table_head(pattern, metric));
}

fn push_table_line(out: &mut String, row: &Row, metric: Metric)
    ensures
        final(out)@ == old(out)@ + table_line(*row, metric),
{
    out.append("| ");
    out.append(row.kind.name());
    out.append(" | ");
    push_decimal(out, row.size as u128);
    out.append(" | ");
    push_value(out, row.value, metric);
    out.append(" |\n");
    assert(out@ =~= old(out)@ + table_line(*row, metric));
}

fn push_tables(out: &mut String, rows: &Vec<Row>, metric: Metric)
    ensures
        final(out)@ == old(out)@ + tables_of(rows@, metric),
{
    let mut i: usize = 0;
    assert(out@ =~= old(out)@ + table_body(rows@, 0, metric));
    while i < rows.len()
        invariant
            i <= rows.len(),
            out@ == old(out)@ + table_body(rows@, i as nat, metric),
        decreases rows.len() - i,
    {
        let ghost before = out@;
        let row: Row = rows[i];
        if i == 0 {
            push_table_head(out, row.pattern, metric);
        } else if rows[i - 1].pattern != row.pattern {
            out.append("\n");
            push_table_head(out, row.pattern, metric);
        }
        push_table_line(out, &row, metric);
        assert(out@ =~= before + table_piece(rows@, i as int, metric));
        assert(out@ =~= old(out)@ + table_body(rows@, (i + 1) as nat, metric));
        i += 1;
    }
    if rows.len() > 0 {
        out.append("\n");
    }
    assert(out@ =~= old(out)@ + tables_of(rows@, metric));
}

fn push_all_tables(out: &mut String, throughput: &[Row], latency: &[Row])
    ensures
        final(out)@ == old(out)@ + tables_text(throughput@, latency@),
{
    let fast = sort_rows(throughput);
    push_tables(out, &fast, Metric::Throughput);
    let slow = sort_rows(latency);
    push_tables(out, &slow, Metric::Latency);
    assert(out@ =~= old(out)@ + tables_text(throughput@, latency@));
}

/// Renders the rows as plain tables, one for each metric and pattern.
pub fn render_tables(throughput: &[Row], latency: &[Row]) -> (out: String)
    ensures
        out@ == tables_text(throughput@, latency@),
{
    let mut out = String::new();
    push_all_tables(&mut out, throughput, latency);
    assert(out@ =~= tables_text(throughput@, latency@));
    out
}

/// Renders the rows as a Markdown document around `metadata`, the
/// description of the host.
pub fn render_markdown(metadata: &str, throughput: &[Row], latency: &[Row]) -> (out: String)
    ensures
        out@ == markdown_text(metadata@, throughput@, latency@),
{
    let mut out = String::new();
    out.append("# Hash Benchmarks (BLAKE3 vs BLAKE2)\n\n");
    out.append(metadata);
    push_all_tables(&mut out, throughput, latency);
    out.append(
        "\n## Conclusion\n- Summarize whether BLAKE3 \u{2265} BLAKE2 across sizes & platforms.\n- Call out any exceptions.\n\n",
    );
    assert(out@ =~= markdown_text(metadata@, throughput@, latency@));
    out
}

/// Renders the rows in the chosen form.
pub fn render(format: OutputFormat, metadata: &str, throughput: &[Row], latency: &[Row]) -> (out:
    String)
    ensures
        out@ == report_text(format, metadata@, throughput@, latency@),
{
    match format {
        OutputFormat::Csv => render_csv(throughput, latency),
        OutputFormat::Markdown => render_markdown(metadata, throughput, latency),
        OutputFormat::Tables => render_tables(throughput, latency),
    }
}

} // verus!
