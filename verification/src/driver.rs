//! The experiment driver: which cases are measured, in which order, and by
//! which protocol.
//!
//! A case is a backend, a size and a pattern. The driver makes one buffer for
//! each pair of size and pattern before anything is timed, then walks the
//! backends in the outer loop and the buffers in the inner one, and records
//! exactly one row for each case.

use crate::buffer::{make_buf, pattern_bytes};
use crate::measure::{bench_latency, bench_throughput, is_latency_trial, is_throughput_trial};
use crate::median::{median_ns, median_rate, median_spec, widened};
use crate::rows::{Metric, Row};
use crate::selector::{ImplKind, Pattern};
use vstd::prelude::*;

verus! {

/// Length of a throughput measurement where none is asked for, in milliseconds.
pub const DEFAULT_MIN_DURATION_MS: u64 = 600;

/// Trials of each case where no count is asked for.
pub const DEFAULT_TRIALS: u32 = 5;

/// Largest size that is measured by latency where no threshold is asked for.
pub const DEFAULT_LATENCY_THRESHOLD: usize = 1024;

/// What a run needs to know, settled before the first measurement.
#[derive(Debug)]
pub struct ExperimentConfig {
    pub impls: Vec<ImplKind>,
    pub patterns: Vec<Pattern>,
    pub sizes: Vec<usize>,
    pub min_duration_ms: u64,
    pub trials: u32,
    pub latency_threshold: usize,
}

/// Why a configuration cannot be run.
#[derive(Clone, Copy, Debug, PartialEq, Eq, Structural)]
pub enum ConfigError {
    /// No median can be taken of no trials.
    NoTrials,
}

/// One buffer with the size and the pattern that it was made for.
#[derive(Debug)]
pub struct Input {
    pub size: usize,
    pub pattern: Pattern,
    pub data: Vec<u8>,
}

/// One thing to measure.
pub struct Case {
    pub kind: ImplKind,
    pub size: usize,
    pub pattern: Pattern,
}

/// The rows of a run, by metric, each list in the order of measurement.
#[derive(Debug)]
pub struct Report {
    pub throughput: Vec<Row>,
    pub latency: Vec<Row>,
}

/// The sizes that are measured where none is asked for: from nothing to 64 MiB.
pub open spec fn default_sizes_spec() -> Seq<usize> {
    seq![
        0usize,
        1usize,
        32usize,
        64usize,
        128usize,
        1024usize,
        4096usize,
        16384usize,
        65536usize,
        262144usize,
        1048576usize,
        8388608usize,
        67108864usize,
    ]
}

/// The protocol for an input of `size` bytes: latency up to the threshold,
/// the threshold included, and throughput above it.
pub open spec fn route_spec(size: usize, threshold: usize) -> Metric {
    if size <= threshold {
        Metric::Latency
    } else {
        Metric::Throughput
    }
}

/// The pairs of a size and a pattern in the order in which their buffers are
/// made: sizes in the outer loop, patterns in the inner one.
pub open spec fn pairs(sizes: Seq<usize>, patterns: Seq<Pattern>) -> Seq<(usize, Pattern)>
    decreases sizes.len(),
{
    if sizes.len() == 0 {
        Seq::empty()
    } else {
        pairs(sizes.drop_last(), patterns) + Seq::new(
            patterns.len(),
            |j: int| (sizes.last(), patterns[j]),
        )
    }
}

/// One backend on every pair.
pub open spec fn cases_of(kind: ImplKind, inputs: Seq<(usize, Pattern)>) -> Seq<Case> {
    Seq::new(inputs.len(), |j: int| Case { kind, size: inputs[j].0, pattern: inputs[j].1 })
}

/// Every case in the order of measurement: backends in the outer loop, pairs
/// in the inner one.
pub open spec fn cases(impls: Seq<ImplKind>, inputs: Seq<(usize, Pattern)>) -> Seq<Case>
    decreases impls.len(),
{
    if impls.len() == 0 {
        Seq::empty()
    } else {
        cases(impls.drop_last(), inputs) + cases_of(impls.last(), inputs)
    }
}

/// The cases that go to one protocol.
pub open spec fn routed_to(metric: Metric, threshold: usize) -> spec_fn(Case) -> bool {
    |c: Case| route_spec(c.size, threshold) == metric
}

/// What a row measured.
pub open spec fn case_of(row: Row) -> Case {
    Case { kind: row.kind, size: row.size, pattern: row.pattern }
}

/// What each of the rows measured.
pub open spec fn cases_in(rows: Seq<Row>) -> Seq<Case> {
    Seq::new(rows.len(), |i: int| case_of(rows[i]))
}

/// `value` can be the latency of an input of `len` bytes: the median of as
/// many latency trials as were asked for.
pub open spec fn is_latency_value(len: nat, trials: u32, value: u128) -> bool {
    exists|runs: Seq<u64>|
        {
            &&& runs.len() == trials
            &&& forall|i: int| 0 <= i < runs.len() ==> is_latency_trial(len, #[trigger] runs[i])
            &&& value == median_spec(#[trigger] widened(runs))
        }
}

/// `value` can be the throughput of an input of `len` bytes: the median of
/// as many throughput trials as were asked for.
pub open spec fn is_throughput_value(
    len: nat,
    min_duration_ms: u64,
    trials: u32,
    value: u128,
) -> bool {
    exists|runs: Seq<u128>|
        {
            &&& runs.len() == trials
            &&& forall|i: int|
                0 <= i < runs.len() ==> is_throughput_trial(len, min_duration_ms, #[trigger] runs[i])
            &&& value == #[trigger] median_spec(runs)
        }
}

/// The value of `row` can be what its metric comes to for an input of the
/// row's size.
pub open spec fn is_measured(row: Row, metric: Metric, min_duration_ms: u64, trials: u32) -> bool {
    match metric {
        Metric::Latency => is_latency_value(row.size as nat, trials, row.value),
        Metric::Throughput => is_throughput_value(
            row.size as nat,
            min_duration_ms,
            trials,
            row.value,
        ),
    }
}

/// The size and the pattern of each of the inputs.
pub open spec fn pairs_in(inputs: Seq<Input>) -> Seq<(usize, Pattern)> {
    Seq::new(inputs.len(), |i: int| (inputs[i].size, inputs[i].pattern))
}

/// There is one pair for each size and pattern, and the pair of the size at
/// place `s` and the pattern at place `p` stands at place `s * P + p`, where
/// `P` counts the patterns.
pub proof fn lemma_pairs_index(sizes: Seq<usize>, patterns: Seq<Pattern>, s: int, p: int)
    requires
        0 <= s < sizes.len(),
        0 <= p < patterns.len(),
    ensures
        pairs(sizes, patterns).len() == sizes.len() * patterns.len(),
        0 <= s * patterns.len() + p < pairs(sizes, patterns).len(),
        pairs(sizes, patterns)[s * patterns.len() + p] == (sizes[s], patterns[p]),
    decreases sizes.len(),
{
    let count = patterns.len() as int;
    let front = sizes.drop_last();
    lemma_pairs_len(front, patterns);
    lemma_pairs_len(sizes, patterns);
    assert(front.len() * count + count == sizes.len() * count) by (nonlinear_arith)
        requires
            front.len() + 1 == sizes.len(),
    ;
    if s == sizes.len() - 1 {
        assert(s * count == front.len() * count);
    } else {
        lemma_pairs_index(front, patterns, s, p);
        assert(s * count + p < front.len() * count) by (nonlinear_arith)
            requires
                0 <= s < front.len(),
                0 <= p < count,
        ;
    }
    assert(0 <= s * count) by (nonlinear_arith)
        requires
            0 <= s,
            0 <= count,
    ;
}

/// There are as many pairs as sizes times patterns.
pub proof fn lemma_pairs_len(sizes: Seq<usize>, patterns: Seq<Pattern>)
    ensures
        pairs(sizes, patterns).len() == sizes.len() * patterns.len(),
    decreases sizes.len(),
{
    let count = patterns.len() as int;
    if sizes.len() > 0 {
        let front = sizes.drop_last();
        lemma_pairs_len(front, patterns);
        assert(front.len() * count + count == sizes.len() * count) by (nonlinear_arith)
            requires
                front.len() + 1 == sizes.len(),
        ;
    } else {
        assert(sizes.len() * count == 0) by (nonlinear_arith)
            requires
                sizes.len() == 0,
        ;
    }
}

/// There are as many cases as backends times inputs.
pub proof fn lemma_cases_len(impls: Seq<ImplKind>, inputs: Seq<(usize, Pattern)>)
    ensures
        cases(impls, inputs).len() == impls.len() * inputs.len(),
    decreases impls.len(),
{
    let count = inputs.len() as int;
    if impls.len() > 0 {
        let front = impls.drop_last();
        lemma_cases_len(front, inputs);
        assert(front.len() * count + count == impls.len() * count) by (nonlinear_arith)
            requires
                front.len() + 1 == impls.len(),
        ;
    } else {
        assert(impls.len() * count == 0) by (nonlinear_arith)
            requires
                impls.len() == 0,
        ;
    }
}

/// The case of the backend at place `i` and the input at place `j` stands at
/// place `i * N + j`, where `N` counts the inputs.
pub proof fn lemma_cases_index(
    impls: Seq<ImplKind>,
    inputs: Seq<(usize, Pattern)>,
    i: int,
    j: int,
)
    requires
        0 <= i < impls.len(),
        0 <= j < inputs.len(),
    ensures
        cases(impls, inputs).len() == impls.len() * inputs.len(),
        0 <= i * inputs.len() + j < cases(impls, inputs).len(),
        cases(impls, inputs)[i * inputs.len() + j] == (Case {
            kind: impls[i],
            size: inputs[j].0,
            pattern: inputs[j].1,
        }),
    decreases impls.len(),
{
    let count = inputs.len() as int;
    let front = impls.drop_last();
    lemma_cases_len(front, inputs);
    lemma_cases_len(impls, inputs);
    assert(front.len() * count + count == impls.len() * count) by (nonlinear_arith)
        requires
            front.len() + 1 == impls.len(),
    ;
    if i == impls.len() - 1 {
        assert(i * count == front.len() * count);
    } else {
        lemma_cases_index(front, inputs, i, j);
        assert(i * count + j < front.len() * count) by (nonlinear_arith)
            requires
                0 <= i < front.len(),
                0 <= j < count,
        ;
    }
    assert(0 <= i * count) by (nonlinear_arith)
        requires
            0 <= i,
            0 <= count,
    ;
}

/// The plan holds every combination of a backend, a size and a pattern
/// exactly once: there are `I * S * P` cases, and the one of backend `i`,
/// size `s` and pattern `p` stands at place `(i * S + s) * P + p`.
pub proof fn lemma_plan_index(
    impls: Seq<ImplKind>,
    sizes: Seq<usize>,
    patterns: Seq<Pattern>,
    i: int,
    s: int,
    p: int,
)
    requires
        0 <= i < impls.len(),
        0 <= s < sizes.len(),
        0 <= p < patterns.len(),
    ensures
        cases(impls, pairs(sizes, patterns)).len() == impls.len() * sizes.len() * patterns.len(),
        0 <= (i * sizes.len() + s) * patterns.len() + p < cases(
            impls,
            pairs(sizes, patterns),
        ).len(),
        cases(impls, pairs(sizes, patterns))[(i * sizes.len() + s) * patterns.len() + p] == (Case {
            kind: impls[i],
            size: sizes[s],
            pattern: patterns[p],
        }),
{
    let inputs = pairs(sizes, patterns);
    let many = sizes.len() as int;
    let count = patterns.len() as int;
    lemma_pairs_index(sizes, patterns, s, p);
    lemma_cases_index(impls, inputs, i, s * count + p);
    assert(i * (many * count) + (s * count + p) == (i * many + s) * count + p)
        by (nonlinear_arith);
    assert(impls.len() * (many * count) == impls.len() * many * count) by (nonlinear_arith);
}

/// Every case goes to exactly one protocol, so the two lists of a report
/// hold as many rows as the plan has cases.
pub proof fn lemma_routing_partitions(plan: Seq<Case>, threshold: usize)
    ensures
        plan.filter(routed_to(Metric::Latency, threshold)).len() + plan.filter(
            routed_to(Metric::Throughput, threshold),
        ).len() == plan.len(),
        forall|c: Case|
            #[trigger] routed_to(Metric::Latency, threshold)(c) != routed_to(
                Metric::Throughput,
                threshold,
            )(c),
    decreases plan.len(),
{
    reveal(Seq::filter);
    if plan.len() > 0 {
        lemma_routing_partitions(plan.drop_last(), threshold);
    }
}

impl Input {
    /// The buffer is the one that the size and the pattern stand for.
    pub open spec fn wf(&self) -> bool {
        &&& self.data@.len() == self.size
        &&& self.data@ == pattern_bytes(self.size as nat, self.pattern)
    }
}

impl ExperimentConfig {
    /// Every case of this configuration, in the order of measurement.
    pub open spec fn plan(&self) -> Seq<Case> {
        cases(self.impls@, pairs(self.sizes@, self.patterns@))
    }

    /// Settles a configuration from what was asked for. An empty list of
    /// backends, patterns or sizes stands for the default list. A run of no
    /// trials is refused.
    pub fn resolve(
        impls: Vec<ImplKind>,
        patterns: Vec<Pattern>,
        sizes: Vec<usize>,
        min_duration_ms: u64,
        trials: u32,
        latency_threshold: usize,
        include_parallel: bool,
    ) -> (settled: Result<ExperimentConfig, ConfigError>)
        ensures
            trials == 0 <==> settled == Err::<ExperimentConfig, ConfigError>(ConfigError::NoTrials),
            trials > 0 <==> settled is Ok,
            settled matches Ok(config) ==> {
                &&& config.impls@ == if impls@.len() == 0 {
                    ImplKind::all_spec(include_parallel)
                } else {
                    impls@
                }
                &&& config.patterns@ == if patterns@.len() == 0 {
                    Pattern::all_spec()
                } else {
                    patterns@
                }
                &&& config.sizes@ == if sizes@.len() == 0 {
                    default_sizes_spec()
                } else {
                    sizes@
                }
                &&& config.min_duration_ms == min_duration_ms
                &&& config.trials == trials
                &&& config.latency_threshold == latency_threshold
            },
    {
        if trials == 0 {
            return Err(ConfigError::NoTrials);
        }
        let impls = if impls.len() == 0 {
            ImplKind::all(include_parallel)
        } else {
            impls
        };
        let patterns = if patterns.len() == 0 {
            vstd::slice::slice_to_vec(Pattern::all())
        } else {
            patterns
        };
        let sizes = if sizes.len() == 0 {
            default_sizes()
        } else {
            sizes
        };
        Ok(ExperimentConfig { impls, patterns, sizes, min_duration_ms, trials, latency_threshold })
    }
}

impl ConfigError {
    /// The error in words.
    pub fn message(&self) -> (text: &'static str)
        ensures
            text@ == "the number of trials must be at least 1"@,
    {
        match self {
            ConfigError::NoTrials => "the number of trials must be at least 1",
        }
    }
}

/// The sizes that are measured where none is asked for.
pub fn default_sizes() -> (sizes: Vec<usize>)
    ensures
        sizes@ == default_sizes_spec(),
{
    let mut sizes: Vec<usize> = Vec::new();
    sizes.push(0);
    sizes.push(1);
    sizes.push(32);
    sizes.push(64);
    sizes.push(128);
    sizes.push(1024);
    sizes.push(4 * 1024);
    sizes.push(16 * 1024);
    sizes.push(64 * 1024);
    sizes.push(256 * 1024);
    sizes.push(1024 * 1024);
    sizes.push(8 * 1024 * 1024);
    sizes.push(64 * 1024 * 1024);
    assert(sizes@ =~= default_sizes_spec());
    sizes
}

/// Chooses the protocol for an input of `size` bytes.
pub fn route(size: usize, threshold: usize) -> (metric: Metric)
    ensures
        metric == route_spec(size, threshold),
        metric == Metric::Latency <==> size <= threshold,
        metric == Metric::Throughput <==> size > threshold,
{
    if size <= threshold {
        Metric::Latency
    } else {
        Metric::Throughput
    }
}

/// Makes the buffer for every pair of a size and a pattern, sizes in the
/// outer loop.
pub fn make_inputs(sizes: &[usize], patterns: &[Pattern]) -> (inputs: Vec<Input>)
    ensures
        pairs_in(inputs@) == pairs(sizes@, patterns@),
        forall|k: int| 0 <= k < inputs@.len() ==> (#[trigger] inputs@[k]).wf(),
{
    let mut inputs: Vec<Input> = Vec::new();
    let mut i: usize = 0;
    assert(sizes@.subrange(0, 0) =~= Seq::<usize>::empty());
    assert(pairs_in(inputs@) =~= pairs(sizes@.subrange(0, 0), patterns@));
    while i < sizes.len()
        invariant
            i <= sizes.len(),
            pairs_in(inputs@) == pairs(sizes@.subrange(0, i as int), patterns@),
            forall|k: int| 0 <= k < inputs@.len() ==> (#[trigger] inputs@[k]).wf(),
        decreases sizes.len() - i,
    {
        let size: usize = sizes[i];
        let ghost before = pairs_in(inputs@);
        let mut j: usize = 0;
        assert(pairs_in(inputs@) =~= before + Seq::new(0, |x: int| (size, patterns@[x])));
        while j < patterns.len()
            invariant
                j <= patterns.len(),
                pairs_in(inputs@) == before + Seq::new(j as nat, |x: int| (size, patterns@[x])),
                forall|k: int| 0 <= k < inputs@.len() ==> (#[trigger] inputs@[k]).wf(),
            decreases patterns.len() - j,
        {
            let pattern: Pattern = patterns[j];
            let data = make_buf(size, pattern);
            let ghost made = inputs@;
            inputs.push(Input { size, pattern, data });
            assert(pairs_in(inputs@) =~= pairs_in(made).push((size, pattern)));
            assert(pairs_in(inputs@) =~= before + Seq::new(
                (j + 1) as nat,
                |x: int| (size, patterns@[x]),
            ));
            j += 1;
        }
        proof {
            let next = sizes@.subrange(0, i + 1);
            assert(next.drop_last() =~= sizes@.subrange(0, i as int));
            assert(next.last() == size);
        }
        i += 1;
    }
    assert(sizes@.subrange(0, sizes.len() as int) =~= sizes@);
    inputs
}

/// Measures one case by the protocol that its size asks for and returns the
/// median of the trials as a row.
pub fn measure_case(
    kind: ImplKind,
    input: &Input,
    trials: u32,
    min_duration_ms: u64,
    latency_threshold: usize,
) -> (measured: (Metric, Row))
    requires
        trials > 0,
        input.wf(),
    ensures
        measured.0 == route_spec(input.size, latency_threshold),
        case_of(measured.1) == (Case { kind, size: input.size, pattern: input.pattern }),
        is_measured(measured.1, measured.0, min_duration_ms, trials),
{
    let data: &Vec<u8> = &input.data;
    let ghost len = input.size as nat;
    match route(input.size, latency_threshold) {
        Metric::Latency => {
            let once = || -> (ns: u64)
                ensures
                    is_latency_trial(len, ns),
                { bench_latency(kind, data.as_slice()) };
            let value = median_ns(once, trials);
            proof {
                let runs = choose|runs: Seq<u64>|
                    {
                        &&& runs.len() == trials
                        &&& forall|i: int|
                            0 <= i < runs.len() ==> call_ensures(once, (), #[trigger] runs[i])
                        &&& value == median_spec(widened(runs))
                    };
                assert forall|i: int| 0 <= i < runs.len() implies is_latency_trial(
                    len,
                    #[trigger] runs[i],
                ) by {
                    assert(call_ensures(once, (), runs[i]));
                }
                crate::median::lemma_median_is_a_trial(widened(runs));
                let k = widened(runs).index_of(median_spec(widened(runs)));
                assert(widened(runs)[k] == runs[k] as u128);
                assert(is_latency_value(len, trials, value as u128));
            }
            (
                Metric::Latency,
                Row { kind, size: input.size, pattern: input.pattern, value: value as u128 },
            )
        },
        Metric::Throughput => {
            let once = || -> (rate: u128)
                ensures
                    is_throughput_trial(len, min_duration_ms, rate),
                { bench_throughput(kind, data.as_slice(), min_duration_ms) };
            let value = median_rate(once, trials);
            proof {
                let runs = choose|runs: Seq<u128>|
                    {
                        &&& runs.len() == trials
                        &&& forall|i: int|
                            0 <= i < runs.len() ==> call_ensures(once, (), #[trigger] runs[i])
                        &&& value == median_spec(runs)
                    };
                assert forall|i: int| 0 <= i < runs.len() implies is_throughput_trial(
                    len,
                    min_duration_ms,
                    #[trigger] runs[i],
                ) by {
                    assert(call_ensures(once, (), runs[i]));
                }
                assert(is_throughput_value(len, min_duration_ms, trials, value));
            }
            (Metric::Throughput, Row { kind, size: input.size, pattern: input.pattern, value })
        },
    }
}

/// Measures every backend on every input and files each row under its
/// metric.
pub fn measure_all(
    impls: &[ImplKind],
    inputs: &[Input],
    trials: u32,
    min_duration_ms: u64,
    latency_threshold: usize,
) -> (report: Report)
    requires
        trials > 0,
        forall|k: int| 0 <= k < inputs@.len() ==> (#[trigger] inputs@[k]).wf(),
    ensures
        cases_in(report.latency@) == cases(impls@, pairs_in(inputs@)).filter(
            routed_to(Metric::Latency, latency_threshold),
        ),
        cases_in(report.throughput@) == cases(impls@, pairs_in(inputs@)).filter(
            routed_to(Metric::Throughput, latency_threshold),
        ),
        forall|k: int|
            0 <= k < report.latency@.len() ==> is_measured(
                #[trigger] report.latency@[k],
                Metric::Latency,
                min_duration_ms,
                trials,
            ),
        forall|k: int|
            0 <= k < report.throughput@.len() ==> is_measured(
                #[trigger] report.throughput@[k],
                Metric::Throughput,
                min_duration_ms,
                trials,
            ),
{
    let ghost slow = routed_to(Metric::Latency, latency_threshold);
    let ghost fast = routed_to(Metric::Throughput, latency_threshold);
    let ghost keys = pairs_in(inputs@);
    let mut throughput: Vec<Row> = Vec::new();
    let mut latency: Vec<Row> = Vec::new();
    let mut i: usize = 0;
    proof {
        reveal(Seq::filter);
        assert(impls@.subrange(0, 0) =~= Seq::<ImplKind>::empty());
        assert(cases_in(latency@) =~= cases(impls@.subrange(0, 0), keys).filter(slow));
        assert(cases_in(throughput@) =~= cases(impls@.subrange(0, 0), keys).filter(fast));
    }
    while i < impls.len()
        invariant
            i <= impls.len(),
            trials > 0,
            slow == routed_to(Metric::Latency, latency_threshold),
            fast == routed_to(Metric::Throughput, latency_threshold),
            keys == pairs_in(inputs@),
            forall|k: int| 0 <= k < inputs@.len() ==> (#[trigger] inputs@[k]).wf(),
            forall|k: int|
                0 <= k < latency@.len() ==> is_measured(
                    #[trigger] latency@[k],
                    Metric::Latency,
                    min_duration_ms,
                    trials,
                ),
            forall|k: int|
                0 <= k < throughput@.len() ==> is_measured(
                    #[trigger] throughput@[k],
                    Metric::Throughput,
                    min_duration_ms,
                    trials,
                ),
            cases_in(latency@) == cases(impls@.subrange(0, i as int), keys).filter(slow),
            cases_in(throughput@) == cases(impls@.subrange(0, i as int), keys).filter(fast),
        decreases impls.len() - i,
    {
        let kind: ImplKind = impls[i];
        let ghost done = cases(impls@.subrange(0, i as int), keys);
        let mut j: usize = 0;
        proof {
            assert(done + cases_of(kind, keys).subrange(0, 0) =~= done);
        }
        while j < inputs.len()
            invariant
                j <= inputs.len(),
                trials > 0,
                slow == routed_to(Metric::Latency, latency_threshold),
                fast == routed_to(Metric::Throughput, latency_threshold),
                keys == pairs_in(inputs@),
                forall|k: int| 0 <= k < inputs@.len() ==> (#[trigger] inputs@[k]).wf(),
                forall|k: int|
                    0 <= k < latency@.len() ==> is_measured(
                        #[trigger] latency@[k],
                        Metric::Latency,
                        min_duration_ms,
                        trials,
                    ),
                forall|k: int|
                    0 <= k < throughput@.len() ==> is_measured(
                        #[trigger] throughput@[k],
                        Metric::Throughput,
                        min_duration_ms,
                        trials,
                    ),
                cases_in(latency@) == (done + cases_of(kind, keys).subrange(0, j as int)).filter(
                    slow,
                ),
                cases_in(throughput@) == (done + cases_of(kind, keys).subrange(
                    0,
                    j as int,
                )).filter(fast),
            decreases inputs.len() - j,
        {
            let ghost old_latency = latency@;
            let ghost old_throughput = throughput@;
            let measured = measure_case(kind, &inputs[j], trials, min_duration_ms, latency_threshold);
            match measured.0 {
                Metric::Latency => latency.push(measured.1),
                Metric::Throughput => throughput.push(measured.1),
            }
            proof {
                reveal(Seq::filter);
                let c = case_of(measured.1);
                let prev = done + cases_of(kind, keys).subrange(0, j as int);
                let next = done + cases_of(kind, keys).subrange(0, j + 1);
                assert(cases_of(kind, keys)[j as int] == c);
                assert(next =~= prev.push(c));
                assert(next.drop_last() =~= prev);
                assert(next.last() == c);
                if measured.0 == Metric::Latency {
                    assert(slow(c) && !fast(c));
                    assert(cases_in(latency@) =~= cases_in(old_latency).push(c));
                } else {
                    assert(fast(c) && !slow(c));
                    assert(cases_in(throughput@) =~= cases_in(old_throughput).push(c));
                }
            }
            j += 1;
        }
        proof {
            let next = impls@.subrange(0, i + 1);
            assert(next.drop_last() =~= impls@.subrange(0, i as int));
            assert(next.last() == kind);
            assert(cases_of(kind, keys).subrange(0, inputs.len() as int) =~= cases_of(kind, keys));
        }
        i += 1;
    }
    assert(impls@.subrange(0, impls.len() as int) =~= impls@);
    Report { throughput, latency }
}

/// Runs the whole experiment: every buffer is made first, then every case of
/// the plan is measured once, in plan order. Cases of a size up to the
/// threshold become latency rows, the others throughput rows.
pub fn run(config: &ExperimentConfig) -> (report: Report)
    requires
        config.trials > 0,
    ensures
        cases_in(report.latency@) == config.plan().filter(
            routed_to(Metric::Latency, config.latency_threshold),
        ),
        cases_in(report.throughput@) == config.plan().filter(
            routed_to(Metric::Throughput, config.latency_threshold),
        ),
        report.latency@.len() + report.throughput@.len() == config.impls@.len()
            * config.sizes@.len() * config.patterns@.len(),
        forall|k: int|
            0 <= k < report.latency@.len() ==> (#[trigger] report.latency@[k]).size
                <= config.latency_threshold,
        forall|k: int|
            0 <= k < report.throughput@.len() ==> (#[trigger] report.throughput@[k]).size
                > config.latency_threshold,
        forall|k: int|
            0 <= k < report.latency@.len() ==> is_measured(
                #[trigger] report.latency@[k],
                Metric::Latency,
                config.min_duration_ms,
                config.trials,
            ),
        forall|k: int|
            0 <= k < report.throughput@.len() ==> is_measured(
                #[trigger] report.throughput@[k],
                Metric::Throughput,
                config.min_duration_ms,
                config.trials,
            ),
{
    proof {
        let plan = config.plan();
        lemma_routing_partitions(plan, config.latency_threshold);
        lemma_cases_len(config.impls@, pairs(config.sizes@, config.patterns@));
        lemma_pairs_len(config.sizes@, config.patterns@);
        assert(config.impls@.len() * (config.sizes@.len() * config.patterns@.len())
            == config.impls@.len() * config.sizes@.len() * config.patterns@.len())
            by (nonlinear_arith);
    }
    let inputs = make_inputs(config.sizes.as_slice(), config.patterns.as_slice());
    let report = measure_all(
        config.impls.as_slice(),
        inputs.as_slice(),
        config.trials,
        config.min_duration_ms,
        config.latency_threshold,
    );
    proof {
        let slow = routed_to(Metric::Latency, config.latency_threshold);
        let fast = routed_to(Metric::Throughput, config.latency_threshold);
        assert forall|k: int| 0 <= k < report.latency@.len() implies (
        #[trigger] report.latency@[k]).size <= config.latency_threshold by {
            config.plan().lemma_filter_pred(slow, k);
            assert(cases_in(report.latency@)[k] == case_of(report.latency@[k]));
        }
        assert forall|k: int| 0 <= k < report.throughput@.len() implies (
        #[trigger] report.throughput@[k]).size > config.latency_threshold by {
            config.plan().lemma_filter_pred(fast, k);
            assert(cases_in(report.throughput@)[k] == case_of(report.throughput@[k]));
        }
    }
    report
}

} // verus!
