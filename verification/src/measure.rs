//! The two measurement protocols: latency for small inputs, throughput for
//! large ones.
//!
//! Whatever the clock reads, each protocol calls the digest a set number of
//! times or until a window has passed, and turns a call count and an elapsed
//! time into its metric by a fixed formula. The formulas are functions of
//! plain numbers and are stated exactly.

use crate::clock::nanos_since;
use crate::digest::digest_once;
use crate::selector::ImplKind;
use std::time::Instant;
use vstd::prelude::*;

verus! {

/// Untimed calls that precede a latency measurement.
pub const LATENCY_WARMUP_CALLS: u64 = 10_000;

/// Inputs of at most this many bytes get the larger number of timed calls.
pub const TINY_INPUT_BYTES: usize = 64;

/// Timed calls for inputs of at most `TINY_INPUT_BYTES` bytes.
pub const TINY_INPUT_CALLS: u64 = 2_000_000;

/// Timed calls for larger inputs.
pub const SMALL_INPUT_CALLS: u64 = 500_000;

/// Length of the untimed phase that precedes a throughput measurement.
pub const THROUGHPUT_WARMUP_NANOS: u128 = 100_000_000;

/// Nanoseconds in one millisecond.
pub const NANOS_PER_MILLI: u128 = 1_000_000;

/// Bytes in one MiB.
pub const MIB: u128 = 1_048_576;

/// Thousandths of a unit per second, for a count per nanosecond.
pub const MILLI_PER_NANO: u128 = 1_000_000_000_000;

/// A window of this many nanoseconds or more is so long that no count of 64
/// bits makes a rate of half a thousandth over it.
pub const LONGEST_WINDOW_NANOS: u128 = 0x1_0000_0000_0000_0000_0000_0000;

/// Timed calls of a latency measurement on an input of `len` bytes.
pub open spec fn latency_calls_spec(len: nat) -> nat {
    if len <= TINY_INPUT_BYTES {
        TINY_INPUT_CALLS as nat
    } else {
        SMALL_INPUT_CALLS as nat
    }
}

/// Mean time of one call in whole nanoseconds, rounded down and cut to 64 bits.
pub open spec fn ns_per_op_spec(elapsed_nanos: nat, calls: nat) -> nat
    recommends
        calls > 0,
{
    (elapsed_nanos / calls) % 0x1_0000_0000_0000_0000
}

/// Rate in thousandths of a MiB per second, rounded to the nearest
/// thousandth, a half upwards: bytes over `2^20` over seconds, times 1000.
pub open spec fn milli_mib_per_s_spec(total_bytes: nat, elapsed_nanos: nat) -> nat
    recommends
        elapsed_nanos > 0,
{
    let scaled = total_bytes * MILLI_PER_NANO as nat;
    let unit = MIB as nat * elapsed_nanos;
    (2 * scaled + unit) / (2 * unit)
}

/// What one window of repeated digest calls came to.
#[derive(Clone, Copy, Debug)]
pub struct WindowSample {
    /// Digest calls that were made.
    pub calls: u64,
    /// Bytes that those calls hashed.
    pub total_bytes: u64,
    /// The clock reading that ended the window, in nanoseconds from its start.
    pub elapsed_nanos: u128,
}

/// The number of timed calls for an input of `len` bytes.
pub fn latency_calls(len: usize) -> (calls: u64)
    ensures
        calls == latency_calls_spec(len as nat),
        calls > 0,
{
    if len <= TINY_INPUT_BYTES {
        TINY_INPUT_CALLS
    } else {
        SMALL_INPUT_CALLS
    }
}

/// Mean time of one call, from the time that `calls` calls took together.
pub fn ns_per_op(elapsed_nanos: u128, calls: u64) -> (ns: u64)
    requires
        calls > 0,
    ensures
        ns == ns_per_op_spec(elapsed_nanos as nat, calls as nat),
{
    let mean: u128 = elapsed_nanos / (calls as u128);
    let ns: u64 = #[verifier::truncate]
    (mean as u64);
    assert(ns == mean % 0x1_0000_0000_0000_0000u128) by (bit_vector)
        requires
            ns == mean as u64,
    ;
    ns
}

/// The rate at which `total_bytes` went by in `elapsed_nanos`, in thousandths of
/// a MiB per second.
pub fn milli_mib_per_s(total_bytes: u64, elapsed_nanos: u128) -> (rate: u128)
    requires
        elapsed_nanos > 0,
    ensures
        rate == milli_mib_per_s_spec(total_bytes as nat, elapsed_nanos as nat),
{
    let scaled: u128 = (total_bytes as u128) * MILLI_PER_NANO;
    if elapsed_nanos >= LONGEST_WINDOW_NANOS {
        proof {
            let unit = MIB as int * elapsed_nanos as int;
            vstd::arithmetic::div_mod::lemma_basic_div(2 * scaled as int + unit, 2 * unit);
        }
        0
    } else {
        let unit: u128 = MIB * elapsed_nanos;
        (2 * scaled + unit) / (2 * unit)
    }
}

/// `ns` can be what a latency trial on an input of `len` bytes reports: the
/// mean over the timed calls of some elapsed time.
pub open spec fn is_latency_trial(len: nat, ns: u64) -> bool {
    exists|elapsed_nanos: nat|
        ns == #[trigger] ns_per_op_spec(elapsed_nanos, latency_calls_spec(len))
}

/// `rate` can be what a throughput trial on an input of `len` bytes reports:
/// the rate of a window of whole calls that lasted as long as was asked for,
/// or ended at the limit of its counters.
pub open spec fn is_throughput_trial(len: nat, min_window_ms: u64, rate: u128) -> bool {
    exists|sample: WindowSample|
        {
            &&& sample.total_bytes == sample.calls * len
            &&& sample.elapsed_nanos >= min_window_ms * NANOS_PER_MILLI || sample.calls
                == u64::MAX || sample.total_bytes + len > u64::MAX
            &&& rate == #[trigger] sample_rate(sample)
        }
}

/// Times `latency_calls` digest calls on `data`, after an untimed warm-up,
/// and reports the mean time of one call in nanoseconds.
pub fn bench_latency(kind: ImplKind, data: &[u8]) -> (ns: u64)
    ensures
        is_latency_trial(data@.len(), ns),
{
    let target: u64 = latency_calls(data.len());
    let mut sink: [u8; 32] = [0u8; 32];
    let mut warm: u64 = 0;
    while warm < LATENCY_WARMUP_CALLS
        invariant
            warm <= LATENCY_WARMUP_CALLS,
        decreases LATENCY_WARMUP_CALLS - warm,
    {
        sink = digest_once(kind, data);
        warm += 1;
    }
    let start = Instant::now();
    let mut done: u64 = 0;
    while done < target
        invariant
            done <= target,
        decreases target - done,
    {
        sink = digest_once(kind, data);
        std::hint::black_box(&sink);
        done += 1;
    }
    let elapsed: u128 = nanos_since(&start);
    let ns = ns_per_op(elapsed, target);
    assert(ns == ns_per_op_spec(elapsed as nat, latency_calls_spec(data@.len())));
    ns
}

/// Calls the digest on `data` over and over until the clock, read before each
/// call, shows that `window_nanos` have passed. The window is never cut short
/// in the middle of a call. It ends early only where one more call would take
/// the call count or the byte count past 64 bits.
pub fn measure_window(kind: ImplKind, data: &[u8], window_nanos: u128) -> (sample: WindowSample)
    ensures
        sample.total_bytes == sample.calls * data@.len(),
        sample.elapsed_nanos >= window_nanos || sample.calls == u64::MAX || sample.total_bytes
            + data@.len() > u64::MAX,
        window_nanos == 0 ==> sample.calls == 0,
{
    let len: usize = data.len();
    let mut calls: u64 = 0;
    let mut total: u64 = 0;
    let mut sink: [u8; 32] = [0u8; 32];
    let start = Instant::now();
    let mut elapsed: u128 = nanos_since(&start);
    while elapsed < window_nanos && calls < u64::MAX && len as u64 <= u64::MAX - total
        invariant
            len == data@.len(),
            total == calls * len,
            window_nanos == 0 ==> calls == 0,
        decreases u64::MAX - calls,
    {
        sink = digest_once(kind, data);
        assert((calls + 1) * len == calls * len + len) by (nonlinear_arith);
        total += len as u64;
        calls += 1;
        std::hint::black_box(&sink);
        elapsed = nanos_since(&start);
    }
    WindowSample { calls, total_bytes: total, elapsed_nanos: elapsed }
}

/// The rate that a window came to. A window that the clock read as no time at
/// all counts as one nanosecond.
pub open spec fn sample_rate(sample: WindowSample) -> nat {
    milli_mib_per_s_spec(
        sample.total_bytes as nat,
        if sample.elapsed_nanos == 0 {
            1
        } else {
            sample.elapsed_nanos as nat
        },
    )
}

/// The rate that a window came to, in thousandths of a MiB per second.
pub fn rate_of(sample: &WindowSample) -> (rate: u128)
    ensures
        rate == sample_rate(*sample),
{
    let nanos: u128 = if sample.elapsed_nanos == 0 {
        1
    } else {
        sample.elapsed_nanos
    };
    milli_mib_per_s(sample.total_bytes, nanos)
}

/// Warms up for a tenth of a second, then hashes `data` for at least
/// `min_window_ms` milliseconds and reports the rate in thousandths of a MiB
/// per second. The rate is that of some window that met the contract of
/// `measure_window`; which one, the clock decides.
pub fn bench_throughput(kind: ImplKind, data: &[u8], min_window_ms: u64) -> (rate: u128)
    ensures
        is_throughput_trial(data@.len(), min_window_ms, rate),
{
    let window: u128 = (min_window_ms as u128) * NANOS_PER_MILLI;
    let _warm = measure_window(kind, data, THROUGHPUT_WARMUP_NANOS);
    let sample = measure_window(kind, data, window);
    let rate = rate_of(&sample);
    assert(rate == sample_rate(sample));
    rate
}

} // verus!
