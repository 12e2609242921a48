use vstd::prelude::*;

use crate::song::{MidiPacket, SynthError};

verus! {

/// Exact number of output samples covered by `delta` micro-beats at a tempo
/// of `bpm` milli-beats-per-minute and `rate` samples per second, truncated
/// toward zero: (delta / 1e6 beats) * (60 / (bpm / 1000) seconds per beat)
/// * rate. All quantities are non-negative, so Euclidean division is
/// truncation here.
pub open spec fn event_samples_exact(delta: u64, bpm: u32, rate: u32) -> int {
    (delta * 60000 * rate) / (1000000 * (bpm as int))
}

/// Exact number of micro-seconds covered by `delta` micro-beats at `bpm`
/// milli-beats-per-minute, truncated toward zero.
pub open spec fn event_micros_exact(delta: u64, bpm: u32) -> int {
    (delta * 60000) / (bpm as int)
}

pub open spec fn clamp_to_usize(x: int) -> int {
    if x > usize::MAX as int {
        usize::MAX as int
    } else {
        x
    }
}

pub open spec fn clamp_to_u64(x: int) -> int {
    if x > u64::MAX as int {
        u64::MAX as int
    } else {
        x
    }
}

/// Samples for one event as the executable computes them: the exact value,
/// saturated at usize::MAX (a song longer than that cannot be held in one
/// buffer anyway).
pub open spec fn event_samples(delta: u64, bpm: u32, rate: u32) -> int {
    clamp_to_usize(event_samples_exact(delta, bpm, rate))
}

/// Micro-seconds for one event, saturated at u64::MAX.
pub open spec fn event_micros(delta: u64, bpm: u32) -> int {
    clamp_to_u64(event_micros_exact(delta, bpm))
}

/// Saturating sum of the per-event sample counts of the first `n` events,
/// accumulated left to right as the executable loop does.
pub open spec fn prefix_samples(events: Seq<MidiPacket>, bpm: u32, rate: u32, n: int) -> int
    decreases n,
{
    if n <= 0 {
        0
    } else {
        clamp_to_usize(
            prefix_samples(events, bpm, rate, n - 1) + event_samples(
                events[n - 1].note_delta,
                bpm,
                rate,
            ),
        )
    }
}

/// Total song length in samples: every event's delta converted and summed.
pub open spec fn total_samples(events: Seq<MidiPacket>, bpm: u32, rate: u32) -> int {
    prefix_samples(events, bpm, rate, events.len() as int)
}

/// Saturating sum of the per-event micro-second counts of the first `n`
/// events.
pub open spec fn prefix_micros(events: Seq<MidiPacket>, bpm: u32, n: int) -> int
    decreases n,
{
    if n <= 0 {
        0
    } else {
        clamp_to_u64(prefix_micros(events, bpm, n - 1) + event_micros(events[n - 1].note_delta, bpm))
    }
}

/// Total song length in micro-seconds.
pub open spec fn total_micros(events: Seq<MidiPacket>, bpm: u32) -> int {
    prefix_micros(events, bpm, events.len() as int)
}

pub proof fn lemma_prefix_samples_in_range(events: Seq<MidiPacket>, bpm: u32, rate: u32, n: int)
    requires
        bpm > 0,
    ensures
        0 <= prefix_samples(events, bpm, rate, n) <= usize::MAX as int,
    decreases n,
{
    if n > 0 {
        lemma_prefix_samples_in_range(events, bpm, rate, n - 1);
    }
}

pub proof fn lemma_prefix_micros_in_range(events: Seq<MidiPacket>, bpm: u32, n: int)
    requires
        bpm > 0,
    ensures
        0 <= prefix_micros(events, bpm, n) <= u64::MAX as int,
    decreases n,
{
    if n > 0 {
        lemma_prefix_micros_in_range(events, bpm, n - 1);
    }
}

/// `p` with its delta scaled by the integer factor `k`.
pub open spec fn scale_delta(p: MidiPacket, k: u64) -> MidiPacket {
    MidiPacket { note_delta: (p.note_delta * k) as u64, ..p }
}

/// Every event's delta scaled uniformly by `k`.
pub open spec fn scale_deltas(events: Seq<MidiPacket>, k: u64) -> Seq<MidiPacket> {
    events.map(|i: int, p: MidiPacket| scale_delta(p, k))
}

/// Sum of the exact per-event sample counts of the first `n` events,
/// without truncation or saturation.
pub open spec fn exact_prefix_samples(events: Seq<MidiPacket>, bpm: u32, rate: u32, n: int) -> int
    decreases n,
{
    if n <= 0 {
        0
    } else {
        exact_prefix_samples(events, bpm, rate, n - 1) + event_samples_exact(
            events[n - 1].note_delta,
            bpm,
            rate,
        )
    }
}

pub proof fn lemma_event_samples_exact_nonneg(delta: u64, bpm: u32, rate: u32)
    requires
        bpm > 0,
    ensures
        event_samples_exact(delta, bpm, rate) >= 0,
{
    vstd::arithmetic::mul::lemma_mul_nonnegative((delta * 60000) as int, rate as int);
    vstd::arithmetic::div_mod::lemma_div_pos_is_pos(
        delta * 60000 * rate,
        1000000 * (bpm as int),
    );
}

pub proof fn lemma_exact_prefix_monotone(
    events: Seq<MidiPacket>,
    bpm: u32,
    rate: u32,
    a: int,
    b: int,
)
    requires
        bpm > 0,
        a <= b,
    ensures
        exact_prefix_samples(events, bpm, rate, a) <= exact_prefix_samples(events, bpm, rate, b),
    decreases b - a,
{
    if a < b {
        lemma_exact_prefix_monotone(events, bpm, rate, a, b - 1);
        lemma_event_samples_exact_nonneg(events[b - 1].note_delta, bpm, rate);
    }
}

/// With an evenly dividing delta, scaling the delta scales the exact
/// per-event sample count by the same factor.
pub proof fn lemma_event_samples_scale(delta: u64, bpm: u32, rate: u32, k: u64)
    requires
        bpm > 0,
        delta * k <= u64::MAX,
        (delta * 60000 * rate) % (1000000 * (bpm as int)) == 0,
    ensures
        event_samples_exact((delta * k) as u64, bpm, rate) == k * event_samples_exact(
            delta,
            bpm,
            rate,
        ),
{
    let m = 1000000 * (bpm as int);
    let q = (delta * 60000 * rate) / m;
    vstd::arithmetic::div_mod::lemma_fundamental_div_mod(delta * 60000 * rate, m);
    assert((delta * k) * 60000 * (rate as int) == k * ((delta as int) * 60000 * (rate as int)))
        by (nonlinear_arith);
    assert(k * (m * q) == m * (k * q)) by (nonlinear_arith);
    vstd::arithmetic::div_mod::lemma_div_multiples_vanish(k * q, m);
}

/// The clamped prefix sums equal the exact ones, and scale linearly, when
/// each event's conversion divides evenly and the scaled total does not
/// saturate.
pub proof fn lemma_prefix_samples_scale(
    events: Seq<MidiPacket>,
    bpm: u32,
    rate: u32,
    k: u64,
    n: int,
)
    requires
        bpm > 0,
        rate > 0,
        k >= 1,
        0 <= n <= events.len(),
        forall|i: int| 0 <= i < events.len() ==> events[i].note_delta * k <= u64::MAX,
        forall|i: int|
            0 <= i < events.len() ==> (events[i].note_delta * 60000 * rate) % (1000000 * (
            bpm as int)) == 0,
        k * exact_prefix_samples(events, bpm, rate, events.len() as int) <= usize::MAX,
    ensures
        prefix_samples(events, bpm, rate, n) == exact_prefix_samples(events, bpm, rate, n),
        prefix_samples(scale_deltas(events, k), bpm, rate, n) == k * exact_prefix_samples(
            events,
            bpm,
            rate,
            n,
        ),
    decreases n,
{
    let len = events.len() as int;
    lemma_exact_prefix_monotone(events, bpm, rate, n, len);
    lemma_exact_prefix_monotone(events, bpm, rate, 0, n);
    assert(exact_prefix_samples(events, bpm, rate, n) <= k * exact_prefix_samples(
        events,
        bpm,
        rate,
        len,
    )) by {
        let x = exact_prefix_samples(events, bpm, rate, n);
        let y = exact_prefix_samples(events, bpm, rate, len);
        assert(x <= 1 * y);
        vstd::arithmetic::mul::lemma_mul_inequality(1, k as int, y);
    }
    if n > 0 {
        lemma_prefix_samples_scale(events, bpm, rate, k, n - 1);
        let d = events[n - 1].note_delta;
        let e = event_samples_exact(d, bpm, rate);
        lemma_event_samples_exact_nonneg(d, bpm, rate);
        lemma_exact_prefix_monotone(events, bpm, rate, 0, n - 1);
        lemma_event_samples_scale(d, bpm, rate, k);
        assert(scale_deltas(events, k)[n - 1] == scale_delta(events[n - 1], k));
        assert(k * exact_prefix_samples(events, bpm, rate, n) == k * exact_prefix_samples(
            events,
            bpm,
            rate,
            n - 1,
        ) + k * e) by (nonlinear_arith)
            requires
                exact_prefix_samples(events, bpm, rate, n) == exact_prefix_samples(
                    events,
                    bpm,
                    rate,
                    n - 1,
                ) + e,
        ;
        assert(k * e <= k * exact_prefix_samples(events, bpm, rate, n)) by {
            vstd::arithmetic::mul::lemma_mul_inequality(
                e,
                exact_prefix_samples(events, bpm, rate, n),
                k as int,
            );
            assert(e * (k as int) == k * e) by (nonlinear_arith);
            assert(exact_prefix_samples(events, bpm, rate, n) * (k as int) == k
                * exact_prefix_samples(events, bpm, rate, n)) by (nonlinear_arith);
        }
        assert(k * exact_prefix_samples(events, bpm, rate, n) <= k * exact_prefix_samples(
            events,
            bpm,
            rate,
            len,
        )) by {
            vstd::arithmetic::mul::lemma_mul_inequality(
                exact_prefix_samples(events, bpm, rate, n),
                exact_prefix_samples(events, bpm, rate, len),
                k as int,
            );
            assert(exact_prefix_samples(events, bpm, rate, n) * (k as int) == k
                * exact_prefix_samples(events, bpm, rate, n)) by (nonlinear_arith);
            assert(exact_prefix_samples(events, bpm, rate, len) * (k as int) == k
                * exact_prefix_samples(events, bpm, rate, len)) by (nonlinear_arith);
        }
        assert(k * e >= 0) by {
            vstd::arithmetic::mul::lemma_mul_nonnegative(k as int, e);
        }
    }
}

/// Sum of the exact per-event micro-second counts of the first `n` events,
/// without truncation or saturation.
pub open spec fn exact_prefix_micros(events: Seq<MidiPacket>, bpm: u32, n: int) -> int
    decreases n,
{
    if n <= 0 {
        0
    } else {
        exact_prefix_micros(events, bpm, n - 1) + event_micros_exact(events[n - 1].note_delta, bpm)
    }
}

pub proof fn lemma_exact_prefix_micros_monotone(events: Seq<MidiPacket>, bpm: u32, a: int, b: int)
    requires
        bpm > 0,
        a <= b,
    ensures
        exact_prefix_micros(events, bpm, a) <= exact_prefix_micros(events, bpm, b),
    decreases b - a,
{
    if a < b {
        lemma_exact_prefix_micros_monotone(events, bpm, a, b - 1);
        vstd::arithmetic::div_mod::lemma_div_pos_is_pos(
            events[b - 1].note_delta * 60000,
            bpm as int,
        );
    }
}

/// With an evenly dividing delta, scaling the delta scales the exact
/// per-event micro-second count by the same factor.
pub proof fn lemma_event_micros_scale(delta: u64, bpm: u32, k: u64)
    requires
        bpm > 0,
        delta * k <= u64::MAX,
        (delta * 60000) % (bpm as int) == 0,
    ensures
        event_micros_exact((delta * k) as u64, bpm) == k * event_micros_exact(delta, bpm),
{
    let m = bpm as int;
    let q = (delta * 60000) / m;
    vstd::arithmetic::div_mod::lemma_fundamental_div_mod(delta * 60000, m);
    assert((delta * k) * 60000 == k * ((delta as int) * 60000)) by (nonlinear_arith);
    assert(k * (m * q) == m * (k * q)) by (nonlinear_arith);
    vstd::arithmetic::div_mod::lemma_div_multiples_vanish(k * q, m);
}

/// The clamped micro-second prefix sums equal the exact ones, and scale
/// linearly, under the same conditions as the sample sums.
pub proof fn lemma_prefix_micros_scale(events: Seq<MidiPacket>, bpm: u32, k: u64, n: int)
    requires
        bpm > 0,
        k >= 1,
        0 <= n <= events.len(),
        forall|i: int| 0 <= i < events.len() ==> events[i].note_delta * k <= u64::MAX,
        forall|i: int|
            0 <= i < events.len() ==> (events[i].note_delta * 60000) % (bpm as int) == 0,
        k * exact_prefix_micros(events, bpm, events.len() as int) <= u64::MAX,
    ensures
        prefix_micros(events, bpm, n) == exact_prefix_micros(events, bpm, n),
        prefix_micros(scale_deltas(events, k), bpm, n) == k * exact_prefix_micros(events, bpm, n),
    decreases n,
{
    let len = events.len() as int;
    lemma_exact_prefix_micros_monotone(events, bpm, n, len);
    lemma_exact_prefix_micros_monotone(events, bpm, 0, n);
    assert(exact_prefix_micros(events, bpm, n) <= k * exact_prefix_micros(events, bpm, len)) by {
        let y = exact_prefix_micros(events, bpm, len);
        assert(exact_prefix_micros(events, bpm, n) <= 1 * y);
        vstd::arithmetic::mul::lemma_mul_inequality(1, k as int, y);
    }
    if n > 0 {
        lemma_prefix_micros_scale(events, bpm, k, n - 1);
        let d = events[n - 1].note_delta;
        let e = event_micros_exact(d, bpm);
        vstd::arithmetic::div_mod::lemma_div_pos_is_pos(d * 60000, bpm as int);
        lemma_exact_prefix_micros_monotone(events, bpm, 0, n - 1);
        lemma_event_micros_scale(d, bpm, k);
        assert(scale_deltas(events, k)[n - 1] == scale_delta(events[n - 1], k));
        assert(k * exact_prefix_micros(events, bpm, n) == k * exact_prefix_micros(events, bpm, n - 1)
            + k * e) by (nonlinear_arith)
            requires
                exact_prefix_micros(events, bpm, n) == exact_prefix_micros(events, bpm, n - 1) + e,
        ;
        assert(k * e <= k * exact_prefix_micros(events, bpm, n) && k * exact_prefix_micros(
            events,
            bpm,
            n,
        ) <= k * exact_prefix_micros(events, bpm, len) && 0 <= k * e) by {
            vstd::arithmetic::mul::lemma_mul_inequality(e, exact_prefix_micros(events, bpm, n), k as int);
            vstd::arithmetic::mul::lemma_mul_inequality(
                exact_prefix_micros(events, bpm, n),
                exact_prefix_micros(events, bpm, len),
                k as int,
            );
            vstd::arithmetic::mul::lemma_mul_nonnegative(k as int, e);
            assert(e * (k as int) == k * e) by (nonlinear_arith);
            assert(exact_prefix_micros(events, bpm, n) * (k as int) == k * exact_prefix_micros(
                events,
                bpm,
                n,
            )) by (nonlinear_arith);
            assert(exact_prefix_micros(events, bpm, len) * (k as int) == k * exact_prefix_micros(
                events,
                bpm,
                len,
            )) by (nonlinear_arith);
        }
    }
}

/// Law: for every valid tempo and sample rate the song duration — in
/// micro-seconds and in samples — is non-negative; and under a uniform
/// integer scaling of every event's delta it scales linearly, on the
/// inputs where the per-event conversion is exact (each event's converted
/// delta divides evenly) and the scaled totals do not saturate.
/// Truncation breaks exact linearity on other inputs: a single event
/// whose exact sample count has a fractional part is already a
/// counterexample.
pub proof fn lemma_song_duration_linear(events: Seq<MidiPacket>, bpm: u32, rate: u32, k: u64)
    requires
        bpm > 0,
        rate > 0,
        k >= 1,
        forall|i: int| 0 <= i < events.len() ==> events[i].note_delta * k <= u64::MAX,
        forall|i: int|
            0 <= i < events.len() ==> (events[i].note_delta * 60000 * rate) % (1000000 * (
            bpm as int)) == 0,
        forall|i: int|
            0 <= i < events.len() ==> (events[i].note_delta * 60000) % (bpm as int) == 0,
        k * exact_prefix_samples(events, bpm, rate, events.len() as int) <= usize::MAX,
        k * exact_prefix_micros(events, bpm, events.len() as int) <= u64::MAX,
    ensures
        total_samples(events, bpm, rate) >= 0,
        total_micros(events, bpm) >= 0,
        total_samples(scale_deltas(events, k), bpm, rate) == k * total_samples(events, bpm, rate),
        total_micros(scale_deltas(events, k), bpm) == k * total_micros(events, bpm),
{
    let len = events.len() as int;
    lemma_prefix_samples_in_range(events, bpm, rate, len);
    lemma_prefix_micros_in_range(events, bpm, len);
    lemma_prefix_samples_scale(events, bpm, rate, k, len);
    lemma_prefix_micros_scale(events, bpm, k, len);
    assert(scale_deltas(events, k).len() == events.len());
}

/// Beat-relative delta to integer sample count, truncated toward zero,
/// saturated at usize::MAX.
pub fn beats_to_samples(delta: u64, bpm: u32, sample_rate: u32) -> (r: usize)
    requires
        bpm > 0,
        sample_rate > 0,
    ensures
        r == event_samples(delta, bpm, sample_rate),
{
    proof {
        assert((delta as int) * 60000 * (sample_rate as int) <= u128::MAX as int)
            by (nonlinear_arith)
            requires
                delta <= u64::MAX,
                sample_rate <= u32::MAX,
        ;
    }
    let num: u128 = (delta as u128) * 60000u128 * (sample_rate as u128);
    let den: u128 = 1000000u128 * (bpm as u128);
    let q: u128 = num / den;
    if q > usize::MAX as u128 {
        usize::MAX
    } else {
        q as usize
    }
}

/// Beat-relative delta to micro-seconds, truncated toward zero, saturated at
/// u64::MAX.
pub fn beats_to_micros(delta: u64, bpm: u32) -> (r: u64)
    requires
        bpm > 0,
    ensures
        r == event_micros(delta, bpm),
{
    let num: u128 = (delta as u128) * 60000u128;
    let q: u128 = num / (bpm as u128);
    if q > u64::MAX as u128 {
        u64::MAX
    } else {
        q as u64
    }
}

/// Total song duration, in micro-seconds and in samples: each event's delta
/// converted via the tempo formula and summed. A zero tempo or sample rate
/// is a configuration error, never a division.
pub fn calculate_song_duration(packets: &Vec<MidiPacket>, bpm: u32, sample_rate: u32) -> (r: Result<
    (u64, usize),
    SynthError,
>)
    ensures
        (bpm == 0 || sample_rate == 0) ==> r == Err::<(u64, usize), SynthError>(
            SynthError::ConfigurationError,
        ),
        (bpm > 0 && sample_rate > 0) ==> {
            &&& r is Ok
            &&& r->Ok_0.0 == total_micros(packets@, bpm)
            &&& r->Ok_0.1 == total_samples(packets@, bpm, sample_rate)
        },
{
    if bpm == 0 || sample_rate == 0 {
        return Err(SynthError::ConfigurationError);
    }
    let mut micros: u64 = 0;
    let mut samples: usize = 0;
    let mut i: usize = 0;
    while i < packets.len()
        invariant
            bpm > 0,
            sample_rate > 0,
            i <= packets@.len(),
            micros == prefix_micros(packets@, bpm, i as int),
            samples == prefix_samples(packets@, bpm, sample_rate, i as int),
        decreases packets@.len() - i,
    {
        let delta = packets[i].note_delta;
        let e_us = beats_to_micros(delta, bpm);
        let e_samp = beats_to_samples(delta, bpm, sample_rate);
        proof {
            lemma_prefix_micros_in_range(packets@, bpm, i as int);
            lemma_prefix_samples_in_range(packets@, bpm, sample_rate, i as int);
        }
        let wide_us: u128 = (micros as u128) + (e_us as u128);
        micros = if wide_us > u64::MAX as u128 {
            u64::MAX
        } else {
            wide_us as u64
        };
        let wide_samp: u128 = (samples as u128) + (e_samp as u128);
        samples = if wide_samp > usize::MAX as u128 {
            usize::MAX
        } else {
            wide_samp as usize
        };
        i = i + 1;
    }
    Ok((micros, samples))
}

} // verus!
