use vstd::prelude::*;

use crate::amplitude::{scale_velocity, scaled};
use crate::song::{Instrument, MidiPacket, NoteSource};
use crate::timing::clamp_to_usize;

verus! {

// A note's oscillator value at sample index t is a function of its
// fundamental frequency f (here in micro-hertz) and the time t / rate. The
// square and saw shapes depend only on the phase f * t / rate modulo one,
// which is exact integer arithmetic on the fixed-point representation, so
// the library computes them itself. The sine, triangle and piano shapes are
// transcendental; their raw samples are taken from the caller-supplied
// `NoteSource::raw_osc` (indices past its end count as silence).

/// Square shape: +1 while the sine of the phase is positive, -1 otherwise
/// (a phase of exactly zero or one-half maps to -1 by convention). The sine
/// of 2*pi*x is positive exactly when x mod 1 lies strictly between 0 and
/// one-half, so the sign is exact in fixed point.
pub open spec fn square_sample(freq: u64, rate: u32, t: int) -> int {
    let m = 1000000 * (rate as int);
    let phase = ((freq as int) * t) % m;
    if 0 < phase && 2 * phase < m {
        1000000
    } else {
        -1000000
    }
}

/// Saw shape: 2 * frac(f * t) - 1, truncated toward zero in micro-units.
/// frac(f * t) equals (f * t mod m) / m with m = 1000000 * rate, so the
/// micro-unit value is (2 * phase) / rate - 1000000, exactly.
pub open spec fn saw_sample(freq: u64, rate: u32, t: int) -> int {
    let m = 1000000 * (rate as int);
    let phase = ((freq as int) * t) % m;
    2 * phase / (rate as int) - 1000000
}

/// Caller-supplied oscillator sample at index `t`; past the end of the
/// sequence the oscillator is silent.
pub open spec fn osc_at(osc: Seq<i64>, t: int) -> int {
    if 0 <= t < osc.len() {
        osc[t] as int
    } else {
        0
    }
}

/// The raw (velocity-free) sample of an instrument at index `t`.
pub open spec fn raw_sample(
    instrument: Instrument,
    freq: u64,
    osc: Seq<i64>,
    rate: u32,
    t: int,
) -> int {
    match instrument {
        Instrument::Square => square_sample(freq, rate, t),
        Instrument::Saw => saw_sample(freq, rate, t),
        _ => osc_at(osc, t),
    }
}

/// The sample actually produced at index `t`: the raw sample scaled by the
/// note's velocity.
pub open spec fn scaled_sample(
    instrument: Instrument,
    freq: u64,
    osc: Seq<i64>,
    velocity: u32,
    rate: u32,
    t: int,
) -> i64 {
    scaled(raw_sample(instrument, freq, osc, rate, t), velocity)
}

/// First index in `[t, count]` at which the piano's cheap silence detection
/// stops production: past sample 1000, a sample of exactly zero ends the
/// decay tail; `count` when no such index exists.
pub open spec fn piano_stop(
    freq: u64,
    osc: Seq<i64>,
    velocity: u32,
    rate: u32,
    count: int,
    t: int,
) -> int
    decreases count - t,
{
    if t >= count {
        count
    } else if t > 1000 && scaled_sample(Instrument::Piano, freq, osc, velocity, rate, t) == 0 {
        t
    } else {
        piano_stop(freq, osc, velocity, rate, count, t + 1)
    }
}

pub proof fn lemma_piano_stop_bounds(
    freq: u64,
    osc: Seq<i64>,
    velocity: u32,
    rate: u32,
    count: int,
    t: int,
)
    requires
        0 <= t <= count,
    ensures
        t <= piano_stop(freq, osc, velocity, rate, count, t) <= count,
    decreases count - t,
{
    if t < count {
        lemma_piano_stop_bounds(freq, osc, velocity, rate, count, t + 1);
    }
}

/// The silence scan ignores indices at which it cannot stop: if no index in
/// `[a, b)` triggers it, scanning from `a` and from `b` stop at the same
/// index.
pub proof fn lemma_piano_stop_skip(
    freq: u64,
    osc: Seq<i64>,
    velocity: u32,
    rate: u32,
    count: int,
    a: int,
    b: int,
)
    requires
        0 <= a <= b <= count,
        forall|j: int|
            a <= j < b ==> !(j > 1000 && scaled_sample(Instrument::Piano, freq, osc, velocity, rate, j)
                == 0),
    ensures
        piano_stop(freq, osc, velocity, rate, count, a) == piano_stop(
            freq,
            osc,
            velocity,
            rate,
            count,
            b,
        ),
    decreases b - a,
{
    if a < b {
        lemma_piano_stop_skip(freq, osc, velocity, rate, count, a + 1, b);
    }
}

/// Number of samples a note of nominal length `n` produces: every
/// instrument but the piano produces exactly `n`; the piano produces up to
/// 1.5 n, letting its decay tail play out past the nominal note end, and
/// stops early at the silence-detection index.
pub open spec fn wave_len(
    instrument: Instrument,
    freq: u64,
    osc: Seq<i64>,
    velocity: u32,
    rate: u32,
    n: int,
) -> int {
    if instrument == Instrument::Piano {
        piano_stop(freq, osc, velocity, rate, clamp_to_usize(n + n / 2), 0)
    } else {
        n
    }
}

/// The full sample sequence of one synthesized note.
pub open spec fn note_wave(
    instrument: Instrument,
    freq: u64,
    osc: Seq<i64>,
    velocity: u32,
    rate: u32,
    n: int,
) -> Seq<i64> {
    Seq::new(
        wave_len(instrument, freq, osc, velocity, rate, n) as nat,
        |t: int| scaled_sample(instrument, freq, osc, velocity, rate, t),
    )
}

/// Exact square oscillator on the fixed-point phase.
pub fn square_osc(freq: u64, sample_rate: u32, t: usize) -> (r: i64)
    requires
        sample_rate > 0,
    ensures
        r as int == square_sample(freq, sample_rate, t as int),
{
    proof {
        assert((freq as int) * (t as int) <= u128::MAX as int) by (nonlinear_arith)
            requires
                freq <= u64::MAX,
                t <= u64::MAX,
        ;
    }
    let m: u128 = 1000000u128 * (sample_rate as u128);
    let phase: u128 = (freq as u128) * (t as u128) % m;
    if phase > 0 && 2 * phase < m {
        1000000
    } else {
        -1000000
    }
}

/// Exact saw oscillator on the fixed-point phase.
pub fn saw_osc(freq: u64, sample_rate: u32, t: usize) -> (r: i64)
    requires
        sample_rate > 0,
    ensures
        r as int == saw_sample(freq, sample_rate, t as int),
{
    proof {
        assert((freq as int) * (t as int) <= u128::MAX as int) by (nonlinear_arith)
            requires
                freq <= u64::MAX,
                t <= u64::MAX,
        ;
    }
    let m: u128 = 1000000u128 * (sample_rate as u128);
    let phase: u128 = (freq as u128) * (t as u128) % m;
    proof {
        assert(2 * (phase as int) / (sample_rate as int) < 2000000) by (nonlinear_arith)
            requires
                sample_rate > 0,
                phase < 1000000 * (sample_rate as int),
        ;
    }
    let q: u128 = 2 * phase / (sample_rate as u128);
    (q as i64) - 1000000
}

/// Synthesize one note: `sample_amount` samples of the packet's instrument
/// at the packet's velocity (the piano: up to 1.5 times that, with early
/// silence detection). A nominal length of zero yields an empty sequence.
pub fn generate_waveform(
    packet: &MidiPacket,
    sample_amount: usize,
    sample_rate: u32,
    source: &NoteSource,
) -> (w: Vec<i64>)
    requires
        sample_rate > 0,
    ensures
        w@ == note_wave(
            packet.instrument,
            source.freq_micro_hz,
            source.raw_osc@,
            packet.velocity,
            sample_rate,
            sample_amount as int,
        ),
{
    let instrument = packet.instrument;
    let velocity = packet.velocity;
    let freq = source.freq_micro_hz;
    let is_piano = instrument == Instrument::Piano;
    let count: usize = if is_piano {
        let wide: u128 = (sample_amount as u128) + ((sample_amount / 2) as u128);
        if wide > usize::MAX as u128 {
            usize::MAX
        } else {
            wide as usize
        }
    } else {
        sample_amount
    };
    let ghost osc = source.raw_osc@;
    let mut w: Vec<i64> = Vec::new();
    let mut t: usize = 0;
    let mut done = false;
    while !done && t < count
        invariant
            sample_rate > 0,
            instrument == packet.instrument,
            velocity == packet.velocity,
            freq == source.freq_micro_hz,
            osc == source.raw_osc@,
            is_piano == (instrument == Instrument::Piano),
            count == if is_piano {
                clamp_to_usize(sample_amount + sample_amount / 2)
            } else {
                sample_amount as int
            },
            t <= count,
            w@.len() == t,
            forall|j: int|
                0 <= j < t ==> w@[j] == scaled_sample(instrument, freq, osc, velocity, sample_rate, j),
            is_piano ==> forall|j: int|
                1000 < j < t ==> scaled_sample(instrument, freq, osc, velocity, sample_rate, j) != 0,
            done ==> is_piano && t < count && t > 1000 && scaled_sample(
                instrument,
                freq,
                osc,
                velocity,
                sample_rate,
                t as int,
            ) == 0,
        decreases count - t, (if done { 0int } else { 1int }),
    {
        let raw: i64 = if instrument == Instrument::Square {
            square_osc(freq, sample_rate, t)
        } else if instrument == Instrument::Saw {
            saw_osc(freq, sample_rate, t)
        } else {
            if t < source.raw_osc.len() {
                source.raw_osc[t]
            } else {
                0
            }
        };
        let s = scale_velocity(raw, velocity);
        assert(s == scaled_sample(instrument, freq, osc, velocity, sample_rate, t as int));
        if is_piano && t > 1000 && s == 0 {
            done = true;
        } else {
            w.push(s);
            t = t + 1;
        }
    }
    proof {
        if is_piano {
            let ghost c = count as int;
            lemma_piano_stop_skip(freq, osc, velocity, sample_rate, c, 0, t as int);
            lemma_piano_stop_bounds(freq, osc, velocity, sample_rate, c, t as int);
            assert(piano_stop(freq, osc, velocity, sample_rate, c, t as int) == t as int);
        }
        assert(w@ =~= note_wave(
            instrument,
            freq,
            osc,
            velocity,
            sample_rate,
            sample_amount as int,
        ));
    }
    w
}

} // verus!
