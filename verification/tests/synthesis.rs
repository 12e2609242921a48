use midi_synth::amplitude::{clamped_add, scale_velocity};
use midi_synth::mix::{add_note_waveform, normalize_waveform};
use midi_synth::pairing::calculate_note_duration;
use midi_synth::song::{Instrument, MidiPacket, NoteSource, NoteStatus, SynthError};
use midi_synth::synth::generate_wave_from_packets;
use midi_synth::timbre::generate_waveform;
use midi_synth::timing::{beats_to_micros, beats_to_samples, calculate_song_duration};

fn packet(
    pitch: u8,
    instrument: Instrument,
    note_status: NoteStatus,
    note_delta: u64,
    velocity: u32,
) -> MidiPacket {
    MidiPacket { pitch, instrument, note_status, note_delta, velocity }
}

fn silent_source() -> NoteSource {
    NoteSource { freq_micro_hz: 0, raw_osc: Vec::new() }
}

/// The library's own square oscillator, recomputed independently: +1 while
/// the phase (f * t mod 1) lies strictly inside the first half period.
fn expected_square(freq_micro_hz: u64, rate: u32, t: u64) -> i64 {
    let m = 1_000_000u128 * rate as u128;
    let phase = (freq_micro_hz as u128 * t as u128) % m;
    if phase > 0 && 2 * phase < m {
        1_000_000
    } else {
        -1_000_000
    }
}

#[test]
fn beats_to_samples_exact() {
    // Two beats at 60 bpm and 44100 Hz: exactly two seconds.
    assert_eq!(beats_to_samples(2_000_000, 60_000, 44_100), 88_200);
    // Half a beat at 120 bpm is a quarter second.
    assert_eq!(beats_to_samples(500_000, 120_000, 44_100), 11_025);
    // Truncation toward zero.
    assert_eq!(beats_to_samples(1, 60_000, 44_100), 0);
    assert_eq!(beats_to_micros(2_000_000, 60_000), 2_000_000);
}

#[test]
fn zero_tempo_is_configuration_error() {
    let packets = vec![packet(69, Instrument::Sine, NoteStatus::On, 0, 1_000_000)];
    assert_eq!(
        calculate_song_duration(&packets, 0, 44_100),
        Err(SynthError::ConfigurationError)
    );
    assert_eq!(
        calculate_song_duration(&packets, 60_000, 0),
        Err(SynthError::ConfigurationError)
    );
    let sources = vec![silent_source()];
    assert!(matches!(
        generate_wave_from_packets(&packets, 0, 44_100, &sources),
        Err(SynthError::ConfigurationError)
    ));
    assert!(matches!(
        generate_wave_from_packets(&packets, 60_000, 0, &sources),
        Err(SynthError::ConfigurationError)
    ));
}

#[test]
fn song_duration_sums_all_deltas() {
    let packets = vec![
        packet(60, Instrument::Sine, NoteStatus::On, 1_000_000, 1_000_000),
        packet(61, Instrument::Saw, NoteStatus::On, 500_000, 1_000_000),
        packet(60, Instrument::Sine, NoteStatus::Off, 250_000, 1_000_000),
    ];
    // 1.75 beats at 60 bpm, 8 samples per second: 14 samples, 1.75 s.
    let (us, samples) = calculate_song_duration(&packets, 60_000, 8).unwrap();
    assert_eq!(us, 1_750_000);
    assert_eq!(samples, 14);
}

#[test]
fn song_duration_scales_linearly() {
    let base = vec![
        packet(60, Instrument::Sine, NoteStatus::On, 1_000_000, 1_000_000),
        packet(60, Instrument::Sine, NoteStatus::Off, 500_000, 1_000_000),
    ];
    let scaled: Vec<MidiPacket> = base
        .iter()
        .map(|p| MidiPacket { note_delta: p.note_delta * 3, ..*p })
        .collect();
    let (_, s1) = calculate_song_duration(&base, 60_000, 44_100).unwrap();
    let (_, s3) = calculate_song_duration(&scaled, 60_000, 44_100).unwrap();
    assert_eq!(s3, 3 * s1);
    assert!(s1 > 0);
}

#[test]
fn note_duration_sums_intervening_deltas() {
    let packets = vec![
        packet(60, Instrument::Sine, NoteStatus::On, 0, 1_000_000),
        packet(61, Instrument::Sine, NoteStatus::Off, 500_000, 1_000_000),
        packet(60, Instrument::Sine, NoteStatus::Off, 250_000, 1_000_000),
    ];
    // Intervening deltas: 0.5 + 0.25 beats at 60 bpm, 44100 Hz.
    assert_eq!(
        calculate_note_duration(&packets, 0, 60_000, 44_100),
        Some(33_075)
    );
}

#[test]
fn note_duration_requires_matching_pitch_and_instrument() {
    let packets = vec![
        packet(60, Instrument::Sine, NoteStatus::On, 0, 1_000_000),
        packet(60, Instrument::Saw, NoteStatus::Off, 500_000, 1_000_000),
        packet(61, Instrument::Sine, NoteStatus::Off, 250_000, 1_000_000),
    ];
    assert_eq!(calculate_note_duration(&packets, 0, 60_000, 44_100), None);
}

#[test]
fn scale_velocity_truncates_toward_zero() {
    assert_eq!(scale_velocity(800_000, 500_000), 400_000);
    assert_eq!(scale_velocity(-750_001, 500_000), -375_000);
    assert_eq!(scale_velocity(750_001, 500_000), 375_000);
    assert_eq!(scale_velocity(123, 0), 0);
}

#[test]
fn clamped_add_saturates() {
    assert_eq!(clamped_add(1, 2), 3);
    assert_eq!(clamped_add(i64::MAX, 1), i64::MAX);
    assert_eq!(clamped_add(i64::MIN, -1), i64::MIN);
}

#[test]
fn square_wave_values() {
    // 1 Hz at 8 samples per second: one period is 8 samples, positive
    // strictly inside the first half period, -1 at phase 0 and one-half.
    let p = packet(69, Instrument::Square, NoteStatus::On, 0, 1_000_000);
    let source = NoteSource { freq_micro_hz: 1_000_000, raw_osc: Vec::new() };
    let w = generate_waveform(&p, 8, 8, &source);
    assert_eq!(
        w,
        vec![
            -1_000_000, 1_000_000, 1_000_000, 1_000_000, -1_000_000, -1_000_000, -1_000_000,
            -1_000_000
        ]
    );
}

#[test]
fn saw_wave_values() {
    // 1 Hz at 8 samples per second: 2 * frac(f t) - 1 rises by a quarter
    // unit per sample.
    let p = packet(69, Instrument::Saw, NoteStatus::On, 0, 1_000_000);
    let source = NoteSource { freq_micro_hz: 1_000_000, raw_osc: Vec::new() };
    let w = generate_waveform(&p, 8, 8, &source);
    assert_eq!(
        w,
        vec![-1_000_000, -750_000, -500_000, -250_000, 0, 250_000, 500_000, 750_000]
    );
}

#[test]
fn waveform_applies_velocity() {
    let p = packet(69, Instrument::Saw, NoteStatus::On, 0, 500_000);
    let source = NoteSource { freq_micro_hz: 1_000_000, raw_osc: Vec::new() };
    let w = generate_waveform(&p, 4, 8, &source);
    assert_eq!(w, vec![-500_000, -375_000, -250_000, -125_000]);
}

#[test]
fn transcendental_instruments_use_supplied_oscillator() {
    let p = packet(69, Instrument::Sine, NoteStatus::On, 0, 1_000_000);
    let source = NoteSource { freq_micro_hz: 440_000_000, raw_osc: vec![5, -7, 9] };
    let w = generate_waveform(&p, 5, 44_100, &source);
    // Past the end of the supplied oscillator the note is silent.
    assert_eq!(w, vec![5, -7, 9, 0, 0]);
}

#[test]
fn zero_sample_count_yields_empty_waveform() {
    let p = packet(69, Instrument::Sine, NoteStatus::On, 0, 1_000_000);
    let w = generate_waveform(&p, 0, 44_100, &silent_source());
    assert!(w.is_empty());
    let q = packet(69, Instrument::Piano, NoteStatus::On, 0, 1_000_000);
    let w = generate_waveform(&q, 0, 44_100, &silent_source());
    assert!(w.is_empty());
}

#[test]
fn piano_plays_oversized_tail() {
    // The piano produces 1.5 times the nominal length.
    let p = packet(60, Instrument::Piano, NoteStatus::On, 0, 1_000_000);
    let source = NoteSource { freq_micro_hz: 261_625_565, raw_osc: vec![40; 15] };
    let w = generate_waveform(&p, 10, 44_100, &source);
    assert_eq!(w, vec![40; 15]);
}

#[test]
fn piano_stops_at_silence_after_sample_1000() {
    let mut raw = vec![7i64; 1200];
    raw[1100] = 0;
    // A zero at index 50 is too early to stop production.
    raw[50] = 0;
    let p = packet(60, Instrument::Piano, NoteStatus::On, 0, 1_000_000);
    let source = NoteSource { freq_micro_hz: 261_625_565, raw_osc: raw.clone() };
    let w = generate_waveform(&p, 800, 44_100, &source);
    assert_eq!(w.len(), 1100);
    assert_eq!(w[50], 0);
    assert_eq!(w[1099], 7);
}

#[test]
fn mixing_adds_at_offset_and_discards_overrun() {
    let mut buf = vec![10i64, 20, 30, 40];
    let note = vec![1i64, 2, 3, 4, 5];
    add_note_waveform(&mut buf, &note, 2);
    // Samples landing past the end of the buffer are dropped.
    assert_eq!(buf, vec![10, 20, 31, 42]);
}

#[test]
fn mixing_is_order_independent_for_disjoint_notes() {
    let w1 = vec![3i64, -4, 5];
    let w2 = vec![-6i64, 7];
    let mut one = vec![0i64; 8];
    add_note_waveform(&mut one, &w1, 0);
    add_note_waveform(&mut one, &w2, 5);
    let mut other = vec![0i64; 8];
    add_note_waveform(&mut other, &w2, 5);
    add_note_waveform(&mut other, &w1, 0);
    assert_eq!(one, other);
    assert_eq!(one, vec![3, -4, 5, 0, 0, -6, 7, 0]);
}

#[test]
fn normalize_leaves_quiet_buffer_unchanged() {
    let mut buf = vec![1_000_000i64, -999_999, 0, 123_456];
    let before = buf.clone();
    normalize_waveform(&mut buf);
    assert_eq!(buf, before);
    // Normalizing a second time changes nothing either.
    normalize_waveform(&mut buf);
    assert_eq!(buf, before);
}

#[test]
fn normalize_attenuates_loud_buffer() {
    let mut buf = vec![3_000_000i64, -1_500_000, 1_000_000];
    normalize_waveform(&mut buf);
    assert_eq!(buf, vec![1_000_000, -500_000, 333_333]);
    // Idempotence: the attenuated buffer is left unchanged.
    let before = buf.clone();
    normalize_waveform(&mut buf);
    assert_eq!(buf, before);
}

#[test]
fn sine_two_second_note() {
    // One two-second A440 sine note at full velocity, 60 bpm, 44100 Hz.
    let packets = vec![
        packet(69, Instrument::Sine, NoteStatus::On, 0, 1_000_000),
        packet(69, Instrument::Sine, NoteStatus::Off, 2_000_000, 1_000_000),
    ];
    let n = 88_200usize;
    let mut raw = Vec::with_capacity(n);
    for t in 0..n {
        let x = 2.0 * std::f64::consts::PI * 440.0 * (t as f64) / 44_100.0;
        raw.push((x.sin() * 1_000_000.0) as i64);
    }
    let sources = vec![
        NoteSource { freq_micro_hz: 440_000_000, raw_osc: raw.clone() },
        silent_source(),
    ];
    let (us, wave) = generate_wave_from_packets(&packets, 60_000, 44_100, &sources).unwrap();
    assert_eq!(us, 2_000_000);
    assert_eq!(wave.len(), 88_200);
    // The first sample is sin(0) = 0.
    assert_eq!(wave[0], 0);
    // Full velocity: the peak is (almost exactly) one, so normalization
    // changed nothing and the buffer is the raw sine itself.
    let peak = wave.iter().map(|s| s.abs()).max().unwrap();
    assert!(peak <= 1_000_000 && peak > 990_000);
    assert_eq!(wave, raw);
}

#[test]
fn unmatched_on_produces_silence() {
    // A single On event with no Off ever appearing: normal duration, but
    // the buffer holds only zeros.
    let packets = vec![packet(69, Instrument::Sine, NoteStatus::On, 1_000_000, 1_000_000)];
    let sources = vec![NoteSource { freq_micro_hz: 440_000_000, raw_osc: vec![999; 100] }];
    let (us, wave) = generate_wave_from_packets(&packets, 60_000, 44_100, &sources).unwrap();
    assert_eq!(us, 1_000_000);
    assert_eq!(wave.len(), 44_100);
    assert!(wave.iter().all(|s| *s == 0));

    let packets = vec![
        packet(69, Instrument::Square, NoteStatus::On, 0, 1_000_000),
        packet(69, Instrument::Square, NoteStatus::On, 500_000, 1_000_000),
    ];
    let sources = vec![silent_source(), silent_source()];
    let (_, wave) = generate_wave_from_packets(&packets, 60_000, 8, &sources).unwrap();
    assert_eq!(wave.len(), 4);
    assert!(wave.iter().all(|s| *s == 0));
}

#[test]
fn overlapping_notes_share_the_first_off() {
    // Two overlapping notes at the same pitch and instrument: the second On
    // resolves against the first available Off (first match wins), and the
    // overlap region holds the sample-wise sum.
    let rate = 8u32;
    let bpm = 60_000u32;
    let freq = 1_000_000u64;
    let packets = vec![
        packet(69, Instrument::Square, NoteStatus::On, 0, 1_000_000),
        packet(69, Instrument::Square, NoteStatus::On, 500_000, 1_000_000),
        packet(69, Instrument::Square, NoteStatus::Off, 1_000_000, 1_000_000),
        packet(69, Instrument::Square, NoteStatus::Off, 500_000, 1_000_000),
    ];
    let sources = vec![silent_source(), silent_source(), silent_source(), silent_source()];
    let sources: Vec<NoteSource> = sources
        .into_iter()
        .map(|mut s| {
            s.freq_micro_hz = freq;
            s
        })
        .collect();
    let (_, wave) = generate_wave_from_packets(&packets, bpm, rate, &sources).unwrap();
    // Deltas in samples: 0, 4, 8, 4; total 16. The first note runs from
    // offset 0 for 4 + 8 = 12 samples (it pairs with the Off at index 2,
    // not the later one); the second runs from offset 4 for 8 samples.
    assert_eq!(wave.len(), 16);
    let mut expected = vec![0i64; 16];
    for t in 0..12u64 {
        expected[t as usize] += expected_square(freq, rate, t);
    }
    for t in 0..8u64 {
        expected[4 + t as usize] += expected_square(freq, rate, t);
    }
    // Normalization: the coinciding troughs reach two, so every sample is
    // halved.
    let peak = expected.iter().map(|s| s.abs()).max().unwrap().max(1_000_000);
    for s in expected.iter_mut() {
        *s = *s * 1_000_000 / peak;
    }
    assert_eq!(wave, expected);
}
