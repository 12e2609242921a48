use vstd::prelude::*;

use crate::mix::{add_note_waveform, mix_spec, normalize_spec, normalize_waveform};
use crate::pairing::{
    calculate_note_duration, find_off, lemma_range_samples_in_range, range_samples,
};
use crate::song::{MidiPacket, NoteSource, NoteStatus, SynthError};
use crate::timbre::{generate_waveform, note_wave};
use crate::timing::{
    beats_to_samples, calculate_song_duration, lemma_prefix_samples_in_range, prefix_samples,
    total_micros, total_samples,
};

verus! {

/// Whether the event at `i` produces sound: an On event whose matching Off
/// exists later in the sequence. An Off event starts nothing; an On event
/// with no later matching Off (in particular the final event of a song) is
/// dropped and contributes no waveform.
pub open spec fn sounding(events: Seq<MidiPacket>, i: int) -> bool {
    &&& events[i].note_status == NoteStatus::On
    &&& find_off(events, events[i], i + 1) is Some
}

/// Sustain duration in samples of the note starting at `i`: the
/// accumulated delta-in-samples from the event after the On through the
/// matching Off.
pub open spec fn note_len(events: Seq<MidiPacket>, bpm: u32, rate: u32, i: int) -> int {
    match find_off(events, events[i], i + 1) {
        Some(k) => range_samples(events, bpm, rate, i + 1, k),
        None => 0,
    }
}

/// The output buffer after the first `n` events have been processed: the
/// zero buffer of the song's total length, plus each sounding note's
/// synthesized waveform mixed in at its absolute start offset (the
/// cumulative delta-in-samples through its On event).
pub open spec fn mix_through(
    events: Seq<MidiPacket>,
    sources: Seq<NoteSource>,
    bpm: u32,
    rate: u32,
    n: int,
) -> Seq<i64>
    decreases n,
{
    if n <= 0 {
        Seq::new(total_samples(events, bpm, rate) as nat, |k: int| 0i64)
    } else {
        let acc = mix_through(events, sources, bpm, rate, n - 1);
        let i = n - 1;
        if sounding(events, i) {
            mix_spec(
                acc,
                note_wave(
                    events[i].instrument,
                    sources[i].freq_micro_hz,
                    sources[i].raw_osc@,
                    events[i].velocity,
                    rate,
                    note_len(events, bpm, rate, i),
                ),
                prefix_samples(events, bpm, rate, i + 1),
            )
        } else {
            acc
        }
    }
}

/// Law: an On event with no later matching Off contributes zero energy to
/// the output: the mixed buffer after processing it is exactly the buffer
/// before it.
pub proof fn lemma_unmatched_on_adds_nothing(
    events: Seq<MidiPacket>,
    sources: Seq<NoteSource>,
    bpm: u32,
    rate: u32,
    i: int,
)
    requires
        0 <= i < events.len(),
        events[i].note_status == NoteStatus::On,
        find_off(events, events[i], i + 1) is None,
    ensures
        mix_through(events, sources, bpm, rate, i + 1) == mix_through(events, sources, bpm, rate, i),
{
}

fn zero_buffer(n: usize) -> (w: Vec<i64>)
    ensures
        w@ == Seq::new(n as nat, |k: int| 0i64),
{
    let mut w: Vec<i64> = Vec::new();
    let mut i: usize = 0;
    while i < n
        invariant
            i <= n,
            w@.len() == i,
            forall|k: int| 0 <= k < i ==> w@[k] == 0i64,
        decreases n - i,
    {
        w.push(0);
        i = i + 1;
    }
    assert(w@ =~= Seq::new(n as nat, |k: int| 0i64));
    w
}

/// Synthesize a whole song in one forward pass over its events: compute
/// the total duration, then for each On event with a resolvable Off
/// pairing synthesize its timbre and mix it in at its absolute start
/// offset, and finally normalize. Returns the duration in micro-seconds
/// together with the finished buffer; a zero tempo or sample rate is a
/// configuration error and produces nothing.
///
/// `sources` supplies, for the packet at each index, the note's
/// fundamental frequency and (for the transcendental instruments) its raw
/// oscillator samples; entries for events that start no note are unused.
pub fn generate_wave_from_packets(
    packets: &Vec<MidiPacket>,
    bpm: u32,
    sample_rate: u32,
    sources: &Vec<NoteSource>,
) -> (r: Result<(u64, Vec<i64>), SynthError>)
    requires
        sources@.len() == packets@.len(),
    ensures
        match r {
            Result::Err(e) => (bpm == 0 || sample_rate == 0) && e
                == SynthError::ConfigurationError,
            Result::Ok(out) => {
                &&& bpm > 0
                &&& sample_rate > 0
                &&& out.0 == total_micros(packets@, bpm)
                &&& out.1@ == normalize_spec(
                    mix_through(packets@, sources@, bpm, sample_rate, packets@.len() as int),
                )
            },
        },
{
    let dur = match calculate_song_duration(packets, bpm, sample_rate) {
        Err(e) => {
            return Err(e);
        },
        Ok(d) => d,
    };
    let total_us = dur.0;
    let total = dur.1;
    let mut waveform = zero_buffer(total);
    let n = packets.len();
    let mut sample_index: usize = 0;
    let mut i: usize = 0;
    while i < n
        invariant
            bpm > 0,
            sample_rate > 0,
            n == packets@.len(),
            sources@.len() == packets@.len(),
            i <= n,
            total == total_samples(packets@, bpm, sample_rate),
            sample_index == prefix_samples(packets@, bpm, sample_rate, i as int),
            waveform@ == mix_through(packets@, sources@, bpm, sample_rate, i as int),
        decreases n - i,
    {
        let packet = packets[i];
        let d = beats_to_samples(packet.note_delta, bpm, sample_rate);
        proof {
            lemma_prefix_samples_in_range(packets@, bpm, sample_rate, i as int);
        }
        let wide: u128 = (sample_index as u128) + (d as u128);
        sample_index = if wide > usize::MAX as u128 {
            usize::MAX
        } else {
            wide as usize
        };
        if packet.note_status == NoteStatus::Off || i == n - 1 {
            // An Off event starts nothing; the final event can have no Off
            // after it, so a trailing On produces no sound either.
            i = i + 1;
            continue;
        }
        match calculate_note_duration(packets, i, bpm, sample_rate) {
            None => {
                // No matching Off before the sequence ends: drop the note.
                i = i + 1;
            },
            Some(note_samples) => {
                proof {
                    lemma_range_samples_in_range(
                        packets@,
                        bpm,
                        sample_rate,
                        i + 1,
                        find_off(packets@, packets@[i as int], i + 1)->Some_0,
                    );
                }
                let w = generate_waveform(&packet, note_samples, sample_rate, &sources[i]);
                add_note_waveform(&mut waveform, &w, sample_index);
                i = i + 1;
            },
        }
    }
    normalize_waveform(&mut waveform);
    Ok((total_us, waveform))
}

} // verus!
