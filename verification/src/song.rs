use vstd::prelude::*;

verus! {

/// Closed set of timbres the synthesizer understands. Adding an instrument
/// means adding a variant here and a branch in the timbre code.
#[derive(Clone, Copy, Debug, PartialEq, Eq, Structural)]
pub enum Instrument {
    Sine,
    Square,
    Triangle,
    Saw,
    Piano,
}

/// Whether an event starts a note or releases one.
#[derive(Clone, Copy, Debug, PartialEq, Eq, Structural)]
pub enum NoteStatus {
    On,
    Off,
}

/// One timeline record. Timing and amplitude are held in fixed point so the
/// synthesis arithmetic is exact: `note_delta` counts micro-beats
/// (1_000_000 per beat) since the previous event in the sequence, and
/// `velocity` counts micro-units of linear amplitude (1_000_000 = full
/// scale). Pitch is a semitone index; values above 127 are representable but
/// musically out of range, and are not rejected.
#[derive(Clone, Copy, Debug, PartialEq, Eq, Structural)]
pub struct MidiPacket {
    pub pitch: u8,
    pub instrument: Instrument,
    pub note_status: NoteStatus,
    pub note_delta: u64,
    pub velocity: u32,
}

/// A song: its ordered events, a tempo in milli-beats-per-minute
/// (1000 = one beat per minute), and metadata that synthesis ignores.
#[derive(Clone, Debug)]
pub struct Song {
    pub songname: String,
    pub artist: String,
    pub bpm: u32,
    pub packets: Vec<MidiPacket>,
}

/// Per-note data the synthesizer cannot derive on its own: the note's
/// fundamental frequency in micro-hertz, and, for the instruments whose
/// oscillator is transcendental (sine, triangle, piano), the raw oscillator
/// samples in micro-units, one per output sample, before velocity scaling.
/// The square and saw oscillators are computed by the library itself and
/// ignore `raw_osc`.
pub struct NoteSource {
    pub freq_micro_hz: u64,
    pub raw_osc: Vec<i64>,
}

/// Error kinds surfaced by synthesis and by resource loading. An unmatched
/// note-on is not an error: the pairing step drops such a note silently.
#[derive(Clone, Copy, Debug, PartialEq, Eq, Structural)]
pub enum SynthError {
    /// A non-positive tempo or sample rate.
    ConfigurationError,
    /// A song or overtone resource is missing or unreadable.
    ResourceUnavailable,
    /// A song or overtone resource holds malformed data.
    DataFormatError,
}

} // verus!
