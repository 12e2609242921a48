use vstd::prelude::*;

use crate::song::{MidiPacket, NoteStatus};
use crate::timing::{beats_to_samples, clamp_to_usize, event_samples};

verus! {

/// Whether `q` is the Off event that releases the note begun by `on`:
/// same pitch, same instrument, status Off.
pub open spec fn is_matching_off(on: MidiPacket, q: MidiPacket) -> bool {
    &&& q.pitch == on.pitch
    &&& q.instrument == on.instrument
    &&& q.note_status == NoteStatus::Off
}

/// Position of the first event at or after `j` that is the matching Off for
/// `on`; None when the sequence ends first. The first match wins: pairing is
/// not nesting-aware, by design.
pub open spec fn find_off(events: Seq<MidiPacket>, on: MidiPacket, j: int) -> Option<int>
    decreases events.len() - j,
{
    if j < 0 || j >= events.len() {
        None
    } else if is_matching_off(on, events[j]) {
        Some(j)
    } else {
        find_off(events, on, j + 1)
    }
}

/// Saturating sum of the delta-in-samples of events `lo..=hi`, accumulated
/// left to right as the executable scan does.
pub open spec fn range_samples(events: Seq<MidiPacket>, bpm: u32, rate: u32, lo: int, hi: int) -> int
    decreases hi + 1 - lo,
{
    if lo > hi {
        0
    } else {
        clamp_to_usize(
            range_samples(events, bpm, rate, lo, hi - 1) + event_samples(
                events[hi].note_delta,
                bpm,
                rate,
            ),
        )
    }
}

pub proof fn lemma_range_samples_in_range(
    events: Seq<MidiPacket>,
    bpm: u32,
    rate: u32,
    lo: int,
    hi: int,
)
    requires
        bpm > 0,
    ensures
        0 <= range_samples(events, bpm, rate, lo, hi) <= usize::MAX as int,
    decreases hi + 1 - lo,
{
    if lo <= hi {
        lemma_range_samples_in_range(events, bpm, rate, lo, hi - 1);
    }
}

/// The forward scan for an Off event ignores everything before the first
/// match: if no event in `[a, b)` matches, searching from `a` and from `b`
/// find the same position.
pub proof fn lemma_find_off_skip(events: Seq<MidiPacket>, on: MidiPacket, a: int, b: int)
    requires
        0 <= a <= b,
        forall|m: int| a <= m < b ==> !is_matching_off(on, events[m]),
    ensures
        find_off(events, on, a) == find_off(events, on, b),
    decreases b - a,
{
    if a < b {
        lemma_find_off_skip(events, on, a + 1, b);
    }
}

/// Law: for an On event at `i` paired with an Off event at `k` of the same
/// pitch and instrument, with no intervening event of that pitch and
/// instrument, the forward scan resolves the pair at exactly `k`, so the
/// note's sustain duration is exactly the accumulated delta-in-samples of
/// events `i+1 ..= k` (`range_samples`), as `calculate_note_duration`'s
/// contract then states.
pub proof fn lemma_matched_pair_resolves(events: Seq<MidiPacket>, i: int, k: int)
    requires
        0 <= i < k < events.len(),
        is_matching_off(events[i], events[k]),
        forall|m: int|
            i < m < k ==> !(events[m].pitch == events[i].pitch && events[m].instrument
                == events[i].instrument),
    ensures
        find_off(events, events[i], i + 1) == Some(k),
{
    assert forall|m: int| i + 1 <= m < k implies !is_matching_off(events[i], events[m]) by {}
    lemma_find_off_skip(events, events[i], i + 1, k);
}

/// Sustain duration of the note begun at `start_index`: scan forward,
/// accumulating each event's delta-in-samples, until the first event with
/// the same pitch and instrument and status Off; None when no such event
/// exists before the sequence ends (the note is then dropped, producing no
/// sound).
pub fn calculate_note_duration(
    packets: &Vec<MidiPacket>,
    start_index: usize,
    bpm: u32,
    sample_rate: u32,
) -> (r: Option<usize>)
    requires
        bpm > 0,
        sample_rate > 0,
        start_index < packets@.len(),
    ensures
        match find_off(packets@, packets@[start_index as int], start_index + 1) {
            Some(k) => r == Some(
                range_samples(packets@, bpm, sample_rate, start_index + 1, k) as usize,
            ),
            None => r is None,
        },
{
    let n = packets.len();
    let on = packets[start_index];
    let ghost events = packets@;
    let mut acc: usize = 0;
    let mut j: usize = start_index + 1;
    while j < n
        invariant
            bpm > 0,
            sample_rate > 0,
            start_index < events.len(),
            events == packets@,
            on == events[start_index as int],
            n == events.len(),
            start_index + 1 <= j <= events.len(),
            acc == range_samples(events, bpm, sample_rate, start_index + 1, j - 1),
            forall|m: int| start_index + 1 <= m < j ==> !is_matching_off(on, events[m]),
        decreases events.len() - j,
    {
        let next = packets[j];
        let e_samp = beats_to_samples(next.note_delta, bpm, sample_rate);
        proof {
            lemma_range_samples_in_range(events, bpm, sample_rate, start_index + 1, j - 1);
        }
        let wide: u128 = (acc as u128) + (e_samp as u128);
        acc = if wide > usize::MAX as u128 {
            usize::MAX
        } else {
            wide as usize
        };
        if next.pitch == on.pitch && next.instrument == on.instrument && next.note_status
            == NoteStatus::Off {
            proof {
                lemma_find_off_skip(events, on, start_index + 1, j as int);
            }
            return Some(acc);
        }
        j = j + 1;
    }
    proof {
        lemma_find_off_skip(events, on, start_index + 1, events.len() as int);
    }
    None
}

} // verus!
