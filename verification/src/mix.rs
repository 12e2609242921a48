use vstd::prelude::*;

use crate::amplitude::{clamp_i64, clamped_add, trunc_div};

verus! {

/// The buffer after one note's samples have been added in at offset
/// `start`: inside the note's window the sample-wise (saturating) sum,
/// elsewhere the buffer unchanged. Samples past the end of the buffer are
/// discarded, which is the deliberate policy for notes that run past the
/// nominal song end.
pub open spec fn mix_spec(buf: Seq<i64>, note: Seq<i64>, start: int) -> Seq<i64> {
    Seq::new(
        buf.len(),
        |k: int|
            if start <= k < start + note.len() {
                clamp_i64(buf[k] + note[k - start])
            } else {
                buf[k]
            },
    )
}

/// Law: mixing is order-independent for notes whose sample windows do not
/// overlap: adding the two notes in either order yields the identical
/// buffer.
pub proof fn lemma_mix_disjoint_commutes(
    buf: Seq<i64>,
    note_a: Seq<i64>,
    start_a: int,
    note_b: Seq<i64>,
    start_b: int,
)
    requires
        start_a + note_a.len() <= start_b || start_b + note_b.len() <= start_a,
    ensures
        mix_spec(mix_spec(buf, note_a, start_a), note_b, start_b) == mix_spec(
            mix_spec(buf, note_b, start_b),
            note_a,
            start_a,
        ),
{
    assert(mix_spec(mix_spec(buf, note_a, start_a), note_b, start_b) =~= mix_spec(
        mix_spec(buf, note_b, start_b),
        note_a,
        start_a,
    ));
}

/// Add one synthesized note into the output buffer, sample-wise and in
/// place, starting at `start_index`; samples that would land past the end
/// of the buffer are silently discarded.
pub fn add_note_waveform(waveform: &mut Vec<i64>, note_waveform: &Vec<i64>, start_index: usize)
    ensures
        final(waveform)@ == mix_spec(old(waveform)@, note_waveform@, start_index as int),
{
    let len = waveform.len();
    let mut i: usize = 0;
    while i < note_waveform.len() && (start_index as u128) + (i as u128) < (len as u128)
        invariant
            len == waveform@.len(),
            waveform@.len() == old(waveform)@.len(),
            i <= note_waveform@.len(),
            forall|k: int|
                0 <= k < waveform@.len() ==> waveform@[k] == (if start_index <= k < start_index + i {
                    clamp_i64(old(waveform)@[k] + note_waveform@[k - start_index])
                } else {
                    old(waveform)@[k]
                }),
        decreases note_waveform@.len() - i,
    {
        let pos: usize = start_index + i;
        let s = clamped_add(waveform[pos], note_waveform[i]);
        waveform[pos] = s;
        i = i + 1;
    }
    assert(final(waveform)@ =~= mix_spec(old(waveform)@, note_waveform@, start_index as int));
}

/// The absolute value of a sample, as a mathematical integer.
pub open spec fn abs_amp(s: i64) -> int {
    if s >= 0 {
        s as int
    } else {
        -(s as int)
    }
}

/// Peak absolute amplitude of the first `n` samples.
pub open spec fn peak_amp(buf: Seq<i64>, n: int) -> int
    decreases n,
{
    if n <= 0 {
        0
    } else if abs_amp(buf[n - 1]) > peak_amp(buf, n - 1) {
        abs_amp(buf[n - 1])
    } else {
        peak_amp(buf, n - 1)
    }
}

/// The divisor normalization applies: the peak absolute amplitude, floored
/// at one (1_000_000 micro-units), so quiet material is never amplified.
pub open spec fn norm_divisor(buf: Seq<i64>) -> int {
    if peak_amp(buf, buf.len() as int) > 1000000 {
        peak_amp(buf, buf.len() as int)
    } else {
        1000000
    }
}

/// The buffer after normalization: every sample divided by the divisor
/// (truncated toward zero), so the peak ends at or below one.
pub open spec fn normalize_spec(buf: Seq<i64>) -> Seq<i64> {
    Seq::new(buf.len(), |k: int| clamp_i64(trunc_div(buf[k] * 1000000, norm_divisor(buf))))
}

pub proof fn lemma_peak_amp_nonneg(buf: Seq<i64>, n: int)
    ensures
        peak_amp(buf, n) >= 0,
    decreases n,
{
    if n > 0 {
        lemma_peak_amp_nonneg(buf, n - 1);
    }
}

pub proof fn lemma_peak_amp_bounds_all(buf: Seq<i64>, n: int)
    requires
        n <= buf.len(),
    ensures
        forall|k: int| 0 <= k < n ==> abs_amp(buf[k]) <= peak_amp(buf, n),
    decreases n,
{
    if n > 0 {
        lemma_peak_amp_bounds_all(buf, n - 1);
        assert forall|k: int| 0 <= k < n implies abs_amp(buf[k]) <= peak_amp(buf, n) by {
            if k < n - 1 {
                assert(abs_amp(buf[k]) <= peak_amp(buf, n - 1));
            }
        }
    }
}

/// `trunc_div(x * 1000000, d)` is at most `x` in magnitude once `d` is at
/// least 1000000, and at most 1000000 in magnitude once `|x| <= d`.
pub proof fn lemma_norm_step_bounds(x: int, d: int)
    requires
        d >= 1000000,
    ensures
        x >= 0 ==> 0 <= trunc_div(x * 1000000, d) <= x,
        x < 0 ==> x <= trunc_div(x * 1000000, d) <= 0,
        -d <= x <= d ==> -1000000 <= trunc_div(x * 1000000, d) <= 1000000,
{
    let y = if x >= 0 {
        x
    } else {
        -x
    };
    assert(0 <= y * 1000000) by (nonlinear_arith)
        requires
            y >= 0,
    ;
    vstd::arithmetic::div_mod::lemma_div_pos_is_pos(y * 1000000, d);
    assert(y * 1000000 <= y * d) by (nonlinear_arith)
        requires
            y >= 0,
            d >= 1000000,
    ;
    vstd::arithmetic::div_mod::lemma_div_is_ordered(y * 1000000, y * d, d);
    vstd::arithmetic::div_mod::lemma_div_multiples_vanish(y, d);
    assert(y * d == d * y) by (nonlinear_arith);
    assert(y * 1000000 / d <= y);
    if -d <= x <= d {
        assert(y * 1000000 <= d * 1000000) by (nonlinear_arith)
            requires
                0 <= y <= d,
        ;
        vstd::arithmetic::div_mod::lemma_div_is_ordered(y * 1000000, d * 1000000, d);
        vstd::arithmetic::div_mod::lemma_div_multiples_vanish(1000000, d);
        assert(d * 1000000 == 1000000 * d) by (nonlinear_arith);
        assert(y * 1000000 / d <= 1000000);
    }
    if x < 0 {
        assert(-(x * 1000000) == y * 1000000) by (nonlinear_arith)
            requires
                y == -x,
        ;
    }
}

/// Law: normalization never changes a buffer whose peak absolute amplitude
/// is already at or below one: the floor of the divisor makes it an
/// attenuation only, so normalizing an already-normalized buffer leaves it
/// bit-for-bit unchanged.
pub proof fn lemma_normalize_already_normalized(buf: Seq<i64>)
    requires
        peak_amp(buf, buf.len() as int) <= 1000000,
    ensures
        normalize_spec(buf) == buf,
{
    lemma_peak_amp_nonneg(buf, buf.len() as int);
    assert forall|k: int| 0 <= k < buf.len() implies normalize_spec(buf)[k] == buf[k] by {
        assert(norm_divisor(buf) == 1000000);
        let x = buf[k] as int;
        vstd::arithmetic::div_mod::lemma_div_multiples_vanish(x, 1000000);
        assert(1000000 * x == x * 1000000) by (nonlinear_arith);
        if x < 0 {
            vstd::arithmetic::div_mod::lemma_div_multiples_vanish(-x, 1000000);
            assert(1000000 * (-x) == -(x * 1000000)) by (nonlinear_arith);
        }
        assert(trunc_div(x * 1000000, 1000000) == x);
    }
    assert(normalize_spec(buf) =~= buf);
}

/// Law: after normalization the peak absolute amplitude is at or below one
/// (1000000 micro-units), so normalization is idempotent: normalizing a
/// second time changes nothing.
pub proof fn lemma_normalize_idempotent(buf: Seq<i64>)
    ensures
        peak_amp(normalize_spec(buf), normalize_spec(buf).len() as int) <= 1000000,
        normalize_spec(normalize_spec(buf)) == normalize_spec(buf),
{
    let out = normalize_spec(buf);
    let d = norm_divisor(buf);
    lemma_peak_amp_nonneg(buf, buf.len() as int);
    lemma_peak_amp_bounds_all(buf, buf.len() as int);
    assert forall|k: int| 0 <= k < out.len() implies abs_amp(out[k]) <= 1000000 by {
        let x = buf[k] as int;
        assert(abs_amp(buf[k]) <= d);
        lemma_norm_step_bounds(x, d);
        assert(out[k] == clamp_i64(trunc_div(x * 1000000, d)));
    }
    lemma_peak_le_from_all(out, out.len() as int, 1000000);
    lemma_normalize_already_normalized(out);
}

pub proof fn lemma_peak_le_from_all(buf: Seq<i64>, n: int, bound: int)
    requires
        bound >= 0,
        n <= buf.len(),
        forall|k: int| 0 <= k < n ==> abs_amp(buf[k]) <= bound,
    ensures
        peak_amp(buf, n) <= bound,
    decreases n,
{
    if n > 0 {
        lemma_peak_le_from_all(buf, n - 1, bound);
    }
}

/// Rescale the final buffer so its peak absolute amplitude does not exceed
/// one: divide every sample by max(1, peak). The floor of one guarantees
/// the buffer is only ever attenuated, never amplified.
pub fn normalize_waveform(waveform: &mut Vec<i64>)
    ensures
        final(waveform)@ == normalize_spec(old(waveform)@),
{
    let len = waveform.len();
    let mut peak: u64 = 0;
    let mut i: usize = 0;
    while i < len
        invariant
            len == waveform@.len(),
            waveform@ == old(waveform)@,
            i <= len,
            peak == peak_amp(waveform@, i as int),
        decreases len - i,
    {
        let s = waveform[i];
        let mag: u64 = if s >= 0 {
            s as u64
        } else {
            (-(s as i128)) as u64
        };
        if mag > peak {
            peak = mag;
        }
        i = i + 1;
    }
    let divisor: u64 = if peak > 1000000 {
        peak
    } else {
        1000000
    };
    assert(divisor == norm_divisor(waveform@));
    let mut k: usize = 0;
    while k < len
        invariant
            len == waveform@.len(),
            waveform@.len() == old(waveform)@.len(),
            k <= len,
            divisor == norm_divisor(old(waveform)@),
            divisor >= 1000000,
            forall|j: int|
                0 <= j < len ==> waveform@[j] == (if j < k {
                    normalize_spec(old(waveform)@)[j]
                } else {
                    old(waveform)@[j]
                }),
        decreases len - k,
    {
        let s = waveform[k];
        proof {
            lemma_norm_step_bounds(s as int, divisor as int);
        }
        let neg = s < 0;
        let mag: u128 = if neg {
            (-(s as i128)) as u128
        } else {
            s as u128
        };
        let qm: u128 = mag * 1000000u128 / (divisor as u128);
        let q: i64 = if neg {
            (-(qm as i128)) as i64
        } else {
            qm as i64
        };
        assert(q == clamp_i64(trunc_div((s as int) * 1000000, divisor as int)));
        waveform[k] = q;
        k = k + 1;
    }
    assert(final(waveform)@ =~= normalize_spec(old(waveform)@));
}

} // verus!
