use vstd::prelude::*;

use crate::model::{root_note_semitone, semitone_of, RootNote, ScaleMode};

verus! {

/// Lowest MIDI note a scale node places a delay peak on (about 15.4 Hz; the
/// note below lies under 15 Hz, three quarters of the 20 Hz grid floor).
pub const LOWEST_SCALE_NOTE: i32 = 11;

/// Highest MIDI note a scale node places a delay peak on (about 23.7 kHz; the
/// note above lies over 25 kHz, five quarters of the 20 kHz grid ceiling).
pub const HIGHEST_SCALE_NOTE: i32 = 138;

/// Number of steps in each of the pentatonic interval tables.
pub const SCALE_STEPS: usize = 5;

/// The `j`-th interval (in semitones above the root) of the pentatonic table
/// that `mode` uses. The major pentatonic has its own table; every other mode
/// falls back to the minor pentatonic.
pub open spec fn scale_step(mode: ScaleMode, j: int) -> int {
    if mode == ScaleMode::MajorPentatonic {
        if j == 0 { 0 } else if j == 1 { 2 } else if j == 2 { 4 } else if j == 3 { 7 } else { 9 }
    } else {
        if j == 0 { 0 } else if j == 1 { 3 } else if j == 2 { 5 } else if j == 3 { 7 } else { 10 }
    }
}

/// Whether `degree` (semitones above the root, in `0..12`) belongs to the
/// pentatonic table of `mode`.
pub open spec fn in_scale(mode: ScaleMode, degree: int) -> bool {
    if mode == ScaleMode::MajorPentatonic {
        degree == 0 || degree == 2 || degree == 4 || degree == 7 || degree == 9
    } else {
        degree == 0 || degree == 3 || degree == 5 || degree == 7 || degree == 10
    }
}

/// Whether the MIDI note `midi` is one of the notes of the scale node with
/// root `root` and mode `mode`: it lies in the audible note range and its
/// pitch class, counted from the root, is in the scale.
pub open spec fn is_scale_note(root: RootNote, mode: ScaleMode, midi: int) -> bool {
    &&& LOWEST_SCALE_NOTE <= midi <= HIGHEST_SCALE_NOTE
    &&& in_scale(mode, (midi - semitone_of(root)) % 12)
}

/// The step bound used while walking one octave: the interval of step `j`,
/// or a full octave once all steps are taken.
spec fn step_bound(mode: ScaleMode, j: int) -> int {
    if j < SCALE_STEPS as int { scale_step(mode, j) } else { 12 }
}

proof fn lemma_pitch_class(midi: int, base: int, root: int, k: int)
    requires
        base == 12 * k + root,
        base <= midi < base + 12,
    ensures
        (midi - root) % 12 == midi - base,
{
    assert((midi - root) % 12 == midi - base) by (nonlinear_arith)
        requires
            midi - root == 12 * k + (midi - base),
            0 <= midi - base < 12,
    ;
}

/// Between two consecutive steps of the table, no other degree is in the scale.
proof fn lemma_steps(mode: ScaleMode, j: int, d: int)
    requires
        0 <= j < SCALE_STEPS as int,
        scale_step(mode, j) <= d < step_bound(mode, j + 1),
    ensures
        in_scale(mode, d) <==> d == scale_step(mode, j),
        0 <= scale_step(mode, j) < step_bound(mode, j + 1) <= 12,
{
}

/// The MIDI notes of a scale node, in increasing order.
///
/// The notes are the octaves of the pentatonic intervals above `root`,
/// kept where they lie in `LOWEST_SCALE_NOTE..=HIGHEST_SCALE_NOTE`: exactly the
/// notes whose equal-tempered frequency lies between 15 Hz and 25 kHz.
pub fn scale_midi_notes(root: RootNote, mode: ScaleMode) -> (notes: Vec<i32>)
    ensures
        forall|i: int, j: int| 0 <= i < j < notes.len() ==> notes[i] < notes[j],
        forall|m: i32| notes@.contains(m) <==> is_scale_note(root, mode, m as int),
        forall|i: int| 0 <= i < notes.len() ==> is_scale_note(root, mode, notes[i] as int),
{
    let intervals: [i32; SCALE_STEPS] = if mode == ScaleMode::MajorPentatonic {
        [0, 2, 4, 7, 9]
    } else {
        [0, 3, 5, 7, 10]
    };
    assert(forall|j: int| 0 <= j < SCALE_STEPS as int ==> intervals[j] == scale_step(mode, j));
    let root_semitone = root_note_semitone(root);
    let ghost r = semitone_of(root);
    let mut notes: Vec<i32> = Vec::new();
    let mut octave: i32 = -2;
    while octave <= 10
        invariant
            -2 <= octave <= 11,
            root_semitone == r,
            r == semitone_of(root),
            0 <= r < 12,
            forall|j: int| 0 <= j < SCALE_STEPS as int ==> intervals[j] == scale_step(mode, j),
            forall|i: int| 0 <= i < notes.len() ==> is_scale_note(root, mode, notes[i] as int),
            forall|i: int| 0 <= i < notes.len() ==> notes[i] < 12 * (octave + 1) + r,
            forall|i: int, j: int| 0 <= i < j < notes.len() ==> notes[i] < notes[j],
            forall|m: i32|
                is_scale_note(root, mode, m as int) && m < 12 * (octave + 1) + r ==> notes@.contains(m),
        decreases 11 - octave,
    {
        let base_midi: i32 = 12 * (octave + 1) + root_semitone;
        let mut j: usize = 0;
        while j < SCALE_STEPS
            invariant
                -2 <= octave <= 10,
                base_midi == 12 * (octave + 1) + r,
                root_semitone == r,
                r == semitone_of(root),
                0 <= r < 12,
                j <= SCALE_STEPS,
                forall|j2: int| 0 <= j2 < SCALE_STEPS as int ==> intervals[j2] == scale_step(mode, j2),
                forall|i: int| 0 <= i < notes.len() ==> is_scale_note(root, mode, notes[i] as int),
                forall|i: int| 0 <= i < notes.len() ==> notes[i] < base_midi + step_bound(mode, j as int),
                forall|i: int, k: int| 0 <= i < k < notes.len() ==> notes[i] < notes[k],
                forall|m: i32|
                    is_scale_note(root, mode, m as int) && m < base_midi + step_bound(mode, j as int)
                        ==> notes@.contains(m),
            decreases SCALE_STEPS - j,
        {
            let step = intervals[j];
            assert(step == scale_step(mode, j as int));
            let midi: i32 = base_midi + step;
            proof {
                assert forall|m: i32|
                    is_scale_note(root, mode, m as int) && base_midi + scale_step(mode, j as int) <= m
                        < base_midi + step_bound(mode, j as int + 1) implies m == midi by {
                    lemma_steps(mode, j as int, m - base_midi);
                    lemma_pitch_class(m as int, base_midi as int, r, octave + 1);
                }
                lemma_steps(mode, j as int, scale_step(mode, j as int));
                lemma_pitch_class(midi as int, base_midi as int, r, octave + 1);
            }
            if LOWEST_SCALE_NOTE <= midi && midi <= HIGHEST_SCALE_NOTE {
                let ghost old_notes = notes@;
                notes.push(midi);
                proof {
                    assert forall|m: i32|
                        is_scale_note(root, mode, m as int) && m < base_midi + step_bound(mode, j as int + 1)
                            implies notes@.contains(m) by {
                        if m < base_midi + step_bound(mode, j as int) {
                            assert(old_notes.contains(m));
                            let k = choose|k: int| 0 <= k < old_notes.len() && old_notes[k] == m;
                            assert(notes@[k] == m);
                        } else {
                            assert(notes@[notes.len() - 1] == m);
                        }
                    }
                }
            }
            j += 1;
        }
        octave += 1;
    }
    proof {
        assert forall|m: i32| notes@.contains(m) implies is_scale_note(root, mode, m as int) by {
            let k = choose|k: int| 0 <= k < notes.len() && notes[k] == m;
            assert(notes[k] == m);
        }
    }
    notes
}

} // verus!
