use dispersion_equalizer::model::{root_note_semitone, RootNote, ScaleMode};
use dispersion_equalizer::scale::scale_midi_notes;

fn midi_to_hz(midi: i32) -> f32 {
    440.0 * 2.0_f32.powf((midi - 69) as f32 / 12.0)
}

#[test]
fn scale_frequencies_a_minor_pentatonic_includes_440() {
    let notes = scale_midi_notes(RootNote::A, ScaleMode::MinorPentatonic);
    let freqs: Vec<f32> = notes.iter().map(|&m| midi_to_hz(m)).collect();
    assert!(
        freqs.iter().any(|&f| (f - 440.0).abs() < 0.5),
        "440 Hz not found in {:?}",
        &freqs[..freqs.len().min(10)]
    );
}

#[test]
fn a_minor_pentatonic_notes_in_one_octave() {
    let notes = scale_midi_notes(RootNote::A, ScaleMode::MinorPentatonic);
    let octave: Vec<i32> = notes.iter().copied().filter(|&m| (57..69).contains(&m)).collect();
    assert_eq!(octave, vec![57, 60, 62, 64, 67]);
    assert!(notes.contains(&69));
}

#[test]
fn c_major_pentatonic_notes() {
    let notes = scale_midi_notes(RootNote::C, ScaleMode::MajorPentatonic);
    assert_eq!(&notes[..5], &[12, 14, 16, 19, 21]);
    assert_eq!(*notes.last().unwrap(), 136);
    assert_eq!(notes.len(), 53);
}

#[test]
fn other_modes_use_minor_pentatonic() {
    let minor = scale_midi_notes(RootNote::D, ScaleMode::MinorPentatonic);
    for mode in [ScaleMode::Major, ScaleMode::Minor, ScaleMode::Chromatic] {
        assert_eq!(scale_midi_notes(RootNote::D, mode), minor);
    }
}

#[test]
fn notes_stay_in_range_and_increase() {
    for root in [RootNote::C, RootNote::FSharp, RootNote::B] {
        let notes = scale_midi_notes(root, ScaleMode::MajorPentatonic);
        assert!(notes.windows(2).all(|w| w[0] < w[1]));
        assert!(notes.iter().all(|&m| (11..=138).contains(&m)));
        assert!(notes.iter().all(|&m| midi_to_hz(m) >= 15.0 && midi_to_hz(m) <= 25_000.0));
    }
    assert!(midi_to_hz(10) < 15.0);
    assert!(midi_to_hz(139) > 25_000.0);
}

#[test]
fn root_semitones() {
    assert_eq!(root_note_semitone(RootNote::C), 0);
    assert_eq!(root_note_semitone(RootNote::A), 9);
    assert_eq!(root_note_semitone(RootNote::B), 11);
}
