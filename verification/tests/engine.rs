use melody::note::{
    accidental_to_adjustment, note_to_tone, pitch_to_semitones, MelodyError, Note, Tone, ToneKind,
};
use melody::playback::{play_notes, render_tones};
use melody::sequence::{build_note_buf, Song};
use melody::transform::{resolve_octave_shift, transform};

fn plain(pitch: char, octave: i64, repeat: bool) -> Note {
    Note { duration_micros: 500_000, pitch, octave, accidental: 'N', repeat }
}

fn song_of(notes: Vec<Note>) -> Song {
    let mut omin: i64 = 10;
    let mut omax: i64 = 1;
    for (k, n) in notes.iter().enumerate() {
        if k == 0 {
            omin = n.octave;
            omax = n.octave;
        } else {
            if n.octave < omin {
                omin = n.octave;
            }
            if n.octave > omax {
                omax = n.octave;
            }
        }
    }
    Song { notes, octave_min: omin, octave_max: omax }
}

#[test]
fn positive_shift_is_clamped_to_the_top_octave() {
    // a sequence peaking at octave 8 takes a shift of exactly 1, not 5
    assert_eq!(resolve_octave_shift(5, 4, 8), 1);
}

#[test]
fn negative_shift_is_clamped_to_the_bottom_octave() {
    // a sequence bottoming at octave 2 takes a shift of exactly -1, not -5
    assert_eq!(resolve_octave_shift(-5, 2, 7), -1);
}

#[test]
fn small_shifts_apply_in_full() {
    assert_eq!(resolve_octave_shift(2, 3, 6), 2);
    assert_eq!(resolve_octave_shift(-2, 4, 6), -2);
    assert_eq!(resolve_octave_shift(0, 4, 6), 0);
}

#[test]
fn out_of_range_extremes_resolve_to_no_shift() {
    assert_eq!(resolve_octave_shift(3, 1, 10), 0);
    assert_eq!(resolve_octave_shift(-3, 0, 9), 0);
}

#[test]
fn clamped_positive_shift_applies_through_the_transform() {
    // octave_max is 8, so a request of 5 moves everything up by exactly 1
    let song = song_of(vec![plain('C', 4, false), plain('D', 8, false)]);
    let out = transform(&song, 1_000_000, 5, false).unwrap();
    assert_eq!(out[0].octave, 5);
    assert_eq!(out[1].octave, 9);
}

#[test]
fn clamped_negative_shift_applies_through_the_transform() {
    // octave_min is 2, so a request of -5 moves everything down by exactly 1
    let song = song_of(vec![plain('C', 2, false), plain('D', 7, false)]);
    let out = transform(&song, 1_000_000, -5, false).unwrap();
    assert_eq!(out[0].octave, 1);
    assert_eq!(out[1].octave, 6);
}

#[test]
fn noop_transform_keeps_the_sequence() {
    let song = song_of(vec![plain('C', 4, false), plain('D', 5, true), plain('E', 6, false)]);
    let out = transform(&song, 1_000_000, 0, false).unwrap();
    assert_eq!(out, song.notes);
}

#[test]
fn doubling_the_tempo_halves_durations() {
    let song = song_of(vec![plain('C', 4, false)]);
    let out = transform(&song, 2_000_000, 0, false).unwrap();
    assert_eq!(out[0].duration_micros, 250_000);
}

#[test]
fn non_positive_tempo_is_rejected() {
    let song = song_of(vec![plain('C', 4, false)]);
    assert!(matches!(transform(&song, 0, 0, false), Err(MelodyError::InvalidModifier)));
    assert!(matches!(transform(&song, -250_000, 0, false), Err(MelodyError::InvalidModifier)));
}

#[test]
fn shift_applies_uniformly_even_to_unspecified_octaves() {
    let song = song_of(vec![plain('C', 0, false), plain('D', 4, false)]);
    let out = transform(&song, 1_000_000, 2, false).unwrap();
    assert_eq!(out[0].octave, 2);
    assert_eq!(out[1].octave, 6);
}

#[test]
fn reversal_reverses_order_only() {
    let song = song_of(vec![plain('C', 4, false), plain('D', 4, false), plain('E', 4, true)]);
    let out = transform(&song, 1_000_000, 0, true).unwrap();
    assert_eq!(out[0].pitch, 'E');
    assert!(out[0].repeat);
    assert_eq!(out[1].pitch, 'D');
    assert_eq!(out[2].pitch, 'C');
}

#[test]
fn reversing_twice_restores_the_sequence() {
    let song = song_of(vec![plain('C', 4, false), plain('D', 5, false), plain('E', 6, true)]);
    let once = transform(&song, 1_000_000, 0, true).unwrap();
    let back = transform(&song_of(once), 1_000_000, 0, true).unwrap();
    assert_eq!(back, song.notes);
}

fn semitone_of(t: &Tone) -> i64 {
    match t.kind {
        ToneKind::Pitch(s) => s,
        ToneKind::Rest => panic!("expected a pitched tone"),
    }
}

#[test]
fn replay_region_plays_again_after_closing() {
    // A B(repeat) C D(repeat) E must play A B C D B C D E
    let notes = vec![
        plain('C', 4, false),
        plain('D', 4, true),
        plain('E', 4, false),
        plain('F', 4, true),
        plain('G', 4, false),
    ];
    let out = render_tones(&notes);
    assert!(out.error.is_none());
    let semis: Vec<i64> = out.tones.iter().map(semitone_of).collect();
    assert_eq!(semis, vec![0, 2, 4, 5, 2, 4, 5, 7]);
}

#[test]
fn unterminated_region_is_dropped() {
    // A B(repeat) C plays only A B C: the open buffer is never flushed
    let notes = vec![plain('C', 4, false), plain('D', 4, true), plain('E', 4, false)];
    let out = render_tones(&notes);
    assert!(out.error.is_none());
    let semis: Vec<i64> = out.tones.iter().map(semitone_of).collect();
    assert_eq!(semis, vec![0, 2, 4]);
}

#[test]
fn invalid_pitch_aborts_but_keeps_earlier_tones() {
    let notes = vec![plain('C', 4, false), plain('X', 4, false), plain('D', 4, false)];
    let out = render_tones(&notes);
    assert_eq!(out.tones.len(), 1);
    assert!(matches!(out.error, Some(MelodyError::InvalidPitch)));
}

#[test]
fn rests_emit_silence_for_their_duration() {
    let notes = vec![Note {
        duration_micros: 750_000,
        pitch: 'r',
        octave: 0,
        accidental: 'N',
        repeat: false,
    }];
    let out = render_tones(&notes);
    assert_eq!(out.tones[0], Tone { kind: ToneKind::Rest, duration_micros: 750_000 });
}

#[test]
fn semitone_offsets_follow_the_reference_ladder() {
    // A4 natural sits 9 semitones over the octave base
    let a4 = note_to_tone(&plain('A', 4, false)).unwrap();
    assert_eq!(semitone_of(&a4), 9);
    // C5 sharp: 0 + 12 + 1
    let c5s = note_to_tone(&Note {
        duration_micros: 500_000,
        pitch: 'C',
        octave: 5,
        accidental: 'S',
        repeat: false,
    })
    .unwrap();
    assert_eq!(semitone_of(&c5s), 13);
    // flats lower by one
    let b3f = note_to_tone(&Note {
        duration_micros: 500_000,
        pitch: 'B',
        octave: 3,
        accidental: 'F',
        repeat: false,
    })
    .unwrap();
    assert_eq!(semitone_of(&b3f), 11 - 12 - 1);
}

#[test]
fn pitch_table_matches_the_ladder() {
    assert_eq!(pitch_to_semitones('C'), Some(0));
    assert_eq!(pitch_to_semitones('d'), Some(2));
    assert_eq!(pitch_to_semitones('E'), Some(4));
    assert_eq!(pitch_to_semitones('F'), Some(5));
    assert_eq!(pitch_to_semitones('g'), Some(7));
    assert_eq!(pitch_to_semitones('A'), Some(9));
    assert_eq!(pitch_to_semitones('B'), Some(11));
    assert_eq!(pitch_to_semitones('X'), None);
}

#[test]
fn accidental_table_adjusts_by_one() {
    assert_eq!(accidental_to_adjustment('S'), 1);
    assert_eq!(accidental_to_adjustment('F'), -1);
    assert_eq!(accidental_to_adjustment('N'), 0);
    assert_eq!(accidental_to_adjustment('q'), 0);
}

#[test]
fn whole_pipeline_loads_transforms_and_plays() {
    let lines = vec![
        "0.5 C 4 N false".to_string(),
        "0.5 D 4 N true".to_string(),
        "0.5 E 4 N false".to_string(),
        "0.5 F 4 N true".to_string(),
    ];
    let song = build_note_buf(&lines).unwrap();
    // raise by one octave and double the speed
    let out = play_notes(&song, 2_000_000, 1, false).unwrap();
    assert!(out.error.is_none());
    let semis: Vec<i64> = out.tones.iter().map(semitone_of).collect();
    // D..F open and close a region, so its three notes replay once
    assert_eq!(semis, vec![12, 14, 16, 17, 14, 16, 17]);
    assert!(out.tones.iter().all(|t| t.duration_micros == 250_000));
}

#[test]
fn pipeline_rejects_bad_tempo_before_playing() {
    let song = song_of(vec![plain('C', 4, false)]);
    assert!(matches!(play_notes(&song, 0, 0, false), Err(MelodyError::InvalidModifier)));
}
