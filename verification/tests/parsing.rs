use melody::note::{MelodyError, Note};
use melody::parse::note_from_str;
use melody::sequence::build_note_buf;

#[test]
fn full_line_recovers_fields() {
    let n = note_from_str("0.5 C 4 N false").unwrap();
    assert_eq!(
        n,
        Note { duration_micros: 500_000, pitch: 'C', octave: 4, accidental: 'N', repeat: false }
    );
}

#[test]
fn short_line_gets_defaults() {
    let n = note_from_str("1.0 R true").unwrap();
    assert_eq!(
        n,
        Note { duration_micros: 1_000_000, pitch: 'R', octave: 0, accidental: 'N', repeat: true }
    );
}

#[test]
fn full_line_lowercase_pitch_and_sharp() {
    let n = note_from_str("0.25 a 7 S true").unwrap();
    assert_eq!(
        n,
        Note { duration_micros: 250_000, pitch: 'a', octave: 7, accidental: 'S', repeat: true }
    );
}

#[test]
fn extra_whitespace_is_ignored() {
    let n = note_from_str("   0.5 \t C   true  ").unwrap();
    assert_eq!(
        n,
        Note { duration_micros: 500_000, pitch: 'C', octave: 0, accidental: 'N', repeat: true }
    );
}

#[test]
fn octave_token_truncates_toward_zero() {
    let n = note_from_str("0.5 C 4.9 N false").unwrap();
    assert_eq!(n.octave, 4);
    let n = note_from_str("0.5 C -2.7 N false").unwrap();
    assert_eq!(n.octave, -2);
}

#[test]
fn negative_duration_is_kept() {
    let n = note_from_str("-0.5 C false").unwrap();
    assert_eq!(n.duration_micros, -500_000);
}

#[test]
fn bare_dot_forms_parse() {
    assert_eq!(note_from_str(".5 C true").unwrap().duration_micros, 500_000);
    assert_eq!(note_from_str("5. C true").unwrap().duration_micros, 5_000_000);
}

#[test]
fn seventh_fraction_digit_is_dropped() {
    assert_eq!(note_from_str("0.1234567 C true").unwrap().duration_micros, 123_456);
}

#[test]
fn zero_numeric_tokens_is_malformed() {
    let r = note_from_str("C true");
    match r {
        Err(MelodyError::MalformedNote(l)) => assert_eq!(l, "C true"),
        _ => panic!("expected a malformed-note failure"),
    }
}

#[test]
fn bad_boolean_is_malformed() {
    assert!(matches!(note_from_str("0.5 C maybe"), Err(MelodyError::MalformedNote(_))));
}

#[test]
fn missing_repeat_field_is_malformed() {
    assert!(matches!(note_from_str("0.5 C"), Err(MelodyError::MalformedNote(_))));
}

#[test]
fn oversized_duration_is_malformed() {
    assert!(matches!(note_from_str("9000000 C true"), Err(MelodyError::MalformedNote(_))));
}

#[test]
fn double_dotted_token_counts_as_symbolic() {
    // "1.2.3" is not numeric, so it becomes the pitch token
    let n = note_from_str("0.5 1.2.3 true").unwrap();
    assert_eq!(n.pitch, '1');
    assert_eq!(n.duration_micros, 500_000);
}

#[test]
fn error_messages_name_the_failure() {
    assert_eq!(MelodyError::IoFailure.message(), "the note source could not be read");
    assert_eq!(
        MelodyError::MalformedNote("x true".to_string()).message(),
        "malformed note line: x true"
    );
    assert_eq!(MelodyError::InvalidModifier.message(), "the tempo multiplier must be positive");
    assert_eq!(MelodyError::InvalidPitch.message(), "a pitch letter outside A-G and R");
}

#[test]
fn loader_collects_notes_and_octave_range() {
    let lines = vec![
        "0.5 C 4 N false".to_string(),
        "0.5 D 2 N false".to_string(),
        "1.0 E 8 S true".to_string(),
    ];
    let song = build_note_buf(&lines).unwrap();
    assert_eq!(song.notes.len(), 3);
    assert_eq!(song.octave_min, 2);
    assert_eq!(song.octave_max, 8);
    assert_eq!(song.notes[2].pitch, 'E');
    assert!(song.notes[2].repeat);
}

#[test]
fn empty_input_gets_default_octave_range() {
    let song = build_note_buf(&Vec::new()).unwrap();
    assert_eq!(song.notes.len(), 0);
    assert_eq!(song.octave_min, 10);
    assert_eq!(song.octave_max, 1);
}

#[test]
fn loader_aborts_on_first_malformed_line() {
    let lines = vec![
        "0.5 C 4 N false".to_string(),
        "x true".to_string(),
        "0.5 D 2 N false".to_string(),
    ];
    match build_note_buf(&lines) {
        Err(MelodyError::MalformedNote(l)) => assert_eq!(l, "x true"),
        _ => panic!("expected the load to abort with the offending line"),
    }
}
