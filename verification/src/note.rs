//! The note model: one musical event, its tone mapping, and the error
//! taxonomy shared by the whole engine.

use vstd::prelude::*;
use vstd::string::StringExecFns;

verus! {

/// Durations and tempo multipliers are fixed-point values counted in
/// millionths of a unit: a duration of one and a half seconds is
/// `1_500_000`, a tempo multiplier of one quarter is `250_000`.
pub const MICROS_PER_UNIT: i64 = 1_000_000;

/// Largest magnitude, in micro-units, that the numeric parser accepts:
/// nine million whole units. Keeping parsed values under this bound lets
/// the tempo scaling multiply by `MICROS_PER_UNIT` without overflowing.
pub const VALUE_LIMIT_MICROS: i64 = 9_000_000_000_000;

/// Largest octave magnitude the tone mapping accepts; parsed and
/// transposed octaves stay far below it.
pub const OCTAVE_LIMIT: i64 = 10_000_000_000;

/// One musical event. A note is parsed from one line of text, optionally
/// rewritten by the transform stage (duration and octave only), and turned
/// into a [`Tone`] by the playback engine.
#[derive(Clone, Copy, PartialEq, Eq, Structural, Debug)]
pub struct Note {
    /// Length of the event in micro-units (see [`MICROS_PER_UNIT`]).
    pub duration_micros: i64,
    /// `'A'`–`'G'` in either case, or `'R'`/`'r'` for a rest.
    pub pitch: char,
    /// Nominal range 1–9; 0 means "unspecified, use the natural octave".
    pub octave: i64,
    /// `'S'` sharp, `'F'` flat; anything else counts as natural.
    pub accidental: char,
    /// Marks this note as a replay-region boundary.
    pub repeat: bool,
}

/// Everything that can go wrong while loading, transforming or playing
/// a sequence.
#[derive(Debug)]
pub enum MelodyError {
    /// The text source could not be read.
    IoFailure,
    /// A line did not parse as a note; carries the offending line.
    MalformedNote(String),
    /// A tempo multiplier was zero or negative.
    InvalidModifier,
    /// A pitch letter outside A–G and R reached the playback engine.
    InvalidPitch,
}

impl MelodyError {
    /// A short human-readable account of the failure; the malformed
    /// case carries the offending line.
    pub fn message(&self) -> (r: String)
        ensures
            match self {
                MelodyError::IoFailure => r@ == "the note source could not be read"@,
                MelodyError::MalformedNote(l) => r@ == "malformed note line: "@ + l@,
                MelodyError::InvalidModifier => r@ == "the tempo multiplier must be positive"@,
                MelodyError::InvalidPitch => r@ == "a pitch letter outside A-G and R"@,
            },
    {
        match self {
            MelodyError::IoFailure => {
                let mut out = String::new();
                out.append("the note source could not be read");
                proof {
                    assert(out@ =~= "the note source could not be read"@);
                }
                out
            },
            MelodyError::MalformedNote(l) => {
                let mut out = String::new();
                out.append("malformed note line: ");
                out.append(l.as_str());
                proof {
                    assert(out@ =~= "malformed note line: "@ + l@);
                }
                out
            },
            MelodyError::InvalidModifier => {
                let mut out = String::new();
                out.append("the tempo multiplier must be positive");
                proof {
                    assert(out@ =~= "the tempo multiplier must be positive"@);
                }
                out
            },
            MelodyError::InvalidPitch => {
                let mut out = String::new();
                out.append("a pitch letter outside A-G and R");
                proof {
                    assert(out@ =~= "a pitch letter outside A-G and R"@);
                }
                out
            },
        }
    }
}

/// What one note sounds like: a rest, or a pitched tone given by its
/// semitone offset from the engine's reference pitch.
#[derive(Clone, Copy, PartialEq, Eq, Structural, Debug)]
pub enum ToneKind {
    /// Near-silent output for the note's duration.
    Rest,
    /// A tone `s` semitones away from the reference; the sink renders it
    /// at `440 * 2^(s/12)` hertz.
    Pitch(i64),
}

/// One entry of the playback queue.
#[derive(Clone, Copy, PartialEq, Eq, Structural, Debug)]
pub struct Tone {
    pub kind: ToneKind,
    /// Length in micro-units (see [`MICROS_PER_UNIT`]).
    pub duration_micros: i64,
}

/// The pitch letters that map to a semitone base, in either case.
pub open spec fn is_pitch_letter(c: char) -> bool {
    ||| c == 'C' || c == 'c'
    ||| c == 'D' || c == 'd'
    ||| c == 'E' || c == 'e'
    ||| c == 'F' || c == 'f'
    ||| c == 'G' || c == 'g'
    ||| c == 'A' || c == 'a'
    ||| c == 'B' || c == 'b'
}

/// The rest sentinel, in either case.
pub open spec fn is_rest(c: char) -> bool {
    c == 'R' || c == 'r'
}

/// Base semitone of a pitch letter within its octave: C majors' classic
/// 0, 2, 4, 5, 7, 9, 11 ladder.
pub open spec fn pitch_base_semitones(c: char) -> int {
    if c == 'C' || c == 'c' {
        0
    } else if c == 'D' || c == 'd' {
        2
    } else if c == 'E' || c == 'e' {
        4
    } else if c == 'F' || c == 'f' {
        5
    } else if c == 'G' || c == 'g' {
        7
    } else if c == 'A' || c == 'a' {
        9
    } else {
        11
    }
}

/// Semitone adjustment of an accidental letter: sharp raises, flat
/// lowers, anything else is natural.
pub open spec fn accidental_adjust(c: char) -> int {
    if c == 'S' {
        1
    } else if c == 'F' {
        -1
    } else {
        0
    }
}

/// A note the playback engine can voice: a rest or a pitch letter.
pub open spec fn note_pitch_valid(n: Note) -> bool {
    is_rest(n.pitch) || is_pitch_letter(n.pitch)
}

/// Semitone offset of a pitched note: the letter's base, plus twelve per
/// octave away from the fourth, plus the accidental.
pub open spec fn semitones_of(n: Note) -> int {
    pitch_base_semitones(n.pitch) + (n.octave - 4) * 12 + accidental_adjust(n.accidental)
}

/// The tone a valid note maps to.
pub open spec fn tone_of(n: Note) -> Tone {
    if is_rest(n.pitch) {
        Tone { kind: ToneKind::Rest, duration_micros: n.duration_micros }
    } else {
        Tone { kind: ToneKind::Pitch(semitones_of(n) as i64), duration_micros: n.duration_micros }
    }
}

/// Semitone base of a pitch letter, or `None` for anything that is not
/// one of A–G (in either case).
pub fn pitch_to_semitones(pitch: char) -> (r: Option<i32>)
    ensures
        r is Some <==> is_pitch_letter(pitch),
        is_pitch_letter(pitch) ==> r == Some((pitch_base_semitones(pitch) as i32)),
{
    match pitch {
        'C' | 'c' => Some(0),
        'D' | 'd' => Some(2),
        'E' | 'e' => Some(4),
        'F' | 'f' => Some(5),
        'G' | 'g' => Some(7),
        'A' | 'a' => Some(9),
        'B' | 'b' => Some(11),
        _ => None,
    }
}

/// Semitone adjustment of an accidental letter.
pub fn accidental_to_adjustment(accidental: char) -> (r: i32)
    ensures
        r == accidental_adjust(accidental),
{
    match accidental {
        'S' => 1,
        'F' => -1,
        _ => 0,
    }
}

/// Maps one note to the tone it emits: rests keep only their duration,
/// pitched notes get their semitone offset, and any other pitch letter
/// is rejected as `InvalidPitch`.
pub fn note_to_tone(note: &Note) -> (r: Result<Tone, MelodyError>)
    requires
        -OCTAVE_LIMIT <= note.octave <= OCTAVE_LIMIT,
    ensures
        note_pitch_valid(*note) ==> r == Ok::<Tone, MelodyError>(tone_of(*note)),
        !note_pitch_valid(*note) ==> r == Err::<Tone, MelodyError>(MelodyError::InvalidPitch),
{
    if note.pitch == 'R' || note.pitch == 'r' {
        Ok(Tone { kind: ToneKind::Rest, duration_micros: note.duration_micros })
    } else {
        match pitch_to_semitones(note.pitch) {
            Some(base) => {
                let steps: i64 = (base as i64) + (note.octave - 4) * 12
                    + (accidental_to_adjustment(note.accidental) as i64);
                Ok(Tone { kind: ToneKind::Pitch(steps), duration_micros: note.duration_micros })
            },
            None => Err(MelodyError::InvalidPitch),
        }
    }
}

} // verus!
