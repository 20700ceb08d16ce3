//! The sequence loader: an ordered list of input lines becomes an ordered
//! sequence of notes, together with the octave range observed on the way.
//!
//! A failing line aborts the whole load: no partial sequence is returned.
//! The octave range defaults to minimum 10 / maximum 1 for an empty
//! sequence, so that no later transposition is considered out of range.

use vstd::prelude::*;
use crate::decimal::lemma_token_value_bounds;
use crate::note::{Note, MelodyError, VALUE_LIMIT_MICROS};
use crate::parse::{
    line_parses, line_note, note_from_str, line_nums, lemma_split_tokens_classified,
};

verus! {

/// Octave magnitudes the parser can produce stay strictly below this
/// bound (nine million whole units).
pub const PARSED_OCTAVE_LIMIT: i64 = 9_000_000;

/// A note as the loader produces it: duration and octave within the
/// fixed-point parsing range.
pub open spec fn note_bounded(n: Note) -> bool {
    &&& -VALUE_LIMIT_MICROS < n.duration_micros < VALUE_LIMIT_MICROS
    &&& -PARSED_OCTAVE_LIMIT < n.octave < PARSED_OCTAVE_LIMIT
}

/// A parsing line denotes a bounded note.
pub proof fn lemma_line_note_bounded(s: Seq<char>)
    requires
        line_parses(s),
    ensures
        note_bounded(line_note(s)),
{
    lemma_split_tokens_classified(crate::parse::line_tokens(s));
    let nums = line_nums(s);
    lemma_token_value_bounds(nums[0]);
    if crate::parse::line_is_full(s) {
        lemma_token_value_bounds(nums[1]);
    }
}

/// Minimum octave of a sequence; 10 when it is empty.
pub open spec fn min_octave(notes: Seq<Note>) -> int
    decreases notes.len(),
{
    if notes.len() == 0 {
        10
    } else if notes.len() == 1 {
        notes[0].octave as int
    } else if notes.last().octave < min_octave(notes.drop_last()) {
        notes.last().octave as int
    } else {
        min_octave(notes.drop_last())
    }
}

/// Maximum octave of a sequence; 1 when it is empty.
pub open spec fn max_octave(notes: Seq<Note>) -> int
    decreases notes.len(),
{
    if notes.len() == 0 {
        1
    } else if notes.len() == 1 {
        notes[0].octave as int
    } else if notes.last().octave > max_octave(notes.drop_last()) {
        notes.last().octave as int
    } else {
        max_octave(notes.drop_last())
    }
}

/// The observed octave range of a bounded sequence is itself bounded.
pub proof fn lemma_octave_range_bounded(notes: Seq<Note>)
    requires
        forall|i: int| 0 <= i < notes.len() ==> note_bounded(#[trigger] notes[i]),
    ensures
        -PARSED_OCTAVE_LIMIT < min_octave(notes) < PARSED_OCTAVE_LIMIT,
        -PARSED_OCTAVE_LIMIT < max_octave(notes) < PARSED_OCTAVE_LIMIT,
    decreases notes.len(),
{
    if notes.len() == 0 {
    } else if notes.len() == 1 {
        assert(note_bounded(notes[0]));
    } else {
        assert(forall|i: int|
            0 <= i < notes.drop_last().len() ==> note_bounded(#[trigger] notes.drop_last()[i]));
        lemma_octave_range_bounded(notes.drop_last());
        assert(note_bounded(notes.last()));
    }
}

/// A loaded sequence: its notes in playback order, and the smallest and
/// largest octave seen while loading.
pub struct Song {
    pub notes: Vec<Note>,
    pub octave_min: i64,
    pub octave_max: i64,
}

/// A well-formed song: every note within the parsing range, and the
/// octave range fields exactly the observed extrema.
pub open spec fn song_wf(song: Song) -> bool {
    &&& forall|i: int| 0 <= i < song.notes@.len() ==> note_bounded(#[trigger] song.notes@[i])
    &&& song.octave_min == min_octave(song.notes@)
    &&& song.octave_max == max_octave(song.notes@)
}

/// Loads a sequence of lines. Succeeds exactly when every line parses,
/// with the notes in input order and the observed octave extrema; the
/// first failing line aborts the load with its `MalformedNote`.
pub fn build_note_buf(lines: &Vec<String>) -> (r: Result<Song, MelodyError>)
    ensures
        (r is Ok) <==> (forall|i: int|
            0 <= i < lines@.len() ==> #[trigger] line_parses(lines@[i]@)),
        r matches Ok(song) ==> {
            &&& song.notes@.len() == lines@.len()
            &&& forall|i: int|
                0 <= i < lines@.len() ==> song.notes@[i] == line_note(#[trigger] lines@[i]@)
            &&& song_wf(song)
        },
        r matches Err(e) ==> exists|k: int|
            {
                &&& 0 <= k < lines@.len()
                &&& !(#[trigger] line_parses(lines@[k]@))
                &&& forall|j: int| 0 <= j < k ==> #[trigger] line_parses(lines@[j]@)
                &&& e matches MelodyError::MalformedNote(l) && l@ == lines@[k]@
            },
{
    let mut notes: Vec<Note> = Vec::new();
    let mut omin: i64 = 10;
    let mut omax: i64 = 1;
    let mut i: usize = 0;
    while i < lines.len()
        invariant
            i <= lines@.len(),
            notes@.len() == i,
            forall|j: int| 0 <= j < i ==> #[trigger] line_parses(lines@[j]@),
            forall|j: int| 0 <= j < i ==> notes@[j] == line_note(#[trigger] lines@[j]@),
            forall|j: int| 0 <= j < notes@.len() ==> note_bounded(#[trigger] notes@[j]),
            omin == min_octave(notes@),
            omax == max_octave(notes@),
        decreases lines@.len() - i,
    {
        let line: &String = &lines[i];
        match note_from_str(line.as_str()) {
            Ok(n) => {
                proof {
                    lemma_line_note_bounded(lines@[i as int]@);
                    assert(notes@.push(n).drop_last() =~= notes@);
                }
                if notes.len() == 0 {
                    omin = n.octave;
                    omax = n.octave;
                } else {
                    if n.octave < omin {
                        omin = n.octave;
                    }
                    if n.octave > omax {
                        omax = n.octave;
                    }
                }
                notes.push(n);
            },
            Err(e) => {
                proof {
                    assert(!line_parses(lines@[i as int]@));
                }
                return Err(e);
            },
        }
        i = i + 1;
    }
    Ok(Song { notes, octave_min: omin, octave_max: omax })
}

} // verus!
