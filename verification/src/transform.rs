//! The transform stage: tempo scaling, clamped octave transposition and
//! optional reversal, producing a new ordered sequence.
//!
//! The octave shift is resolved once against the sequence's observed
//! octave range, so that the whole sequence stays inside octaves 1 to 9:
//! a positive request is cut down to `9 - octave_max`, a negative one to
//! `1 - octave_min`, and a request that would have to move past its own
//! extreme (a range already out of bounds) resolves to no shift at all.

use vstd::prelude::*;
use crate::note::{Note, MelodyError, MICROS_PER_UNIT};
use crate::sequence::{
    Song, song_wf, note_bounded, PARSED_OCTAVE_LIMIT, lemma_octave_range_bounded,
};

verus! {

/// The uniform shift actually applied for a requested octave change,
/// given the observed octave range of the sequence.
pub open spec fn resolved_shift(octave_mod: int, omin: int, omax: int) -> int {
    if octave_mod > 0 {
        if omax + octave_mod < 10 {
            octave_mod
        } else if 9 - omax >= 0 {
            9 - omax
        } else {
            0
        }
    } else if octave_mod < 0 {
        if omin + octave_mod > 1 {
            octave_mod
        } else if 1 - omin <= 0 {
            1 - omin
        } else {
            0
        }
    } else {
        0
    }
}

/// A duration divided by the tempo multiplier, in fixed point,
/// truncating toward zero.
pub open spec fn scaled_duration(d: int, tempo: int) -> int {
    if d >= 0 {
        (d * (MICROS_PER_UNIT as int)) / tempo
    } else {
        -(((-d) * (MICROS_PER_UNIT as int)) / tempo)
    }
}

/// One note after the transform stage: duration scaled, octave shifted,
/// everything else untouched.
pub open spec fn transformed_note(n: Note, tempo: int, shift: int) -> Note {
    Note {
        duration_micros: scaled_duration(n.duration_micros as int, tempo) as i64,
        pitch: n.pitch,
        octave: (n.octave + shift) as i64,
        accidental: n.accidental,
        repeat: n.repeat,
    }
}

/// The whole transformed sequence: every note rewritten with the same
/// resolved shift, then reversed if requested.
pub open spec fn transform_spec(
    notes: Seq<Note>,
    omin: int,
    omax: int,
    tempo: int,
    octave_mod: int,
    reverse: bool,
) -> Seq<Note> {
    let shift = resolved_shift(octave_mod, omin, omax);
    let mapped = notes.map_values(|n: Note| transformed_note(n, tempo, shift));
    if reverse {
        mapped.reverse()
    } else {
        mapped
    }
}

/// Resolves the octave shift for a requested change against the
/// observed octave range.
pub fn resolve_octave_shift(octave_mod: i32, octave_min: i64, octave_max: i64) -> (r: i64)
    requires
        -PARSED_OCTAVE_LIMIT < octave_min < PARSED_OCTAVE_LIMIT,
        -PARSED_OCTAVE_LIMIT < octave_max < PARSED_OCTAVE_LIMIT,
    ensures
        r == resolved_shift(octave_mod as int, octave_min as int, octave_max as int),
        -PARSED_OCTAVE_LIMIT - 9 < r < PARSED_OCTAVE_LIMIT + 9,
        (octave_mod as int) > 0 ==> 0 <= r <= octave_mod as int,
        (octave_mod as int) < 0 ==> octave_mod as int <= r <= 0,
        octave_mod == 0 ==> r == 0,
{
    if octave_mod > 0 {
        let m: i64 = octave_mod as i64;
        if octave_max + m < 10 {
            m
        } else if 9 - octave_max >= 0 {
            9 - octave_max
        } else {
            0
        }
    } else if octave_mod < 0 {
        let m: i64 = octave_mod as i64;
        if octave_min + m > 1 {
            m
        } else if 1 - octave_min <= 0 {
            1 - octave_min
        } else {
            0
        }
    } else {
        0
    }
}

/// Applies tempo scaling, clamped octave transposition and optional
/// reversal to a loaded song. A tempo multiplier that is zero or
/// negative is rejected as `InvalidModifier` before any note is touched.
pub fn transform(song: &Song, tempo_micros: i64, octave_mod: i32, reverse: bool) -> (r: Result<
    Vec<Note>,
    MelodyError,
>)
    requires
        song_wf(*song),
    ensures
        tempo_micros <= 0 ==> r == Err::<Vec<Note>, MelodyError>(MelodyError::InvalidModifier),
        tempo_micros > 0 ==> (r matches Ok(v) && v@ == transform_spec(
            song.notes@,
            song.octave_min as int,
            song.octave_max as int,
            tempo_micros as int,
            octave_mod as int,
            reverse,
        )),
{
    if tempo_micros <= 0 {
        return Err(MelodyError::InvalidModifier);
    }
    proof {
        lemma_octave_range_bounded(song.notes@);
    }
    let shift: i64 = resolve_octave_shift(octave_mod, song.octave_min, song.octave_max);
    let ghost mapped = song.notes@.map_values(
        |n: Note| transformed_note(n, tempo_micros as int, shift as int),
    );

    let mut out: Vec<Note> = Vec::new();
    let mut i: usize = 0;
    while i < song.notes.len()
        invariant
            song_wf(*song),
            tempo_micros > 0,
            -PARSED_OCTAVE_LIMIT - 9 < shift < PARSED_OCTAVE_LIMIT + 9,
            mapped == song.notes@.map_values(
                |n: Note| transformed_note(n, tempo_micros as int, shift as int),
            ),
            i <= song.notes@.len(),
            out@.len() == i,
            forall|j: int| 0 <= j < i ==> out@[j] == mapped[j],
        decreases song.notes@.len() - i,
    {
        let n = song.notes[i];
        proof {
            assert(note_bounded(song.notes@[i as int]));
        }
        let d: i64 = n.duration_micros;
        let negative: bool = d < 0;
        let mag: u64 = if negative {
            (-d) as u64
        } else {
            d as u64
        };
        let prod: u64 = mag * 1_000_000;
        let q: u64 = prod / (tempo_micros as u64);
        let scaled: i64 = if negative {
            -(q as i64)
        } else {
            q as i64
        };
        proof {
            assert(scaled == scaled_duration(d as int, tempo_micros as int));
        }
        let oct: i64 = n.octave + shift;
        let t = Note {
            duration_micros: scaled,
            pitch: n.pitch,
            octave: oct,
            accidental: n.accidental,
            repeat: n.repeat,
        };
        proof {
            assert(t == transformed_note(song.notes@[i as int], tempo_micros as int, shift as int));
            assert(mapped[i as int] == transformed_note(
                song.notes@[i as int],
                tempo_micros as int,
                shift as int,
            ));
        }
        out.push(t);
        i = i + 1;
    }
    proof {
        assert(out@ =~= mapped);
    }

    if reverse {
        // reverse in place by swapping from both ends
        let mut lo: usize = 0;
        let mut hi: usize = out.len();
        while hi - lo > 1
            invariant
                lo <= hi <= out@.len(),
                lo + hi == out@.len(),
                out@.len() == mapped.len(),
                forall|j: int| lo <= j < hi ==> out@[j] == mapped[j],
                forall|j: int| 0 <= j < lo ==> out@[j] == mapped[out@.len() - 1 - j],
                forall|j: int| hi <= j < out@.len() ==> out@[j] == mapped[out@.len() - 1 - j],
            decreases hi - lo,
        {
            hi = hi - 1;
            let a = out[lo];
            let b = out[hi];
            out[lo] = b;
            out[hi] = a;
            lo = lo + 1;
        }
        proof {
            assert(out@ =~= mapped.reverse());
        }
        Ok(out)
    } else {
        Ok(out)
    }
}

// ------------------------------------------------------------------
// laws of the transform stage
// ------------------------------------------------------------------

/// A unit tempo multiplier and a zero shift rewrite every note to
/// itself.
pub proof fn lemma_identity_rewrite(notes: Seq<Note>)
    ensures
        notes.map_values(|n: Note| transformed_note(n, MICROS_PER_UNIT as int, 0)) == notes,
{
    let mapped = notes.map_values(|n: Note| transformed_note(n, MICROS_PER_UNIT as int, 0));
    assert forall|i: int| 0 <= i < notes.len() implies mapped[i] == notes[i] by {
        let n = notes[i];
        let d = n.duration_micros as int;
        if d >= 0 {
            vstd::arithmetic::div_mod::lemma_div_multiples_vanish(d, MICROS_PER_UNIT as int);
        } else {
            vstd::arithmetic::div_mod::lemma_div_multiples_vanish(-d, MICROS_PER_UNIT as int);
        }
        assert(scaled_duration(d, MICROS_PER_UNIT as int) == d);
    }
    assert(mapped =~= notes);
}

/// The no-op transform: a tempo multiplier of one, no octave change and
/// no reversal leave the sequence unchanged, whatever octave range is
/// supplied.
pub proof fn lemma_transform_noop(notes: Seq<Note>, omin: int, omax: int)
    ensures
        transform_spec(notes, omin, omax, MICROS_PER_UNIT as int, 0, false) == notes,
{
    lemma_identity_rewrite(notes);
}

/// Reversing twice (with a unit tempo and no octave change) restores
/// the original sequence, order and field values alike, whatever octave
/// ranges are supplied to the two passes.
pub proof fn lemma_reverse_twice(notes: Seq<Note>, om1: int, ox1: int, om2: int, ox2: int)
    ensures
        transform_spec(
            transform_spec(notes, om1, ox1, MICROS_PER_UNIT as int, 0, true),
            om2,
            ox2,
            MICROS_PER_UNIT as int,
            0,
            true,
        ) == notes,
{
    lemma_identity_rewrite(notes);
    let once = transform_spec(notes, om1, ox1, MICROS_PER_UNIT as int, 0, true);
    assert(once == notes.reverse());
    lemma_identity_rewrite(once);
    let twice = transform_spec(once, om2, ox2, MICROS_PER_UNIT as int, 0, true);
    assert(twice == once.reverse());
    assert(notes.reverse().reverse() =~= notes);
}

} // verus!
