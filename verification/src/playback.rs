//! The playback engine: walks the transformed sequence once, emits one
//! tone per note, and implements the replay protocol.
//!
//! A repeat-marked note opens a replay region; every note until and
//! including the matching repeat-marked closer is buffered, and the
//! whole buffer is re-emitted immediately after the closer plays. Notes
//! outside any region play exactly once, and an opened region that never
//! closes is silently dropped. An invalid pitch letter aborts the rest
//! of the walk, but tones already emitted stay emitted.

use vstd::prelude::*;
use vstd::pervasive::unreached;
use crate::note::{
    Note, Tone, MelodyError, tone_of, note_pitch_valid, note_to_tone, OCTAVE_LIMIT,
};
use crate::sequence::{Song, song_wf, lemma_octave_range_bounded, note_bounded};
use crate::transform::{transform, transform_spec, transformed_note, resolved_shift};

verus! {

/// Replay state of the engine: outside any region, or buffering one.
#[derive(Clone, Copy, PartialEq, Eq, Structural, Debug)]
pub enum ReplayState {
    Idle,
    Buffering,
}

/// The order in which notes are voiced, from position `i` on, given the
/// current replay state and buffer: each note plays at once; a repeat
/// marker toggles the state, joins the buffer, and on closing a region
/// replays the whole buffer; buffered notes of an unclosed region are
/// dropped.
pub open spec fn replay_expansion_from(
    notes: Seq<Note>,
    i: int,
    buffering: bool,
    buf: Seq<Note>,
) -> Seq<Note>
    decreases notes.len() - i,
{
    if i < 0 || i >= notes.len() {
        Seq::empty()
    } else {
        let n = notes[i];
        if n.repeat {
            if !buffering {
                seq![n] + replay_expansion_from(notes, i + 1, true, seq![n])
            } else {
                seq![n] + buf.push(n) + replay_expansion_from(notes, i + 1, false, Seq::empty())
            }
        } else if buffering {
            seq![n] + replay_expansion_from(notes, i + 1, true, buf.push(n))
        } else {
            seq![n] + replay_expansion_from(notes, i + 1, false, buf)
        }
    }
}

/// The complete emission order of a sequence.
pub open spec fn replay_expansion(notes: Seq<Note>) -> Seq<Note> {
    replay_expansion_from(notes, 0, false, Seq::empty())
}

/// Length of the longest prefix of voiceable notes.
pub open spec fn valid_prefix_len(s: Seq<Note>) -> int
    decreases s.len(),
{
    if s.len() == 0 {
        0
    } else if !note_pitch_valid(s[0]) {
        0
    } else {
        1 + valid_prefix_len(s.drop_first())
    }
}

/// The prefix length is exactly the position of the first invalid
/// pitch, or the whole length when every pitch is valid.
pub proof fn lemma_valid_prefix_at(s: Seq<Note>, k: int)
    requires
        0 <= k <= s.len(),
        forall|j: int| 0 <= j < k ==> note_pitch_valid(#[trigger] s[j]),
        k == s.len() || !note_pitch_valid(s[k]),
    ensures
        valid_prefix_len(s) == k,
    decreases s.len(),
{
    if k == 0 {
    } else {
        assert(note_pitch_valid(s[0]));
        let rest = s.drop_first();
        assert(forall|j: int| 0 <= j < k - 1 ==> #[trigger] rest[j] == s[j + 1]);
        lemma_valid_prefix_at(rest, k - 1);
    }
}

/// What the playback engine emitted: the tones, in order, and the error
/// that stopped it, if one did.
pub struct Playback {
    pub tones: Vec<Tone>,
    pub error: Option<MelodyError>,
}

/// Walks the sequence and emits its tones in replay-expansion order.
/// The first note whose pitch is invalid stops the walk with
/// `InvalidPitch`; everything emitted up to that point is kept.
pub fn render_tones(notes: &Vec<Note>) -> (r: Playback)
    requires
        forall|i: int|
            0 <= i < notes@.len() ==> -OCTAVE_LIMIT <= #[trigger] notes@[i].octave <= OCTAVE_LIMIT,
    ensures
        ({
            let full = replay_expansion(notes@);
            let k = valid_prefix_len(full);
            &&& r.tones@.len() == k
            &&& forall|j: int| 0 <= j < k ==> r.tones@[j] == tone_of(#[trigger] full[j])
            &&& (r.error is None <==> k == full.len())
            &&& (r.error matches Some(e) ==> e == MelodyError::InvalidPitch)
        }),
{
    let ghost full = replay_expansion(notes@);
    let mut tones: Vec<Tone> = Vec::new();
    let mut state = ReplayState::Idle;
    let mut buf: Vec<Note> = Vec::new();
    let ghost mut emitted: Seq<Note> = Seq::empty();
    let mut i: usize = 0;
    proof {
        assert(buf@ =~= Seq::<Note>::empty());
        assert(emitted + replay_expansion_from(notes@, 0, false, buf@) =~= full);
    }
    while i < notes.len()
        invariant
            forall|j: int|
                0 <= j < notes@.len() ==> -OCTAVE_LIMIT <= #[trigger] notes@[j].octave
                    <= OCTAVE_LIMIT,
            full == replay_expansion(notes@),
            i <= notes@.len(),
            full == emitted + replay_expansion_from(
                notes@,
                i as int,
                state is Buffering,
                buf@,
            ),
            tones@.len() == emitted.len(),
            forall|j: int| 0 <= j < emitted.len() ==> note_pitch_valid(#[trigger] emitted[j]),
            forall|j: int| 0 <= j < emitted.len() ==> tones@[j] == tone_of(#[trigger] emitted[j]),
            state is Idle ==> buf@.len() == 0,
            forall|j: int| 0 <= j < buf@.len() ==> note_pitch_valid(#[trigger] buf@[j]),
            forall|j: int|
                0 <= j < buf@.len() ==> -OCTAVE_LIMIT <= #[trigger] buf@[j].octave <= OCTAVE_LIMIT,
        decreases notes@.len() - i,
    {
        let n = notes[i];
        let ghost rest = replay_expansion_from(notes@, i as int, state is Buffering, buf@);
        match note_to_tone(&n) {
            Err(e) => {
                proof {
                    assert(!note_pitch_valid(n));
                    assert(rest[0] == n);
                    assert(full[emitted.len() as int] == n);
                    assert(forall|j: int|
                        0 <= j < emitted.len() ==> #[trigger] full[j] == emitted[j]);
                    lemma_valid_prefix_at(full, emitted.len() as int);
                }
                return Playback { tones, error: Some(e) };
            },
            Ok(t) => {
                proof {
                    assert(note_pitch_valid(n));
                }
                tones.push(t);
                proof {
                    emitted = emitted.push(n);
                }
                if n.repeat {
                    match state {
                        ReplayState::Idle => {
                            buf.push(n);
                            state = ReplayState::Buffering;
                            proof {
                                assert(buf@ =~= seq![n]);
                                assert(rest == seq![n] + replay_expansion_from(
                                    notes@,
                                    i + 1,
                                    true,
                                    seq![n],
                                ));
                                assert(full =~= emitted + replay_expansion_from(
                                    notes@,
                                    i + 1,
                                    true,
                                    buf@,
                                ));
                            }
                        },
                        ReplayState::Buffering => {
                            buf.push(n);
                            let ghost closing = buf@;
                            proof {
                                assert(rest == seq![n] + closing + replay_expansion_from(
                                    notes@,
                                    i + 1,
                                    false,
                                    Seq::empty(),
                                ));
                            }
                            // replay the whole region, boundaries included
                            let mut j: usize = 0;
                            let ghost base = emitted;
                            while j < buf.len()
                                invariant
                                    buf@ == closing,
                                    j <= buf@.len(),
                                    tones@.len() == base.len() + j,
                                    forall|k: int|
                                        0 <= k < base.len() ==> tones@[k] == tone_of(
                                            #[trigger] base[k],
                                        ),
                                    forall|k: int|
                                        0 <= k < j ==> tones@[base.len() + k] == tone_of(
                                            #[trigger] buf@[k],
                                        ),
                                    forall|k: int|
                                        0 <= k < buf@.len() ==> note_pitch_valid(
                                            #[trigger] buf@[k],
                                        ),
                                    forall|k: int|
                                        0 <= k < buf@.len() ==> -OCTAVE_LIMIT
                                            <= #[trigger] buf@[k].octave <= OCTAVE_LIMIT,
                                decreases buf@.len() - j,
                            {
                                let bn = buf[j];
                                let t2 = match note_to_tone(&bn) {
                                    Ok(t2) => t2,
                                    Err(_) => unreached(),
                                };
                                tones.push(t2);
                                j = j + 1;
                            }
                            proof {
                                emitted = emitted + closing;
                                assert(full =~= emitted + replay_expansion_from(
                                    notes@,
                                    i + 1,
                                    false,
                                    Seq::<Note>::empty(),
                                ));
                            }
                            buf.clear();
                            state = ReplayState::Idle;
                            proof {
                                assert(buf@ =~= Seq::<Note>::empty());
                            }
                        },
                    }
                } else {
                    match state {
                        ReplayState::Buffering => {
                            buf.push(n);
                            proof {
                                assert(rest == seq![n] + replay_expansion_from(
                                    notes@,
                                    i + 1,
                                    true,
                                    buf@,
                                ));
                                assert(full =~= emitted + replay_expansion_from(
                                    notes@,
                                    i + 1,
                                    true,
                                    buf@,
                                ));
                            }
                        },
                        ReplayState::Idle => {
                            proof {
                                assert(rest == seq![n] + replay_expansion_from(
                                    notes@,
                                    i + 1,
                                    false,
                                    buf@,
                                ));
                                assert(full =~= emitted + replay_expansion_from(
                                    notes@,
                                    i + 1,
                                    false,
                                    buf@,
                                ));
                            }
                        },
                    }
                }
            },
        }
        i = i + 1;
    }
    proof {
        assert(replay_expansion_from(notes@, i as int, state is Buffering, buf@)
            =~= Seq::<Note>::empty());
        assert(full =~= emitted);
        lemma_valid_prefix_at(full, full.len() as int);
    }
    Playback { tones, error: None }
}

/// The staged pipeline on a loaded song: reject a non-positive tempo
/// multiplier before touching any note, otherwise transform the whole
/// sequence and emit its tones in replay-expansion order.
pub fn play_notes(song: &Song, tempo_micros: i64, octave_mod: i32, reverse: bool) -> (r: Result<
    Playback,
    MelodyError,
>)
    requires
        song_wf(*song),
    ensures
        tempo_micros <= 0 ==> (r matches Err(e) && e == MelodyError::InvalidModifier),
        tempo_micros > 0 ==> (r matches Ok(p) && {
            let staged = transform_spec(
                song.notes@,
                song.octave_min as int,
                song.octave_max as int,
                tempo_micros as int,
                octave_mod as int,
                reverse,
            );
            let full = replay_expansion(staged);
            let k = valid_prefix_len(full);
            &&& p.tones@.len() == k
            &&& forall|j: int| 0 <= j < k ==> p.tones@[j] == tone_of(#[trigger] full[j])
            &&& (p.error is None <==> k == full.len())
            &&& (p.error matches Some(e) ==> e == MelodyError::InvalidPitch)
        }),
{
    let staged = match transform(song, tempo_micros, octave_mod, reverse) {
        Ok(v) => v,
        Err(e) => {
            return Err(e);
        },
    };
    proof {
        lemma_octave_range_bounded(song.notes@);
        let shift = resolved_shift(
            octave_mod as int,
            song.octave_min as int,
            song.octave_max as int,
        );
        let mapped = song.notes@.map_values(
            |n: Note| transformed_note(n, tempo_micros as int, shift),
        );
        assert(-2_200_000_000 < shift < 2_200_000_000);
        assert forall|j: int| 0 <= j < staged@.len() implies -OCTAVE_LIMIT
            <= #[trigger] staged@[j].octave <= OCTAVE_LIMIT by {
            let src = if reverse {
                mapped.len() - 1 - j
            } else {
                j
            };
            assert(staged@[j] == mapped[src]);
            assert(mapped[src] == transformed_note(song.notes@[src], tempo_micros as int, shift));
            assert(note_bounded(song.notes@[src]));
        }
    }
    let played = render_tones(&staged);
    Ok(played)
}

} // verus!
