//! The note parser: one line of whitespace-separated tokens becomes one
//! [`Note`], or fails as `MalformedNote`.
//!
//! Tokens are split on whitespace and classified as numeric or symbolic;
//! field identity is inferred from list position alone. More than two
//! symbolic tokens means a "full" line `duration pitch octave accidental
//! repeat`; otherwise the line is "short": `duration pitch repeat`, with
//! octave 0 (unspecified) and a natural accidental.

use vstd::prelude::*;
use crate::decimal::{
    is_numeric_token, token_in_range, token_value_micros, token_int_value, is_numeric,
    parse_decimal,
};
use crate::note::{Note, MelodyError};
use crate::text::{is_space, is_space_char, str_to_chars};

verus! {

// ------------------------------------------------------------------
// tokenization
// ------------------------------------------------------------------

/// Tokens of `s` from position `i` on, with `cur` the partial token
/// accumulated so far: maximal runs of non-whitespace characters.
pub open spec fn tokens_acc(s: Seq<char>, i: int, cur: Seq<char>) -> Seq<Seq<char>>
    decreases s.len() - i,
{
    if i < 0 || i >= s.len() {
        if cur.len() > 0 {
            seq![cur]
        } else {
            Seq::empty()
        }
    } else if is_space_char(s[i]) {
        if cur.len() > 0 {
            seq![cur] + tokens_acc(s, i + 1, Seq::empty())
        } else {
            tokens_acc(s, i + 1, Seq::empty())
        }
    } else {
        tokens_acc(s, i + 1, cur.push(s[i]))
    }
}

/// The whitespace-separated tokens of a line.
pub open spec fn line_tokens(s: Seq<char>) -> Seq<Seq<char>> {
    tokens_acc(s, 0, Seq::empty())
}

/// Every token is nonempty.
pub proof fn lemma_tokens_nonempty(s: Seq<char>, i: int, cur: Seq<char>)
    ensures
        forall|k: int|
            0 <= k < tokens_acc(s, i, cur).len() ==> #[trigger] tokens_acc(s, i, cur)[k].len() > 0,
    decreases s.len() - i,
{
    if i < 0 || i >= s.len() {
        if cur.len() > 0 {
            assert(tokens_acc(s, i, cur) == seq![cur]);
            assert(tokens_acc(s, i, cur)[0] == cur);
        } else {
            assert(tokens_acc(s, i, cur).len() == 0);
        }
    } else if is_space_char(s[i]) {
        lemma_tokens_nonempty(s, i + 1, Seq::empty());
        if cur.len() > 0 {
            let toks = tokens_acc(s, i, cur);
            let rec = tokens_acc(s, i + 1, Seq::<char>::empty());
            assert(toks == seq![cur] + rec);
            assert forall|k: int| 0 <= k < toks.len() implies #[trigger] toks[k].len() > 0 by {
                if k == 0 {
                    assert(toks[k] == cur);
                } else {
                    assert(toks[k] == rec[k - 1]);
                }
            }
        } else {
            assert(tokens_acc(s, i, cur) == tokens_acc(s, i + 1, Seq::<char>::empty()));
        }
    } else {
        lemma_tokens_nonempty(s, i + 1, cur.push(s[i]));
        assert(tokens_acc(s, i, cur) == tokens_acc(s, i + 1, cur.push(s[i])));
    }
}

/// Splits a line into its whitespace-separated tokens.
pub fn tokenize(chars: &Vec<char>) -> (r: Vec<Vec<char>>)
    ensures
        r@.len() == line_tokens(chars@).len(),
        forall|j: int| 0 <= j < r@.len() ==> #[trigger] r@[j]@ == line_tokens(chars@)[j],
{
    let ghost all = line_tokens(chars@);
    let mut out: Vec<Vec<char>> = Vec::new();
    let mut cur: Vec<char> = Vec::new();
    let mut i: usize = 0;
    proof {
        assert(cur@ =~= Seq::<char>::empty());
    }
    while i < chars.len()
        invariant
            all == line_tokens(chars@),
            i <= chars@.len(),
            out@.len() <= all.len(),
            forall|j: int| 0 <= j < out@.len() ==> #[trigger] out@[j]@ == all[j],
            tokens_acc(chars@, i as int, cur@) == all.skip(out@.len() as int),
        decreases chars@.len() - i,
    {
        let c = chars[i];
        if is_space(c) {
            if cur.len() > 0 {
                proof {
                    let rest = all.skip(out@.len() as int);
                    assert(rest == seq![cur@] + tokens_acc(chars@, i + 1, Seq::empty()));
                    assert(rest.len() > 0);
                    assert(rest[0] == cur@);
                    assert(all[out@.len() as int] == cur@);
                    assert(all.skip(out@.len() as int + 1) =~= rest.skip(1));
                    assert(rest.skip(1) =~= tokens_acc(chars@, i + 1, Seq::empty()));
                }
                out.push(cur);
                cur = Vec::new();
                proof {
                    assert(cur@ =~= Seq::<char>::empty());
                    assert(tokens_acc(chars@, i + 1, cur@) == all.skip(out@.len() as int));
                }
            } else {
                proof {
                    assert(cur@ =~= Seq::<char>::empty());
                    assert(tokens_acc(chars@, i + 1, cur@) == all.skip(out@.len() as int));
                }
            }
        } else {
            cur.push(c);
            proof {
                assert(tokens_acc(chars@, i + 1, cur@) == all.skip(out@.len() as int));
            }
        }
        i = i + 1;
    }
    if cur.len() > 0 {
        proof {
            let rest = all.skip(out@.len() as int);
            assert(rest == seq![cur@]);
            assert(rest[0] == cur@);
            assert(all[out@.len() as int] == cur@);
            assert(all.skip(out@.len() as int + 1) =~= rest.skip(1));
            assert(rest.skip(1) =~= Seq::<Seq<char>>::empty());
        }
        out.push(cur);
    }
    proof {
        assert(all.skip(out@.len() as int).len() == 0);
        assert(out@.len() == all.len());
    }
    out
}

// ------------------------------------------------------------------
// token classification and field extraction
// ------------------------------------------------------------------

/// The numeric tokens among `ts`, in order.
pub open spec fn numeric_tokens(ts: Seq<Seq<char>>) -> Seq<Seq<char>>
    decreases ts.len(),
{
    if ts.len() == 0 {
        Seq::empty()
    } else if is_numeric_token(ts.last()) {
        numeric_tokens(ts.drop_last()).push(ts.last())
    } else {
        numeric_tokens(ts.drop_last())
    }
}

/// The symbolic (non-numeric) tokens among `ts`, in order.
pub open spec fn symbolic_tokens(ts: Seq<Seq<char>>) -> Seq<Seq<char>>
    decreases ts.len(),
{
    if ts.len() == 0 {
        Seq::empty()
    } else if !is_numeric_token(ts.last()) {
        symbolic_tokens(ts.drop_last()).push(ts.last())
    } else {
        symbolic_tokens(ts.drop_last())
    }
}

/// Every element of [`numeric_tokens`] is a numeric token, and every
/// element of [`symbolic_tokens`] is not.
pub proof fn lemma_split_tokens_classified(ts: Seq<Seq<char>>)
    ensures
        forall|k: int|
            0 <= k < numeric_tokens(ts).len() ==> is_numeric_token(#[trigger] numeric_tokens(ts)[k]),
        forall|k: int|
            0 <= k < symbolic_tokens(ts).len() ==> !is_numeric_token(
                #[trigger] symbolic_tokens(ts)[k],
            ),
    decreases ts.len(),
{
    if ts.len() > 0 {
        lemma_split_tokens_classified(ts.drop_last());
        let base_n = numeric_tokens(ts.drop_last());
        let base_s = symbolic_tokens(ts.drop_last());
        if is_numeric_token(ts.last()) {
            assert(numeric_tokens(ts) == base_n.push(ts.last()));
            assert forall|k: int| 0 <= k < numeric_tokens(ts).len() implies is_numeric_token(
                #[trigger] numeric_tokens(ts)[k],
            ) by {
                if k < base_n.len() {
                    assert(numeric_tokens(ts)[k] == base_n[k]);
                } else {
                    assert(numeric_tokens(ts)[k] == ts.last());
                }
            }
        } else {
            assert(symbolic_tokens(ts) == base_s.push(ts.last()));
            assert forall|k: int| 0 <= k < symbolic_tokens(ts).len() implies !is_numeric_token(
                #[trigger] symbolic_tokens(ts)[k],
            ) by {
                if k < base_s.len() {
                    assert(symbolic_tokens(ts)[k] == base_s[k]);
                } else {
                    assert(symbolic_tokens(ts)[k] == ts.last());
                }
            }
        }
    }
}

/// The numeric tokens of a line, in order.
pub open spec fn line_nums(s: Seq<char>) -> Seq<Seq<char>> {
    numeric_tokens(line_tokens(s))
}

/// The symbolic tokens of a line, in order.
pub open spec fn line_syms(s: Seq<char>) -> Seq<Seq<char>> {
    symbolic_tokens(line_tokens(s))
}

/// The boolean literals accepted for the repeat field.
pub open spec fn bool_of_token(t: Seq<char>) -> Option<bool> {
    if t == seq!['t', 'r', 'u', 'e'] {
        Some(true)
    } else if t == seq!['f', 'a', 'l', 's', 'e'] {
        Some(false)
    } else {
        None
    }
}

/// Parses `"true"` or `"false"`.
pub fn parse_bool(t: &Vec<char>) -> (r: Option<bool>)
    ensures
        r == bool_of_token(t@),
{
    let ghost tv = seq!['t', 'r', 'u', 'e'];
    let ghost fv = seq!['f', 'a', 'l', 's', 'e'];
    if t.len() == 4 && t[0] == 't' && t[1] == 'r' && t[2] == 'u' && t[3] == 'e' {
        proof {
            assert(t@ =~= tv);
        }
        Some(true)
    } else if t.len() == 5 && t[0] == 'f' && t[1] == 'a' && t[2] == 'l' && t[3] == 's' && t[4]
        == 'e' {
        proof {
            assert(t@ =~= fv);
        }
        Some(false)
    } else {
        proof {
            assert(t@ != tv) by {
                if t@ == tv {
                    assert(t@.len() == 4 && t@[0] == 't' && t@[1] == 'r' && t@[2] == 'u' && t@[3]
                        == 'e');
                }
            }
            assert(t@ != fv) by {
                if t@ == fv {
                    assert(t@.len() == 5 && t@[0] == 'f' && t@[1] == 'a' && t@[2] == 'l' && t@[3]
                        == 's' && t@[4] == 'e');
                }
            }
        }
        None
    }
}

/// A line is a full note when it has more than two symbolic tokens.
pub open spec fn line_is_full(s: Seq<char>) -> bool {
    line_syms(s).len() > 2
}

/// Whether a line parses as a note: the positional fields it needs are
/// present, its numeric fields fit the fixed-point range, and its repeat
/// field is a boolean literal.
pub open spec fn line_parses(s: Seq<char>) -> bool {
    let nums = line_nums(s);
    let syms = line_syms(s);
    if line_is_full(s) {
        &&& nums.len() >= 2
        &&& token_in_range(nums[0])
        &&& token_in_range(nums[1])
        &&& bool_of_token(syms[2]) is Some
    } else {
        &&& nums.len() >= 1
        &&& token_in_range(nums[0])
        &&& syms.len() >= 2
        &&& bool_of_token(syms[1]) is Some
    }
}

/// The note a parsing line denotes.
pub open spec fn line_note(s: Seq<char>) -> Note {
    let nums = line_nums(s);
    let syms = line_syms(s);
    if line_is_full(s) {
        Note {
            duration_micros: token_value_micros(nums[0]) as i64,
            pitch: syms[0][0],
            octave: token_int_value(nums[1]) as i64,
            accidental: syms[1][0],
            repeat: bool_of_token(syms[2]).unwrap(),
        }
    } else {
        Note {
            duration_micros: token_value_micros(nums[0]) as i64,
            pitch: syms[0][0],
            octave: 0,
            accidental: 'N',
            repeat: bool_of_token(syms[1]).unwrap(),
        }
    }
}

/// Parses one line into a note. Exactly the lines accepted by
/// [`line_parses`] succeed, and yield [`line_note`]; every other line
/// fails with `MalformedNote` carrying the line itself.
pub fn note_from_str(line: &str) -> (r: Result<Note, MelodyError>)
    ensures
        line_parses(line@) ==> r == Ok::<Note, MelodyError>(line_note(line@)),
        !line_parses(line@) ==> (r matches Err(e) && e matches MelodyError::MalformedNote(l)
            && l@ == line@),
{
    let chars = str_to_chars(line);
    let mut toks = tokenize(&chars);
    let ghost all = line_tokens(line@);
    proof {
        lemma_tokens_nonempty(line@, 0, Seq::<char>::empty());
    }

    let mut nums: Vec<Vec<char>> = Vec::new();
    let mut syms: Vec<Vec<char>> = Vec::new();
    let ghost n_all = all.len() as int;
    while toks.len() > 0
        invariant
            all == line_tokens(line@),
            n_all == all.len(),
            forall|k: int| 0 <= k < all.len() ==> #[trigger] all[k].len() > 0,
            toks@.len() <= n_all,
            forall|j: int|
                0 <= j < toks@.len() ==> #[trigger] toks@[j]@ == all[n_all - toks@.len() + j],
            nums@.len() == numeric_tokens(all.take(n_all - toks@.len())).len(),
            forall|j: int|
                0 <= j < nums@.len() ==> #[trigger] nums@[j]@ == numeric_tokens(
                    all.take(n_all - toks@.len()),
                )[j],
            syms@.len() == symbolic_tokens(all.take(n_all - toks@.len())).len(),
            forall|j: int|
                0 <= j < syms@.len() ==> #[trigger] syms@[j]@ == symbolic_tokens(
                    all.take(n_all - toks@.len()),
                )[j],
            forall|j: int| 0 <= j < nums@.len() ==> #[trigger] nums@[j]@.len() > 0,
            forall|j: int| 0 <= j < syms@.len() ==> #[trigger] syms@[j]@.len() > 0,
        decreases toks@.len(),
    {
        let ghost done = n_all - toks@.len();
        let t = toks.remove(0);
        proof {
            assert(t@ == all[done]);
            assert(all.take(done + 1).drop_last() =~= all.take(done));
            assert(all.take(done + 1).last() == t@);
        }
        if is_numeric(&t) {
            nums.push(t);
        } else {
            syms.push(t);
        }
    }
    proof {
        assert(all.take(n_all) =~= all);
        lemma_split_tokens_classified(all);
    }

    if syms.len() > 2 {
        // full note: duration pitch octave accidental repeat
        if nums.len() < 2 {
            return Err(MelodyError::MalformedNote(line.to_owned()));
        }
        let dur = match parse_decimal(&nums[0]) {
            Some(v) => v.0,
            None => {
                return Err(MelodyError::MalformedNote(line.to_owned()));
            },
        };
        let oct = match parse_decimal(&nums[1]) {
            Some(v) => v.1,
            None => {
                return Err(MelodyError::MalformedNote(line.to_owned()));
            },
        };
        let rep = match parse_bool(&syms[2]) {
            Some(b) => b,
            None => {
                return Err(MelodyError::MalformedNote(line.to_owned()));
            },
        };
        let pitch = syms[0][0];
        let acc = syms[1][0];
        Ok(Note { duration_micros: dur, pitch, octave: oct, accidental: acc, repeat: rep })
    } else {
        // short note: duration pitch repeat
        if nums.len() < 1 {
            return Err(MelodyError::MalformedNote(line.to_owned()));
        }
        if syms.len() < 2 {
            return Err(MelodyError::MalformedNote(line.to_owned()));
        }
        let dur = match parse_decimal(&nums[0]) {
            Some(v) => v.0,
            None => {
                return Err(MelodyError::MalformedNote(line.to_owned()));
            },
        };
        let rep = match parse_bool(&syms[1]) {
            Some(b) => b,
            None => {
                return Err(MelodyError::MalformedNote(line.to_owned()));
            },
        };
        let pitch = syms[0][0];
        Ok(Note { duration_micros: dur, pitch, octave: 0, accidental: 'N', repeat: rep })
    }
}

} // verus!
