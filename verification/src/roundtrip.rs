//! Laws of the parser: a line synthesized from known fields parses back
//! to exactly those fields.
//!
//! A full line carries duration, pitch, octave, accidental and repeat;
//! a short line only duration, pitch and repeat, and parses with octave
//! 0 and a natural accidental.

use vstd::prelude::*;
use vstd::arithmetic::div_mod::lemma_fundamental_div_mod;
use crate::decimal::{
    dec_digits, fixed_digits, digits_value, is_digit_char, pow10,
    lemma_dec_digits_value, lemma_fixed_digits_value, lemma_pow10_small, lemma_dot_index,
    dot_index, is_numeric_token, token_body, token_has_sign, token_negative, token_in_range,
    token_value_micros, token_int_value, int_digits, frac_digits, frac_taken, frac_micros,
};
use crate::note::Note;
use crate::parse::{
    tokens_acc, line_tokens, line_nums, line_syms, line_is_full, line_parses, line_note,
    numeric_tokens, symbolic_tokens, bool_of_token,
};
use crate::text::is_space_char;

verus! {

// ------------------------------------------------------------------
// rendering fields as tokens
// ------------------------------------------------------------------

/// The canonical text of a nonnegative fixed-point value: whole units,
/// a dot, and exactly six fraction digits.
pub open spec fn render_magnitude(m: int) -> Seq<char> {
    dec_digits((m / 1_000_000) as nat) + seq!['.'] + fixed_digits((m % 1_000_000) as nat, 6)
}

/// The canonical text of a fixed-point value in micro-units.
pub open spec fn render_micros(v: int) -> Seq<char> {
    if v < 0 {
        seq!['-'] + render_magnitude(-v)
    } else {
        render_magnitude(v)
    }
}

/// The canonical text of a whole number.
pub open spec fn render_int(v: int) -> Seq<char> {
    if v < 0 {
        seq!['-'] + dec_digits((-v) as nat)
    } else {
        dec_digits(v as nat)
    }
}

/// The boolean literal for a repeat flag.
pub open spec fn bool_token(b: bool) -> Seq<char> {
    if b {
        seq!['t', 'r', 'u', 'e']
    } else {
        seq!['f', 'a', 'l', 's', 'e']
    }
}

/// A synthesized full line: `duration pitch octave accidental repeat`,
/// separated by single spaces.
pub open spec fn full_line(d: int, p: char, o: int, a: char, rep: bool) -> Seq<char> {
    render_micros(d) + seq![' '] + seq![p] + seq![' '] + render_int(o) + seq![' '] + seq![a]
        + seq![' '] + bool_token(rep)
}

/// A synthesized short line: `duration pitch repeat`, separated by
/// single spaces.
pub open spec fn short_line(d: int, p: char, rep: bool) -> Seq<char> {
    render_micros(d) + seq![' '] + seq![p] + seq![' '] + bool_token(rep)
}

// ------------------------------------------------------------------
// the rendered tokens classify and evaluate as intended
// ------------------------------------------------------------------

/// Digit characters are not dots, signs or whitespace.
proof fn lemma_digit_char_shape(c: char)
    requires
        is_digit_char(c),
    ensures
        c != '.' && c != '+' && c != '-' && !is_space_char(c),
{
}

/// The rendered fixed-point value is a numeric token in range, worth
/// exactly the value it was rendered from.
pub proof fn lemma_render_micros(v: int)
    requires
        -9_000_000_000_000 < v < 9_000_000_000_000,
    ensures
        is_numeric_token(render_micros(v)),
        token_in_range(render_micros(v)),
        token_value_micros(render_micros(v)) == v,
        render_micros(v).len() > 0,
        forall|j: int|
            0 <= j < render_micros(v).len() ==> !is_space_char(#[trigger] render_micros(v)[j]),
{
    let m = if v < 0 {
        -v
    } else {
        v
    };
    let q = m / 1_000_000;
    let r = m % 1_000_000;
    let a = dec_digits(q as nat);
    let b = fixed_digits(r as nat, 6);
    let body = render_magnitude(m);
    let t = render_micros(v);

    lemma_dec_digits_value(q as nat);
    lemma_fixed_digits_value(r as nat, 6);
    lemma_pow10_small();
    lemma_fundamental_div_mod(m, 1_000_000);

    assert(body == a + seq!['.'] + b);
    assert(body.len() == a.len() + 1 + 6);
    assert(forall|j: int| 0 <= j < a.len() ==> body[j] == #[trigger] a[j]);
    assert(body[a.len() as int] == '.');
    assert(forall|j: int|
        a.len() + 1 <= j < body.len() ==> #[trigger] body[j] == b[j - a.len() - 1]);

    // every dot of the body sits at the single dot position
    assert forall|j: int| 0 <= j < body.len() && #[trigger] body[j] == '.' implies j
        == a.len() by {
        if j < a.len() {
            lemma_digit_char_shape(a[j]);
        } else if j > a.len() {
            lemma_digit_char_shape(b[j - a.len() - 1]);
        }
    }

    // the token body is the rendered magnitude
    if v < 0 {
        assert(t == seq!['-'] + body);
        assert(t[0] == '-');
        assert(token_has_sign(t));
        assert(token_body(t) =~= body);
        assert(token_negative(t));
    } else {
        assert(t == body);
        assert(t[0] == a[0]);
        lemma_digit_char_shape(a[0]);
        assert(!token_has_sign(t));
        assert(token_body(t) == body);
        assert(!token_negative(t));
    }

    // the body is numeric: digits around one dot
    assert(forall|j: int|
        0 <= j < body.len() ==> is_digit_char(#[trigger] body[j]) || body[j] == '.');
    assert(is_digit_char(body[0]));
    assert(crate::decimal::at_most_one_dot(body));
    assert(is_numeric_token(t));

    // the dot splits the body back into the rendered parts
    lemma_dot_index(body);
    assert(dot_index(body) == a.len()) by {
        if dot_index(body) < a.len() {
            assert(body[dot_index(body)] == '.');
        } else if dot_index(body) > a.len() {
            assert(body[a.len() as int] != '.');
        }
    }
    assert(int_digits(t) =~= a);
    assert(frac_digits(t) =~= b);
    assert(frac_taken(t) == 6);
    assert(frac_digits(t).take(6) =~= b);
    assert(frac_micros(t) == digits_value(b) * pow10(0));
    assert(digits_value(b) == r);
    assert(frac_micros(t) == r);
    assert(digits_value(int_digits(t)) == q);

    // the whole-unit part stays in range
    assert(q < 9_000_000) by {
        if q >= 9_000_000 {
            assert(m == 1_000_000 * q + r);
            assert(1_000_000 * q >= 9_000_000_000_000);
        }
    }
    assert(token_in_range(t));
    assert(crate::decimal::token_magnitude_micros(t) == q * 1_000_000 + r);
    assert(q * 1_000_000 == 1_000_000 * q);
    assert(crate::decimal::token_magnitude_micros(t) == m);

    // no whitespace anywhere
    assert forall|j: int| 0 <= j < t.len() implies !is_space_char(#[trigger] t[j]) by {
        if v < 0 && j == 0 {
        } else {
            let k = if v < 0 {
                j - 1
            } else {
                j
            };
            assert(t[j] == body[k]);
            if k < a.len() {
                lemma_digit_char_shape(a[k]);
            } else if k > a.len() {
                lemma_digit_char_shape(b[k - a.len() - 1]);
            }
        }
    }
}

/// The rendered whole number is a numeric token in range whose
/// truncated value is exactly the number it was rendered from.
pub proof fn lemma_render_int(v: int)
    requires
        -9_000_000 < v < 9_000_000,
    ensures
        is_numeric_token(render_int(v)),
        token_in_range(render_int(v)),
        token_int_value(render_int(v)) == v,
        render_int(v).len() > 0,
        forall|j: int| 0 <= j < render_int(v).len() ==> !is_space_char(#[trigger] render_int(v)[j]),
{
    let m = if v < 0 {
        -v
    } else {
        v
    };
    let body = dec_digits(m as nat);
    let t = render_int(v);
    lemma_dec_digits_value(m as nat);

    if v < 0 {
        assert(t == seq!['-'] + body);
        assert(t[0] == '-');
        assert(token_body(t) =~= body);
        assert(token_negative(t));
    } else {
        assert(t == body);
        lemma_digit_char_shape(body[0]);
        assert(!token_has_sign(t));
        assert(token_body(t) == body);
        assert(!token_negative(t));
    }

    assert(is_digit_char(body[0]));
    assert forall|j: int| 0 <= j < body.len() && #[trigger] body[j] == '.' implies false by {
        lemma_digit_char_shape(body[j]);
    }
    assert(crate::decimal::at_most_one_dot(body));
    assert(is_numeric_token(t));

    lemma_dot_index(body);
    assert(dot_index(body) == body.len()) by {
        if dot_index(body) < body.len() {
            assert(body[dot_index(body)] == '.');
            lemma_digit_char_shape(body[dot_index(body)]);
        }
    }
    assert(int_digits(t) =~= body);
    assert(digits_value(int_digits(t)) == m);
    assert(token_in_range(t));
    assert(token_int_value(t) == v);

    assert forall|j: int| 0 <= j < t.len() implies !is_space_char(#[trigger] t[j]) by {
        if v < 0 && j == 0 {
        } else {
            let k = if v < 0 {
                j - 1
            } else {
                j
            };
            assert(t[j] == body[k]);
            lemma_digit_char_shape(body[k]);
        }
    }
}

/// A single non-digit character is a symbolic token.
pub proof fn lemma_single_char_symbolic(p: char)
    requires
        !is_digit_char(p),
    ensures
        !is_numeric_token(seq![p]),
{
    let t = seq![p];
    if p == '+' || p == '-' {
        assert(token_body(t) =~= Seq::<char>::empty());
    } else {
        assert(token_body(t) == t);
        assert forall|i: int| 0 <= i < t.len() implies !is_digit_char(#[trigger] t[i]) by {}
    }
}

/// The boolean literals are symbolic tokens that parse back to their
/// flag.
pub proof fn lemma_bool_token(b: bool)
    ensures
        !is_numeric_token(bool_token(b)),
        bool_of_token(bool_token(b)) == Some(b),
        bool_token(b).len() > 0,
        forall|j: int| 0 <= j < bool_token(b).len() ==> !is_space_char(#[trigger] bool_token(b)[j]),
{
    let t = bool_token(b);
    assert(t[0] == 't' || t[0] == 'f');
    assert(!token_has_sign(t));
    assert(token_body(t) == t);
    assert(!(is_digit_char(t[0]) || t[0] == '.'));
    assert(seq!['t', 'r', 'u', 'e'] != seq!['f', 'a', 'l', 's', 'e']) by {
        assert(seq!['t', 'r', 'u', 'e'].len() == 4);
        assert(seq!['f', 'a', 'l', 's', 'e'].len() == 5);
    }
}

// ------------------------------------------------------------------
// tokenizing a synthesized line
// ------------------------------------------------------------------

/// Tokenization is position-local: tokens found after a prefix depend
/// only on the rest of the text.
proof fn lemma_tokens_shift(s1: Seq<char>, s2: Seq<char>, k: int, cur: Seq<char>)
    requires
        0 <= k <= s2.len(),
    ensures
        tokens_acc(s1 + s2, s1.len() + k, cur) == tokens_acc(s2, k, cur),
    decreases s2.len() - k,
{
    let s = s1 + s2;
    if k >= s2.len() {
        assert(s1.len() + k >= s.len());
    } else {
        assert(s[s1.len() + k] == s2[k]);
        lemma_tokens_shift(s1, s2, k + 1, Seq::<char>::empty());
        lemma_tokens_shift(s1, s2, k + 1, cur.push(s2[k]));
    }
}

/// Scanning a run of non-whitespace characters accumulates them into
/// the pending token.
proof fn lemma_token_scan(s: Seq<char>, i: int, e: int, cur: Seq<char>)
    requires
        0 <= i <= e <= s.len(),
        forall|j: int| i <= j < e ==> !is_space_char(#[trigger] s[j]),
    ensures
        tokens_acc(s, i, cur) == tokens_acc(s, e, cur + s.subrange(i, e)),
    decreases e - i,
{
    if i == e {
        assert(cur + s.subrange(i, e) =~= cur);
    } else {
        assert(!is_space_char(s[i]));
        lemma_token_scan(s, i + 1, e, cur.push(s[i]));
        assert(cur.push(s[i]) + s.subrange(i + 1, e) =~= cur + s.subrange(i, e));
    }
}

/// Splitting off the first token: a nonempty run of non-whitespace
/// characters followed by a space-led rest tokenizes to that run, then
/// the rest's tokens.
proof fn lemma_token_prepend(t: Seq<char>, rest: Seq<char>)
    requires
        t.len() > 0,
        forall|j: int| 0 <= j < t.len() ==> !is_space_char(#[trigger] t[j]),
        rest.len() == 0 || is_space_char(rest[0]),
    ensures
        line_tokens(t + rest) == seq![t] + line_tokens(rest),
{
    let s = t + rest;
    assert(forall|j: int| 0 <= j < t.len() ==> s[j] == #[trigger] t[j]);
    lemma_token_scan(s, 0, t.len() as int, Seq::<char>::empty());
    assert(Seq::<char>::empty() + s.subrange(0, t.len() as int) =~= t);
    assert(line_tokens(s) == tokens_acc(s, t.len() as int, t));
    if rest.len() == 0 {
        assert(s.len() == t.len());
        assert(tokens_acc(s, t.len() as int, t) == seq![t]);
        assert(line_tokens(rest) =~= Seq::<Seq<char>>::empty());
        assert(seq![t] + line_tokens(rest) =~= seq![t]);
    } else {
        assert(s[t.len() as int] == rest[0]);
        assert(is_space_char(s[t.len() as int]));
        assert(tokens_acc(s, t.len() as int, t) == seq![t] + tokens_acc(
            s,
            t.len() as int + 1,
            Seq::<char>::empty(),
        ));
        lemma_tokens_shift(t, rest, 1, Seq::<char>::empty());
        assert(tokens_acc(s, t.len() as int + 1, Seq::<char>::empty()) == tokens_acc(
            rest,
            1,
            Seq::<char>::empty(),
        ));
        assert(line_tokens(rest) == tokens_acc(rest, 1, Seq::<char>::empty()));
    }
}

/// A leading space does not change the tokens.
proof fn lemma_space_prefix(tail: Seq<char>)
    ensures
        line_tokens(seq![' '] + tail) == line_tokens(tail),
{
    let s = seq![' '] + tail;
    assert(s[0] == ' ');
    if tail.len() == 0 {
        assert(s.len() == 1);
        assert(line_tokens(s) == tokens_acc(s, 1, Seq::<char>::empty()));
        assert(tokens_acc(s, 1, Seq::<char>::empty()) =~= Seq::<Seq<char>>::empty());
        assert(line_tokens(tail) =~= Seq::<Seq<char>>::empty());
    } else {
        assert(line_tokens(s) == tokens_acc(s, 1, Seq::<char>::empty()));
        lemma_tokens_shift(seq![' '], tail, 0, Seq::<char>::empty());
        assert(tokens_acc(s, 1, Seq::<char>::empty()) == tokens_acc(
            tail,
            0,
            Seq::<char>::empty(),
        ));
    }
}

/// Parsing a synthesized full line recovers exactly its fields.
pub proof fn lemma_full_line_roundtrip(d: int, p: char, o: int, a: char, rep: bool)
    requires
        -9_000_000_000_000 < d < 9_000_000_000_000,
        -9_000_000 < o < 9_000_000,
        !is_digit_char(p),
        !is_space_char(p),
        !is_digit_char(a),
        !is_space_char(a),
    ensures
        line_parses(full_line(d, p, o, a, rep)),
        line_note(full_line(d, p, o, a, rep)) == (Note {
            duration_micros: d as i64,
            pitch: p,
            octave: o as i64,
            accidental: a,
            repeat: rep,
        }),
{
    let t1 = render_micros(d);
    let t2 = seq![p];
    let t3 = render_int(o);
    let t4 = seq![a];
    let t5 = bool_token(rep);
    lemma_render_micros(d);
    lemma_render_int(o);
    lemma_single_char_symbolic(p);
    lemma_single_char_symbolic(a);
    lemma_bool_token(rep);

    let l5 = t5;
    let l4 = t4 + (seq![' '] + l5);
    let l3 = t3 + (seq![' '] + l4);
    let l2 = t2 + (seq![' '] + l3);
    let l1 = t1 + (seq![' '] + l2);
    let l = full_line(d, p, o, a, rep);
    assert(l =~= l1);

    lemma_token_prepend(t5, Seq::<char>::empty());
    assert(t5 + Seq::<char>::empty() =~= l5);
    assert(line_tokens(l5) == seq![t5] + line_tokens(Seq::<char>::empty()));
    assert(line_tokens(Seq::<char>::empty()) =~= Seq::<Seq<char>>::empty());
    assert(line_tokens(l5) =~= seq![t5]);

    lemma_token_prepend(t4, seq![' '] + l5);
    lemma_space_prefix(l5);
    assert(line_tokens(l4) == seq![t4] + line_tokens(l5));
    lemma_token_prepend(t3, seq![' '] + l4);
    lemma_space_prefix(l4);
    assert(line_tokens(l3) == seq![t3] + line_tokens(l4));
    lemma_token_prepend(t2, seq![' '] + l3);
    lemma_space_prefix(l3);
    assert(line_tokens(l2) == seq![t2] + line_tokens(l3));
    lemma_token_prepend(t1, seq![' '] + l2);
    lemma_space_prefix(l2);
    assert(line_tokens(l1) == seq![t1] + line_tokens(l2));

    let toks = seq![t1, t2, t3, t4, t5];
    assert(line_tokens(l) =~= toks);

    // split the token list into its numeric and symbolic parts
    assert(toks.drop_last() =~= seq![t1, t2, t3, t4]);
    assert(seq![t1, t2, t3, t4].drop_last() =~= seq![t1, t2, t3]);
    assert(seq![t1, t2, t3].drop_last() =~= seq![t1, t2]);
    assert(seq![t1, t2].drop_last() =~= seq![t1]);
    assert(seq![t1].drop_last() =~= Seq::<Seq<char>>::empty());
    assert(numeric_tokens(Seq::<Seq<char>>::empty()) =~= Seq::<Seq<char>>::empty());
    assert(symbolic_tokens(Seq::<Seq<char>>::empty()) =~= Seq::<Seq<char>>::empty());
    assert(numeric_tokens(seq![t1]) =~= seq![t1]);
    assert(numeric_tokens(seq![t1, t2]) =~= seq![t1]);
    assert(numeric_tokens(seq![t1, t2, t3]) =~= seq![t1, t3]);
    assert(numeric_tokens(seq![t1, t2, t3, t4]) =~= seq![t1, t3]);
    assert(numeric_tokens(toks) =~= seq![t1, t3]);
    assert(symbolic_tokens(seq![t1]) =~= Seq::<Seq<char>>::empty());
    assert(symbolic_tokens(seq![t1, t2]) =~= seq![t2]);
    assert(symbolic_tokens(seq![t1, t2, t3]) =~= seq![t2]);
    assert(symbolic_tokens(seq![t1, t2, t3, t4]) =~= seq![t2, t4]);
    assert(symbolic_tokens(toks) =~= seq![t2, t4, t5]);

    assert(line_nums(l) == seq![t1, t3]);
    assert(line_syms(l) == seq![t2, t4, t5]);
    assert(line_is_full(l));
    assert(line_parses(l));
    assert(line_note(l).pitch == t2[0]);
    assert(line_note(l).accidental == t4[0]);
}

/// Parsing a synthesized short line recovers its fields, with octave 0
/// (unspecified) and a natural accidental.
pub proof fn lemma_short_line_roundtrip(d: int, p: char, rep: bool)
    requires
        -9_000_000_000_000 < d < 9_000_000_000_000,
        !is_digit_char(p),
        !is_space_char(p),
    ensures
        line_parses(short_line(d, p, rep)),
        line_note(short_line(d, p, rep)) == (Note {
            duration_micros: d as i64,
            pitch: p,
            octave: 0,
            accidental: 'N',
            repeat: rep,
        }),
{
    let t1 = render_micros(d);
    let t2 = seq![p];
    let t5 = bool_token(rep);
    lemma_render_micros(d);
    lemma_single_char_symbolic(p);
    lemma_bool_token(rep);

    let l5 = t5;
    let l2 = t2 + (seq![' '] + l5);
    let l1 = t1 + (seq![' '] + l2);
    let l = short_line(d, p, rep);
    assert(l =~= l1);

    lemma_token_prepend(t5, Seq::<char>::empty());
    assert(t5 + Seq::<char>::empty() =~= l5);
    assert(line_tokens(Seq::<char>::empty()) =~= Seq::<Seq<char>>::empty());
    assert(line_tokens(l5) =~= seq![t5]);
    lemma_token_prepend(t2, seq![' '] + l5);
    lemma_space_prefix(l5);
    assert(line_tokens(l2) == seq![t2] + line_tokens(l5));
    lemma_token_prepend(t1, seq![' '] + l2);
    lemma_space_prefix(l2);
    assert(line_tokens(l1) == seq![t1] + line_tokens(l2));

    let toks = seq![t1, t2, t5];
    assert(line_tokens(l) =~= toks);

    assert(toks.drop_last() =~= seq![t1, t2]);
    assert(seq![t1, t2].drop_last() =~= seq![t1]);
    assert(seq![t1].drop_last() =~= Seq::<Seq<char>>::empty());
    assert(numeric_tokens(Seq::<Seq<char>>::empty()) =~= Seq::<Seq<char>>::empty());
    assert(symbolic_tokens(Seq::<Seq<char>>::empty()) =~= Seq::<Seq<char>>::empty());
    assert(numeric_tokens(seq![t1]) =~= seq![t1]);
    assert(numeric_tokens(seq![t1, t2]) =~= seq![t1]);
    assert(numeric_tokens(toks) =~= seq![t1]);
    assert(symbolic_tokens(seq![t1]) =~= Seq::<Seq<char>>::empty());
    assert(symbolic_tokens(seq![t1, t2]) =~= seq![t2]);
    assert(symbolic_tokens(toks) =~= seq![t2, t5]);

    assert(line_nums(l) == seq![t1]);
    assert(line_syms(l) == seq![t2, t5]);
    assert(!line_is_full(l));
    assert(line_parses(l));
    assert(line_note(l).pitch == t2[0]);
}

} // verus!

