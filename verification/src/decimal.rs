//! Exact decimal text: which tokens count as numbers, the fixed-point
//! value such a token denotes, and rendering integers back to digits.
//!
//! A numeric token is an optional sign followed by digits with at most one
//! dot among them (`"3"`, `"-0.5"`, `".25"`, `"7."`). Its value is kept in
//! micro-units: millionths, with fraction digits beyond the sixth dropped.

use vstd::prelude::*;

verus! {

/// Decimal digit characters.
pub open spec fn is_digit_char(c: char) -> bool {
    '0' <= c && c <= '9'
}

/// Numeric value of one digit character.
pub open spec fn digit_value(c: char) -> int {
    (c as u32) - ('0' as u32)
}

/// The digit character for `d` in `0..10`.
pub open spec fn digit_char(d: int) -> char {
    if d == 0 {
        '0'
    } else if d == 1 {
        '1'
    } else if d == 2 {
        '2'
    } else if d == 3 {
        '3'
    } else if d == 4 {
        '4'
    } else if d == 5 {
        '5'
    } else if d == 6 {
        '6'
    } else if d == 7 {
        '7'
    } else if d == 8 {
        '8'
    } else {
        '9'
    }
}

/// Every character of `s` is a digit.
pub open spec fn all_digits(s: Seq<char>) -> bool {
    forall|i: int| 0 <= i < s.len() ==> is_digit_char(#[trigger] s[i])
}

/// Value of a digit string read most-significant first; the empty string
/// counts as zero.
pub open spec fn digits_value(s: Seq<char>) -> int
    decreases s.len(),
{
    if s.len() == 0 {
        0
    } else {
        digits_value(s.drop_last()) * 10 + digit_value(s.last())
    }
}

/// Ten to the `k`.
pub open spec fn pow10(k: nat) -> int
    decreases k,
{
    if k == 0 {
        1
    } else {
        10 * pow10((k - 1) as nat)
    }
}

/// The small powers of ten, spelled out.
pub proof fn lemma_pow10_small()
    ensures
        pow10(0) == 1,
        pow10(1) == 10,
        pow10(2) == 100,
        pow10(3) == 1000,
        pow10(4) == 10000,
        pow10(5) == 100_000,
        pow10(6) == 1_000_000,
{
    reveal_with_fuel(pow10, 8);
}

pub proof fn lemma_pow10_pos(k: nat)
    ensures
        pow10(k) >= 1,
    decreases k,
{
    if k > 0 {
        lemma_pow10_pos((k - 1) as nat);
    }
}

/// `pow10(a) * pow10(b) == pow10(a + b)`.
pub proof fn lemma_pow10_mul(a: nat, b: nat)
    ensures
        pow10(a) * pow10(b) == pow10(a + b),
    decreases a,
{
    if a == 0 {
    } else {
        lemma_pow10_mul((a - 1) as nat, b);
        assert(pow10(a) * pow10(b) == 10 * (pow10((a - 1) as nat) * pow10(b)))
            by (nonlinear_arith)
            requires
                pow10(a) == 10 * pow10((a - 1) as nat),
        ;
    }
}

pub proof fn lemma_pow10_increases(a: nat, b: nat)
    requires
        a <= b,
    ensures
        pow10(a) <= pow10(b),
    decreases b,
{
    if a < b {
        lemma_pow10_increases(a, (b - 1) as nat);
        lemma_pow10_pos((b - 1) as nat);
    }
}

pub proof fn lemma_digits_value_nonneg(s: Seq<char>)
    requires
        all_digits(s),
    ensures
        digits_value(s) >= 0,
    decreases s.len(),
{
    if s.len() > 0 {
        assert(all_digits(s.drop_last()));
        lemma_digits_value_nonneg(s.drop_last());
        assert(digit_value(s.last()) >= 0);
    }
}

/// A digit string of `k` digits stays below ten to the `k`.
pub proof fn lemma_digits_value_bound(s: Seq<char>)
    requires
        all_digits(s),
    ensures
        digits_value(s) < pow10(s.len()),
    decreases s.len(),
{
    if s.len() == 0 {
    } else {
        assert(all_digits(s.drop_last()));
        lemma_digits_value_bound(s.drop_last());
        assert(digit_value(s.last()) <= 9);
    }
}

/// Appending digits never shrinks the value.
pub proof fn lemma_digits_value_prefix(s: Seq<char>, k: int)
    requires
        all_digits(s),
        0 <= k <= s.len(),
    ensures
        digits_value(s.take(k)) <= digits_value(s),
    decreases s.len() - k,
{
    if k < s.len() {
        let t = s.take(k + 1);
        assert(t.drop_last() =~= s.take(k));
        assert(all_digits(s.take(k)));
        lemma_digits_value_nonneg(s.take(k));
        assert(digits_value(t) == digits_value(s.take(k)) * 10 + digit_value(s[k]));
        lemma_digits_value_prefix(s, k + 1);
    } else {
        assert(s.take(k) =~= s);
    }
}

// ------------------------------------------------------------------
// numeric tokens
// ------------------------------------------------------------------

/// The token starts with an explicit sign.
pub open spec fn token_has_sign(t: Seq<char>) -> bool {
    t.len() > 0 && (t[0] == '+' || t[0] == '-')
}

/// The token denotes a negative value.
pub open spec fn token_negative(t: Seq<char>) -> bool {
    t.len() > 0 && t[0] == '-'
}

/// The token with any sign removed.
pub open spec fn token_body(t: Seq<char>) -> Seq<char> {
    if token_has_sign(t) {
        t.drop_first()
    } else {
        t
    }
}

/// No two positions of `s` both hold dots.
pub open spec fn at_most_one_dot(s: Seq<char>) -> bool {
    forall|i: int, j: int| 0 <= i < j < s.len() ==> !(#[trigger] s[i] == '.' && #[trigger] s[j] == '.')
}

/// A token counts as numeric when, after an optional sign, it is made of
/// digits and at most one dot, with at least one digit.
pub open spec fn is_numeric_token(t: Seq<char>) -> bool {
    let body = token_body(t);
    &&& body.len() > 0
    &&& (forall|i: int|
        0 <= i < body.len() ==> is_digit_char(#[trigger] body[i]) || body[i] == '.')
    &&& (exists|i: int| 0 <= i < body.len() && is_digit_char(#[trigger] body[i]))
    &&& at_most_one_dot(body)
}

/// Index of the first dot at or after `i`, or the length when there is none.
pub open spec fn dot_index_from(s: Seq<char>, i: int) -> int
    decreases s.len() - i,
{
    if i < 0 || i >= s.len() {
        s.len() as int
    } else if s[i] == '.' {
        i
    } else {
        dot_index_from(s, i + 1)
    }
}

/// Index of the first dot of `s`, or its length.
pub open spec fn dot_index(s: Seq<char>) -> int {
    dot_index_from(s, 0)
}

pub proof fn lemma_dot_index(s: Seq<char>)
    ensures
        0 <= dot_index(s) <= s.len(),
        dot_index(s) < s.len() ==> s[dot_index(s)] == '.',
        forall|j: int| 0 <= j < dot_index(s) ==> #[trigger] s[j] != '.',
{
    lemma_dot_index_from(s, 0);
}

proof fn lemma_dot_index_from(s: Seq<char>, i: int)
    requires
        0 <= i <= s.len(),
    ensures
        i <= dot_index_from(s, i) <= s.len(),
        dot_index_from(s, i) < s.len() ==> s[dot_index_from(s, i)] == '.',
        forall|j: int| i <= j < dot_index_from(s, i) ==> #[trigger] s[j] != '.',
    decreases s.len() - i,
{
    if i < s.len() && s[i] != '.' {
        lemma_dot_index_from(s, i + 1);
    }
}

/// The digits before the dot.
pub open spec fn int_digits(t: Seq<char>) -> Seq<char> {
    let body = token_body(t);
    body.take(dot_index(body))
}

/// The digits after the dot.
pub open spec fn frac_digits(t: Seq<char>) -> Seq<char> {
    let body = token_body(t);
    if dot_index(body) < body.len() {
        body.skip(dot_index(body) + 1)
    } else {
        Seq::empty()
    }
}

/// How many fraction digits contribute to the value: at most six.
pub open spec fn frac_taken(t: Seq<char>) -> nat {
    if frac_digits(t).len() <= 6 {
        frac_digits(t).len()
    } else {
        6
    }
}

/// The fraction digits as millionths: the first six, right-padded with
/// zeros up to six places.
pub open spec fn frac_micros(t: Seq<char>) -> int {
    digits_value(frac_digits(t).take(frac_taken(t) as int)) * pow10((6 - frac_taken(t)) as nat)
}

/// Magnitude of a numeric token in micro-units.
pub open spec fn token_magnitude_micros(t: Seq<char>) -> int {
    digits_value(int_digits(t)) * 1_000_000 + frac_micros(t)
}

/// Signed value of a numeric token in micro-units.
pub open spec fn token_value_micros(t: Seq<char>) -> int {
    if token_negative(t) {
        -token_magnitude_micros(t)
    } else {
        token_magnitude_micros(t)
    }
}

/// Signed value of a numeric token truncated toward zero to a whole
/// number of units.
pub open spec fn token_int_value(t: Seq<char>) -> int {
    if token_negative(t) {
        -digits_value(int_digits(t))
    } else {
        digits_value(int_digits(t))
    }
}

/// Tokens whose whole-unit part stays below nine million; exactly these
/// fit the engine's fixed-point range (their magnitude in micro-units is
/// below [`crate::note::VALUE_LIMIT_MICROS`]).
pub open spec fn token_in_range(t: Seq<char>) -> bool {
    digits_value(int_digits(t)) < 9_000_000
}

/// The int digits and the fraction digits of a numeric token are digits.
pub proof fn lemma_token_digit_parts(t: Seq<char>)
    requires
        is_numeric_token(t),
    ensures
        all_digits(int_digits(t)),
        all_digits(frac_digits(t)),
{
    let body = token_body(t);
    lemma_dot_index(body);
    let dot = dot_index(body);
    assert forall|i: int| 0 <= i < int_digits(t).len() implies is_digit_char(
        #[trigger] int_digits(t)[i],
    ) by {
        assert(int_digits(t)[i] == body[i]);
        assert(body[i] != '.');
    }
    if dot < body.len() {
        assert forall|i: int| 0 <= i < frac_digits(t).len() implies is_digit_char(
            #[trigger] frac_digits(t)[i],
        ) by {
            assert(frac_digits(t)[i] == body[i + dot + 1]);
            assert(body[i + dot + 1] != '.') by {
                if body[i + dot + 1] == '.' {
                    assert(body[dot] == '.');
                    assert(!at_most_one_dot(body));
                }
            }
        }
    }
}

/// Runtime test for [`is_numeric_token`].
pub fn is_numeric(t: &Vec<char>) -> (r: bool)
    ensures
        r == is_numeric_token(t@),
{
    let ghost body = token_body(t@);
    if t.len() == 0 {
        return false;
    }
    let off: usize = if t[0] == '+' || t[0] == '-' {
        1
    } else {
        0
    };
    proof {
        assert(body.len() == t@.len() - off);
        assert(forall|k: int| 0 <= k < body.len() ==> body[k] == t@[k + off]);
    }
    if t.len() == off {
        return false;
    }
    let mut i: usize = off;
    let mut has_digit: bool = false;
    let mut has_dot: bool = false;
    while i < t.len()
        invariant
            off <= i <= t@.len(),
            off <= 1,
            off < t@.len(),
            body == token_body(t@),
            body.len() == t@.len() - off,
            forall|k: int| 0 <= k < body.len() ==> body[k] == t@[k + off],
            forall|k: int|
                0 <= k < i - off ==> is_digit_char(#[trigger] body[k]) || body[k] == '.',
            has_digit == exists|k: int| 0 <= k < i - off && is_digit_char(#[trigger] body[k]),
            has_dot == exists|k: int| 0 <= k < i - off && #[trigger] body[k] == '.',
            forall|k1: int, k2: int|
                0 <= k1 < k2 < i - off ==> !(#[trigger] body[k1] == '.' && #[trigger] body[k2] == '.'),
        decreases t@.len() - i,
    {
        let c = t[i];
        proof {
            assert(body[i - off] == t@[i as int]);
        }
        if c >= '0' && c <= '9' {
            has_digit = true;
            proof {
                assert(is_digit_char(body[i - off]));
            }
        } else if c == '.' {
            if has_dot {
                proof {
                    let k = choose|k: int| 0 <= k < i - off && #[trigger] body[k] == '.';
                    assert(body[k] == '.' && body[i - off] == '.');
                    assert(!at_most_one_dot(body));
                }
                return false;
            }
            has_dot = true;
        } else {
            proof {
                assert(!(is_digit_char(body[i - off]) || body[i - off] == '.'));
            }
            return false;
        }
        i = i + 1;
    }
    has_digit
}

/// Parses a numeric token into `(value in micro-units, value truncated
/// toward zero)`. Returns `None` exactly when the whole-unit part does
/// not fit the engine's fixed-point range.
pub fn parse_decimal(t: &Vec<char>) -> (r: Option<(i64, i64)>)
    requires
        is_numeric_token(t@),
    ensures
        r is Some <==> token_in_range(t@),
        r is Some ==> r == Some::<(i64, i64)>(
            ((token_value_micros(t@) as i64), (token_int_value(t@) as i64)),
        ),
{
    let ghost body = token_body(t@);
    proof {
        assert(t@.len() > 0);
    }
    let neg: bool = t[0] == '-';
    let off: usize = if t[0] == '+' || t[0] == '-' {
        1
    } else {
        0
    };
    proof {
        assert(body.len() == t@.len() - off);
        assert(forall|k: int| 0 <= k < body.len() ==> body[k] == t@[k + off]);
        lemma_dot_index(body);
        lemma_token_digit_parts(t@);
    }
    let ghost dot = dot_index(body);

    // whole-unit digits, up to the dot or the end
    let mut i: usize = off;
    let mut int_acc: u64 = 0;
    while i < t.len() && t[i] != '.'
        invariant
            is_numeric_token(t@),
            body == token_body(t@),
            dot == dot_index(body),
            off <= 1,
            off <= i <= t@.len(),
            body.len() == t@.len() - off,
            forall|k: int| 0 <= k < body.len() ==> body[k] == t@[k + off],
            i - off <= dot,
            all_digits(body.take(i - off)),
            int_acc == digits_value(body.take(i - off)),
            int_acc < 9_000_000,
        decreases t@.len() - i,
    {
        let c = t[i];
        proof {
            lemma_dot_index(body);
            assert(body[i - off] == t@[i as int]);
            assert(t@[i as int] != '.');
            assert(i - off < dot) by {
                if i - off == dot {
                    assert(dot < body.len());
                    assert(body[dot] == '.');
                }
            }
            assert(is_digit_char(body[i - off]) || body[i - off] == '.');
            assert(is_digit_char(body[i - off]));
        }
        let d: u64 = (c as u32 - '0' as u32) as u64;
        let next: u64 = int_acc * 10 + d;
        proof {
            assert(body.take(i - off + 1).drop_last() =~= body.take(i - off));
            assert(body.take(i - off + 1).last() == body[i - off]);
            assert(all_digits(body.take(i - off + 1)));
            assert(digits_value(body.take(i - off + 1)) == next);
        }
        if next >= 9_000_000 {
            proof {
                let ints = int_digits(t@);
                assert(ints == body.take(dot));
                assert(ints.take(i - off + 1) =~= body.take(i - off + 1));
                lemma_digits_value_prefix(ints, i - off + 1);
                assert(digits_value(ints) >= next);
            }
            return None;
        }
        int_acc = next;
        i = i + 1;
    }
    proof {
        lemma_dot_index(body);
        // the loop stopped at the dot or at the end: this is the dot index
        assert(i - off == dot) by {
            if i < t@.len() {
                assert(body[i - off] == t@[i as int]);
                assert(body[i - off] == '.');
                assert(i - off >= dot) by {
                    if i - off < dot {
                        assert(body[i - off] != '.');
                    }
                }
            } else {
                assert(i - off == body.len());
                if dot < body.len() {
                    assert(body[dot] == '.');
                    assert(all_digits(body.take(i - off)));
                    assert(body.take(i - off)[dot] == body[dot]);
                    assert(is_digit_char(body[dot]));
                }
            }
        }
        assert(int_digits(t@) == body.take(dot));
        assert(int_acc == digits_value(int_digits(t@)));
    }

    // fraction digits: the first six contribute, the rest are dropped
    let mut frac_acc: u64 = 0;
    let mut taken: usize = 0;
    let ghost fracs = frac_digits(t@);
    if i < t.len() {
        // step over the dot
        i = i + 1;
        let start: usize = i;
        proof {
            assert(dot < body.len());
            assert(fracs == body.skip(dot + 1));
            assert(fracs.len() == t@.len() - start);
            assert(forall|k: int| 0 <= k < fracs.len() ==> fracs[k] == body[k + dot + 1]);
            assert(forall|k: int| 0 <= k < fracs.len() ==> #[trigger] fracs[k] == t@[k + start]);
            assert(fracs.take(0) =~= Seq::<char>::empty());
        }
        while i < t.len() && taken < 6
            invariant
                is_numeric_token(t@),
                body == token_body(t@),
                dot == dot_index(body),
                fracs == frac_digits(t@),
                all_digits(fracs),
                off <= 1,
                start == off + dot + 1,
                start <= i <= t@.len(),
                taken == i - start,
                taken <= 6,
                body.len() == t@.len() - off,
                fracs.len() == t@.len() - start,
                forall|k: int| 0 <= k < fracs.len() ==> #[trigger] fracs[k] == t@[k + start],
                frac_acc == digits_value(fracs.take(taken as int)),
                frac_acc < 1_000_000,
            decreases t@.len() - i,
        {
            let c = t[i];
            proof {
                assert(fracs[i - start] == t@[i as int]);
                assert(is_digit_char(fracs[i - start]));
            }
            let d: u64 = (c as u32 - '0' as u32) as u64;
            proof {
                assert(fracs.take(taken as int) =~= fracs.take(taken as int));
                assert(all_digits(fracs.take(taken as int)));
                lemma_digits_value_bound(fracs.take(taken as int));
                lemma_pow10_increases(taken as nat, 5);
                lemma_pow10_small();
                assert(frac_acc < 100_000);
                assert(fracs.take(taken + 1).drop_last() =~= fracs.take(taken as int));
                assert(fracs.take(taken + 1).last() == fracs[taken as int]);
            }
            frac_acc = frac_acc * 10 + d;
            taken = taken + 1;
            i = i + 1;
            proof {
                assert(frac_acc == digits_value(fracs.take(taken as int)));
            }
        }
        proof {
            assert(taken == frac_taken(t@)) by {
                if i < t@.len() {
                    assert(taken == 6);
                    assert(fracs.len() > 6);
                } else {
                    assert(taken == fracs.len());
                }
            }
        }
    } else {
        proof {
            assert(i - off == body.len());
            assert(dot == body.len());
            assert(fracs =~= Seq::<char>::empty());
            assert(frac_taken(t@) == 0);
            assert(fracs.take(0) =~= Seq::<char>::empty());
        }
    }
    proof {
        assert(frac_acc == digits_value(fracs.take(frac_taken(t@) as int)));
    }

    // scale the fraction out to six places
    let pad: usize = 6 - taken;
    let scale: u64 = pow10_u64(pad);
    proof {
        assert(all_digits(fracs.take(frac_taken(t@) as int)));
        lemma_digits_value_bound(fracs.take(frac_taken(t@) as int));
        lemma_digits_value_nonneg(fracs.take(frac_taken(t@) as int));
        lemma_pow10_bound((6 - frac_taken(t@)) as nat, frac_acc as int);
    }
    let frac_scaled: u64 = frac_acc * scale;
    proof {
        assert(frac_scaled == frac_micros(t@));
        assert(frac_scaled < 1_000_000);
    }
    let mag: u64 = int_acc * 1_000_000 + frac_scaled;
    proof {
        assert(mag == token_magnitude_micros(t@));
        assert(mag < 9_000_000_000_000);
        assert(token_negative(t@) == (t@[0] == '-'));
    }
    if neg {
        Some((-(mag as i64), -(int_acc as i64)))
    } else {
        Some((mag as i64, int_acc as i64))
    }
}

/// A fraction of `k` digits scaled out to six places stays below a
/// million: `v < pow10(6 - k)` gives `v * pow10(k) < 1_000_000`.
pub proof fn lemma_pow10_bound(k: nat, v: int)
    requires
        k <= 6,
        0 <= v < pow10((6 - k) as nat),
    ensures
        v * pow10(k) < 1_000_000,
        pow10(k) <= 1_000_000,
{
    lemma_pow10_pos(k);
    lemma_pow10_pos((6 - k) as nat);
    lemma_pow10_mul((6 - k) as nat, k);
    lemma_pow10_small();
    assert(v * pow10(k) < pow10((6 - k) as nat) * pow10(k)) by (nonlinear_arith)
        requires
            v < pow10((6 - k) as nat),
            pow10(k) >= 1,
            v >= 0,
    ;
    assert(pow10(k) <= pow10((6 - k) as nat) * pow10(k)) by (nonlinear_arith)
        requires
            pow10((6 - k) as nat) >= 1,
            pow10(k) >= 1,
    ;
}

/// Ten to the `k` as a machine word, for small `k`.
pub fn pow10_u64(k: usize) -> (r: u64)
    requires
        k <= 6,
    ensures
        r == pow10(k as nat),
{
    proof {
        lemma_pow10_small();
    }
    if k == 0 {
        1
    } else if k == 1 {
        10
    } else if k == 2 {
        100
    } else if k == 3 {
        1_000
    } else if k == 4 {
        10_000
    } else if k == 5 {
        100_000
    } else {
        1_000_000
    }
}

/// An in-range numeric token's value stays strictly inside the
/// fixed-point range, and its whole-unit part below nine million.
pub proof fn lemma_token_value_bounds(t: Seq<char>)
    requires
        is_numeric_token(t),
        token_in_range(t),
    ensures
        0 <= token_magnitude_micros(t) < 9_000_000_000_000,
        -9_000_000_000_000 < token_value_micros(t) < 9_000_000_000_000,
        -9_000_000 < token_int_value(t) < 9_000_000,
        0 <= frac_micros(t) < 1_000_000,
{
    lemma_token_digit_parts(t);
    let ints = int_digits(t);
    let fr = frac_digits(t).take(frac_taken(t) as int);
    lemma_digits_value_nonneg(ints);
    assert(all_digits(fr)) by {
        assert(forall|i: int| 0 <= i < fr.len() ==> fr[i] == #[trigger] frac_digits(t)[i]);
    }
    lemma_digits_value_nonneg(fr);
    lemma_digits_value_bound(fr);
    lemma_pow10_bound((6 - frac_taken(t)) as nat, digits_value(fr));
    lemma_pow10_pos((6 - frac_taken(t)) as nat);
    assert(digits_value(fr) * pow10((6 - frac_taken(t)) as nat) >= 0) by (nonlinear_arith)
        requires
            digits_value(fr) >= 0,
            pow10((6 - frac_taken(t)) as nat) >= 1,
    ;
    assert(digits_value(ints) * 1_000_000 <= 8_999_999 * 1_000_000) by (nonlinear_arith)
        requires
            digits_value(ints) <= 8_999_999,
    ;
    assert(digits_value(ints) * 1_000_000 >= 0) by (nonlinear_arith)
        requires
            digits_value(ints) >= 0,
    ;
}

// ------------------------------------------------------------------
// rendering integers
// ------------------------------------------------------------------

/// Decimal digits of `n`, most significant first, no leading zeros
/// (a single `'0'` for zero).
pub open spec fn dec_digits(n: nat) -> Seq<char>
    decreases n,
{
    if n < 10 {
        seq![digit_char(n as int)]
    } else {
        dec_digits(n / 10).push(digit_char((n % 10) as int))
    }
}

/// The `w` least significant decimal digits of `n`, zero-padded.
pub open spec fn fixed_digits(n: nat, w: nat) -> Seq<char>
    decreases w,
{
    if w == 0 {
        Seq::empty()
    } else {
        fixed_digits(n / 10, (w - 1) as nat).push(digit_char((n % 10) as int))
    }
}

pub proof fn lemma_dec_digits_value(n: nat)
    ensures
        all_digits(dec_digits(n)),
        digits_value(dec_digits(n)) == n,
        dec_digits(n).len() >= 1,
    decreases n,
{
    if n < 10 {
        let s = dec_digits(n);
        assert(s == seq![digit_char(n as int)]);
        assert(is_digit_char(digit_char(n as int)));
        assert(digit_value(digit_char(n as int)) == n);
        assert(s.drop_last() =~= Seq::<char>::empty());
        assert(digits_value(Seq::<char>::empty()) == 0);
        assert(s.last() == digit_char(n as int));
        assert(digits_value(s) == digits_value(s.drop_last()) * 10 + digit_value(s.last()));
    } else {
        lemma_dec_digits_value(n / 10);
        let s = dec_digits(n);
        assert(s.drop_last() =~= dec_digits(n / 10));
        assert(is_digit_char(digit_char((n % 10) as int)));
        assert(digit_value(digit_char((n % 10) as int)) == n % 10);
        assert forall|i: int| 0 <= i < s.len() implies is_digit_char(#[trigger] s[i]) by {
            if i < s.len() - 1 {
                assert(s[i] == dec_digits(n / 10)[i]);
            }
        }
    }
}

pub proof fn lemma_fixed_digits_value(n: nat, w: nat)
    ensures
        all_digits(fixed_digits(n, w)),
        fixed_digits(n, w).len() == w,
        n < pow10(w) ==> digits_value(fixed_digits(n, w)) == n,
    decreases w,
{
    if w > 0 {
        lemma_fixed_digits_value(n / 10, (w - 1) as nat);
        let s = fixed_digits(n, w);
        assert(s.drop_last() =~= fixed_digits(n / 10, (w - 1) as nat));
        assert(is_digit_char(digit_char((n % 10) as int)));
        assert(digit_value(digit_char((n % 10) as int)) == n % 10);
        assert forall|i: int| 0 <= i < s.len() implies is_digit_char(#[trigger] s[i]) by {
            if i < s.len() - 1 {
                assert(s[i] == fixed_digits(n / 10, (w - 1) as nat)[i]);
            }
        }
        if n < pow10(w) {
            assert(n / 10 < pow10((w - 1) as nat)) by (nonlinear_arith)
                requires
                    n < pow10(w),
                    pow10(w) == 10 * pow10((w - 1) as nat),
                    n >= 0,
            ;
        }
    }
}

/// The decimal digits of a machine word, most significant first.
pub fn u64_to_digits(n: u64) -> (r: Vec<char>)
    ensures
        r@ == dec_digits(n as nat),
{
    let mut rev: Vec<char> = Vec::new();
    let mut m: u64 = n;
    proof {
        assert(rev@.reverse() =~= Seq::<char>::empty());
        assert(dec_digits(n as nat) =~= dec_digits(n as nat) + rev@.reverse());
    }
    while m >= 10
        invariant
            dec_digits(n as nat) == dec_digits(m as nat) + rev@.reverse(),
        decreases m,
    {
        let d: u64 = m % 10;
        let c: char = digit_of(d);
        rev.push(c);
        proof {
            assert(rev@.drop_last() =~= rev@.subrange(0, rev@.len() - 1));
            assert(rev@.reverse() =~= seq![c] + rev@.drop_last().reverse());
            assert(dec_digits((m / 10) as nat).push(digit_char(d as int)) + rev@.drop_last().reverse()
                =~= dec_digits((m / 10) as nat) + rev@.reverse());
            assert(dec_digits(m as nat) == dec_digits((m / 10) as nat).push(digit_char(d as int)));
        }
        m = m / 10;
    }
    let c: char = digit_of(m);
    let mut out: Vec<char> = Vec::new();
    out.push(c);
    proof {
        assert(out@ =~= seq![digit_char(m as int)]);
        assert(dec_digits(m as nat) == seq![digit_char(m as int)]);
        assert(dec_digits(n as nat) == seq![digit_char(m as int)] + rev@.reverse());
        assert(rev@.skip(rev@.len() as int).reverse() =~= Seq::<char>::empty());
        assert(out@ =~= seq![digit_char(m as int)] + rev@.skip(rev@.len() as int).reverse());
    }
    let ghost lead: char = digit_char(m as int);
    let mut k: usize = rev.len();
    while k > 0
        invariant
            k <= rev@.len(),
            out@ == seq![lead] + rev@.skip(k as int).reverse(),
            dec_digits(n as nat) == seq![lead] + rev@.reverse(),
        decreases k,
    {
        k = k - 1;
        let c2: char = rev[k];
        out.push(c2);
        proof {
            assert(rev@.skip(k as int).reverse() =~= rev@.skip(k + 1).reverse().push(rev@[k as int]));
            assert(out@ =~= seq![lead] + rev@.skip(k as int).reverse());
        }
    }
    proof {
        assert(rev@.skip(0) =~= rev@);
        assert(out@ =~= dec_digits(n as nat));
    }
    out
}

/// The digit character for a machine word below ten.
pub fn digit_of(d: u64) -> (c: char)
    requires
        d < 10,
    ensures
        c == digit_char(d as int),
{
    if d == 0 {
        '0'
    } else if d == 1 {
        '1'
    } else if d == 2 {
        '2'
    } else if d == 3 {
        '3'
    } else if d == 4 {
        '4'
    } else if d == 5 {
        '5'
    } else if d == 6 {
        '6'
    } else if d == 7 {
        '7'
    } else if d == 8 {
        '8'
    } else {
        '9'
    }
}

} // verus!
