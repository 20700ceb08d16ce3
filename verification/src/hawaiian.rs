//! A Hawaiian phonetic transliterator: vowel pairs and single vowels are
//! replaced by their pronunciations, dashes join translated syllables,
//! and the result is capitalized.

use vstd::prelude::*;
use crate::text::{str_to_chars, chars_to_string, push_chars_of_str, str_eq_chars};

verus! {

/// ASCII lowercase of one character; everything outside `'A'..='Z'` is
/// left alone.
pub open spec fn lower_char(c: char) -> char {
    if c == 'A' {
        'a'
    } else if c == 'B' {
        'b'
    } else if c == 'C' {
        'c'
    } else if c == 'D' {
        'd'
    } else if c == 'E' {
        'e'
    } else if c == 'F' {
        'f'
    } else if c == 'G' {
        'g'
    } else if c == 'H' {
        'h'
    } else if c == 'I' {
        'i'
    } else if c == 'J' {
        'j'
    } else if c == 'K' {
        'k'
    } else if c == 'L' {
        'l'
    } else if c == 'M' {
        'm'
    } else if c == 'N' {
        'n'
    } else if c == 'O' {
        'o'
    } else if c == 'P' {
        'p'
    } else if c == 'Q' {
        'q'
    } else if c == 'R' {
        'r'
    } else if c == 'S' {
        's'
    } else if c == 'T' {
        't'
    } else if c == 'U' {
        'u'
    } else if c == 'V' {
        'v'
    } else if c == 'W' {
        'w'
    } else if c == 'X' {
        'x'
    } else if c == 'Y' {
        'y'
    } else if c == 'Z' {
        'z'
    } else {
        c
    }
}

/// ASCII uppercase of one character; everything outside `'a'..='z'` is
/// left alone.
pub open spec fn upper_char(c: char) -> char {
    if c == 'a' {
        'A'
    } else if c == 'b' {
        'B'
    } else if c == 'c' {
        'C'
    } else if c == 'd' {
        'D'
    } else if c == 'e' {
        'E'
    } else if c == 'f' {
        'F'
    } else if c == 'g' {
        'G'
    } else if c == 'h' {
        'H'
    } else if c == 'i' {
        'I'
    } else if c == 'j' {
        'J'
    } else if c == 'k' {
        'K'
    } else if c == 'l' {
        'L'
    } else if c == 'm' {
        'M'
    } else if c == 'n' {
        'N'
    } else if c == 'o' {
        'O'
    } else if c == 'p' {
        'P'
    } else if c == 'q' {
        'Q'
    } else if c == 'r' {
        'R'
    } else if c == 's' {
        'S'
    } else if c == 't' {
        'T'
    } else if c == 'u' {
        'U'
    } else if c == 'v' {
        'V'
    } else if c == 'w' {
        'W'
    } else if c == 'x' {
        'X'
    } else if c == 'y' {
        'Y'
    } else if c == 'z' {
        'Z'
    } else {
        c
    }
}

/// Runtime ASCII lowercase.
pub fn to_lower_char(c: char) -> (r: char)
    ensures
        r == lower_char(c),
{
    if c >= 'A' && c <= 'Z' {
        match c {
            'A' => 'a',
            'B' => 'b',
            'C' => 'c',
            'D' => 'd',
            'E' => 'e',
            'F' => 'f',
            'G' => 'g',
            'H' => 'h',
            'I' => 'i',
            'J' => 'j',
            'K' => 'k',
            'L' => 'l',
            'M' => 'm',
            'N' => 'n',
            'O' => 'o',
            'P' => 'p',
            'Q' => 'q',
            'R' => 'r',
            'S' => 's',
            'T' => 't',
            'U' => 'u',
            'V' => 'v',
            'W' => 'w',
            'X' => 'x',
            'Y' => 'y',
            _ => 'z',
        }
    } else {
        c
    }
}

/// Runtime ASCII uppercase.
pub fn to_upper_char(c: char) -> (r: char)
    ensures
        r == upper_char(c),
{
    if c >= 'a' && c <= 'z' {
        match c {
            'a' => 'A',
            'b' => 'B',
            'c' => 'C',
            'd' => 'D',
            'e' => 'E',
            'f' => 'F',
            'g' => 'G',
            'h' => 'H',
            'i' => 'I',
            'j' => 'J',
            'k' => 'K',
            'l' => 'L',
            'm' => 'M',
            'n' => 'N',
            'o' => 'O',
            'p' => 'P',
            'q' => 'Q',
            'r' => 'R',
            's' => 'S',
            't' => 'T',
            'u' => 'U',
            'v' => 'V',
            'w' => 'W',
            'x' => 'X',
            'y' => 'Y',
            _ => 'Z',
        }
    } else {
        c
    }
}

/// ASCII lowercase of a whole character sequence.
pub open spec fn lower_seq(s: Seq<char>) -> Seq<char> {
    s.map_values(|c: char| lower_char(c))
}

/// A sequence with its first character uppercased.
pub open spec fn capitalized(s: Seq<char>) -> Seq<char> {
    if s.len() == 0 {
        s
    } else {
        seq![upper_char(s[0])] + s.skip(1)
    }
}

/// Uppercases the first character of a string, ASCII-wise.
pub fn capitalize(s: &str) -> (r: String)
    ensures
        r@ == capitalized(s@),
{
    let mut chars = str_to_chars(s);
    if chars.len() > 0 {
        let c0 = chars[0];
        chars[0] = to_upper_char(c0);
        proof {
            assert(chars@ =~= capitalized(s@));
        }
    }
    chars_to_string(&chars)
}

// ------------------------------------------------------------------
// the pronunciation tables
// ------------------------------------------------------------------

/// The single-vowel pronunciations.
pub fn build_vowels() -> (r: Vec<(&'static str, &'static str)>)
    ensures
        r@.len() == 5,
        r@[0].0@ == "a"@ && r@[0].1@ == "ah"@,
        r@[1].0@ == "e"@ && r@[1].1@ == "eh"@,
        r@[2].0@ == "i"@ && r@[2].1@ == "ee"@,
        r@[3].0@ == "o"@ && r@[3].1@ == "oh"@,
        r@[4].0@ == "u"@ && r@[4].1@ == "oo"@,
{
    let mut v: Vec<(&'static str, &'static str)> = Vec::new();
    v.push(("a", "ah"));
    v.push(("e", "eh"));
    v.push(("i", "ee"));
    v.push(("o", "oh"));
    v.push(("u", "oo"));
    v
}

/// The vowel-pair pronunciations.
pub fn build_vowel_pairs() -> (r: Vec<(&'static str, &'static str)>)
    ensures
        r@.len() == 10,
        r@[0].0@ == "ai"@ && r@[0].1@ == "eye"@,
        r@[1].0@ == "ae"@ && r@[1].1@ == "eye"@,
        r@[2].0@ == "ao"@ && r@[2].1@ == "ow"@,
        r@[3].0@ == "au"@ && r@[3].1@ == "ow"@,
        r@[4].0@ == "ei"@ && r@[4].1@ == "ay"@,
        r@[5].0@ == "eu"@ && r@[5].1@ == "eh-oo"@,
        r@[6].0@ == "iu"@ && r@[6].1@ == "ew"@,
        r@[7].0@ == "oi"@ && r@[7].1@ == "oy"@,
        r@[8].0@ == "ou"@ && r@[8].1@ == "ew"@,
        r@[9].0@ == "ui"@ && r@[9].1@ == "ooey"@,
{
    let mut v: Vec<(&'static str, &'static str)> = Vec::new();
    v.push(("ai", "eye"));
    v.push(("ae", "eye"));
    v.push(("ao", "ow"));
    v.push(("au", "ow"));
    v.push(("ei", "ay"));
    v.push(("eu", "eh-oo"));
    v.push(("iu", "ew"));
    v.push(("oi", "oy"));
    v.push(("ou", "ew"));
    v.push(("ui", "ooey"));
    v
}

// ------------------------------------------------------------------
// lookup and transliteration
// ------------------------------------------------------------------

/// A pronunciation table as plain character sequences.
pub open spec fn table_view(t: Seq<(&'static str, &'static str)>) -> Seq<(Seq<char>, Seq<char>)> {
    Seq::new(t.len(), |i: int| (t[i].0@, t[i].1@))
}

/// First match of `key` in the table.
pub open spec fn lookup(table: Seq<(Seq<char>, Seq<char>)>, key: Seq<char>) -> Option<Seq<char>>
    decreases table.len(),
{
    if table.len() == 0 {
        None
    } else if table[0].0 == key {
        Some(table[0].1)
    } else {
        lookup(table.drop_first(), key)
    }
}

/// Looks a key up in a pronunciation table, first match wins.
fn lookup_table(table: &Vec<(&'static str, &'static str)>, key: &Vec<char>) -> (r: Option<
    &'static str,
>)
    ensures
        match lookup(table_view(table@), key@) {
            Option::None => r is None,
            Option::Some(v) => r matches Some(s) && s@ == v,
        },
{
    let ghost tv = table_view(table@);
    let mut i: usize = 0;
    proof {
        assert(tv.skip(0) =~= tv);
    }
    while i < table.len()
        invariant
            tv == table_view(table@),
            i <= table@.len(),
            tv.len() == table@.len(),
            forall|j: int| 0 <= j < tv.len() ==> #[trigger] tv[j] == (table@[j].0@, table@[j].1@),
            lookup(tv, key@) == lookup(tv.skip(i as int), key@),
        decreases table@.len() - i,
    {
        let entry = table[i];
        proof {
            assert(tv.skip(i as int)[0] == tv[i as int]);
        }
        if str_eq_chars(entry.0, key) {
            return Some(entry.1);
        }
        proof {
            assert(tv.skip(i as int).drop_first() =~= tv.skip(i as int + 1));
        }
        i = i + 1;
    }
    proof {
        assert(tv.skip(i as int).len() == 0);
    }
    None
}

/// The transliteration of `chars` from position `i` on: a vowel pair is
/// replaced by its pronunciation (consuming both characters), a single
/// vowel by its own, anything else is copied; a translated syllable not
/// at the end of the word is followed by a dash.
pub open spec fn translit_from(
    chars: Seq<char>,
    i: int,
    vt: Seq<(Seq<char>, Seq<char>)>,
    pt: Seq<(Seq<char>, Seq<char>)>,
) -> Seq<char>
    decreases chars.len() - i,
{
    if i < 0 || i >= chars.len() {
        Seq::empty()
    } else {
        let pair = if i < chars.len() - 1 {
            lookup(pt, chars.subrange(i, i + 2))
        } else {
            None
        };
        match pair {
            Option::Some(t) => t + (if i + 2 < chars.len() {
                seq!['-']
            } else {
                Seq::empty()
            }) + translit_from(chars, i + 2, vt, pt),
            Option::None => match lookup(vt, seq![chars[i]]) {
                Option::Some(t) => t + (if i + 1 < chars.len() {
                    seq!['-']
                } else {
                    Seq::empty()
                }) + translit_from(chars, i + 1, vt, pt),
                Option::None => seq![chars[i]] + translit_from(chars, i + 1, vt, pt),
            },
        }
    }
}

/// The pronunciation of a word: lowercase it, transliterate it, and
/// capitalize the result.
pub open spec fn pronounce_spec(
    w: Seq<char>,
    vt: Seq<(Seq<char>, Seq<char>)>,
    pt: Seq<(Seq<char>, Seq<char>)>,
) -> Seq<char> {
    capitalized(translit_from(lower_seq(w), 0, vt, pt))
}

/// Pronounces a word using the given single-vowel and vowel-pair
/// tables.
pub fn pronounce(
    word: &str,
    vowels: &Vec<(&'static str, &'static str)>,
    vowel_pairs: &Vec<(&'static str, &'static str)>,
) -> (r: String)
    ensures
        r@ == pronounce_spec(word@, table_view(vowels@), table_view(vowel_pairs@)),
{
    let ghost vt = table_view(vowels@);
    let ghost pt = table_view(vowel_pairs@);
    let raw = str_to_chars(word);

    // lowercase the word
    let mut chars: Vec<char> = Vec::new();
    let mut k: usize = 0;
    while k < raw.len()
        invariant
            k <= raw@.len(),
            raw@ == word@,
            chars@.len() == k,
            forall|j: int| 0 <= j < k ==> chars@[j] == lower_char(#[trigger] raw@[j]),
        decreases raw@.len() - k,
    {
        chars.push(to_lower_char(raw[k]));
        k = k + 1;
    }
    proof {
        assert(chars@ =~= lower_seq(word@));
    }

    let ghost low = chars@;
    let ghost full = translit_from(low, 0, vt, pt);
    let mut out: Vec<char> = Vec::new();
    let mut i: usize = 0;
    proof {
        assert(out@ + translit_from(low, 0, vt, pt) =~= full);
    }
    while i < chars.len()
        invariant
            vt == table_view(vowels@),
            pt == table_view(vowel_pairs@),
            low == chars@,
            full == translit_from(low, 0, vt, pt),
            i <= low.len(),
            full == out@ + translit_from(low, i as int, vt, pt),
        decreases low.len() - i,
    {
        let n = chars.len();
        let ghost step = translit_from(low, i as int, vt, pt);
        let mut pair_tr: Option<&'static str> = None;
        if i + 1 < n {
            let mut key2: Vec<char> = Vec::new();
            key2.push(chars[i]);
            key2.push(chars[i + 1]);
            proof {
                assert(key2@ =~= low.subrange(i as int, i as int + 2));
            }
            pair_tr = lookup_table(vowel_pairs, &key2);
        }
        match pair_tr {
            Some(t) => {
                push_chars_of_str(&mut out, t);
                if i + 2 < n {
                    out.push('-');
                    proof {
                        assert(out@ =~= (full.take(full.len() - step.len()) + t@).push('-'));
                    }
                }
                proof {
                    let dash = if i + 2 < low.len() {
                        seq!['-']
                    } else {
                        Seq::<char>::empty()
                    };
                    assert(step == t@ + dash + translit_from(low, i as int + 2, vt, pt));
                    assert(full =~= out@ + translit_from(low, i as int + 2, vt, pt));
                }
                i = i + 2;
            },
            None => {
                let mut key1: Vec<char> = Vec::new();
                key1.push(chars[i]);
                proof {
                    assert(key1@ =~= seq![low[i as int]]);
                }
                match lookup_table(vowels, &key1) {
                    Some(t) => {
                        push_chars_of_str(&mut out, t);
                        if i + 1 < n {
                            out.push('-');
                        }
                        proof {
                            let dash = if i + 1 < low.len() {
                                seq!['-']
                            } else {
                                Seq::<char>::empty()
                            };
                            assert(step == t@ + dash + translit_from(low, i as int + 1, vt, pt));
                            assert(full =~= out@ + translit_from(low, i as int + 1, vt, pt));
                        }
                        i = i + 1;
                    },
                    None => {
                        out.push(chars[i]);
                        proof {
                            assert(step == seq![low[i as int]] + translit_from(
                                low,
                                i as int + 1,
                                vt,
                                pt,
                            ));
                            assert(full =~= out@ + translit_from(low, i as int + 1, vt, pt));
                        }
                        i = i + 1;
                    },
                }
            },
        }
    }
    proof {
        assert(translit_from(low, i as int, vt, pt) =~= Seq::<char>::empty());
        assert(out@ =~= full);
    }

    // capitalize the first character
    if out.len() > 0 {
        let c0 = out[0];
        out[0] = to_upper_char(c0);
        proof {
            assert(out@ =~= capitalized(full));
        }
    }
    chars_to_string(&out)
}

// ------------------------------------------------------------------
// input validation
// ------------------------------------------------------------------

/// The characters a Hawaiian word may contain, after lowercasing.
pub open spec fn is_hawaiian_char(c: char) -> bool {
    ||| c == ' '
    ||| c == 'a'
    ||| c == 'e'
    ||| c == 'h'
    ||| c == 'i'
    ||| c == 'k'
    ||| c == 'l'
    ||| c == 'm'
    ||| c == 'n'
    ||| c == 'o'
    ||| c == 'p'
    ||| c == 'u'
    ||| c == 'w'
    ||| c == '\''
}

/// Runtime test for [`is_hawaiian_char`].
pub fn hawaiian_char(c: char) -> (r: bool)
    ensures
        r == is_hawaiian_char(c),
{
    c == ' ' || c == 'a' || c == 'e' || c == 'h' || c == 'i' || c == 'k' || c == 'l' || c == 'm'
        || c == 'n' || c == 'o' || c == 'p' || c == 'u' || c == 'w' || c == '\''
}

/// The first character of the word that is not Hawaiian, lowercased, if
/// there is one.
pub fn first_invalid_char(word: &str) -> (r: Option<char>)
    ensures
        r is None <==> (forall|i: int|
            0 <= i < word@.len() ==> is_hawaiian_char(lower_char(#[trigger] word@[i]))),
        r matches Some(c) ==> exists|i: int|
            {
                &&& 0 <= i < word@.len()
                &&& c == lower_char(#[trigger] word@[i])
                &&& !is_hawaiian_char(lower_char(word@[i]))
                &&& forall|j: int| 0 <= j < i ==> is_hawaiian_char(lower_char(#[trigger] word@[j]))
            },
{
    let n: usize = word.unicode_len();
    let mut i: usize = 0;
    while i < n
        invariant
            n == word@.len(),
            i <= n,
            forall|j: int| 0 <= j < i ==> is_hawaiian_char(lower_char(#[trigger] word@[j])),
        decreases n - i,
    {
        let c = to_lower_char(word.get_char(i));
        if !hawaiian_char(c) {
            return Some(c);
        }
        i = i + 1;
    }
    None
}

/// Whether every character of the word is a valid Hawaiian character,
/// case-insensitively.
pub fn validize_word(word: &str) -> (r: bool)
    ensures
        r == (forall|i: int|
            0 <= i < word@.len() ==> is_hawaiian_char(lower_char(#[trigger] word@[i]))),
{
    match first_invalid_char(word) {
        Option::None => true,
        Option::Some(_) => false,
    }
}

} // verus!
