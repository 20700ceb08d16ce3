//! Random phrase selection for the musical dice game: each phrase of a
//! piece picks one of its recorded variations by a dice roll, and the
//! variation lives in a `.wav` file named after instrument, part, phrase
//! and roll.

use vstd::prelude::*;
use vstd::string::StringExecFns;
use rand::Rng;
use crate::decimal::{dec_digits, u64_to_digits};
use crate::text::{chars_to_string, str_equal};

verus! {

/// Relies on `rand::Rng::gen_range` over a half-open integer range: the
/// draw always lies inside the (nonempty) range.
#[verifier::external_body]
fn roll_in_range(lo: u64, hi: u64) -> (r: u64)
    requires
        lo < hi,
    ensures
        lo <= r < hi,
{
    rand::thread_rng().gen_range(lo..hi)
}

/// The path of one phrase variation:
/// `assets/<instrument>/<part><phrase>-<roll>.wav`.
pub open spec fn phrase_file_path(
    instrument: Seq<char>,
    part: Seq<char>,
    phrase: nat,
    roll: nat,
) -> Seq<char> {
    "assets/"@ + instrument + "/"@ + part + dec_digits(phrase) + "-"@ + dec_digits(roll) + ".wav"@
}

/// Builds the path of one phrase variation from its parts.
pub fn phrase_file_name(instrument: &str, part: &str, phrase: u64, roll: u64) -> (r: String)
    ensures
        r@ == phrase_file_path(instrument@, part@, phrase as nat, roll as nat),
{
    let mut out = String::new();
    out.append("assets/");
    out.append(instrument);
    out.append("/");
    out.append(part);
    let phrase_digits = chars_to_string(&u64_to_digits(phrase));
    out.append(phrase_digits.as_str());
    out.append("-");
    let roll_digits = chars_to_string(&u64_to_digits(roll));
    out.append(roll_digits.as_str());
    out.append(".wav");
    proof {
        assert(out@ =~= phrase_file_path(instrument@, part@, phrase as nat, roll as nat));
    }
    out
}

/// Picks a variation of the given phrase by a dice roll — two dice for
/// a minuet (a roll in 2..12), one die otherwise (a roll in 1..6) — and
/// returns its file path.
pub fn create_file_name(instrument: &str, part: &str, phrase: u64) -> (r: String)
    ensures
        exists|roll: nat|
            {
                &&& if part@ == "minuet"@ {
                    2 <= roll < 12
                } else {
                    1 <= roll < 6
                }
                &&& r@ == phrase_file_path(instrument@, part@, phrase as nat, roll)
            },
{
    let roll: u64 = if str_equal(part, "minuet") {
        roll_in_range(2, 12)
    } else {
        roll_in_range(1, 6)
    };
    let r = phrase_file_name(instrument, part, phrase, roll);
    proof {
        let w = roll as nat;
        if part@ == "minuet"@ {
            assert(2 <= w < 12);
        } else {
            assert(1 <= w < 6);
        }
        assert(r@ == phrase_file_path(instrument@, part@, phrase as nat, w));
    }
    r
}

} // verus!
