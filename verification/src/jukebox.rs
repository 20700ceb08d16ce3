//! File names of the song library.

use vstd::prelude::*;
use vstd::string::StringExecFns;

verus! {

/// The path of a song's note file inside the assets directory.
pub fn create_file_name(songname: &str) -> (r: String)
    ensures
        r@ == "assets/songtxts/"@ + songname@ + ".txt"@,
{
    let mut out = String::new();
    out.append("assets/songtxts/");
    out.append(songname);
    out.append(".txt");
    proof {
        assert(out@ =~= "assets/songtxts/"@ + songname@ + ".txt"@);
    }
    out
}

} // verus!
