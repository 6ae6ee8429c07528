use vstd::prelude::*;
use vstd::string::StringExecFns;

use crate::model::{ResultData, TrackModel};
use crate::numeral::{dec_rep, usize_to_string};

verus! {

// ---------------------------------------------------------------------------
// The exact texts the program shows and the filename it writes.
// ---------------------------------------------------------------------------

/// One line of the option list: `"{position}. {name} - {album} ({year}, {language})"`.
pub open spec fn option_line(position: nat, t: TrackModel) -> Seq<char> {
    dec_rep(position) + ". "@ + t.name + " - "@ + t.album.name + " ("@ + dec_rep(t.year as nat)
        + ", "@ + t.language + ")"@
}

/// The selection prompt: `"Select an option (1-{n}): "`.
pub open spec fn selection_prompt(n: nat) -> Seq<char> {
    "Select an option (1-"@ + dec_rep(n) + "): "@
}

/// The message shown for an out-of-range or non-numeric choice.
pub open spec fn invalid_choice_message(n: nat) -> Seq<char> {
    "Invalid option. Please enter a number between 1 and "@ + dec_rep(n)
}

/// The file a downloaded track is saved under: `"{name} - {album}.m4a"`.
pub open spec fn download_filename(t: TrackModel) -> Seq<char> {
    t.name + " - "@ + t.album.name + ".m4a"@
}

/// Render one entry of the option list; `position` is 1-based.
pub fn format_option_line(position: usize, track: &ResultData) -> (r: String)
    ensures
        r@ == option_line(position as nat, track@),
{
    let mut s = usize_to_string(position);
    s.append(". ");
    s.append(track.name.as_str());
    s.append(" - ");
    s.append(track.album.name.as_str());
    s.append(" (");
    let year = usize_to_string(track.year as usize);
    s.append(year.as_str());
    s.append(", ");
    s.append(track.language.as_str());
    s.append(")");
    s
}

/// Render the selection prompt for a list of `n` options.
pub fn format_selection_prompt(n: usize) -> (r: String)
    ensures
        r@ == selection_prompt(n as nat),
{
    let mut s = String::from_str("Select an option (1-");
    let num = usize_to_string(n);
    s.append(num.as_str());
    s.append("): ");
    s
}

/// Render the message for an invalid choice against `n` options.
pub fn format_invalid_choice(n: usize) -> (r: String)
    ensures
        r@ == invalid_choice_message(n as nat),
{
    let mut s = String::from_str("Invalid option. Please enter a number between 1 and ");
    let num = usize_to_string(n);
    s.append(num.as_str());
    s
}

/// Render the filename a download of `track` is saved under.
pub fn format_filename(track: &ResultData) -> (r: String)
    ensures
        r@ == download_filename(track@),
{
    let mut s = String::new();
    s.append(track.name.as_str());
    s.append(" - ");
    s.append(track.album.name.as_str());
    s.append(".m4a");
    proof {
        assert(s@ =~= download_filename(track@));
    }
    s
}

} // verus!
