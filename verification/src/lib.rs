//! A small verified library behind a command-line music downloader.
//!
//! The workflow it supports is: build a search URL from a free-text query,
//! parse the search API's JSON response into a result list, validate a
//! 1-based selection against that list, and resolve the chosen result to
//! the download URL of a fixed quality label.

mod json;
mod model;
mod numeral;
mod parse;
mod query;
mod render;
mod resolve;
mod select;
mod text;

pub use json::{esc, esc_char, lemma_parse_serialize_round_trip, p_exact, p_number, p_str_body, p_string, p_track, p_track_list, p_tracks, p_variant, p_variant_list, p_variants, p_year, ser_song, ser_string, ser_track, ser_track_list, ser_tracks, ser_variant, ser_variant_list, ser_variants, serialize_song_data, spec_parse_song};
pub use model::{AlbumData, AlbumModel, Data, DataModel, DownloadError, DownloadUrl, ResultData, SearchError, SongData, SongModel, TrackModel, VariantModel};
pub use parse::parse_song_data;
pub use numeral::{all_digits, char_to_digit, dec_rep, digit_char, digit_to_char, digit_val, digits_value, is_digit, usize_to_string};
pub use query::{build_search_url, encode_query, search_base};
pub use render::{download_filename, format_filename, format_invalid_choice, format_option_line, format_selection_prompt, invalid_choice_message, option_line, selection_prompt};
pub use resolve::{fetch_url, first_match, lemma_first_match_found, lemma_first_match_none, ResolveError};
pub use select::{parse_usize, parse_usize_spec, select_option, unsigned_body};

use vstd::prelude::*;

verus! {

/// The quality label the resolver looks for.
pub open spec fn target_quality() -> Seq<char> {
    "160kbps"@
}

} // verus!
