use clisaavn::{
    build_search_url, fetch_url, format_filename, format_invalid_choice, format_option_line,
    format_selection_prompt, parse_song_data, parse_usize, select_option, serialize_song_data,
    usize_to_string, AlbumData, Data, DownloadUrl, ResolveError, ResultData, SongData,
};

fn variant(url: &str, quality: &str) -> DownloadUrl {
    DownloadUrl { url: url.to_string(), quality: quality.to_string() }
}

fn track(name: &str, album: &str, year: u16, language: &str, variants: Vec<DownloadUrl>) -> ResultData {
    ResultData {
        name: name.to_string(),
        album: AlbumData { name: album.to_string() },
        year,
        language: language.to_string(),
        downloadUrl: variants,
    }
}

fn song(results: Vec<ResultData>) -> SongData {
    SongData { data: Data { results } }
}

const IMAGINE_JSON: &str = "{\"data\":{\"results\":[{\"name\":\"Imagine\",\"album\":{\"name\":\"Imagine\"},\"year\":1971,\"language\":\"English\",\"downloadUrl\":[{\"url\":\"http://dl/imagine96.m4a\",\"quality\":\"96kbps\"},{\"url\":\"http://dl/imagine160.m4a\",\"quality\":\"160kbps\"}]}]}}";

#[test]
fn round_trip_preserves_model() {
    let original = song(vec![
        track(
            "Back\\Slash \"Quoted\"",
            "Al\"bum",
            2024,
            "English",
            vec![variant("http://dl/a.m4a", "160kbps"), variant("http://dl/b.m4a", "96kbps")],
        ),
        track("Plain", "Simple", 0, "Hindi", vec![]),
    ]);
    let text = serialize_song_data(&original);
    let reparsed = parse_song_data(&text).expect("serializer output must parse");
    assert_eq!(reparsed, original);
}

#[test]
fn serializer_emits_minified_json() {
    let data = song(vec![track(
        "Imagine",
        "Imagine",
        1971,
        "English",
        vec![variant("http://dl/imagine96.m4a", "96kbps"), variant("http://dl/imagine160.m4a", "160kbps")],
    )]);
    assert_eq!(serialize_song_data(&data), IMAGINE_JSON);
}

#[test]
fn serialized_output_is_valid_json() {
    let data = song(vec![track("A \"B\"", "C\\D", 1999, "Tamil", vec![variant("u", "160kbps")])]);
    let text = serialize_song_data(&data);
    let value: serde_json::Value = serde_json::from_str(&text).expect("must be well-formed JSON");
    let results = value.get("data").unwrap().get("results").unwrap();
    let first = results.get(0).unwrap();
    assert_eq!(first.get("name").unwrap().as_str().unwrap(), "A \"B\"");
    assert_eq!(first.get("album").unwrap().get("name").unwrap().as_str().unwrap(), "C\\D");
    assert_eq!(first.get("year").unwrap().as_u64().unwrap(), 1999);
    assert_eq!(first.get("language").unwrap().as_str().unwrap(), "Tamil");
    let variants = first.get("downloadUrl").unwrap();
    assert_eq!(variants.get(0).unwrap().get("quality").unwrap().as_str().unwrap(), "160kbps");
}

#[test]
fn parser_reads_empty_result_list() {
    let parsed = parse_song_data("{\"data\":{\"results\":[]}}").unwrap();
    assert_eq!(parsed.data.results.len(), 0);
}

#[test]
fn parser_rejects_trailing_text() {
    assert!(parse_song_data("{\"data\":{\"results\":[]}} ").is_none());
}

#[test]
fn parser_rejects_truncated_text() {
    assert!(parse_song_data("{\"data\":{\"results\":[").is_none());
    assert!(parse_song_data("").is_none());
}

#[test]
fn parser_accepts_largest_year() {
    let data = song(vec![track("t", "a", 65535, "l", vec![])]);
    let text = serialize_song_data(&data);
    assert_eq!(parse_song_data(&text).unwrap().data.results[0].year, 65535);
}

#[test]
fn parser_rejects_year_out_of_range() {
    let text = "{\"data\":{\"results\":[{\"name\":\"t\",\"album\":{\"name\":\"a\"},\"year\":65536,\"language\":\"l\",\"downloadUrl\":[]}]}}";
    assert!(parse_song_data(text).is_none());
}

#[test]
fn selection_in_range_is_zero_based() {
    assert_eq!(select_option("1", 3), Some(0));
    assert_eq!(select_option("2", 3), Some(1));
    assert_eq!(select_option("3", 3), Some(2));
}

#[test]
fn selection_rejects_out_of_range_and_malformed() {
    assert_eq!(select_option("0", 3), None);
    assert_eq!(select_option("4", 3), None);
    assert_eq!(select_option("abc", 3), None);
    assert_eq!(select_option("", 3), None);
    assert_eq!(select_option("1x", 3), None);
    assert_eq!(select_option("-1", 3), None);
}

#[test]
fn selection_accepts_leading_plus_sign() {
    assert_eq!(select_option("+2", 3), Some(1));
    assert_eq!(parse_usize("+0"), Some(0));
    assert_eq!(parse_usize("+"), None);
}

#[test]
fn selection_rejects_values_that_do_not_fit() {
    // one more than usize::MAX on a 64-bit machine
    assert_eq!(parse_usize("18446744073709551616"), None);
    assert_eq!(select_option("18446744073709551616", 3), None);
}

#[test]
fn resolver_picks_first_matching_variant() {
    let data = song(vec![track(
        "t",
        "a",
        2000,
        "l",
        vec![
            variant("http://dl/one.m4a", "160kbps"),
            variant("http://dl/two.m4a", "160kbps"),
            variant("http://dl/other.m4a", "96kbps"),
        ],
    )]);
    assert_eq!(fetch_url(&data, 0), Ok("http://dl/one.m4a".to_string()));
}

#[test]
fn resolver_reports_missing_quality() {
    let no_match = song(vec![track("t", "a", 2000, "l", vec![variant("u", "96kbps")])]);
    assert_eq!(fetch_url(&no_match, 0), Err(ResolveError::QualityNotFound));
    let empty = song(vec![track("t", "a", 2000, "l", vec![])]);
    assert_eq!(fetch_url(&empty, 0), Err(ResolveError::QualityNotFound));
}

#[test]
fn resolver_reports_missing_result() {
    let data = song(vec![track("t", "a", 2000, "l", vec![variant("u", "160kbps")])]);
    assert_eq!(fetch_url(&data, 1), Err(ResolveError::NoSuchResult));
    let none = song(vec![]);
    assert_eq!(fetch_url(&none, 0), Err(ResolveError::NoSuchResult));
}

#[test]
fn query_encoding_replaces_spaces_only() {
    let url = build_search_url("a b");
    assert_eq!(url, "http://127.0.0.1:3000/api/search/songs?query=a+b");
    assert!(url.contains("a+b"));
    // reserved characters other than the space pass through unescaped
    assert_eq!(
        build_search_url("a&b?c#d"),
        "http://127.0.0.1:3000/api/search/songs?query=a&b?c#d"
    );
    assert_eq!(
        build_search_url(""),
        "http://127.0.0.1:3000/api/search/songs?query="
    );
}

#[test]
fn scenario_single_result_resolves() {
    let data = parse_song_data(IMAGINE_JSON).expect("the response must parse");
    assert_eq!(data.data.results.len(), 1);
    assert_eq!(data.data.results[0].name, "Imagine");
    let choice = select_option("1", data.data.results.len()).expect("1 is in range");
    assert_eq!(choice, 0);
    assert_eq!(fetch_url(&data, choice), Ok("http://dl/imagine160.m4a".to_string()));
}

#[test]
fn scenario_empty_results_rejects_every_choice() {
    let data = parse_song_data("{\"data\":{\"results\":[]}}").unwrap();
    let n = data.data.results.len();
    assert_eq!(format_selection_prompt(n), "Select an option (1-0): ");
    assert_eq!(select_option("1", n), None);
    assert_eq!(select_option("0", n), None);
    assert_eq!(select_option("anything", n), None);
}

#[test]
fn scenario_wrong_quality_fails_resolution() {
    let text = "{\"data\":{\"results\":[{\"name\":\"t\",\"album\":{\"name\":\"a\"},\"year\":2001,\"language\":\"l\",\"downloadUrl\":[{\"url\":\"http://dl/low.m4a\",\"quality\":\"96kbps\"}]}]}}";
    let data = parse_song_data(text).unwrap();
    let choice = select_option("1", data.data.results.len()).unwrap();
    assert_eq!(fetch_url(&data, choice), Err(ResolveError::QualityNotFound));
}

#[test]
fn option_line_matches_display_format() {
    let t = track("Imagine", "Imagine", 1971, "English", vec![]);
    assert_eq!(format_option_line(1, &t), "1. Imagine - Imagine (1971, English)");
    let u = track("Vande Mataram", "Vande Mataram", 1997, "Hindi", vec![]);
    assert_eq!(format_option_line(12, &u), "12. Vande Mataram - Vande Mataram (1997, Hindi)");
}

#[test]
fn invalid_choice_message_names_the_range() {
    assert_eq!(
        format_invalid_choice(5),
        "Invalid option. Please enter a number between 1 and 5"
    );
}

#[test]
fn filename_joins_track_and_album() {
    let t = track("Imagine", "Imagine", 1971, "English", vec![]);
    assert_eq!(format_filename(&t), "Imagine - Imagine.m4a");
}

#[test]
fn numerals_render_in_decimal() {
    assert_eq!(usize_to_string(0), "0");
    assert_eq!(usize_to_string(160), "160");
    assert_eq!(usize_to_string(65535), "65535");
}
