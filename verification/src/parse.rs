use vstd::prelude::*;

use crate::json::{
    digit_prefix_len, p_exact, p_str_body, p_string, p_track, p_track_list, p_tracks, p_variant,
    p_variant_list, p_variants, p_year, spec_parse_song,
};
use crate::model::{AlbumData, Data, DownloadUrl, ResultData, SongData, TrackModel, VariantModel};
use crate::numeral::{
    all_digits, char_to_digit, digits_value, is_digit, lemma_digits_value_nonneg,
    lemma_digits_value_take_step,
};
use crate::text::push_char;

verus! {

/// The digit run at the head of `t` is exactly its first `k` characters
/// when character `k` is the first non-digit (or the end).
proof fn lemma_digit_prefix_boundary(t: Seq<char>, k: int)
    requires
        0 <= k <= t.len(),
        all_digits(t.take(k)),
        k == t.len() || !is_digit(t[k]),
    ensures
        digit_prefix_len(t) == k,
    decreases k,
{
    if k == 0 {
    } else {
        assert(t.take(k)[0] == t[0]);
        assert(is_digit(t[0]));
        assert(t.drop_first().take(k - 1) =~= t.take(k).drop_first());
        assert(all_digits(t.drop_first().take(k - 1)));
        if k < t.len() {
            assert(t.drop_first()[k - 1] == t[k]);
        }
        lemma_digit_prefix_boundary(t.drop_first(), k - 1);
    }
}

/// Consume the exact text `lit` at position `i`.
fn eat(s: &str, i: usize, lit: &str) -> (r: Option<usize>)
    requires
        i <= s@.len(),
    ensures
        match r {
            Some(j) => i <= j <= s@.len() && j - i == lit@.len() && p_exact(
                s@.skip(i as int),
                lit@,
            ) == Some(s@.skip(j as int)),
            None => p_exact(s@.skip(i as int), lit@) is None,
        },
{
    let slen = s.unicode_len();
    let llen = lit.unicode_len();
    if slen - i < llen {
        return None;
    }
    let mut k: usize = 0;
    while k < llen
        invariant
            slen == s@.len(),
            llen == lit@.len(),
            i + llen <= slen,
            k <= llen,
            forall|m: int| 0 <= m < k ==> s@[i + m] == lit@[m],
        decreases llen - k,
    {
        if s.get_char(i + k) != lit.get_char(k) {
            proof {
                assert(s@.skip(i as int).take(llen as int)[k as int] == s@[i + k]);
                assert(s@.skip(i as int).take(llen as int) != lit@);
            }
            return None;
        }
        k = k + 1;
    }
    proof {
        assert(s@.skip(i as int).take(llen as int) =~= lit@);
        assert(s@.skip(i as int).skip(llen as int) =~= s@.skip(i + llen));
    }
    Some(i + llen)
}

/// Consume a JSON string at position `i` and hand back its unescaped text.
fn parse_string_at(s: &str, i: usize) -> (r: Option<(String, usize)>)
    requires
        i <= s@.len(),
    ensures
        match r {
            Some(p) => i < p.1 <= s@.len() && p_string(s@.skip(i as int)) == Some(
                (p.0@, s@.skip(p.1 as int)),
            ),
            None => p_string(s@.skip(i as int)) is None,
        },
{
    let len = s.unicode_len();
    if i >= len || s.get_char(i) != '"' {
        return None;
    }
    proof {
        assert(s@.skip(i as int)[0] == '"');
        assert(s@.skip(i as int).drop_first() =~= s@.skip(i + 1));
    }
    let mut out = String::new();
    let mut j: usize = i + 1;
    proof {
        match p_str_body(s@.skip(i + 1)) {
            Some(p) => {
                assert(out@ + p.0 =~= p.0);
            },
            None => {},
        }
    }
    while j < len
        invariant
            len == s@.len(),
            i + 1 <= j <= len,
            p_string(s@.skip(i as int)) == p_str_body(s@.skip(i + 1)),
            match p_str_body(s@.skip(j as int)) {
                Some(p) => p_str_body(s@.skip(i + 1)) == Some((out@ + p.0, p.1)),
                None => p_str_body(s@.skip(i + 1)) is None,
            },
        decreases len - j,
    {
        let c = s.get_char(j);
        proof {
            assert(s@.skip(j as int)[0] == s@[j as int]);
        }
        if c == '"' {
            proof {
                assert(s@.skip(j as int).drop_first() =~= s@.skip(j + 1));
                assert(p_str_body(s@.skip(j as int)) == Some(
                    (Seq::<char>::empty(), s@.skip(j + 1)),
                ));
                assert(out@ + Seq::<char>::empty() =~= out@);
            }
            return Some((out, j + 1));
        } else if c == '\\' {
            if j + 1 >= len {
                proof {
                    assert(s@.skip(j as int).len() < 2);
                    assert(p_str_body(s@.skip(j as int)) is None);
                }
                return None;
            }
            let c2 = s.get_char(j + 1);
            if c2 == '"' || c2 == '\\' {
                proof {
                    assert(s@.skip(j as int)[1] == s@[j + 1]);
                    assert(s@.skip(j as int).skip(2) =~= s@.skip(j + 2));
                }
                let ghost out_old = out@;
                push_char(&mut out, c2);
                proof {
                    match p_str_body(s@.skip(j + 2)) {
                        Some(p2) => {
                            assert(p_str_body(s@.skip(j as int)) == Some(
                                (seq![s@[j + 1]] + p2.0, p2.1),
                            ));
                            assert(out_old + (seq![c2] + p2.0) =~= out@ + p2.0);
                        },
                        None => {
                            assert(p_str_body(s@.skip(j as int)) is None);
                        },
                    }
                }
                j = j + 2;
            } else {
                proof {
                    assert(s@.skip(j as int)[1] == s@[j + 1]);
                    assert(p_str_body(s@.skip(j as int)) is None);
                }
                return None;
            }
        } else {
            proof {
                assert(s@.skip(j as int).drop_first() =~= s@.skip(j + 1));
            }
            let ghost out_old = out@;
            push_char(&mut out, c);
            proof {
                match p_str_body(s@.skip(j + 1)) {
                    Some(p2) => {
                        assert(p_str_body(s@.skip(j as int)) == Some(
                            (seq![s@[j as int]] + p2.0, p2.1),
                        ));
                        assert(out_old + (seq![c] + p2.0) =~= out@ + p2.0);
                    },
                    None => {
                        assert(p_str_body(s@.skip(j as int)) is None);
                    },
                }
            }
            j = j + 1;
        }
    }
    proof {
        assert(s@.skip(j as int).len() == 0);
        assert(p_str_body(s@.skip(j as int)) is None);
    }
    None
}

/// Consume a digit run at position `i` as a release year.
fn parse_year_at(s: &str, i: usize) -> (r: Option<(u16, usize)>)
    requires
        i <= s@.len(),
    ensures
        match r {
            Some(p) => i < p.1 <= s@.len() && p_year(s@.skip(i as int)) == Some(
                (p.0, s@.skip(p.1 as int)),
            ),
            None => p_year(s@.skip(i as int)) is None,
        },
{
    let len = s.unicode_len();
    let ghost t = s@.skip(i as int);
    let mut j: usize = i;
    let mut acc: u32 = 0;
    let mut stop = false;
    while !stop && j < len
        invariant
            len == s@.len(),
            t == s@.skip(i as int),
            i <= j <= len,
            forall|m: int| 0 <= m < j - i ==> is_digit(#[trigger] t[m]),
            acc <= 65535 ==> acc == digits_value(t.take(j - i)),
            acc > 65535 ==> digits_value(t.take(j - i)) > 65535,
            acc <= 655359,
            stop ==> j < len && !is_digit(s@[j as int]),
        decreases len - j, if stop { 0int } else { 1int },
    {
        let c = s.get_char(j);
        proof {
            assert(t[j - i] == s@[j as int]);
        }
        match char_to_digit(c) {
            None => {
                stop = true;
            },
            Some(d) => {
                proof {
                    assert(all_digits(t.take(j - i))) by {
                        assert(forall|m: int| 0 <= m < j - i ==> t.take(j - i)[m] == t[m]);
                    }
                    lemma_digits_value_take_step(t, j - i);
                    lemma_digits_value_nonneg(t.take(j - i));
                }
                if acc > 65535 {
                    // the value already exceeds any year; keep the marker
                } else {
                    acc = acc * 10 + (d as u32);
                }
                j = j + 1;
            },
        }
    }
    proof {
        assert(all_digits(t.take(j - i))) by {
            assert(forall|m: int| 0 <= m < j - i ==> t.take(j - i)[m] == t[m]);
        }
        if j == len {
            assert(t.len() == j - i);
        } else {
            assert(t[j - i] == s@[j as int]);
        }
        lemma_digit_prefix_boundary(t, j - i);
    }
    if j == i {
        return None;
    }
    if acc > 65535 {
        return None;
    }
    proof {
        assert(t.skip(j - i) =~= s@.skip(j as int));
    }
    Some((acc as u16, j))
}

/// Consume one download-variant object at position `i`.
fn parse_variant_at(s: &str, i: usize) -> (r: Option<(DownloadUrl, usize)>)
    requires
        i <= s@.len(),
    ensures
        match r {
            Some(p) => i < p.1 <= s@.len() && p_variant(s@.skip(i as int)) == Some(
                (p.0@, s@.skip(p.1 as int)),
            ),
            None => p_variant(s@.skip(i as int)) is None,
        },
{
    let j1 = match eat(s, i, "{\"url\":") {
        Some(j) => j,
        None => {
            return None;
        },
    };
    let (url, j2) = match parse_string_at(s, j1) {
        Some(p) => p,
        None => {
            return None;
        },
    };
    let j3 = match eat(s, j2, ",\"quality\":") {
        Some(j) => j,
        None => {
            return None;
        },
    };
    let (quality, j4) = match parse_string_at(s, j3) {
        Some(p) => p,
        None => {
            return None;
        },
    };
    let j5 = match eat(s, j4, "}") {
        Some(j) => j,
        None => {
            return None;
        },
    };
    Some((DownloadUrl { url, quality }, j5))
}

/// Consume a whole variant array at position `i`.
fn parse_variants_at(s: &str, i: usize) -> (r: Option<(Vec<DownloadUrl>, usize)>)
    requires
        i <= s@.len(),
    ensures
        match r {
            Some(p) => i < p.1 <= s@.len() && p_variants(s@.skip(i as int)) == Some(
                (p.0@.map_values(|u: DownloadUrl| u@), s@.skip(p.1 as int)),
            ),
            None => p_variants(s@.skip(i as int)) is None,
        },
{
    let len = s.unicode_len();
    if i >= len || s.get_char(i) != '[' {
        return None;
    }
    proof {
        assert(s@.skip(i as int)[0] == '[');
        assert(s@.skip(i as int).drop_first() =~= s@.skip(i + 1));
    }
    if i + 1 < len && s.get_char(i + 1) == ']' {
        let vs: Vec<DownloadUrl> = Vec::new();
        proof {
            assert(s@.skip(i + 1)[0] == ']');
            assert(s@.skip(i + 1).drop_first() =~= s@.skip(i + 2));
            assert(vs@.map_values(|u: DownloadUrl| u@) =~= Seq::<VariantModel>::empty());
        }
        return Some((vs, i + 2));
    }
    proof {
        if s@.skip(i + 1).len() >= 1 {
            assert(s@.skip(i + 1)[0] == s@[i + 1]);
        }
    }
    let mut vs: Vec<DownloadUrl> = Vec::new();
    let mut cur: usize = i + 1;
    proof {
        match p_variant_list(s@.skip(i + 1)) {
            Some(q) => {
                assert(vs@.map_values(|u: DownloadUrl| u@) + q.0 =~= q.0);
            },
            None => {},
        }
    }
    loop
        invariant
            len == s@.len(),
            i + 1 <= cur <= len,
            match p_variant_list(s@.skip(cur as int)) {
                Some(q) => p_variant_list(s@.skip(i + 1)) == Some(
                    (vs@.map_values(|u: DownloadUrl| u@) + q.0, q.1),
                ),
                None => p_variant_list(s@.skip(i + 1)) is None,
            },
            p_variants(s@.skip(i as int)) == p_variant_list(s@.skip(i + 1)),
        decreases len - cur,
    {
        let (v, j) = match parse_variant_at(s, cur) {
            Some(p) => p,
            None => {
                return None;
            },
        };
        if j >= len {
            proof {
                assert(s@.skip(j as int).len() == 0);
            }
            return None;
        }
        let c = s.get_char(j);
        proof {
            assert(s@.skip(j as int)[0] == s@[j as int]);
            assert(s@.skip(j as int).len() < s@.skip(cur as int).len());
            assert(s@.skip(j as int).drop_first() =~= s@.skip(j + 1));
        }
        if c == ']' {
            let ghost vs_old = vs@;
            vs.push(v);
            proof {
                assert(p_variant_list(s@.skip(cur as int)) == Some(
                    (seq![v@], s@.skip(j + 1)),
                ));
                assert(vs_old.map_values(|u: DownloadUrl| u@) + seq![v@] =~= vs@.map_values(
                    |u: DownloadUrl| u@,
                ));
            }
            return Some((vs, j + 1));
        } else if c == ',' {
            let ghost vs_old = vs@;
            vs.push(v);
            proof {
                match p_variant_list(s@.skip(j + 1)) {
                    Some(q2) => {
                        assert(p_variant_list(s@.skip(cur as int)) == Some(
                            (seq![v@] + q2.0, q2.1),
                        ));
                        assert(vs_old.map_values(|u: DownloadUrl| u@) + (seq![v@] + q2.0)
                            =~= vs@.map_values(|u: DownloadUrl| u@) + q2.0);
                    },
                    None => {
                        assert(p_variant_list(s@.skip(cur as int)) is None);
                    },
                }
            }
            cur = j + 1;
        } else {
            proof {
                assert(p_variant_list(s@.skip(cur as int)) is None);
            }
            return None;
        }
    }
}

/// Consume one track object at position `i`.
fn parse_track_at(s: &str, i: usize) -> (r: Option<(ResultData, usize)>)
    requires
        i <= s@.len(),
    ensures
        match r {
            Some(p) => i < p.1 <= s@.len() && p_track(s@.skip(i as int)) == Some(
                (p.0@, s@.skip(p.1 as int)),
            ),
            None => p_track(s@.skip(i as int)) is None,
        },
{
    let j1 = match eat(s, i, "{\"name\":") {
        Some(j) => j,
        None => {
            return None;
        },
    };
    let (name, j2) = match parse_string_at(s, j1) {
        Some(p) => p,
        None => {
            return None;
        },
    };
    let j3 = match eat(s, j2, ",\"album\":{\"name\":") {
        Some(j) => j,
        None => {
            return None;
        },
    };
    let (album_name, j4) = match parse_string_at(s, j3) {
        Some(p) => p,
        None => {
            return None;
        },
    };
    let j5 = match eat(s, j4, "},\"year\":") {
        Some(j) => j,
        None => {
            return None;
        },
    };
    let (year, j6) = match parse_year_at(s, j5) {
        Some(p) => p,
        None => {
            return None;
        },
    };
    let j7 = match eat(s, j6, ",\"language\":") {
        Some(j) => j,
        None => {
            return None;
        },
    };
    let (language, j8) = match parse_string_at(s, j7) {
        Some(p) => p,
        None => {
            return None;
        },
    };
    let j9 = match eat(s, j8, ",\"downloadUrl\":") {
        Some(j) => j,
        None => {
            return None;
        },
    };
    let (variants, j10) = match parse_variants_at(s, j9) {
        Some(p) => p,
        None => {
            return None;
        },
    };
    let j11 = match eat(s, j10, "}") {
        Some(j) => j,
        None => {
            return None;
        },
    };
    let track = ResultData {
        name,
        album: AlbumData { name: album_name },
        year,
        language,
        downloadUrl: variants,
    };
    Some((track, j11))
}

/// Consume a whole track array at position `i`.
fn parse_tracks_at(s: &str, i: usize) -> (r: Option<(Vec<ResultData>, usize)>)
    requires
        i <= s@.len(),
    ensures
        match r {
            Some(p) => i < p.1 <= s@.len() && p_tracks(s@.skip(i as int)) == Some(
                (p.0@.map_values(|t: ResultData| t@), s@.skip(p.1 as int)),
            ),
            None => p_tracks(s@.skip(i as int)) is None,
        },
{
    let len = s.unicode_len();
    if i >= len || s.get_char(i) != '[' {
        return None;
    }
    proof {
        assert(s@.skip(i as int)[0] == '[');
        assert(s@.skip(i as int).drop_first() =~= s@.skip(i + 1));
    }
    if i + 1 < len && s.get_char(i + 1) == ']' {
        let ts: Vec<ResultData> = Vec::new();
        proof {
            assert(s@.skip(i + 1)[0] == ']');
            assert(s@.skip(i + 1).drop_first() =~= s@.skip(i + 2));
            assert(ts@.map_values(|t: ResultData| t@) =~= Seq::<TrackModel>::empty());
        }
        return Some((ts, i + 2));
    }
    proof {
        if s@.skip(i + 1).len() >= 1 {
            assert(s@.skip(i + 1)[0] == s@[i + 1]);
        }
    }
    let mut ts: Vec<ResultData> = Vec::new();
    let mut cur: usize = i + 1;
    proof {
        match p_track_list(s@.skip(i + 1)) {
            Some(q) => {
                assert(ts@.map_values(|t: ResultData| t@) + q.0 =~= q.0);
            },
            None => {},
        }
    }
    loop
        invariant
            len == s@.len(),
            i + 1 <= cur <= len,
            match p_track_list(s@.skip(cur as int)) {
                Some(q) => p_track_list(s@.skip(i + 1)) == Some(
                    (ts@.map_values(|t: ResultData| t@) + q.0, q.1),
                ),
                None => p_track_list(s@.skip(i + 1)) is None,
            },
            p_tracks(s@.skip(i as int)) == p_track_list(s@.skip(i + 1)),
        decreases len - cur,
    {
        let (t, j) = match parse_track_at(s, cur) {
            Some(p) => p,
            None => {
                return None;
            },
        };
        if j >= len {
            proof {
                assert(s@.skip(j as int).len() == 0);
            }
            return None;
        }
        let c = s.get_char(j);
        proof {
            assert(s@.skip(j as int)[0] == s@[j as int]);
            assert(s@.skip(j as int).len() < s@.skip(cur as int).len());
            assert(s@.skip(j as int).drop_first() =~= s@.skip(j + 1));
        }
        if c == ']' {
            let ghost ts_old = ts@;
            ts.push(t);
            proof {
                assert(p_track_list(s@.skip(cur as int)) == Some((seq![t@], s@.skip(j + 1))));
                assert(ts_old.map_values(|t: ResultData| t@) + seq![t@] =~= ts@.map_values(
                    |t: ResultData| t@,
                ));
            }
            return Some((ts, j + 1));
        } else if c == ',' {
            let ghost ts_old = ts@;
            ts.push(t);
            proof {
                match p_track_list(s@.skip(j + 1)) {
                    Some(q2) => {
                        assert(p_track_list(s@.skip(cur as int)) == Some(
                            (seq![t@] + q2.0, q2.1),
                        ));
                        assert(ts_old.map_values(|t: ResultData| t@) + (seq![t@] + q2.0)
                            =~= ts@.map_values(|t: ResultData| t@) + q2.0);
                    },
                    None => {
                        assert(p_track_list(s@.skip(cur as int)) is None);
                    },
                }
            }
            cur = j + 1;
        } else {
            proof {
                assert(p_track_list(s@.skip(cur as int)) is None);
            }
            return None;
        }
    }
}

/// Parse a whole search-response text into the data model.  The text must
/// be the minified form the serializer emits: same key order, no extra
/// whitespace.
pub fn parse_song_data(s: &str) -> (r: Option<SongData>)
    ensures
        match r {
            Some(d) => spec_parse_song(s@) == Some(d@),
            None => spec_parse_song(s@) is None,
        },
{
    proof {
        assert(s@.skip(0) =~= s@);
    }
    let j1 = match eat(s, 0, "{\"data\":{\"results\":") {
        Some(j) => j,
        None => {
            return None;
        },
    };
    let (results, j2) = match parse_tracks_at(s, j1) {
        Some(p) => p,
        None => {
            return None;
        },
    };
    let j3 = match eat(s, j2, "}}") {
        Some(j) => j,
        None => {
            return None;
        },
    };
    let len = s.unicode_len();
    if j3 < len {
        proof {
            assert(s@.skip(j3 as int).len() > 0);
        }
        return None;
    }
    proof {
        assert(s@.skip(j3 as int).len() == 0);
    }
    Some(SongData { data: Data { results } })
}

} // verus!
