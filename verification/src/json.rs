use vstd::prelude::*;
use vstd::string::StringExecFns;

use crate::model::{
    AlbumModel, Data, DataModel, DownloadUrl, ResultData, SongData, SongModel, TrackModel,
    VariantModel,
};
use crate::numeral::{all_digits, dec_rep, digits_value, is_digit, lemma_dec_rep, usize_to_string};
use crate::text::push_char;

verus! {

// ---------------------------------------------------------------------------
// The wire format of a search response, as a grammar over characters.
//
// The serializer below emits the minified form: no whitespace, the keys in
// schema order, `"` and `\` escaped inside strings.  The parser accepts
// exactly that form, and parsing is proved to invert serialization.
// ---------------------------------------------------------------------------

/// How one character appears inside a JSON string.
pub open spec fn esc_char(c: char) -> Seq<char> {
    if c == '"' || c == '\\' {
        seq!['\\', c]
    } else {
        seq![c]
    }
}

/// How a whole text appears inside a JSON string.
pub open spec fn esc(s: Seq<char>) -> Seq<char>
    decreases s.len(),
{
    if s.len() == 0 {
        Seq::empty()
    } else {
        esc_char(s[0]) + esc(s.drop_first())
    }
}

pub open spec fn ser_string(s: Seq<char>) -> Seq<char> {
    seq!['"'] + esc(s) + seq!['"']
}

pub open spec fn ser_variant(v: VariantModel) -> Seq<char> {
    "{\"url\":"@ + ser_string(v.url) + ",\"quality\":"@ + ser_string(v.quality) + "}"@
}

pub open spec fn ser_variant_list(vs: Seq<VariantModel>) -> Seq<char>
    decreases vs.len(),
{
    if vs.len() == 0 {
        Seq::empty()
    } else if vs.len() == 1 {
        ser_variant(vs[0])
    } else {
        ser_variant(vs[0]) + seq![','] + ser_variant_list(vs.drop_first())
    }
}

pub open spec fn ser_variants(vs: Seq<VariantModel>) -> Seq<char> {
    seq!['['] + ser_variant_list(vs) + seq![']']
}

pub open spec fn ser_track(t: TrackModel) -> Seq<char> {
    "{\"name\":"@ + ser_string(t.name) + ",\"album\":{\"name\":"@ + ser_string(t.album.name)
        + "},\"year\":"@ + dec_rep(t.year as nat) + ",\"language\":"@ + ser_string(t.language)
        + ",\"downloadUrl\":"@ + ser_variants(t.download_url) + "}"@
}

pub open spec fn ser_track_list(ts: Seq<TrackModel>) -> Seq<char>
    decreases ts.len(),
{
    if ts.len() == 0 {
        Seq::empty()
    } else if ts.len() == 1 {
        ser_track(ts[0])
    } else {
        ser_track(ts[0]) + seq![','] + ser_track_list(ts.drop_first())
    }
}

pub open spec fn ser_tracks(ts: Seq<TrackModel>) -> Seq<char> {
    seq!['['] + ser_track_list(ts) + seq![']']
}

/// The minified text of a whole search response.
pub open spec fn ser_song(m: SongModel) -> Seq<char> {
    "{\"data\":{\"results\":"@ + ser_tracks(m.data.results) + "}}"@
}

// ---------------------------------------------------------------------------
// The parser, over suffixes: each function consumes a prefix of `s` and
// returns the parsed value with the remaining input, or nothing.
// ---------------------------------------------------------------------------

/// Consume the exact text `lit`.
pub open spec fn p_exact(s: Seq<char>, lit: Seq<char>) -> Option<Seq<char>> {
    if s.len() >= lit.len() && s.take(lit.len() as int) == lit {
        Some(s.skip(lit.len() as int))
    } else {
        None
    }
}

/// Consume the rest of a JSON string, after its opening quote.
pub open spec fn p_str_body(s: Seq<char>) -> Option<(Seq<char>, Seq<char>)>
    decreases s.len(),
{
    if s.len() == 0 {
        None
    } else if s[0] == '"' {
        Some((Seq::empty(), s.drop_first()))
    } else if s[0] == '\\' {
        if s.len() >= 2 && (s[1] == '"' || s[1] == '\\') {
            match p_str_body(s.skip(2)) {
                Some((t, r)) => Some((seq![s[1]] + t, r)),
                None => None,
            }
        } else {
            None
        }
    } else {
        match p_str_body(s.drop_first()) {
            Some((t, r)) => Some((seq![s[0]] + t, r)),
            None => None,
        }
    }
}

/// Consume a JSON string.
pub open spec fn p_string(s: Seq<char>) -> Option<(Seq<char>, Seq<char>)> {
    if s.len() > 0 && s[0] == '"' {
        p_str_body(s.drop_first())
    } else {
        None
    }
}

/// The length of the digit run at the head of `s`.
pub open spec fn digit_prefix_len(s: Seq<char>) -> int
    decreases s.len(),
{
    if s.len() > 0 && is_digit(s[0]) {
        1 + digit_prefix_len(s.drop_first())
    } else {
        0
    }
}

/// Consume a non-empty digit run as a number.
pub open spec fn p_number(s: Seq<char>) -> Option<(int, Seq<char>)> {
    let k = digit_prefix_len(s);
    if k == 0 {
        None
    } else {
        Some((digits_value(s.take(k)), s.skip(k)))
    }
}

/// Consume a number that fits a release year.
pub open spec fn p_year(s: Seq<char>) -> Option<(u16, Seq<char>)> {
    match p_number(s) {
        Some((v, r)) => if 0 <= v <= u16::MAX {
            Some((v as u16, r))
        } else {
            None
        },
        None => None,
    }
}

/// Consume one download variant object.
pub open spec fn p_variant(s: Seq<char>) -> Option<(VariantModel, Seq<char>)> {
    match p_exact(s, "{\"url\":"@) {
        Some(r1) => match p_string(r1) {
            Some((url, r2)) => match p_exact(r2, ",\"quality\":"@) {
                Some(r3) => match p_string(r3) {
                    Some((quality, r4)) => match p_exact(r4, "}"@) {
                        Some(r5) => Some((VariantModel { url, quality }, r5)),
                        None => None,
                    },
                    None => None,
                },
                None => None,
            },
            None => None,
        },
        None => None,
    }
}

/// Consume `variant (',' variant)* ']'`.
pub open spec fn p_variant_list(s: Seq<char>) -> Option<(Seq<VariantModel>, Seq<char>)>
    decreases s.len(),
{
    match p_variant(s) {
        Some((v, r)) => if r.len() >= s.len() || r.len() == 0 {
            None
        } else if r[0] == ']' {
            Some((seq![v], r.drop_first()))
        } else if r[0] == ',' {
            match p_variant_list(r.drop_first()) {
                Some((vs, r2)) => Some((seq![v] + vs, r2)),
                None => None,
            }
        } else {
            None
        },
        None => None,
    }
}

/// Consume a whole variant array.
pub open spec fn p_variants(s: Seq<char>) -> Option<(Seq<VariantModel>, Seq<char>)> {
    if s.len() >= 1 && s[0] == '[' {
        let t = s.drop_first();
        if t.len() >= 1 && t[0] == ']' {
            Some((Seq::empty(), t.drop_first()))
        } else {
            p_variant_list(t)
        }
    } else {
        None
    }
}

/// Consume one track object.
pub open spec fn p_track(s: Seq<char>) -> Option<(TrackModel, Seq<char>)> {
    match p_exact(s, "{\"name\":"@) {
        Some(r1) => match p_string(r1) {
            Some((name, r2)) => match p_exact(r2, ",\"album\":{\"name\":"@) {
                Some(r3) => match p_string(r3) {
                    Some((album_name, r4)) => match p_exact(r4, "},\"year\":"@) {
                        Some(r5) => match p_year(r5) {
                            Some((year, r6)) => match p_exact(r6, ",\"language\":"@) {
                                Some(r7) => match p_string(r7) {
                                    Some((language, r8)) => match p_exact(
                                        r8,
                                        ",\"downloadUrl\":"@,
                                    ) {
                                        Some(r9) => match p_variants(r9) {
                                            Some((vs, r10)) => match p_exact(r10, "}"@) {
                                                Some(r11) => Some(
                                                    (
                                                        TrackModel {
                                                            name,
                                                            album: AlbumModel { name: album_name },
                                                            year,
                                                            language,
                                                            download_url: vs,
                                                        },
                                                        r11,
                                                    ),
                                                ),
                                                None => None,
                                            },
                                            None => None,
                                        },
                                        None => None,
                                    },
                                    None => None,
                                },
                                None => None,
                            },
                            None => None,
                        },
                        None => None,
                    },
                    None => None,
                },
                None => None,
            },
            None => None,
        },
        None => None,
    }
}

/// Consume `track (',' track)* ']'`.
pub open spec fn p_track_list(s: Seq<char>) -> Option<(Seq<TrackModel>, Seq<char>)>
    decreases s.len(),
{
    match p_track(s) {
        Some((t, r)) => if r.len() >= s.len() || r.len() == 0 {
            None
        } else if r[0] == ']' {
            Some((seq![t], r.drop_first()))
        } else if r[0] == ',' {
            match p_track_list(r.drop_first()) {
                Some((ts, r2)) => Some((seq![t] + ts, r2)),
                None => None,
            }
        } else {
            None
        },
        None => None,
    }
}

/// Consume a whole track array.
pub open spec fn p_tracks(s: Seq<char>) -> Option<(Seq<TrackModel>, Seq<char>)> {
    if s.len() >= 1 && s[0] == '[' {
        let t = s.drop_first();
        if t.len() >= 1 && t[0] == ']' {
            Some((Seq::empty(), t.drop_first()))
        } else {
            p_track_list(t)
        }
    } else {
        None
    }
}

/// What parsing a whole response text yields: the model, when the text is
/// exactly the minified form of one.
pub open spec fn spec_parse_song(s: Seq<char>) -> Option<SongModel> {
    match p_exact(s, "{\"data\":{\"results\":"@) {
        Some(r1) => match p_tracks(r1) {
            Some((ts, r2)) => match p_exact(r2, "}}"@) {
                Some(r3) => if r3.len() == 0 {
                    Some(SongModel { data: DataModel { results: ts } })
                } else {
                    None
                },
                None => None,
            },
            None => None,
        },
        None => None,
    }
}

// ---------------------------------------------------------------------------
// Parsing inverts serialization.
// ---------------------------------------------------------------------------

proof fn lemma_p_exact(lit: Seq<char>, rest: Seq<char>)
    ensures
        p_exact(lit + rest, lit) == Some(rest),
{
    let s = lit + rest;
    assert(s.take(lit.len() as int) =~= lit);
    assert(s.skip(lit.len() as int) =~= rest);
}

proof fn lemma_p_str_body(q: Seq<char>, rest: Seq<char>)
    ensures
        p_str_body(esc(q) + seq!['"'] + rest) == Some((q, rest)),
    decreases q.len(),
{
    let s = esc(q) + seq!['"'] + rest;
    if q.len() == 0 {
        assert(esc(q) == Seq::<char>::empty());
        assert(s[0] == '"');
        assert(s.drop_first() =~= rest);
    } else {
        let c = q[0];
        let qr = q.drop_first();
        lemma_p_str_body(qr, rest);
        let s2 = esc(qr) + seq!['"'] + rest;
        assert(esc(q) == esc_char(c) + esc(qr));
        if c == '"' || c == '\\' {
            assert(s[0] == '\\');
            assert(s[1] == c);
            assert(s.skip(2) =~= s2);
            assert(seq![c] + qr =~= q);
        } else {
            assert(s[0] == c);
            assert(s.drop_first() =~= s2);
            assert(seq![c] + qr =~= q);
        }
    }
}

proof fn lemma_p_string(q: Seq<char>, rest: Seq<char>)
    ensures
        p_string(ser_string(q) + rest) == Some((q, rest)),
{
    let s = ser_string(q) + rest;
    assert(s[0] == '"');
    lemma_p_str_body(q, rest);
    assert(s.drop_first() =~= esc(q) + seq!['"'] + rest);
}

proof fn lemma_digit_prefix(ds: Seq<char>, rest: Seq<char>)
    requires
        all_digits(ds),
        rest.len() == 0 || !is_digit(rest[0]),
    ensures
        digit_prefix_len(ds + rest) == ds.len(),
    decreases ds.len(),
{
    let s = ds + rest;
    if ds.len() == 0 {
        assert(s =~= rest);
    } else {
        assert(s[0] == ds[0]);
        assert(all_digits(ds.drop_first()));
        lemma_digit_prefix(ds.drop_first(), rest);
        assert(s.drop_first() =~= ds.drop_first() + rest);
    }
}

proof fn lemma_p_year(y: u16, rest: Seq<char>)
    requires
        rest.len() == 0 || !is_digit(rest[0]),
    ensures
        p_year(dec_rep(y as nat) + rest) == Some((y, rest)),
{
    lemma_dec_rep(y as nat);
    lemma_digit_prefix(dec_rep(y as nat), rest);
    let s = dec_rep(y as nat) + rest;
    let k = digit_prefix_len(s);
    assert(s.take(k) =~= dec_rep(y as nat));
    assert(s.skip(k) =~= rest);
}

proof fn lemma_ser_variant_head(v: VariantModel)
    ensures
        ser_variant(v).len() >= 1,
        ser_variant(v)[0] == '{',
{
    reveal_strlit("{\"url\":");
}

proof fn lemma_p_variant(v: VariantModel, rest: Seq<char>)
    ensures
        p_variant(ser_variant(v) + rest) == Some((v, rest)),
{
    let l1 = "{\"url\":"@;
    let l2 = ",\"quality\":"@;
    let l3 = "}"@;
    let s = ser_variant(v) + rest;
    let after_url = l2 + (ser_string(v.quality) + (l3 + rest));
    let r1 = ser_string(v.url) + after_url;
    assert(s =~= l1 + r1);
    lemma_p_exact(l1, r1);
    lemma_p_string(v.url, after_url);
    let after_q = l3 + rest;
    lemma_p_exact(l2, ser_string(v.quality) + after_q);
    lemma_p_string(v.quality, after_q);
    lemma_p_exact(l3, rest);
    assert(VariantModel { url: v.url, quality: v.quality } == v);
}

proof fn lemma_p_variant_list(vs: Seq<VariantModel>, rest: Seq<char>)
    requires
        vs.len() >= 1,
    ensures
        p_variant_list(ser_variant_list(vs) + seq![']'] + rest) == Some((vs, rest)),
    decreases vs.len(),
{
    let s = ser_variant_list(vs) + seq![']'] + rest;
    lemma_ser_variant_head(vs[0]);
    if vs.len() == 1 {
        let r = seq![']'] + rest;
        assert(s =~= ser_variant(vs[0]) + r);
        lemma_p_variant(vs[0], r);
        assert(r[0] == ']');
        assert(r.drop_first() =~= rest);
        assert(seq![vs[0]] =~= vs);
    } else {
        let tail = vs.drop_first();
        lemma_p_variant_list(tail, rest);
        let r = seq![','] + (ser_variant_list(tail) + seq![']'] + rest);
        assert(s =~= ser_variant(vs[0]) + r);
        lemma_p_variant(vs[0], r);
        assert(r[0] == ',');
        assert(r.drop_first() =~= ser_variant_list(tail) + seq![']'] + rest);
        assert(seq![vs[0]] + tail =~= vs);
    }
}

proof fn lemma_p_variants(vs: Seq<VariantModel>, rest: Seq<char>)
    ensures
        p_variants(ser_variants(vs) + rest) == Some((vs, rest)),
{
    let s = ser_variants(vs) + rest;
    assert(s[0] == '[');
    let t = s.drop_first();
    assert(t =~= ser_variant_list(vs) + seq![']'] + rest);
    if vs.len() == 0 {
        assert(ser_variant_list(vs) == Seq::<char>::empty());
        assert(t[0] == ']');
        assert(t.drop_first() =~= rest);
        assert(Seq::<VariantModel>::empty() =~= vs);
    } else {
        lemma_ser_variant_head(vs[0]);
        assert(ser_variant_list(vs)[0] == ser_variant(vs[0])[0]);
        assert(t[0] == '{');
        lemma_p_variant_list(vs, rest);
    }
}

proof fn lemma_ser_track_head(t: TrackModel)
    ensures
        ser_track(t).len() >= 1,
        ser_track(t)[0] == '{',
{
    reveal_strlit("{\"name\":");
}

proof fn lemma_p_track(t: TrackModel, rest: Seq<char>)
    ensures
        p_track(ser_track(t) + rest) == Some((t, rest)),
{
    let l1 = "{\"name\":"@;
    let l2 = ",\"album\":{\"name\":"@;
    let l3 = "},\"year\":"@;
    let l4 = ",\"language\":"@;
    let l5 = ",\"downloadUrl\":"@;
    let l6 = "}"@;
    let s = ser_track(t) + rest;
    let z6 = l6 + rest;
    let z5 = ser_variants(t.download_url) + z6;
    let z4 = l5 + z5;
    let z3 = ser_string(t.language) + z4;
    let z2 = l4 + z3;
    let z1 = dec_rep(t.year as nat) + z2;
    let z0 = l3 + z1;
    let w1 = ser_string(t.album.name) + z0;
    let w0 = l2 + w1;
    let v1 = ser_string(t.name) + w0;
    assert(s =~= l1 + v1);
    lemma_p_exact(l1, v1);
    lemma_p_string(t.name, w0);
    lemma_p_exact(l2, w1);
    lemma_p_string(t.album.name, z0);
    lemma_p_exact(l3, z1);
    assert(z2[0] == ',') by {
        reveal_strlit(",\"language\":");
    }
    assert(!is_digit(z2[0]));
    lemma_p_year(t.year, z2);
    lemma_p_exact(l4, z3);
    lemma_p_string(t.language, z4);
    lemma_p_exact(l5, z5);
    lemma_p_variants(t.download_url, z6);
    lemma_p_exact(l6, rest);
    assert(TrackModel {
        name: t.name,
        album: AlbumModel { name: t.album.name },
        year: t.year,
        language: t.language,
        download_url: t.download_url,
    } == t);
}

#[verifier::rlimit(60)]
proof fn lemma_p_track_list(ts: Seq<TrackModel>, rest: Seq<char>)
    requires
        ts.len() >= 1,
    ensures
        p_track_list(ser_track_list(ts) + seq![']'] + rest) == Some((ts, rest)),
    decreases ts.len(),
{
    let s = ser_track_list(ts) + seq![']'] + rest;
    lemma_ser_track_head(ts[0]);
    if ts.len() == 1 {
        let r = seq![']'] + rest;
        assert(s =~= ser_track(ts[0]) + r);
        lemma_p_track(ts[0], r);
        assert(r[0] == ']');
        assert(r.drop_first() =~= rest);
        assert(seq![ts[0]] =~= ts);
    } else {
        let tail = ts.drop_first();
        lemma_p_track_list(tail, rest);
        let r = seq![','] + (ser_track_list(tail) + seq![']'] + rest);
        assert(s =~= ser_track(ts[0]) + r);
        lemma_p_track(ts[0], r);
        assert(r[0] == ',');
        assert(r.drop_first() =~= ser_track_list(tail) + seq![']'] + rest);
        assert(seq![ts[0]] + tail =~= ts);
    }
}

proof fn lemma_p_tracks(ts: Seq<TrackModel>, rest: Seq<char>)
    ensures
        p_tracks(ser_tracks(ts) + rest) == Some((ts, rest)),
{
    let s = ser_tracks(ts) + rest;
    assert(s[0] == '[');
    let t = s.drop_first();
    assert(t =~= ser_track_list(ts) + seq![']'] + rest);
    if ts.len() == 0 {
        assert(ser_track_list(ts) == Seq::<char>::empty());
        assert(t[0] == ']');
        assert(t.drop_first() =~= rest);
        assert(Seq::<TrackModel>::empty() =~= ts);
    } else {
        lemma_ser_track_head(ts[0]);
        assert(ser_track_list(ts)[0] == ser_track(ts[0])[0]);
        assert(t[0] == '{');
        lemma_p_track_list(ts, rest);
    }
}

// ---------------------------------------------------------------------------
// The executable serializer.
// ---------------------------------------------------------------------------

proof fn lemma_esc_append(a: Seq<char>, b: Seq<char>)
    ensures
        esc(a + b) == esc(a) + esc(b),
    decreases a.len(),
{
    if a.len() == 0 {
        assert(a + b =~= b);
        assert(esc(a) + esc(b) =~= esc(b));
    } else {
        lemma_esc_append(a.drop_first(), b);
        assert((a + b).drop_first() =~= a.drop_first() + b);
        assert((a + b)[0] == a[0]);
        assert(esc_char(a[0]) + (esc(a.drop_first()) + esc(b)) =~= (esc_char(a[0]) + esc(
            a.drop_first(),
        )) + esc(b));
    }
}

proof fn lemma_esc_snoc(q: Seq<char>, i: int)
    requires
        0 <= i < q.len(),
    ensures
        esc(q.take(i + 1)) == esc(q.take(i)) + esc_char(q[i]),
{
    lemma_esc_append(q.take(i), seq![q[i]]);
    assert(q.take(i + 1) =~= q.take(i) + seq![q[i]]);
    assert(esc(seq![q[i]]) == esc_char(q[i]) + esc(seq![q[i]].drop_first()));
    assert(seq![q[i]].drop_first() =~= Seq::<char>::empty());
    assert(esc_char(q[i]) + Seq::<char>::empty() =~= esc_char(q[i]));
}

/// Append `s` to `out` as a JSON string: quoted, with `"` and `\` escaped.
fn append_json_string(out: &mut String, s: &str)
    ensures
        final(out)@ == old(out)@ + ser_string(s@),
{
    let ghost base = out@;
    push_char(out, '"');
    let len = s.unicode_len();
    let mut i: usize = 0;
    proof {
        assert(esc(s@.take(0)) =~= Seq::<char>::empty());
        assert(out@ =~= base + seq!['"'] + esc(s@.take(0)));
    }
    while i < len
        invariant
            len == s@.len(),
            i <= len,
            out@ == base + seq!['"'] + esc(s@.take(i as int)),
        decreases len - i,
    {
        let c = s.get_char(i);
        if c == '"' || c == '\\' {
            push_char(out, '\\');
        }
        push_char(out, c);
        proof {
            lemma_esc_snoc(s@, i as int);
            assert(out@ =~= base + seq!['"'] + esc(s@.take(i + 1)));
        }
        i = i + 1;
    }
    push_char(out, '"');
    proof {
        assert(s@.take(len as int) =~= s@);
        assert(out@ =~= base + ser_string(s@));
    }
}

/// Append one variant object to `out`.
fn serialize_variant_into(out: &mut String, u: &DownloadUrl)
    ensures
        final(out)@ == old(out)@ + ser_variant(u@),
{
    let ghost base = out@;
    out.append("{\"url\":");
    append_json_string(out, u.url.as_str());
    out.append(",\"quality\":");
    append_json_string(out, u.quality.as_str());
    out.append("}");
    proof {
        assert(out@ =~= base + ser_variant(u@));
    }
}

/// Append `variant (',' variant)*` for the variants from position `i` on.
fn serialize_variant_list_into(out: &mut String, vs: &Vec<DownloadUrl>, i: usize)
    requires
        i <= vs@.len(),
    ensures
        final(out)@ == old(out)@ + ser_variant_list(
            vs@.map_values(|u: DownloadUrl| u@).skip(i as int),
        ),
    decreases vs@.len() - i,
{
    let ghost models = vs@.map_values(|u: DownloadUrl| u@);
    if i >= vs.len() {
        proof {
            assert(models.skip(i as int) =~= Seq::<VariantModel>::empty());
            assert(out@ + ser_variant_list(models.skip(i as int)) =~= out@);
        }
    } else {
        let ghost base = out@;
        serialize_variant_into(out, &vs[i]);
        proof {
            assert(models.skip(i as int)[0] == vs@[i as int]@);
        }
        if i + 1 < vs.len() {
            push_char(out, ',');
            serialize_variant_list_into(out, vs, i + 1);
            proof {
                assert(models.skip(i as int).drop_first() =~= models.skip(i + 1));
                assert(models.skip(i as int).len() >= 2);
                assert(out@ =~= base + ser_variant_list(models.skip(i as int)));
            }
        } else {
            proof {
                assert(models.skip(i as int).len() == 1);
                assert(out@ =~= base + ser_variant_list(models.skip(i as int)));
            }
        }
    }
}

/// Append a whole variant array to `out`.
fn serialize_variants_into(out: &mut String, vs: &Vec<DownloadUrl>)
    ensures
        final(out)@ == old(out)@ + ser_variants(vs@.map_values(|u: DownloadUrl| u@)),
{
    let ghost base = out@;
    push_char(out, '[');
    serialize_variant_list_into(out, vs, 0);
    push_char(out, ']');
    proof {
        assert(vs@.map_values(|u: DownloadUrl| u@).skip(0) =~= vs@.map_values(
            |u: DownloadUrl| u@,
        ));
        assert(out@ =~= base + ser_variants(vs@.map_values(|u: DownloadUrl| u@)));
    }
}

/// Append one track object to `out`.
fn serialize_track_into(out: &mut String, t: &ResultData)
    ensures
        final(out)@ == old(out)@ + ser_track(t@),
{
    let ghost base = out@;
    out.append("{\"name\":");
    append_json_string(out, t.name.as_str());
    out.append(",\"album\":{\"name\":");
    append_json_string(out, t.album.name.as_str());
    out.append("},\"year\":");
    let year = usize_to_string(t.year as usize);
    out.append(year.as_str());
    out.append(",\"language\":");
    append_json_string(out, t.language.as_str());
    out.append(",\"downloadUrl\":");
    serialize_variants_into(out, &t.downloadUrl);
    out.append("}");
    proof {
        assert(out@ =~= base + ser_track(t@));
    }
}

/// Append `track (',' track)*` for the tracks from position `i` on.
fn serialize_track_list_into(out: &mut String, ts: &Vec<ResultData>, i: usize)
    requires
        i <= ts@.len(),
    ensures
        final(out)@ == old(out)@ + ser_track_list(
            ts@.map_values(|t: ResultData| t@).skip(i as int),
        ),
    decreases ts@.len() - i,
{
    let ghost models = ts@.map_values(|t: ResultData| t@);
    if i >= ts.len() {
        proof {
            assert(models.skip(i as int) =~= Seq::<TrackModel>::empty());
            assert(out@ + ser_track_list(models.skip(i as int)) =~= out@);
        }
    } else {
        let ghost base = out@;
        serialize_track_into(out, &ts[i]);
        proof {
            assert(models.skip(i as int)[0] == ts@[i as int]@);
        }
        if i + 1 < ts.len() {
            push_char(out, ',');
            serialize_track_list_into(out, ts, i + 1);
            proof {
                assert(models.skip(i as int).drop_first() =~= models.skip(i + 1));
                assert(models.skip(i as int).len() >= 2);
                assert(out@ =~= base + ser_track_list(models.skip(i as int)));
            }
        } else {
            proof {
                assert(models.skip(i as int).len() == 1);
                assert(out@ =~= base + ser_track_list(models.skip(i as int)));
            }
        }
    }
}

/// The minified text of a whole search response.
pub fn serialize_song_data(d: &SongData) -> (r: String)
    ensures
        r@ == ser_song(d@),
{
    let mut out = String::from_str("{\"data\":{\"results\":");
    push_char(&mut out, '[');
    serialize_track_list_into(&mut out, &d.data.results, 0);
    push_char(&mut out, ']');
    out.append("}}");
    proof {
        let models = d.data.results@.map_values(|t: ResultData| t@);
        assert(models.skip(0) =~= models);
        assert(out@ =~= ser_song(d@));
    }
    out
}

/// Parsing is a left inverse of serialization: the minified text of any
/// model parses back to exactly that model.
pub proof fn lemma_parse_serialize_round_trip(m: SongModel)
    ensures
        spec_parse_song(ser_song(m)) == Some(m),
{
    let l1 = "{\"data\":{\"results\":"@;
    let l2 = "}}"@;
    let s = ser_song(m);
    let r1 = ser_tracks(m.data.results) + l2;
    assert(s =~= l1 + r1);
    lemma_p_exact(l1, r1);
    lemma_p_tracks(m.data.results, l2);
    assert(l2 + Seq::<char>::empty() =~= l2);
    lemma_p_exact(l2, Seq::<char>::empty());
    assert(SongModel { data: DataModel { results: m.data.results } } == m);
}

} // verus!
