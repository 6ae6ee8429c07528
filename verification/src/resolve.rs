use vstd::prelude::*;

use crate::model::{SongData, VariantModel, DownloadUrl};
use crate::target_quality;
use crate::text::str_eq;

verus! {

/// Why resolution of a chosen result to a download URL failed.
#[derive(Debug, Clone, Copy, PartialEq, Eq, Structural)]
pub enum ResolveError {
    /// The selection index does not point at a result.
    NoSuchResult,
    /// No rendition of the chosen result carries the target quality label.
    QualityNotFound,
}

/// The first variant (in list order) whose quality label equals `q`.
pub open spec fn first_match(vs: Seq<VariantModel>, q: Seq<char>) -> Option<VariantModel>
    decreases vs.len(),
{
    if vs.len() == 0 {
        None
    } else if vs[0].quality == q {
        Some(vs[0])
    } else {
        first_match(vs.drop_first(), q)
    }
}

/// When nothing before position `i` matches and position `i` does,
/// the first match is exactly the variant at `i`.
pub proof fn lemma_first_match_found(vs: Seq<VariantModel>, q: Seq<char>, i: int)
    requires
        0 <= i < vs.len(),
        forall|j: int| 0 <= j < i ==> vs[j].quality != q,
        vs[i].quality == q,
    ensures
        first_match(vs, q) == Some(vs[i]),
    decreases i,
{
    if i > 0 {
        lemma_first_match_found(vs.drop_first(), q, i - 1);
    }
}

/// When no variant matches, there is no first match.
pub proof fn lemma_first_match_none(vs: Seq<VariantModel>, q: Seq<char>)
    requires
        forall|j: int| 0 <= j < vs.len() ==> vs[j].quality != q,
    ensures
        first_match(vs, q) is None,
    decreases vs.len(),
{
    if vs.len() > 0 {
        lemma_first_match_none(vs.drop_first(), q);
    }
}

/// Resolution: map the result chosen by `selected_option` (0-based) to the
/// URL of its first variant labelled with the target quality.
pub fn fetch_url(song_data: &SongData, selected_option: usize) -> (r: Result<
    String,
    ResolveError,
>)
    ensures
        ({
            let results = song_data@.data.results;
            if selected_option >= results.len() {
                r == Err::<String, ResolveError>(ResolveError::NoSuchResult)
            } else {
                match first_match(results[selected_option as int].download_url, target_quality()) {
                    Some(v) => r matches Ok(u) && u@ == v.url,
                    None => r == Err::<String, ResolveError>(ResolveError::QualityNotFound),
                }
            }
        }),
{
    let results = &song_data.data.results;
    if selected_option >= results.len() {
        return Err(ResolveError::NoSuchResult);
    }
    let track = &results[selected_option];
    let variants = &track.downloadUrl;
    let ghost vsm: Seq<VariantModel> = song_data@.data.results[selected_option as int]
        .download_url;
    proof {
        assert(vsm =~= variants@.map_values(|u: DownloadUrl| u@));
    }
    let mut i: usize = 0;
    while i < variants.len()
        invariant
            i <= variants.len(),
            selected_option < song_data@.data.results.len(),
            vsm == song_data@.data.results[selected_option as int].download_url,
            vsm == variants@.map_values(|u: DownloadUrl| u@),
            forall|j: int| 0 <= j < i ==> vsm[j].quality != target_quality(),
        decreases variants.len() - i,
    {
        if str_eq(variants[i].quality.as_str(), "160kbps") {
            proof {
                assert(vsm[i as int] == variants@[i as int]@);
                lemma_first_match_found(vsm, target_quality(), i as int);
            }
            return Ok(variants[i].url.clone());
        }
        proof {
            assert(vsm[i as int].quality != target_quality());
        }
        i = i + 1;
    }
    proof {
        lemma_first_match_none(vsm, target_quality());
    }
    Err(ResolveError::QualityNotFound)
}

} // verus!
