use vstd::prelude::*;

verus! {

// ---------------------------------------------------------------------------
// Executable data model: the shape of one search response.
// ---------------------------------------------------------------------------

/// One downloadable rendition of a track: a URL and a quality label
/// such as "160kbps".
#[derive(Debug, Clone, PartialEq, Eq)]
pub struct DownloadUrl {
    pub url: String,
    pub quality: String,
}

/// The album a track belongs to.
#[derive(Debug, Clone, PartialEq, Eq)]
pub struct AlbumData {
    pub name: String,
}

/// One searchable track, with its renditions in the order the API sent them.
#[allow(non_snake_case)]
#[derive(Debug, Clone, PartialEq, Eq)]
pub struct ResultData {
    pub name: String,
    pub album: AlbumData,
    pub year: u16,
    pub language: String,
    pub downloadUrl: Vec<DownloadUrl>,
}

/// The payload under the response's `data` key.
#[derive(Debug, Clone, PartialEq, Eq)]
pub struct Data {
    pub results: Vec<ResultData>,
}

/// The whole parsed search response.
#[derive(Debug, Clone, PartialEq, Eq)]
pub struct SongData {
    pub data: Data,
}

/// Why a search attempt failed.
#[derive(Debug, Clone, Copy, PartialEq, Eq, Structural)]
pub enum SearchError {
    /// The request never reached the endpoint (DNS, refused, timeout).
    Transport,
    /// The endpoint answered with a non-success status code.
    Http(u16),
    /// The response body was not a well-formed search response.
    Parse,
}

/// Why a download attempt failed.
#[derive(Debug, Clone, Copy, PartialEq, Eq, Structural)]
pub enum DownloadError {
    /// The request never reached the host.
    Transport,
    /// The host answered with a non-success status code.
    Http(u16),
    /// The file could not be created or written.
    Io,
}

// ---------------------------------------------------------------------------
// Mathematical model: the same shapes over `Seq<char>` and `Seq`, used by
// every contract in this crate.
// ---------------------------------------------------------------------------

pub ghost struct VariantModel {
    pub url: Seq<char>,
    pub quality: Seq<char>,
}

pub ghost struct AlbumModel {
    pub name: Seq<char>,
}

pub ghost struct TrackModel {
    pub name: Seq<char>,
    pub album: AlbumModel,
    pub year: u16,
    pub language: Seq<char>,
    pub download_url: Seq<VariantModel>,
}

pub ghost struct DataModel {
    pub results: Seq<TrackModel>,
}

pub ghost struct SongModel {
    pub data: DataModel,
}

impl View for DownloadUrl {
    type V = VariantModel;

    open spec fn view(&self) -> VariantModel {
        VariantModel { url: self.url@, quality: self.quality@ }
    }
}

impl View for AlbumData {
    type V = AlbumModel;

    open spec fn view(&self) -> AlbumModel {
        AlbumModel { name: self.name@ }
    }
}

impl View for ResultData {
    type V = TrackModel;

    open spec fn view(&self) -> TrackModel {
        TrackModel {
            name: self.name@,
            album: self.album@,
            year: self.year,
            language: self.language@,
            download_url: self.downloadUrl@.map_values(|u: DownloadUrl| u@),
        }
    }
}

impl View for Data {
    type V = DataModel;

    open spec fn view(&self) -> DataModel {
        DataModel { results: self.results@.map_values(|t: ResultData| t@) }
    }
}

impl View for SongData {
    type V = SongModel;

    open spec fn view(&self) -> SongModel {
        SongModel { data: self.data@ }
    }
}

} // verus!
