//! Responses of the 3cat media API, as the library reads them.
use vstd::prelude::*;

verus! {

/// The error body returned by the 3cat API on failure; it carries nothing.
#[derive(Debug)]
pub struct Tv3Error {}

/// Root of the single-media detail response.
#[derive(Debug)]
pub struct SingleEpisodeRoot {
    /// Video file metadata.
    pub media: SingleEpisodeMedia,
    /// Available subtitle tracks.
    pub subtitles: Vec<SingleEpisodeSubtitles>,
}

/// The list of video URLs of a media item.
#[derive(Debug)]
pub struct SingleEpisodeMedia {
    /// Available video file URLs with their active status.
    pub url: Vec<UrlMetadata>,
}

/// One video URL of a media item.
#[derive(Debug)]
pub struct UrlMetadata {
    /// Direct URL of the video file.
    pub file: String,
    /// Whether the URL is currently active.
    pub active: bool,
}

/// One subtitle track of a media item.
#[derive(Debug)]
pub struct SingleEpisodeSubtitles {
    /// Direct URL of the subtitle file.
    pub url: String,
}

} // verus!
