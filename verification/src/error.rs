//! Errors of the download process.
use vstd::prelude::*;

use crate::text::IntErrorKind;

verus! {

/// Errors that can occur while resolving, downloading or processing media.
#[derive(Debug)]
pub enum Error {
    /// The slug is neither a TV show nor a movie.
    MediaIdRetrieval(String),
    /// The TV show id could not be found.
    TvShowIdRetrieval(String),
    /// The movie id could not be found.
    MovieIdRetrieval(String),
    /// An API response could not be decoded.
    Decoding(String),
    /// The media item has no video URL.
    MediaDoesNotHaveVideoUrl(String),
    /// Subtitles were asked for but the media item has none.
    NoSubtitlesAvailable(String),
    /// A download failed.
    Downloading(String),
    /// A regular expression did not compile; the message of the regex crate.
    Regex(String),
    /// A path is not valid UTF-8.
    InvalidPathEncoding(String),
    /// A number could not be parsed.
    ParseInt(IntErrorKind),
    /// A subtitle file could not be cleaned or converted.
    SubtitleCleaning(String),
    /// An ffmpeg run failed.
    Ffmpeg(String),
    /// A yt-dlp run failed.
    YtDlp(String),
}

} // verus!
