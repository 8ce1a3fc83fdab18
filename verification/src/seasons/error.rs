//! Errors of the season-based pipeline.
use vstd::prelude::*;

use crate::text::{chars_of, string_of};

verus! {

/// Errors of the season-based pipeline; I/O errors are carried as their
/// messages.
#[derive(Debug)]
pub enum Error {
    /// The TV show id could not be found.
    TvShowIdRetrievalError(String),
    /// The episode list could not be fetched.
    EpisodeRetrieveError(String),
    /// yt-dlp could not be run.
    DownloadingError(String),
    /// An I/O operation failed: what was attempted, and the I/O error.
    IoError(String, String),
    /// A subtitle could not be fixed.
    SubtitleError(String),
    /// A path is not valid UTF-8.
    OsStringError(String),
}

impl Error {
    /// A [`Error::SubtitleError`] with the given message.
    pub fn subtitle_error(message: &str) -> (e: Error)
        ensures
            e matches Error::SubtitleError(m) && m@ == message@,
    {
        let v = chars_of(message);
        Error::SubtitleError(string_of(&v))
    }
}

} // verus!
