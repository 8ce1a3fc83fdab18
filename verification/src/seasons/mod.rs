//! The season-based pipeline: episodes numbered by season and episode,
//! downloaded by yt-dlp, with their fixed subtitles muxed as `mov_text`.
pub mod error;
pub mod listing;
pub mod models;
pub mod subtitles_fix;
