//! Core logic of a downloader for TV shows and movies published on 3cat.cat.
pub mod error;
pub mod subtitle_cleaner;
pub mod text;
pub mod slug;
pub mod models;
pub mod paths;
pub mod ffmpeg;
pub mod search;
pub mod api_structs;
pub mod downloader;
pub mod yt_dlp;
pub mod media_resolver;
pub mod tv_show;
pub mod movie;
pub mod seasons;
