# cat_show_downloader

Downloads TV shows and movies from 3cat.cat, the Catalan public broadcaster,
with their subtitles cleaned and, when ffmpeg is present, embedded as styled
ASS tracks in Matroska files.

## Layout

- `src/` is the verified library. Every function states its behaviour in
  `requires`/`ensures` and is proved by Verus:
  - `subtitle_cleaner`: cleaning of 3cat WebVTT files and conversion to ASS;
  - `slug`, `models`, `paths`: file names of media items and the path
    operations they go through;
  - `ffmpeg`, `yt_dlp`, `downloader`: what to download, where to write it,
    which subtitle files belong to which video, and the ffmpeg and yt-dlp
    arguments;
  - `tv_show`, `movie`, `media_resolver`: finding ids in 3cat pages and
    choosing the episodes to download;
  - `seasons`: the season-numbered naming scheme, episode selection, URLs
    and `mov_text` muxing (library only: the program does not run this
    pipeline);
  - `text`, `search`: string helpers and regular-expression searches.
  The searches in web pages (`programatv_id=`, `__NEXT_DATA__`, the
  subtitle language in a file name) call `regex` through trusted wrappers
  whose contracts name their results; so do the calls into `unidecode`,
  `isolang` and std's `to_lowercase`. The VTT format itself (region
  headers and attributes, timing lines, cue tags) is the library's own
  verified logic; its digit and white-space classes are the Unicode
  `\d` and `\s` classes of the `regex` crate (regex-syntax 0.8), written
  out as spec tables in `text`.
- `tests/` runs the library on concrete values.
- `app/` is the command-line program: arguments, HTTP, files, processes,
  progress bars and the concurrent scheduler. It hands plain values to the
  library and performs what the library plans.
