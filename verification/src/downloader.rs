//! Decisions of the built-in downloader: which URLs to fetch, where to put
//! the files, and whether a video is already there.
use vstd::prelude::*;

use crate::api_structs::{SingleEpisodeRoot, UrlMetadata};
use crate::error::Error;
use crate::models::{opt_view, MediaItem, SubtitleMode};
use crate::paths::{extension, file_stem, join, path_extension, path_file_stem, path_join};
use crate::text::{chars_of, eq_str, extend_str, push_signed_decimal, signed_decimal, string_of};

verus! {

/// The start of the URL of a media item's details, before its id.
pub const TV3_SINGLE_MEDIA_API_URL_START: &'static str =
    "https://dinamics.ccma.cat/pvideo/media.jsp?media=video&version=0s&idint=";

/// The URL of the details (video and subtitle URLs) of a media item.
pub fn media_details_url(id: i32) -> (url: String)
    ensures
        url@ == TV3_SINGLE_MEDIA_API_URL_START@ + signed_decimal(id as int),
{
    let mut v = chars_of(TV3_SINGLE_MEDIA_API_URL_START);
    push_signed_decimal(&mut v, id as i64);
    string_of(&v)
}

/// The file of the first active URL.
pub open spec fn first_active_url(urls: Seq<UrlMetadata>) -> Option<Seq<char>>
    decreases urls.len(),
{
    if urls.len() == 0 {
        None
    } else if urls[0].active {
        Some(urls[0].file@)
    } else {
        first_active_url(urls.drop_first())
    }
}

/// Fills in the video URL (the first active one, if any) and the subtitle
/// URL (the first subtitle track, if any) of `item` from the media API
/// response.
///
/// # Errors
///
/// [`Error::NoSubtitlesAvailable`] with the item's title when the response
/// has no subtitle track and subtitles are not skipped.
pub fn apply_media_details(item: MediaItem, response: &SingleEpisodeRoot, mode: SubtitleMode) -> (r: Result<MediaItem, Error>)
    ensures
        r is Err <==> response.subtitles.len() == 0 && mode != SubtitleMode::Skip,
        r matches Err(e) ==> e matches Error::NoSubtitlesAvailable(t) && t@ == item.title@,
        r matches Ok(it) ==> {
            &&& it.id == item.id
            &&& it.title@ == item.title@
            &&& it.episode_number == item.episode_number
            &&& opt_view(it.tv_show_name) == opt_view(item.tv_show_name)
            &&& opt_view(it.video_url) == match first_active_url(response.media.url@) {
                Some(f) => Some(f),
                None => opt_view(item.video_url),
            }
            &&& opt_view(it.subtitle_url) == if response.subtitles.len() > 0 {
                Some(response.subtitles[0].url@)
            } else {
                opt_view(item.subtitle_url)
            }
        },
{
    let mut item = item;
    let mut k: usize = 0;
    let urls = &response.media.url;
    while k < urls.len() && !urls[k].active
        invariant
            k <= urls.len(),
            forall|j: int| 0 <= j < k ==> !(#[trigger] urls[j]).active,
        decreases urls.len() - k,
    {
        k += 1;
    }
    proof {
        lemma_first_active(urls@, k as int);
    }
    if k < urls.len() {
        item.video_url = Some(urls[k].file.clone());
    }
    if response.subtitles.len() > 0 {
        item.subtitle_url = Some(response.subtitles[0].url.clone());
    } else if mode != SubtitleMode::Skip {
        return Err(Error::NoSubtitlesAvailable(item.title.clone()));
    }
    Ok(item)
}

proof fn lemma_first_active(urls: Seq<UrlMetadata>, k: int)
    requires
        0 <= k <= urls.len(),
        forall|j: int| 0 <= j < k ==> !(#[trigger] urls[j]).active,
        k < urls.len() ==> urls[k].active,
    ensures
        first_active_url(urls) == if k < urls.len() {
            Some(urls[k].file@)
        } else {
            None
        },
    decreases k,
{
    if k > 0 {
        let rest = urls.drop_first();
        assert forall|j: int| 0 <= j < k - 1 implies !(#[trigger] rest[j]).active by {
            assert(rest[j] == urls[j + 1]);
        }
        lemma_first_active(rest, k - 1);
    }
}

impl MediaItem {
    /// The path of this item's file with extension `ext` in `directory`.
    pub open spec fn path_in(&self, directory: Seq<char>, ext: Seq<char>) -> Seq<char> {
        join(directory, self.file_name_with(ext))
    }
}

/// The path of the item's file with the given extension in `directory`.
pub fn full_media_path(item: &MediaItem, directory: &str, extension: &str) -> (r: Result<String, Error>)
    ensures
        r matches Ok(p) && p@ == item.path_in(directory@, extension@),
{
    let name = match item.filename(extension) {
        Ok(n) => n,
        Err(e) => {
            return Err(e);
        },
    };
    let d = chars_of(directory);
    let n = chars_of(name.as_str());
    let joined = path_join(&d, &n);
    Ok(string_of(&joined))
}

/// One file to fetch.
#[derive(Debug)]
pub struct FileDownload {
    /// Where to fetch it from.
    pub url: String,
    /// Where to write it.
    pub path: String,
    /// The label of its progress bar: the file name.
    pub label: String,
}

/// What the built-in downloader fetches for a media item.
#[derive(Debug)]
pub struct DownloadPlan {
    /// The video file.
    pub video: FileDownload,
    /// The subtitle file, when subtitles are wanted and the item has one.
    pub subtitle: Option<FileDownload>,
    /// Whether the subtitle is embedded into the video afterwards.
    pub embed: bool,
}

/// Plans the download of a media item into `directory`: the video to
/// `{name}.mp4` and, unless subtitles are skipped, the subtitle (if the item
/// has one) to `{name}.vtt`, embedded afterwards in [`SubtitleMode::Embed`].
///
/// # Errors
///
/// [`Error::MediaDoesNotHaveVideoUrl`] with the video file name when the item
/// has no video URL.
pub fn plan_download(item: &MediaItem, directory: &str, mode: SubtitleMode) -> (r: Result<DownloadPlan, Error>)
    ensures
        r is Err <==> item.video_url is None,
        r matches Err(e) ==> e matches Error::MediaDoesNotHaveVideoUrl(n) && n@ == item.file_name_with("mp4"@),
        r matches Ok(plan) ==> {
            &&& Some(plan.video.url@) == opt_view(item.video_url)
            &&& plan.video.path@ == item.path_in(directory@, "mp4"@)
            &&& plan.video.label@ == item.file_name_with("mp4"@)
            &&& plan.embed == (mode == SubtitleMode::Embed)
            &&& match plan.subtitle {
                None => mode == SubtitleMode::Skip || item.subtitle_url is None,
                Some(s) => {
                    &&& mode != SubtitleMode::Skip
                    &&& Some(s.url@) == opt_view(item.subtitle_url)
                    &&& s.path@ == item.path_in(directory@, "vtt"@)
                    &&& s.label@ == item.file_name_with("vtt"@)
                },
            }
        },
{
    let video_name = match item.filename("mp4") {
        Ok(n) => n,
        Err(e) => {
            return Err(e);
        },
    };
    let video_url = match &item.video_url {
        Some(u) => u.clone(),
        None => {
            return Err(Error::MediaDoesNotHaveVideoUrl(video_name));
        },
    };
    let video_path = match full_media_path(item, directory, "mp4") {
        Ok(p) => p,
        Err(e) => {
            return Err(e);
        },
    };
    let video = FileDownload { url: video_url, path: video_path, label: video_name };
    let subtitle = if mode == SubtitleMode::Skip {
        None
    } else {
        match &item.subtitle_url {
            None => None,
            Some(u) => {
                let label = match item.filename("vtt") {
                    Ok(n) => n,
                    Err(e) => {
                        return Err(e);
                    },
                };
                let path = match full_media_path(item, directory, "vtt") {
                    Ok(p) => p,
                    Err(e) => {
                        return Err(e);
                    },
                };
                Some(FileDownload { url: u.clone(), path, label })
            },
        }
    };
    Ok(DownloadPlan { video, subtitle, embed: mode == SubtitleMode::Embed })
}

/// The container extensions that count as a downloaded video.
pub open spec fn is_video_extension(e: Seq<char>) -> bool {
    e == "mp4"@ || e == "mkv"@ || e == "webm"@ || e == "ts"@ || e == "m4v"@
}

/// A directory entry is a video of the given stem, whatever its container.
pub open spec fn is_video_of_stem(entry_name: Seq<char>, stem: Seq<char>) -> bool {
    match extension(entry_name) {
        Some(e) => is_video_extension(e) && file_stem(entry_name) == Some(stem),
        None => false,
    }
}

/// Subtitle files never count as a downloaded video: an entry with the
/// extension `vtt` or `ass` is no video of any stem.
pub proof fn subtitle_files_are_not_videos(entry_name: Seq<char>, stem: Seq<char>)
    requires
        extension(entry_name) == Some("vtt"@) || extension(entry_name) == Some("ass"@),
    ensures
        !is_video_of_stem(entry_name, stem),
{
    reveal_strlit("vtt");
    reveal_strlit("ass");
    reveal_strlit("mp4");
    reveal_strlit("mkv");
    reveal_strlit("webm");
    reveal_strlit("ts");
    reveal_strlit("m4v");
    let e = extension(entry_name).unwrap();
    assert(e[0] == 'v' || e[0] == 'a');
    assert(e != "mp4"@ && e != "mkv"@ && e != "webm"@ && e != "m4v"@ && e != "ts"@) by {
        assert("mp4"@[0] == 'm' && "mkv"@[0] == 'm' && "webm"@[0] == 'w' && "m4v"@[0] == 'm');
        assert("ts"@.len() == 2 && e.len() == 3);
    }
}

/// The videos of an item are recognised whatever their container: for
/// every non-empty stem without `/`, the entry `{stem}.mp4` (the built-in
/// downloader's file), and likewise `.mkv`, `.webm`, `.ts` and `.m4v`, is a
/// video of that stem.
pub proof fn own_videos_are_recognised(stem: Seq<char>, e: Seq<char>)
    requires
        stem.len() > 0,
        forall|i: int| 0 <= i < stem.len() ==> stem[i] != '/',
        e == "mp4"@ || e == "mkv"@ || e == "webm"@ || e == "ts"@ || e == "m4v"@,
    ensures
        is_video_of_stem(stem + "."@ + e, stem),
{
    reveal_strlit(".");
    reveal_strlit("mp4");
    reveal_strlit("mkv");
    reveal_strlit("webm");
    reveal_strlit("ts");
    reveal_strlit("m4v");
    let name = stem + seq!['.'] + e;
    assert(stem + "."@ + e == name);
    assert forall|i: int| 0 <= i < e.len() implies e[i] != '.' by {}
    crate::ffmpeg::lemma_dotted(stem, e);
    assert forall|i: int| 0 <= i < name.len() implies name[i] != '/' by {
        if i < stem.len() {
            assert(name[i] == stem[i]);
        } else if i > stem.len() {
            assert(name[i] == e[i - stem.len() - 1]);
        }
    }
    assert(name.len() >= 3);
    assert(name != seq!['.'] && name != seq!['.', '.']);
    crate::ffmpeg::lemma_path_parts(Seq::empty(), name);
    assert(Seq::<char>::empty() + name == name);
}

/// Whether a directory entry is a video file (`mp4`, `mkv`, `webm`, `ts` or
/// `m4v`) whose stem is `stem`.
pub fn is_video_entry(entry_name: &str, stem: &str) -> (b: bool)
    ensures
        b == is_video_of_stem(entry_name@, stem@),
{
    let p = chars_of(entry_name);
    let ext = match path_extension(&p) {
        Some(e) => e,
        None => {
            return false;
        },
    };
    if !(eq_str(&ext, "mp4") || eq_str(&ext, "mkv") || eq_str(&ext, "webm") || eq_str(&ext, "ts")
        || eq_str(&ext, "m4v")) {
        return false;
    }
    match path_file_stem(&p) {
        Some(s) => eq_str(&s, stem),
        None => false,
    }
}

/// The stem that the videos of a media item share: the stem of its `mp4`
/// file name.
///
/// # Errors
///
/// [`Error::InvalidPathEncoding`] with the file name if it has no stem.
pub fn media_stem(item: &MediaItem) -> (r: Result<String, Error>)
    ensures
        r matches Ok(s) ==> file_stem(item.file_name_with("mp4"@)) == Some(s@),
        r matches Err(e) ==> (e matches Error::InvalidPathEncoding(n) && n@ == item.file_name_with("mp4"@)),
        r is Ok <==> file_stem(item.file_name_with("mp4"@)) is Some,
{
    let name = match item.filename("mp4") {
        Ok(n) => n,
        Err(e) => {
            return Err(e);
        },
    };
    let v = chars_of(name.as_str());
    match path_file_stem(&v) {
        Some(s) => Ok(string_of(&s)),
        None => Err(Error::InvalidPathEncoding(name)),
    }
}

/// The partial download left by an interrupted run: the `mp4` path with
/// `.tmp` appended.
pub fn stale_download_path(item: &MediaItem, directory: &str) -> (r: Result<String, Error>)
    ensures
        r matches Ok(p) && p@ == item.path_in(directory@, "mp4"@) + ".tmp"@,
{
    let video = match full_media_path(item, directory, "mp4") {
        Ok(p) => p,
        Err(e) => {
            return Err(e);
        },
    };
    let mut v = chars_of(video.as_str());
    extend_str(&mut v, ".tmp");
    Ok(string_of(&v))
}

} // verus!
