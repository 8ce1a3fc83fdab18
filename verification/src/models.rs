//! Media items, subtitle handling modes and file names.
use vstd::prelude::*;

use crate::error::Error;
use crate::slug::{
    dashes_to_spaces, is_dash_separated_words, lemma_slug_title_round_trip, slug_of, slugify,
};
use crate::text::{chars_of, contains, contains_seq, extend_str, push_signed_decimal, signed_decimal, string_of};

verus! {

/// Controls how subtitles are handled during media downloads.
#[derive(Debug, Clone, Copy, PartialEq, Eq, Structural)]
pub enum SubtitleMode {
    /// Do not download subtitles at all.
    Skip,
    /// Download subtitles as separate `.vtt` files.
    Download,
    /// Download subtitles and embed them into the video file via ffmpeg.
    Embed,
}

/// How subtitles are handled: skipped when asked, embedded when ffmpeg is
/// available, downloaded as separate files otherwise.
pub fn choose_subtitle_mode(skip_subtitles: bool, ffmpeg_available: bool) -> (mode: SubtitleMode)
    ensures
        mode == if skip_subtitles {
            SubtitleMode::Skip
        } else if ffmpeg_available {
            SubtitleMode::Embed
        } else {
            SubtitleMode::Download
        },
{
    if skip_subtitles {
        SubtitleMode::Skip
    } else if ffmpeg_available {
        SubtitleMode::Embed
    } else {
        SubtitleMode::Download
    }
}

/// A downloadable media item (TV show episode or movie).
#[derive(Debug)]
pub struct MediaItem {
    /// Internal 3cat media id.
    pub id: i32,
    /// Title of the media item.
    pub title: String,
    /// URL of the video file, known once the media details are fetched.
    pub video_url: Option<String>,
    /// URL of the subtitle file, known once the media details are fetched.
    pub subtitle_url: Option<String>,
    /// Episode number within the show (`None` for movies).
    pub episode_number: Option<i32>,
    /// Name of the show the episode belongs to (`None` for movies).
    pub tv_show_name: Option<String>,
}

/// The view of an optional string.
pub open spec fn opt_view(o: Option<String>) -> Option<Seq<char>> {
    match o {
        Some(s) => Some(s@),
        None => None,
    }
}

/// The show name marks an OVA: it holds `OVA` (case matters: "Nova" is no
/// OVA).
pub open spec fn is_ova_show(show: Option<Seq<char>>) -> bool {
    match show {
        Some(name) => contains_seq(name, "OVA"@),
        None => false,
    }
}

/// The base of a file name from the slug of the title: `{slug}` for a
/// movie, `{n}-{slug}` for episode `n`, and `ova-{n}-{slug}` for an episode
/// of an OVA show.
pub open spec fn base_from(slug: Seq<char>, episode_number: Option<i32>, ova: bool) -> Seq<char> {
    match episode_number {
        Some(n) => if ova {
            "ova-"@ + signed_decimal(n as int) + "-"@ + slug
        } else {
            signed_decimal(n as int) + "-"@ + slug
        },
        None => slug,
    }
}

/// The file name of a media item with the given extension: `{slug}.{ext}`
/// for a movie, `{n}-{slug}.{ext}` for episode `n`, and `ova-{n}-{slug}.{ext}`
/// when the show name holds "OVA".
pub open spec fn media_filename(
    title: Seq<char>,
    episode_number: Option<i32>,
    show: Option<Seq<char>>,
    ext: Seq<char>,
) -> Seq<char> {
    base_from(slug_of(title), episode_number, is_ova_show(show)) + "."@ + ext
}

/// The base of the file names of a media item, before the extension.
pub open spec fn media_base(title: Seq<char>, episode_number: Option<i32>, show: Option<Seq<char>>) -> Seq<char> {
    base_from(slug_of(title), episode_number, is_ova_show(show))
}

/// The file name `{base}.{extension}` for the slug of a title, the episode
/// number and whether the show is an OVA (see [`base_from`]).
pub fn file_name_from(slug: &str, episode_number: Option<i32>, ova: bool, extension: &str) -> (name: String)
    ensures
        name@ == base_from(slug@, episode_number, ova) + "."@ + extension@,
{
    let mut out: Vec<char> = Vec::new();
    match episode_number {
        Some(n) => {
            if ova {
                extend_str(&mut out, "ova-");
            }
            push_signed_decimal(&mut out, n as i64);
            extend_str(&mut out, "-");
        },
        None => {},
    }
    extend_str(&mut out, slug);
    extend_str(&mut out, ".");
    extend_str(&mut out, extension);
    assert(out@ =~= base_from(slug@, episode_number, ova) + "."@ + extension@);
    string_of(&out)
}

/// A file name is its base, the same for every extension, a dot and the
/// extension.
pub proof fn filename_is_base_dot_extension(
    title: Seq<char>,
    episode_number: Option<i32>,
    show: Option<Seq<char>>,
    ext: Seq<char>,
)
    ensures
        media_filename(title, episode_number, show, ext) == media_base(title, episode_number, show)
            + "."@ + ext,
{
}

impl MediaItem {
    /// The base of this item's file names.
    pub open spec fn base_name(&self) -> Seq<char> {
        media_base(self.title@, self.episode_number, opt_view(self.tv_show_name))
    }

    /// The file name of this item with extension `ext`.
    pub open spec fn file_name_with(&self, ext: Seq<char>) -> Seq<char> {
        media_filename(self.title@, self.episode_number, opt_view(self.tv_show_name), ext)
    }

    /// Generates the sanitized file name of the item with the given extension:
    /// `7-title.mp4` for an episode, `ova-7-title.mp4` for an episode of a
    /// show whose name holds "OVA", `title.mp4` for a movie.
    ///
    /// A movie whose title is a slug of dash-separated words with spaces for
    /// its dashes (as a movie item is made from its slug) is named after that
    /// slug again: `iron man` gives `iron-man.mp4`.
    pub fn filename(&self, extension: &str) -> (r: Result<String, Error>)
        ensures
            r matches Ok(s) && s@ == self.file_name_with(extension@),
            forall|slug: Seq<char>|
                is_dash_separated_words(slug) && self.episode_number is None && self.title@
                    == #[trigger] dashes_to_spaces(slug) ==> (r matches Ok(s) && s@ == slug + "."@
                    + extension@),
    {
        let slug = slugify(self.title.as_str());
        proof {
            assert forall|w: Seq<char>|
                is_dash_separated_words(w) && self.episode_number is None && self.title@
                    == #[trigger] dashes_to_spaces(w) implies slug@ == w by {
                lemma_slug_title_round_trip(w);
            }
        }
        let ova = match &self.tv_show_name {
            Some(name) => {
                let nv = chars_of(name.as_str());
                let pat = chars_of("OVA");
                contains(&nv, &pat)
            },
            None => false,
        };
        Ok(file_name_from(slug.as_str(), self.episode_number, ova, extension))
    }
}

} // verus!
