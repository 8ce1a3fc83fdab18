//! Episodes of a season and their subtitle files.
use vstd::prelude::*;

use crate::paths::{file_name, path_file_name};
use crate::search::{first_capture, regex_first_capture, regex_is_valid};
use crate::seasons::error::Error;
use crate::slug::{keep_only, lowercase, to_lowercase, transliterate, transliteration};
use crate::text::{
    chars_of, contains, contains_seq, extend_chars, extend_str, is_ascii_digit, is_white_space,
    padded2, push_padded2, string_of, white_space,
};
use crate::models::opt_view;
use vstd::string::StringSliceAdditionalSpecFns;

verus! {

/// An episode of a season.
#[derive(Debug)]
pub struct Episode {
    /// Title of the episode.
    pub title: String,
    /// URL of the episode page.
    pub video_url: String,
    /// Number of the episode within its season.
    pub episode_number: i32,
    /// Number of the season.
    pub season_number: i32,
    /// Name of the show.
    pub tv_show_name: String,
}

/// A character that the title filter `[^a-z0-9A-Z\s-]` keeps.
pub open spec fn is_title_char(c: char) -> bool {
    ('a' <= c && c <= 'z') || ('A' <= c && c <= 'Z') || is_ascii_digit(c) || is_white_space(c)
        || c == '-'
}

/// The base file name of an episode from its ASCII title and its lower-cased
/// show name: `S{season:02}E{episode:02} - {title}`, with ` (OVA)` after the
/// numbers when the show name holds "ova", the title without the characters
/// other than letters, digits, white space and `-`.
pub open spec fn episode_name_from(
    ascii_title: Seq<char>,
    episode_number: i32,
    season_number: i32,
    lowered_show_name: Seq<char>,
) -> Seq<char> {
    let numbers = "S"@ + padded2(season_number as int) + "E"@ + padded2(episode_number as int);
    let title = keep_only(ascii_title, |c: char| is_title_char(c));
    if contains_seq(lowered_show_name, "ova"@) {
        numbers + " (OVA) - "@ + title
    } else {
        numbers + " - "@ + title
    }
}

/// The base file name of an episode: `S{season:02}E{episode:02} - {title}`,
/// with ` (OVA)` after the numbers when the show name holds "ova" in any case.
pub open spec fn episode_file_name(
    title: Seq<char>,
    episode_number: i32,
    season_number: i32,
    tv_show_name: Seq<char>,
) -> Seq<char> {
    episode_name_from(transliteration(title), episode_number, season_number, lowercase(tv_show_name))
}

/// The base file name of an episode from its title transliterated to ASCII
/// and its show name in lower case (see [`episode_name_from`]).
pub fn episode_name(ascii_title: &str, episode_number: i32, season_number: i32, lowered_show_name: &str) -> (name: String)
    ensures
        name@ == episode_name_from(ascii_title@, episode_number, season_number, lowered_show_name@),
{
    let v = chars_of(ascii_title);
    let mut cleaned: Vec<char> = Vec::new();
    for k in 0..v.len()
        invariant
            cleaned@ == keep_only(v@.take(k as int), |c: char| is_title_char(c)),
    {
        assert(v@.take(k + 1).drop_last() == v@.take(k as int));
        let c = v[k];
        if ('a' <= c && c <= 'z') || ('A' <= c && c <= 'Z') || ('0' <= c && c <= '9')
            || white_space(c) || c == '-' {
            cleaned.push(c);
        }
    }
    assert(v@.take(v.len() as int) == v@);
    let lv = chars_of(lowered_show_name);
    let ova_pattern = chars_of("ova");
    let mut out: Vec<char> = chars_of("S");
    push_padded2(&mut out, season_number as i64);
    extend_str(&mut out, "E");
    push_padded2(&mut out, episode_number as i64);
    if contains(&lv, &ova_pattern) {
        extend_str(&mut out, " (OVA) - ");
    } else {
        extend_str(&mut out, " - ");
    }
    extend_chars(&mut out, &cleaned);
    string_of(&out)
}

impl Episode {
    /// Creates an episode.
    pub fn new(
        title: String,
        video_url: String,
        episode_number: i32,
        season_number: i32,
        tv_show_name: String,
    ) -> (e: Self)
        ensures
            e.title == title,
            e.video_url == video_url,
            e.episode_number == episode_number,
            e.season_number == season_number,
            e.tv_show_name == tv_show_name,
    {
        Episode { title, video_url, episode_number, season_number, tv_show_name }
    }

    /// The base file name of the episode (see [`episode_file_name`]).
    pub fn filename(&self) -> (name: String)
        ensures
            name@ == episode_file_name(
                self.title@,
                self.episode_number,
                self.season_number,
                self.tv_show_name@,
            ),
    {
        let ascii = transliterate(self.title.as_str());
        let lowered = to_lowercase(self.tv_show_name.as_str());
        episode_name(ascii.as_str(), self.episode_number, self.season_number, lowered.as_str())
    }
}

/// The episodes of `episodes` numbered `episode_start` or later, in order.
pub open spec fn episodes_from(episodes: Seq<Episode>, episode_start: i32) -> Seq<Episode>
    decreases episodes.len(),
{
    if episodes.len() == 0 {
        Seq::empty()
    } else if episodes[0].episode_number < episode_start {
        episodes_from(episodes.drop_first(), episode_start)
    } else {
        seq![episodes[0]] + episodes_from(episodes.drop_first(), episode_start)
    }
}

/// Keeps the episodes to download: those numbered `episode_start` or later,
/// in their order.
pub fn episodes_to_download(episodes: Vec<Episode>, episode_start: i32) -> (kept: Vec<Episode>)
    ensures
        kept@ == episodes_from(episodes@, episode_start),
{
    let ghost all = episodes@;
    let mut rest = episodes;
    let mut kept: Vec<Episode> = Vec::new();
    while rest.len() > 0
        invariant
            episodes_from(all, episode_start) == kept@ + episodes_from(rest@, episode_start),
        decreases rest.len(),
    {
        let ghost before = rest@;
        let e = rest.remove(0);
        assert(rest@ == before.drop_first());
        if e.episode_number >= episode_start {
            let ghost k = kept@;
            kept.push(e);
            assert(kept@ == k + seq![before[0]]);
        }
    }
    kept
}

/// A fixed subtitle file and its language.
#[derive(Debug)]
pub struct Subtitle {
    path: String,
    /// ISO 639-3 language code.
    language_code: String,
}

/// The pattern whose first match in a fixed subtitle's file name holds its
/// ISO 639-1 language code.
pub const SUBTITLE_LANGUAGE_PATTERN: &'static str = "\\.([a-z]+)\\.fixed.vtt$";

/// What `isolang` gives for an ISO 639-1 code: the ISO 639-3 code of the
/// language (`Language::from_639_1`, then `Language::to_639_3`).
pub uninterp spec fn iso_639_3_code(code_639_1: Seq<char>) -> Option<Seq<char>>;

/// `isolang::Language::from_639_1(code)`, then `Language::to_639_3`. The
/// source shows that a code of other than two bytes gives `None` and that
/// every ISO 639-3 code has three characters; the table itself is not
/// stated.
#[verifier::external_body]
pub fn iso_639_3(code: &str) -> (r: Option<String>)
    ensures
        opt_view(r) == iso_639_3_code(code@),
        code.spec_bytes().len() != 2 ==> r is None,
        r matches Some(c) ==> c@.len() == 3,
{
    isolang::Language::from_639_1(code).map(|l| l.to_639_3().to_string())
}

/// The ISO 639-1 code in the name of a fixed subtitle file: what the
/// language pattern captures in its file name.
pub open spec fn file_name_language_code(path: Seq<char>) -> Option<Seq<char>> {
    match file_name(path) {
        None => None,
        Some(name) => if regex_is_valid(SUBTITLE_LANGUAGE_PATTERN@) {
            regex_first_capture(SUBTITLE_LANGUAGE_PATTERN@, name)
        } else {
            None
        },
    }
}

/// The result of making a subtitle of `path`: its ISO 639-3 language code,
/// or the message of the error.
pub open spec fn subtitle_language(path: Seq<char>) -> Result<Seq<char>, Seq<char>> {
    match file_name_language_code(path) {
        None => Err("Failed to get language code"@),
        Some(code) => match iso_639_3_code(code) {
            None => Err(
                "Failed to convert ISO 639-1 language code '"@ + code + "' to ISO 639-3"@,
            ),
            Some(iso) => Ok(iso),
        },
    }
}

/// The ISO 639-3 code that the lookup of the ISO 639-1 code `code` gave.
///
/// # Errors
///
/// [`Error::SubtitleError`] naming `code` when the lookup found nothing.
pub fn language_from_lookup(code: &str, iso: Option<String>) -> (r: Result<String, Error>)
    ensures
        match iso {
            Some(c) => r matches Ok(x) && x@ == c@,
            None => r matches Err(Error::SubtitleError(m))
                && m@ == "Failed to convert ISO 639-1 language code '"@ + code@ + "' to ISO 639-3"@,
        },
{
    match iso {
        Some(c) => Ok(c),
        None => {
            let mut m = chars_of("Failed to convert ISO 639-1 language code '");
            extend_str(&mut m, code);
            extend_str(&mut m, "' to ISO 639-3");
            Err(Error::SubtitleError(string_of(&m)))
        },
    }
}

impl Subtitle {
    /// The subtitle file at `path`, with the language its name gives.
    ///
    /// # Errors
    ///
    /// [`Error::SubtitleError`] when the name holds no language code or the
    /// code is not an ISO 639-1 code.
    pub fn new(path: String) -> (r: Result<Subtitle, Error>)
        ensures
            match subtitle_language(path@) {
                Ok(iso) => r matches Ok(s) && s.file_path() == path@ && s.language() == iso,
                Err(m) => r matches Err(Error::SubtitleError(e)) && e@ == m,
            },
    {
        match Self::get_subtitle_language_code(path.as_str()) {
            Ok(language_code) => Ok(Subtitle { path, language_code }),
            Err(e) => Err(e),
        }
    }

    /// The path of the subtitle file.
    pub closed spec fn file_path(&self) -> Seq<char> {
        self.path@
    }

    /// The ISO 639-3 language code of the subtitle.
    pub closed spec fn language(&self) -> Seq<char> {
        self.language_code@
    }

    /// The path of the subtitle file.
    pub fn path(&self) -> (p: &String)
        ensures
            p@ == self.file_path(),
    {
        &self.path
    }

    /// The ISO 639-3 language code of the subtitle.
    pub fn language_code(&self) -> (c: &String)
        ensures
            c@ == self.language(),
    {
        &self.language_code
    }

    fn get_subtitle_language_code(path: &str) -> (r: Result<String, Error>)
        ensures
            match subtitle_language(path@) {
                Ok(iso) => r matches Ok(c) && c@ == iso,
                Err(m) => r matches Err(Error::SubtitleError(e)) && e@ == m,
            },
    {
        let code = match Self::get_file_name_language_code(path) {
            Some(c) => c,
            None => {
                return Err(Error::SubtitleError(String::from_str("Failed to get language code")));
            },
        };
        let iso = iso_639_3(code.as_str());
        language_from_lookup(code.as_str(), iso)
    }

    fn get_file_name_language_code(path: &str) -> (r: Option<String>)
        ensures
            opt_view(r) == file_name_language_code(path@),
    {
        let p = chars_of(path);
        let name = match path_file_name(&p) {
            Some(n) => string_of(&n),
            None => {
                return None;
            },
        };
        match first_capture(SUBTITLE_LANGUAGE_PATTERN, name.as_str()) {
            Ok(c) => c,
            Err(_) => None,
        }
    }
}

} // verus!
