//! Downloads through yt-dlp: the URL, the arguments, the files to look for,
//! and the fields of its progress lines.
//!
//! The CCMA extractor of yt-dlp only needs the numeric id of a video; the
//! slug segment of the URL (`x`) is arbitrary.
use vstd::prelude::*;

use crate::error::Error;
use crate::ffmpeg::{pair_views, string_views, SubtitleTrack};
use crate::models::{MediaItem, SubtitleMode};
use crate::text::{
    chars_of, copy_range, find_char, has_at, index_from, lemma_index_from, matches_at,
    push_signed_decimal, signed_decimal, string_of, trim, trimmed,
};
use crate::downloader::full_media_path;

verus! {

/// The start of every 3cat video URL handed to yt-dlp.
pub const CCMA_VIDEO_URL_BASE: &'static str = "https://www.3cat.cat/3cat/x/video/";

/// The languages of the subtitle files looked for after a yt-dlp run, in
/// order.
pub open spec fn subtitle_langs() -> Seq<Seq<char>> {
    seq!["ca"@, "en"@, "es"@]
}

/// The arguments of a yt-dlp run: progress on separate lines, the output
/// template, the Catalan subtitle (written beside the video, never embedded
/// by yt-dlp) unless skipped, and the URL.
pub open spec fn yt_dlp_args(template: Seq<char>, mode: SubtitleMode, url: Seq<char>) -> Seq<Seq<char>> {
    seq!["--no-playlist"@, "--progress"@, "--newline"@, "-o"@, template] + (if mode
        == SubtitleMode::Skip {
        Seq::empty()
    } else {
        seq!["--write-subs"@, "--sub-langs"@, "ca"@]
    }) + seq![url]
}

/// yt-dlp is asked to write the Catalan subtitle in every mode but
/// [`SubtitleMode::Skip`], in Download and Embed alike (embedding needs the
/// file on disk to clean it first): the arguments are the progress options,
/// the output template, `--write-subs --sub-langs ca` exactly when the mode
/// is not Skip, and the URL last.
pub proof fn subtitles_are_written_unless_skipped(template: Seq<char>, mode: SubtitleMode, url: Seq<char>)
    ensures
        mode != SubtitleMode::Skip ==> yt_dlp_args(template, mode, url) == seq![
            "--no-playlist"@,
            "--progress"@,
            "--newline"@,
            "-o"@,
            template,
            "--write-subs"@,
            "--sub-langs"@,
            "ca"@,
            url,
        ],
        mode == SubtitleMode::Skip ==> yt_dlp_args(template, mode, url) == seq![
            "--no-playlist"@,
            "--progress"@,
            "--newline"@,
            "-o"@,
            template,
            url,
        ],
{
    assert(seq!["--no-playlist"@, "--progress"@, "--newline"@, "-o"@, template] + seq![
        "--write-subs"@,
        "--sub-langs"@,
        "ca"@,
    ] + seq![url] =~= seq![
        "--no-playlist"@,
        "--progress"@,
        "--newline"@,
        "-o"@,
        template,
        "--write-subs"@,
        "--sub-langs"@,
        "ca"@,
        url,
    ]);
    assert(seq!["--no-playlist"@, "--progress"@, "--newline"@, "-o"@, template] + Seq::empty() + seq![url]
        =~= seq!["--no-playlist"@, "--progress"@, "--newline"@, "-o"@, template, url]);
}

/// A yt-dlp download of one media item.
#[derive(Debug)]
pub struct YtDlpPlan {
    /// The video URL.
    pub url: String,
    /// The output file name, with yt-dlp's `%(ext)s` as extension.
    pub output_filename: String,
    /// The output path template.
    pub output_template: String,
    /// The arguments of the yt-dlp run.
    pub args: Vec<String>,
    /// The subtitle files yt-dlp may write, each with its language.
    pub subtitle_candidates: Vec<(String, String)>,
    /// The video file that subtitles are embedded into.
    pub video_path: String,
}

/// Plans the yt-dlp download of a media item into `directory`.
pub fn plan_yt_dlp(item: &MediaItem, directory: &str, mode: SubtitleMode) -> (r: Result<YtDlpPlan, Error>)
    ensures
        r matches Ok(plan) && {
            &&& plan.url@ == CCMA_VIDEO_URL_BASE@ + signed_decimal(item.id as int)
            &&& plan.output_filename@ == item.file_name_with("%(ext)s"@)
            &&& plan.output_template@ == item.path_in(directory@, "%(ext)s"@)
            &&& string_views(plan.args@) == yt_dlp_args(plan.output_template@, mode, plan.url@)
            &&& mode != SubtitleMode::Skip ==> string_views(plan.args@) == seq![
                "--no-playlist"@,
                "--progress"@,
                "--newline"@,
                "-o"@,
                plan.output_template@,
                "--write-subs"@,
                "--sub-langs"@,
                "ca"@,
                plan.url@,
            ]
            &&& mode == SubtitleMode::Skip ==> string_views(plan.args@) == seq![
                "--no-playlist"@,
                "--progress"@,
                "--newline"@,
                "-o"@,
                plan.output_template@,
                plan.url@,
            ]
            &&& plan.subtitle_candidates.len() == 3
            &&& forall|k: int|
                0 <= k < 3 ==> (#[trigger] plan.subtitle_candidates[k]).0@ == item.path_in(
                    directory@,
                    subtitle_langs()[k] + ".vtt"@,
                ) && plan.subtitle_candidates[k].1@ == subtitle_langs()[k]
            &&& plan.video_path@ == item.path_in(directory@, "mp4"@)
        },
{
    let mut u = chars_of(CCMA_VIDEO_URL_BASE);
    push_signed_decimal(&mut u, item.id as i64);
    let url = string_of(&u);
    let output_filename = match item.filename("%(ext)s") {
        Ok(n) => n,
        Err(e) => {
            return Err(e);
        },
    };
    let output_template = match full_media_path(item, directory, "%(ext)s") {
        Ok(p) => p,
        Err(e) => {
            return Err(e);
        },
    };
    let mut args: Vec<String> = Vec::new();
    args.push(String::from_str("--no-playlist"));
    args.push(String::from_str("--progress"));
    args.push(String::from_str("--newline"));
    args.push(String::from_str("-o"));
    args.push(output_template.clone());
    if mode != SubtitleMode::Skip {
        args.push(String::from_str("--write-subs"));
        args.push(String::from_str("--sub-langs"));
        args.push(String::from_str("ca"));
    }
    args.push(url.clone());
    assert(string_views(args@) =~= yt_dlp_args(output_template@, mode, url@));
    proof {
        subtitles_are_written_unless_skipped(output_template@, mode, url@);
    }
    let mut subtitle_candidates: Vec<(String, String)> = Vec::new();
    let ca = match full_media_path(item, directory, "ca.vtt") {
        Ok(p) => p,
        Err(e) => {
            return Err(e);
        },
    };
    let en = match full_media_path(item, directory, "en.vtt") {
        Ok(p) => p,
        Err(e) => {
            return Err(e);
        },
    };
    let es = match full_media_path(item, directory, "es.vtt") {
        Ok(p) => p,
        Err(e) => {
            return Err(e);
        },
    };
    proof {
        reveal_strlit("ca.vtt");
        reveal_strlit("en.vtt");
        reveal_strlit("es.vtt");
        reveal_strlit("ca");
        reveal_strlit("en");
        reveal_strlit("es");
        reveal_strlit(".vtt");
        assert("ca"@ + ".vtt"@ =~= "ca.vtt"@);
        assert("en"@ + ".vtt"@ =~= "en.vtt"@);
        assert("es"@ + ".vtt"@ =~= "es.vtt"@);
    }
    subtitle_candidates.push((ca, String::from_str("ca")));
    subtitle_candidates.push((en, String::from_str("en")));
    subtitle_candidates.push((es, String::from_str("es")));
    let video_path = match full_media_path(item, directory, "mp4") {
        Ok(p) => p,
        Err(e) => {
            return Err(e);
        },
    };
    Ok(YtDlpPlan { url, output_filename, output_template, args, subtitle_candidates, video_path })
}

/// The percentage text and the rest of a yt-dlp `[download]` progress line,
/// both trimmed: `[download]  17.3% of 2.37GiB` gives `("17.3", "of 2.37GiB")`.
pub open spec fn progress_fields_of(line: Seq<char>) -> Option<(Seq<char>, Seq<char>)> {
    let prefix = "[download]"@;
    if has_at(line, 0, prefix) {
        let content = trim(line.skip(prefix.len() as int));
        let k = index_from(content, 0, '%');
        if k < content.len() {
            Some((trim(content.take(k)), trim(content.skip(k + 1))))
        } else {
            None
        }
    } else {
        None
    }
}

/// Splits a yt-dlp `--progress --newline` line into its percentage text and
/// the rest; `None` for a line that is not a download progress line.
pub fn progress_fields(line: &str) -> (r: Option<(String, String)>)
    ensures
        r matches Some((p, rest)) ==> progress_fields_of(line@) == Some((p@, rest@)),
        r is None ==> progress_fields_of(line@) is None,
{
    let v = chars_of(line);
    let prefix = chars_of("[download]");
    if !matches_at(&v, 0, &prefix) {
        return None;
    }
    let after = copy_range(&v, prefix.len(), v.len());
    assert(after@ == v@.skip(prefix@.len() as int));
    let content = trimmed(&after);
    let k = find_char(&content, 0, '%');
    proof {
        lemma_index_from(content@, 0, '%');
    }
    if k >= content.len() {
        return None;
    }
    let pct = copy_range(&content, 0, k);
    let rest = copy_range(&content, k + 1, content.len());
    assert(pct@ == content@.take(k as int));
    assert(rest@ == content@.skip(k + 1));
    let pct_t = trimmed(&pct);
    let rest_t = trimmed(&rest);
    Some((string_of(&pct_t), string_of(&rest_t)))
}


/// The candidates whose file is present, in order.
pub open spec fn present_candidates(
    candidates: Seq<(Seq<char>, Seq<char>)>,
    present: Seq<bool>,
) -> Seq<(Seq<char>, Seq<char>)>
    decreases candidates.len(),
{
    if candidates.len() == 0 {
        Seq::empty()
    } else {
        let rest = present_candidates(candidates.drop_last(), present.drop_last());
        if present.last() {
            rest.push(candidates.last())
        } else {
            rest
        }
    }
}

/// `found` lists the candidates whose flag is set, in order: `found[t]` is
/// `candidates[idx[t]]` with `present[idx[t]]`, the indices increase, and
/// every flagged candidate is listed.
pub open spec fn lists_flagged_candidates(
    idx: Seq<int>,
    candidates: Seq<(Seq<char>, Seq<char>)>,
    present: Seq<bool>,
    found: Seq<(Seq<char>, Seq<char>)>,
) -> bool {
    &&& idx.len() == found.len()
    &&& forall|t: int|
        0 <= t < idx.len() ==> 0 <= #[trigger] idx[t] < candidates.len() && present[idx[t]]
            && found[t] == candidates[idx[t]]
    &&& forall|t: int, u: int| 0 <= t < u < idx.len() ==> #[trigger] idx[t] < #[trigger] idx[u]
    &&& forall|k: int|
        0 <= k < candidates.len() && #[trigger] present[k] ==> exists|t: int|
            0 <= t < idx.len() && #[trigger] idx[t] == k
}

proof fn lemma_present_candidates_indices(
    candidates: Seq<(Seq<char>, Seq<char>)>,
    present: Seq<bool>,
) -> (idx: Seq<int>)
    requires
        candidates.len() == present.len(),
    ensures
        lists_flagged_candidates(idx, candidates, present, present_candidates(candidates, present)),
        forall|t: int| 0 <= t < idx.len() ==> #[trigger] idx[t] < candidates.len(),
    decreases candidates.len(),
{
    if candidates.len() == 0 {
        Seq::empty()
    } else {
        let n = candidates.len() - 1;
        let c0 = candidates.drop_last();
        let p0 = present.drop_last();
        let idx0 = lemma_present_candidates_indices(c0, p0);
        let f0 = present_candidates(c0, p0);
        assert forall|k: int| 0 <= k < n implies c0[k] == candidates[k] && p0[k] == present[k] by {}
        if present.last() {
            let idx = idx0.push(n);
            let f = f0.push(candidates.last());
            assert forall|t: int| 0 <= t < idx.len() implies 0 <= #[trigger] idx[t] < candidates.len()
                && present[idx[t]] && f[t] == candidates[idx[t]] by {
                if t < idx0.len() {
                    assert(idx[t] == idx0[t]);
                }
            }
            assert forall|t: int, u: int| 0 <= t < u < idx.len() implies #[trigger] idx[t] < #[trigger] idx[u] by {
                if u < idx0.len() {
                    assert(idx[t] == idx0[t] && idx[u] == idx0[u]);
                } else {
                    assert(idx[t] == idx0[t]);
                }
            }
            assert forall|k: int| 0 <= k < candidates.len() && #[trigger] present[k] implies exists|t: int|
                0 <= t < idx.len() && #[trigger] idx[t] == k by {
                if k == n {
                    assert(idx[idx0.len() as int] == k);
                } else {
                    assert(p0[k]);
                    let t = choose|t: int| 0 <= t < idx0.len() && #[trigger] idx0[t] == k;
                    assert(idx[t] == k);
                }
            }
            idx
        } else {
            assert forall|t: int| 0 <= t < idx0.len() implies 0 <= #[trigger] idx0[t] < candidates.len()
                && present[idx0[t]] && f0[t] == candidates[idx0[t]] by {}
            assert forall|k: int| 0 <= k < candidates.len() && #[trigger] present[k] implies exists|t: int|
                0 <= t < idx0.len() && #[trigger] idx0[t] == k by {
                assert(k != n);
                assert(p0[k]);
            }
            idx0
        }
    }
}

proof fn lemma_result_lists_flagged(
    cs: Seq<(Seq<char>, Seq<char>)>,
    present: Seq<bool>,
    r: Result<Vec<SubtitleTrack>, Error>,
)
    requires
        cs.len() == present.len(),
        r is Ok ==> track_views(r->Ok_0@) == present_candidates(cs, present),
    ensures
        r is Ok ==> exists|idx: Seq<int>|
            #[trigger] lists_flagged_candidates(idx, cs, present, track_views(r->Ok_0@)),
{
    if r is Ok {
        let idx = lemma_present_candidates_indices(cs, present);
        assert(lists_flagged_candidates(idx, cs, present, track_views(r->Ok_0@)));
    }
}

/// The subtitle files picked up after a yt-dlp run are exactly the
/// candidates whose own presence flag is set, in the order of the
/// candidates: each is a candidate `k` with `present[k]`, and every such `k`
/// gives one.
pub proof fn picked_subtitles_are_the_present_candidates(
    candidates: Seq<(Seq<char>, Seq<char>)>,
    present: Seq<bool>,
)
    requires
        candidates.len() == present.len(),
    ensures
        exists|idx: Seq<int>|
            #[trigger] lists_flagged_candidates(idx, candidates, present, present_candidates(candidates, present)),
{
    let idx = lemma_present_candidates_indices(candidates, present);
    assert(lists_flagged_candidates(idx, candidates, present, present_candidates(candidates, present)));
}

/// The path and the language of each track.
pub open spec fn track_views(tracks: Seq<SubtitleTrack>) -> Seq<(Seq<char>, Seq<char>)> {
    tracks.map_values(|t: SubtitleTrack| (t.path@, t.lang_code@))
}

/// The subtitle tracks that a yt-dlp run left behind: each candidate of the
/// plan whose file is present (`present[k]` for `candidates[k]`), in order.
///
/// # Errors
///
/// [`Error::NoSubtitlesAvailable`] with the item's title when no candidate
/// is present.
pub fn found_subtitle_tracks(
    item: &MediaItem,
    candidates: &Vec<(String, String)>,
    present: &Vec<bool>,
) -> (r: Result<Vec<SubtitleTrack>, Error>)
    requires
        candidates.len() == present.len(),
    ensures
        r is Err <==> present_candidates(pair_views(candidates@), present@).len() == 0,
        r matches Err(e) ==> e matches Error::NoSubtitlesAvailable(t) && t@ == item.title@,
        r matches Ok(ts) ==> track_views(ts@) == present_candidates(pair_views(candidates@), present@),
        r is Ok ==> exists|idx: Seq<int>|
            #[trigger] lists_flagged_candidates(idx, pair_views(candidates@), present@, track_views(r->Ok_0@)),
{
    let ghost cs = pair_views(candidates@);
    let mut tracks: Vec<SubtitleTrack> = Vec::new();
    for k in 0..candidates.len()
        invariant
            candidates.len() == present.len(),
            cs == pair_views(candidates@),
            track_views(tracks@) == present_candidates(cs.take(k as int), present@.take(k as int)),
    {
        let ghost before = tracks@;
        assert(cs.take(k + 1).drop_last() == cs.take(k as int));
        assert(present@.take(k + 1).drop_last() == present@.take(k as int));
        if present[k] {
            let (p, l) = &candidates[k];
            tracks.push(SubtitleTrack { path: p.clone(), lang_code: l.clone() });
            assert(track_views(tracks@) =~= track_views(before).push(cs[k as int]));
        }
    }
    assert(cs.take(candidates.len() as int) == cs);
    assert(present@.take(present.len() as int) == present@);
    if tracks.len() == 0 {
        return Err(Error::NoSubtitlesAvailable(item.title.clone()));
    }
    let r = Ok(tracks);
    proof {
        lemma_result_lists_flagged(cs, present@, r);
    }
    r
}

} // verus!
