//! Fixing downloaded subtitles and muxing them into the video as `mov_text`.
use vstd::prelude::*;

use crate::ffmpeg::string_views;
use crate::models::opt_view;
use crate::paths::{find_name_span, name_span};
use crate::seasons::error::Error;
use crate::seasons::models::{subtitle_language, Subtitle};
use crate::subtitle_cleaner::join_lines;
use crate::text::{copy_range, chars_of, contains, contains_seq, extend_chars, extend_str, has_at, lines, lines_of, matches_at, push_decimal, decimal, string_of, views};

verus! {

/// The lines of `ls` that do not begin with `Region:`, in order.
pub open spec fn lines_without_regions(ls: Seq<Seq<char>>) -> Seq<Seq<char>>
    decreases ls.len(),
{
    if ls.len() == 0 {
        Seq::empty()
    } else if has_at(ls.last(), 0, "Region:"@) {
        lines_without_regions(ls.drop_last())
    } else {
        lines_without_regions(ls.drop_last()).push(ls.last())
    }
}

/// The fixed text of a subtitle file: its lines without those that begin
/// with `Region:`, joined with newlines.
pub fn clean_subtitle_text(content: &str) -> (fixed: String)
    ensures
        fixed@ == join_lines(lines_without_regions(lines_of(content@))),
{
    let v = chars_of(content);
    let ls = lines(&v);
    let ghost lv = lines_of(content@);
    let header = chars_of("Region:");
    let mut out: Vec<char> = Vec::new();
    let mut any_kept = false;
    for k in 0..ls.len()
        invariant
            views(ls@) == lv,
            header@ == "Region:"@,
            out@ == join_lines(lines_without_regions(lv.take(k as int))),
            any_kept == (lines_without_regions(lv.take(k as int)).len() > 0),
    {
        assert(lv.take(k + 1).drop_last() == lv.take(k as int));
        assert(lv.take(k + 1).last() == ls[k as int]@);
        if !matches_at(&ls[k], 0, &header) {
            if any_kept {
                out.push('\n');
            }
            extend_chars(&mut out, &ls[k]);
            let ghost kept = lines_without_regions(lv.take(k as int));
            assert(lines_without_regions(lv.take(k + 1)) == kept.push(ls[k as int]@));
            assert(kept.push(ls[k as int]@).drop_last() == kept);
            assert(out@ =~= join_lines(kept.push(ls[k as int]@)));
            any_kept = true;
        }
    }
    assert(lv.take(ls.len() as int) == lv);
    string_of(&out)
}

/// `s[i..]` with every occurrence of `from`, found left to right, replaced
/// by `to`.
pub open spec fn replace_from(s: Seq<char>, i: int, from: Seq<char>, to: Seq<char>) -> Seq<char>
    decreases s.len() - i,
{
    if i < 0 || i >= s.len() || from.len() == 0 {
        s.subrange(if 0 <= i <= s.len() { i } else { s.len() as int }, s.len() as int)
    } else if has_at(s, i, from) {
        to + replace_from(s, i + from.len(), from, to)
    } else {
        seq![s[i]] + replace_from(s, i + 1, from, to)
    }
}

/// The file name of the fixed form of a subtitle: `.orig` replaced by
/// `.fixed` throughout.
pub fn fixed_subtitle_name(name: &str) -> (fixed: String)
    ensures
        fixed@ == replace_from(name@, 0, ".orig"@, ".fixed"@),
{
    let v = chars_of(name);
    let from = chars_of(".orig");
    proof {
        reveal_strlit(".orig");
    }
    let mut out: Vec<char> = Vec::new();
    let mut i: usize = 0;
    while i < v.len()
        invariant
            i <= v.len(),
            from@ == ".orig"@,
            from@.len() == 5,
            replace_from(v@, 0, from@, ".fixed"@) == out@ + replace_from(v@, i as int, from@, ".fixed"@),
        decreases v.len() - i,
    {
        if matches_at(&v, i, &from) {
            extend_str(&mut out, ".fixed");
            i += from.len();
        } else {
            out.push(v[i]);
            i += 1;
        }
    }
    assert(replace_from(v@, i as int, from@, ".fixed"@) == Seq::<char>::empty());
    string_of(&out)
}

/// A subtitle path that was already fixed: it holds `fixed.vtt`.
pub fn is_fixed_subtitle_path(path: &str) -> (b: bool)
    ensures
        b == contains_seq(path@, "fixed.vtt"@),
{
    let v = chars_of(path);
    let p = chars_of("fixed.vtt");
    contains(&v, &p)
}

/// `-i PATH` for each subtitle file.
pub open spec fn subtitle_inputs(paths: Seq<Seq<char>>) -> Seq<Seq<char>>
    decreases paths.len(),
{
    if paths.len() == 0 {
        Seq::empty()
    } else {
        subtitle_inputs(paths.drop_last()) + seq!["-i"@, paths.last()]
    }
}

/// For each subtitle stream: its input, its language, and the `mov_text` codec.
pub open spec fn subtitle_streams(langs: Seq<Seq<char>>) -> Seq<Seq<char>>
    decreases langs.len(),
{
    if langs.len() == 0 {
        Seq::empty()
    } else {
        let i = (langs.len() - 1) as nat;
        subtitle_streams(langs.drop_last()) + seq![
            "-map"@,
            decimal(i + 1),
            "-metadata:s:s:"@ + decimal(i),
            "language="@ + langs.last(),
            "-c:s:"@ + decimal(i),
            "mov_text"@,
        ]
    }
}

/// The ffmpeg arguments that add subtitle files to a video: video and audio
/// copied, each subtitle as a `mov_text` stream with its language.
pub open spec fn mov_text_args(
    video: Seq<char>,
    paths: Seq<Seq<char>>,
    langs: Seq<Seq<char>>,
    output: Seq<char>,
) -> Seq<Seq<char>> {
    seq!["-y"@, "-i"@, video] + subtitle_inputs(paths) + seq![
        "-map"@,
        "0:v"@,
        "-map"@,
        "0:a"@,
        "-c:a"@,
        "copy"@,
        "-c:v"@,
        "copy"@,
    ] + subtitle_streams(langs) + seq![output]
}

fn push_str_arg(args: &mut Vec<String>, s: &str)
    ensures
        string_views(final(args)@) == string_views(old(args)@).push(s@),
{
    let ghost before = args@;
    args.push(String::from_str(s));
    assert(string_views(args@) =~= string_views(before).push(s@));
}

fn push_chars_arg(args: &mut Vec<String>, v: &Vec<char>)
    ensures
        string_views(final(args)@) == string_views(old(args)@).push(v@),
{
    let ghost before = args@;
    args.push(string_of(v));
    assert(string_views(args@) =~= string_views(before).push(v@));
}

/// The ffmpeg arguments that add the subtitle files `paths`, with languages
/// `langs`, to `video`, writing `output`.
pub fn subtitle_mux_args(video: &str, paths: &Vec<String>, langs: &Vec<String>, output: &str) -> (args: Vec<String>)
    requires
        paths.len() == langs.len(),
    ensures
        string_views(args@) == mov_text_args(video@, string_views(paths@), string_views(langs@), output@),
{
    let ghost ps = string_views(paths@);
    let ghost ls = string_views(langs@);
    let mut args: Vec<String> = Vec::new();
    push_str_arg(&mut args, "-y");
    push_str_arg(&mut args, "-i");
    push_str_arg(&mut args, video);
    assert(string_views(args@) =~= seq!["-y"@, "-i"@, video@] + subtitle_inputs(ps.take(0)));
    for k in 0..paths.len()
        invariant
            ps == string_views(paths@),
            string_views(args@) == seq!["-y"@, "-i"@, video@] + subtitle_inputs(ps.take(k as int)),
    {
        push_str_arg(&mut args, "-i");
        push_str_arg(&mut args, paths[k].as_str());
        assert(ps.take(k + 1).drop_last() == ps.take(k as int));
        assert(string_views(args@) =~= seq!["-y"@, "-i"@, video@] + subtitle_inputs(ps.take(k + 1)));
    }
    assert(ps.take(paths.len() as int) == ps);
    let ghost base = string_views(args@);
    push_str_arg(&mut args, "-map");
    push_str_arg(&mut args, "0:v");
    push_str_arg(&mut args, "-map");
    push_str_arg(&mut args, "0:a");
    push_str_arg(&mut args, "-c:a");
    push_str_arg(&mut args, "copy");
    push_str_arg(&mut args, "-c:v");
    push_str_arg(&mut args, "copy");
    assert(string_views(args@) =~= base + seq!["-map"@, "0:v"@, "-map"@, "0:a"@, "-c:a"@, "copy"@, "-c:v"@, "copy"@]);
    let ghost base2 = string_views(args@);
    for k in 0..langs.len()
        invariant
            ls == string_views(langs@),
            string_views(args@) == base2 + subtitle_streams(ls.take(k as int)),
    {
        push_str_arg(&mut args, "-map");
        let mut n: Vec<char> = Vec::new();
        push_decimal(&mut n, (k + 1) as u64);
        push_chars_arg(&mut args, &n);
        let mut key = chars_of("-metadata:s:s:");
        push_decimal(&mut key, k as u64);
        push_chars_arg(&mut args, &key);
        let mut lang = chars_of("language=");
        extend_str(&mut lang, langs[k].as_str());
        push_chars_arg(&mut args, &lang);
        let mut codec = chars_of("-c:s:");
        push_decimal(&mut codec, k as u64);
        push_chars_arg(&mut args, &codec);
        push_str_arg(&mut args, "mov_text");
        assert(ls.take(k + 1).drop_last() == ls.take(k as int));
        assert(ls.take(k + 1).last() == langs[k as int]@);
        assert(string_views(args@) =~= base2 + subtitle_streams(ls.take(k + 1)));
    }
    assert(ls.take(langs.len() as int) == ls);
    push_str_arg(&mut args, output);
    args
}


/// The pattern of the downloaded (`.orig`) subtitle files of an episode in a
/// directory: `{directory}/{base}.orig.*.vtt`.
pub fn downloaded_subtitles_pattern(directory: &str, base: &str) -> (p: String)
    ensures
        p@ == directory@ + "/"@ + base@ + ".orig.*.vtt"@,
{
    let mut v = chars_of(directory);
    extend_str(&mut v, "/");
    extend_str(&mut v, base);
    extend_str(&mut v, ".orig.*.vtt");
    string_of(&v)
}

/// The paths of `paths` that were not fixed yet, in order.
pub open spec fn unfixed(paths: Seq<Seq<char>>) -> Seq<Seq<char>>
    decreases paths.len(),
{
    if paths.len() == 0 {
        Seq::empty()
    } else if contains_seq(paths.last(), "fixed.vtt"@) {
        unfixed(paths.drop_last())
    } else {
        unfixed(paths.drop_last()).push(paths.last())
    }
}

/// The subtitle files found that still need fixing: all but those already
/// fixed, in order.
pub fn subtitles_to_fix(paths: &Vec<String>) -> (r: Vec<String>)
    ensures
        string_views(r@) == unfixed(string_views(paths@)),
{
    let ghost ps = string_views(paths@);
    let mut r: Vec<String> = Vec::new();
    for k in 0..paths.len()
        invariant
            ps == string_views(paths@),
            string_views(r@) == unfixed(ps.take(k as int)),
    {
        assert(ps.take(k + 1).drop_last() == ps.take(k as int));
        assert(ps.take(k + 1).last() == paths[k as int]@);
        if !is_fixed_subtitle_path(paths[k].as_str()) {
            let ghost before = r@;
            r.push(paths[k].clone());
            assert(string_views(r@) =~= string_views(before).push(paths[k as int]@));
        }
    }
    assert(ps.take(paths.len() as int) == ps);
    r
}

/// The paths of the subtitles.
pub open spec fn subtitle_paths(subtitles: Seq<Subtitle>) -> Seq<Seq<char>> {
    subtitles.map_values(|s: Subtitle| s.file_path())
}

/// The ISO 639-3 languages of the subtitles.
pub open spec fn subtitle_languages(subtitles: Seq<Subtitle>) -> Seq<Seq<char>> {
    subtitles.map_values(|s: Subtitle| s.language())
}

/// The ffmpeg arguments that add the subtitles to `video` as `mov_text`
/// streams, each with its language, writing `output`.
pub fn subtitles_mux_args(video: &str, subtitles: &Vec<Subtitle>, output: &str) -> (args: Vec<String>)
    ensures
        string_views(args@) == mov_text_args(
            video@,
            subtitle_paths(subtitles@),
            subtitle_languages(subtitles@),
            output@,
        ),
{
    let mut paths: Vec<String> = Vec::new();
    let mut langs: Vec<String> = Vec::new();
    for k in 0..subtitles.len()
        invariant
            paths.len() == k,
            langs.len() == k,
            string_views(paths@) == subtitle_paths(subtitles@.take(k as int)),
            string_views(langs@) == subtitle_languages(subtitles@.take(k as int)),
    {
        let ghost (p0, l0) = (paths@, langs@);
        let p = subtitles[k].path().clone();
        let l = subtitles[k].language_code().clone();
        assert(p@ == subtitles@[k as int].file_path());
        assert(l@ == subtitles@[k as int].language());
        paths.push(p);
        langs.push(l);
        assert(string_views(paths@) =~= string_views(p0).push(subtitles@[k as int].file_path()));
        assert(string_views(langs@) =~= string_views(l0).push(subtitles@[k as int].language()));
        assert(subtitle_paths(subtitles@.take(k + 1)) =~= subtitle_paths(subtitles@.take(k as int)).push(
            subtitles@[k as int].file_path(),
        ));
        assert(subtitle_languages(subtitles@.take(k + 1)) =~= subtitle_languages(subtitles@.take(k as int)).push(
            subtitles@[k as int].language(),
        ));
    }
    assert(subtitles@.take(subtitles.len() as int) == subtitles@);
    subtitle_mux_args(video, &paths, &langs, output)
}

/// The path of the fixed copy of a subtitle file: the directory part kept
/// as it is, the file name with `.orig` replaced by `.fixed`; `None` for a
/// path without a file name.
pub open spec fn fixed_path_of(p: Seq<char>) -> Option<Seq<char>> {
    match name_span(p) {
        None => None,
        Some((a, b)) => Some(p.take(a) + replace_from(p.subrange(a, b), 0, ".orig"@, ".fixed"@)),
    }
}

/// The path of the fixed copy of a subtitle file (see [`fixed_path_of`]).
pub fn fixed_subtitle_path(path: &str) -> (r: Option<String>)
    ensures
        opt_view(r) == fixed_path_of(path@),
{
    let p = chars_of(path);
    match find_name_span(&p) {
        None => None,
        Some((a, b)) => {
            let mut out = copy_range(&p, 0, a);
            let name = string_of(&copy_range(&p, a, b));
            let fixed = fixed_subtitle_name(name.as_str());
            extend_str(&mut out, fixed.as_str());
            assert(p@.subrange(0, a as int) == p@.take(a as int));
            Some(string_of(&out))
        },
    }
}

/// The subtitle files found that get fixed, in order: those not fixed yet
/// that have a file name.
pub open spec fn fix_sources(paths: Seq<Seq<char>>) -> Seq<Seq<char>>
    decreases paths.len(),
{
    if paths.len() == 0 {
        Seq::empty()
    } else if !contains_seq(paths.last(), "fixed.vtt"@) && fixed_path_of(paths.last()) is Some {
        fix_sources(paths.drop_last()).push(paths.last())
    } else {
        fix_sources(paths.drop_last())
    }
}

/// One subtitle file to fix: write the cleaned text of `source` to `fixed`;
/// `subtitle` is the subtitle that the fixed file makes (or why it makes
/// none), and `source` is removed afterwards when `remove_source`.
#[derive(Debug)]
pub struct SubtitleFix {
    /// The downloaded subtitle file.
    pub source: String,
    /// Where its cleaned text goes.
    pub fixed: String,
    /// The subtitle of the fixed file, with its language.
    pub subtitle: Result<Subtitle, Error>,
    /// Whether the downloaded file is removed once fixed.
    pub remove_source: bool,
}

/// The fixing of an episode's subtitles: the files to fix, in order; the
/// fixed files whose subtitle is `Ok` are then muxed into the video (see
/// [`subtitles_mux_args`]), and the unmuxed video is removed when
/// `remove_video`.
#[derive(Debug)]
pub struct SubtitleFixPlan {
    /// The files to fix.
    pub fixes: Vec<SubtitleFix>,
    /// Whether the video without subtitles is removed once muxed.
    pub remove_video: bool,
}

/// `fix` is the fixing of `source` (see [`SubtitleFix`]).
pub open spec fn is_fix_of(fix: SubtitleFix, source: Seq<char>, keep_all_files: bool) -> bool {
    &&& fix.source@ == source
    &&& fixed_path_of(source) == Some(fix.fixed@)
    &&& match subtitle_language(fix.fixed@) {
        Ok(iso) => fix.subtitle matches Ok(s) && s.file_path() == fix.fixed@ && s.language() == iso,
        Err(m) => fix.subtitle matches Err(Error::SubtitleError(e)) && e@ == m,
    }
    &&& fix.remove_source == (!keep_all_files && fix.subtitle is Ok)
}

/// Plans the fixing of an episode's subtitles, given whether its fixed
/// video exists already and the subtitle files found for it: nothing when
/// the fixed video exists; otherwise each file found that is not fixed yet
/// is cleaned into its fixed copy, kept or removed, and the video is
/// removed after muxing unless all files are kept.
pub fn fix_subtitles(fixed_video_exists: bool, found: &Vec<String>, keep_all_files: bool) -> (r: Option<SubtitleFixPlan>)
    ensures
        r is None <==> fixed_video_exists,
        r matches Some(plan) ==> {
            &&& plan.remove_video == !keep_all_files
            &&& plan.fixes.len() == fix_sources(string_views(found@)).len()
            &&& forall|k: int|
                0 <= k < plan.fixes.len() ==> is_fix_of(
                    #[trigger] plan.fixes[k],
                    fix_sources(string_views(found@))[k],
                    keep_all_files,
                )
        },
{
    if fixed_video_exists {
        return None;
    }
    let ghost ps = string_views(found@);
    let mut fixes: Vec<SubtitleFix> = Vec::new();
    for k in 0..found.len()
        invariant
            ps == string_views(found@),
            fixes.len() == fix_sources(ps.take(k as int)).len(),
            forall|m: int|
                0 <= m < fixes.len() ==> is_fix_of(
                    #[trigger] fixes[m],
                    fix_sources(ps.take(k as int))[m],
                    keep_all_files,
                ),
    {
        assert(ps.take(k + 1).drop_last() == ps.take(k as int));
        assert(ps.take(k + 1).last() == found[k as int]@);
        if !is_fixed_subtitle_path(found[k].as_str()) {
            match fixed_subtitle_path(found[k].as_str()) {
                None => {},
                Some(fixed) => {
                    let subtitle = Subtitle::new(fixed.clone());
                    let remove_source = !keep_all_files && subtitle.is_ok();
                    let fix = SubtitleFix { source: found[k].clone(), fixed, subtitle, remove_source };
                    let ghost before = fixes@;
                    fixes.push(fix);
                    assert forall|m: int|
                        0 <= m < fixes.len() implies is_fix_of(
                        #[trigger] fixes[m],
                        fix_sources(ps.take(k + 1))[m],
                        keep_all_files,
                    ) by {
                        if m < before.len() {
                            assert(fixes[m] == before[m]);
                        }
                    }
                },
            }
        }
    }
    assert(ps.take(found.len() as int) == ps);
    Some(SubtitleFixPlan { fixes, remove_video: !keep_all_files })
}

} // verus!
