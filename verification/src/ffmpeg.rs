//! Embedding subtitles into videos with ffmpeg: what to run and on which files.
//!
//! The pipeline is: clean VTT, convert it to ASS (keeping the colour styling
//! of 3cat subtitles) and mux video and subtitle tracks into a Matroska
//! file. This module decides the file names, the ffmpeg arguments and the
//! grouping of subtitle files by video; running ffmpeg is left to the caller.
use vstd::prelude::*;

use crate::models::MediaItem;
use crate::paths::{
    extension, file_stem, join, lemma_last_dot_at, lemma_name_span_last, lemma_no_dot,
    name_extension, path_extension, path_file_stem, path_join, path_with_extension, stem_len,
    with_extension,
};
use crate::slug::{is_slug_output_char, slug_is_url_friendly, slug_of};
use crate::text::{
    chars_of, decimal, eq_str, extend_str, is_ascii_digit, lemma_decimal_digits, push_decimal,
    signed_decimal, string_of,
};

verus! {

/// A subtitle track to embed into a video file.
#[derive(Debug)]
pub struct SubtitleTrack {
    /// Path of the cleaned `.vtt` file.
    pub path: String,
    /// ISO 639-1 language code (`"ca"`, `"en"`, `"es"`, ...).
    pub lang_code: String,
}

/// The ISO 639-2/T code and the title of a subtitle language.
pub open spec fn display_of(lang_code: Seq<char>) -> (Seq<char>, Seq<char>) {
    if lang_code == "ca"@ {
        ("cat"@, "Català"@)
    } else if lang_code == "en"@ {
        ("eng"@, "English"@)
    } else if lang_code == "es"@ {
        ("spa"@, "Español"@)
    } else {
        ("und"@, "Unknown"@)
    }
}

/// Maps an ISO 639-1 code to its ISO 639-2/T code and a human-readable title.
pub fn subtitle_display(lang_code: &str) -> (r: (&'static str, &'static str))
    ensures
        display_of(lang_code@) == (r.0@, r.1@),
{
    let v = chars_of(lang_code);
    if eq_str(&v, "ca") {
        ("cat", "Català")
    } else if eq_str(&v, "en") {
        ("eng", "English")
    } else if eq_str(&v, "es") {
        ("spa", "Español")
    } else {
        ("und", "Unknown")
    }
}

/// One of the subtitle languages that downloads ask for.
pub open spec fn is_known_lang(l: Seq<char>) -> bool {
    l == "ca"@ || l == "en"@ || l == "es"@
}

/// The video stem and the language of a subtitle path: `{stem}.{lang}.vtt`
/// with `lang` one of `ca`, `en`, `es` gives `(stem, lang)`; any other
/// `{stem}.vtt` gives its whole `stem` and `"ca"`; a path without the `vtt`
/// extension gives `None`.
pub open spec fn vtt_stem_and_lang(p: Seq<char>) -> Option<(Seq<char>, Seq<char>)> {
    if extension(p) != Some("vtt"@) {
        None
    } else {
        let q = with_extension(p, Seq::empty());
        let candidate = match extension(q) {
            Some(e) => e,
            None => Seq::empty(),
        };
        if is_known_lang(candidate) {
            match file_stem(q) {
                None => None,
                Some(stem) => Some((stem, candidate)),
            }
        } else {
            match file_stem(p) {
                None => None,
                Some(stem) => Some((stem, "ca"@)),
            }
        }
    }
}

/// Parses a VTT file path into `(video_stem, lang_code)`: `1-ep.ca.vtt`
/// gives `("1-ep", "ca")`, `1-ep.vtt` gives `("1-ep", "ca")`, an untagged
/// `1-ep.v2.vtt` keeps its whole stem `("1-ep.v2", "ca")`, a path that does
/// not end in `.vtt` gives `None`.
pub fn parse_vtt_stem_and_lang(path: &str) -> (r: Option<(String, String)>)
    ensures
        r matches Some((s, l)) ==> vtt_stem_and_lang(path@) == Some((s@, l@)),
        r is None ==> vtt_stem_and_lang(path@) is None,
{
    let p = chars_of(path);
    match path_extension(&p) {
        None => {
            return None;
        },
        Some(e) => {
            if !eq_str(&e, "vtt") {
                return None;
            }
        },
    }
    let empty: Vec<char> = Vec::new();
    let q = path_with_extension(&p, &empty);
    let candidate = match path_extension(&q) {
        Some(e) => e,
        None => Vec::new(),
    };
    if eq_str(&candidate, "ca") || eq_str(&candidate, "en") || eq_str(&candidate, "es") {
        match path_file_stem(&q) {
            Some(stem) => Some((string_of(&stem), string_of(&candidate))),
            None => None,
        }
    } else {
        match path_file_stem(&p) {
            Some(stem) => Some((string_of(&stem), String::from_str("ca"))),
            None => None,
        }
    }
}

/// The views of a sequence of strings.
pub open spec fn string_views(v: Seq<String>) -> Seq<Seq<char>> {
    v.map_values(|s: String| s@)
}

/// `-i PATH` for each ASS file.
pub open spec fn ass_inputs(ass: Seq<Seq<char>>) -> Seq<Seq<char>>
    decreases ass.len(),
{
    if ass.len() == 0 {
        Seq::empty()
    } else {
        ass_inputs(ass.drop_last()) + seq!["-i"@, ass.last()]
    }
}

/// `-map 1 ... -map n`.
pub open spec fn map_args(n: nat) -> Seq<Seq<char>>
    decreases n,
{
    if n == 0 {
        Seq::empty()
    } else {
        map_args((n - 1) as nat) + seq!["-map"@, decimal(n)]
    }
}

/// Language and title metadata of each subtitle stream, by language code.
pub open spec fn metadata_args(langs: Seq<Seq<char>>) -> Seq<Seq<char>>
    decreases langs.len(),
{
    if langs.len() == 0 {
        Seq::empty()
    } else {
        let i = (langs.len() - 1) as nat;
        let (iso, title) = display_of(langs.last());
        metadata_args(langs.drop_last()) + seq![
            "-metadata:s:s:"@ + decimal(i),
            "language="@ + iso,
            "-metadata:s:s:"@ + decimal(i),
            "title="@ + title,
        ]
    }
}

/// The ffmpeg arguments that mux a video and ASS subtitle files into a
/// Matroska file: all streams of the video and each subtitle input, streams
/// copied, subtitles encoded as ASS, each subtitle stream labelled.
pub open spec fn embed_args(
    video: Seq<char>,
    ass: Seq<Seq<char>>,
    langs: Seq<Seq<char>>,
    output: Seq<char>,
) -> Seq<Seq<char>> {
    seq!["-y"@, "-i"@, video] + ass_inputs(ass) + seq!["-map"@, "0"@] + map_args(ass.len())
        + seq!["-c"@, "copy"@, "-c:s"@, "ass"@] + metadata_args(langs) + seq![
        "-f"@,
        "matroska"@,
        output,
    ]
}

/// The files and the ffmpeg run of one embedding.
pub struct EmbedPlan {
    /// The ASS file made from each subtitle track, in order.
    pub ass_paths: Vec<String>,
    /// The Matroska file that replaces the video.
    pub mkv_path: String,
    /// The file ffmpeg writes before it is renamed to `mkv_path`.
    pub tmp_output: String,
    /// The arguments of the ffmpeg run.
    pub args: Vec<String>,
}

/// The language codes of the tracks.
pub open spec fn track_langs(tracks: Seq<SubtitleTrack>) -> Seq<Seq<char>> {
    tracks.map_values(|t: SubtitleTrack| t.lang_code@)
}

/// The ASS file of each track: its path with the extension `ass`.
pub open spec fn track_ass_paths(tracks: Seq<SubtitleTrack>) -> Seq<Seq<char>> {
    tracks.map_values(|t: SubtitleTrack| with_extension(t.path@, "ass"@))
}

fn push_string(args: &mut Vec<String>, s: &str)
    ensures
        string_views(final(args)@) == string_views(old(args)@).push(s@),
{
    let ghost before = args@;
    args.push(String::from_str(s));
    assert(string_views(args@) =~= string_views(before).push(s@));
}

fn push_owned(args: &mut Vec<String>, s: String)
    ensures
        string_views(final(args)@) == string_views(old(args)@).push(s@),
{
    let ghost before = args@;
    let ghost sv = s@;
    args.push(s);
    assert(string_views(args@) =~= string_views(before).push(sv));
}

/// Plans the embedding of `subtitles` into `video_path`: each VTT becomes an
/// ASS file beside it, ffmpeg writes `{video stem}.mkv.muxed.tmp`, which
/// then replaces the video as `{video stem}.mkv`.
pub fn embed_plan(video_path: &str, subtitles: &Vec<SubtitleTrack>) -> (plan: EmbedPlan)
    ensures
        string_views(plan.ass_paths@) == track_ass_paths(subtitles@),
        plan.mkv_path@ == with_extension(video_path@, "mkv"@),
        plan.tmp_output@ == plan.mkv_path@ + ".muxed.tmp"@,
        string_views(plan.args@) == embed_args(
            video_path@,
            track_ass_paths(subtitles@),
            track_langs(subtitles@),
            plan.tmp_output@,
        ),
{
    let ass_ext = chars_of("ass");
    let mut ass_paths: Vec<String> = Vec::new();
    for k in 0..subtitles.len()
        invariant
            ass_ext@ == "ass"@,
            string_views(ass_paths@) == track_ass_paths(subtitles@.take(k as int)),
    {
        let p = chars_of(subtitles[k].path.as_str());
        let a = path_with_extension(&p, &ass_ext);
        let ghost before = ass_paths@;
        let s = string_of(&a);
        assert(s@ == with_extension(subtitles@[k as int].path@, "ass"@));
        ass_paths.push(s);
        assert(track_ass_paths(subtitles@.take(k + 1)) =~= track_ass_paths(subtitles@.take(k as int)).push(s@));
        assert(string_views(ass_paths@) =~= string_views(before).push(s@));
    }
    assert(subtitles@.take(subtitles.len() as int) == subtitles@);
    let video = chars_of(video_path);
    let mkv_ext = chars_of("mkv");
    let mkv = path_with_extension(&video, &mkv_ext);
    let mut tmp = mkv.clone();
    extend_str(&mut tmp, ".muxed.tmp");
    let mkv_path = string_of(&mkv);
    let tmp_output = string_of(&tmp);
    let ghost ass = track_ass_paths(subtitles@);
    let mut args: Vec<String> = Vec::new();
    push_string(&mut args, "-y");
    push_string(&mut args, "-i");
    push_string(&mut args, video_path);
    assert(string_views(args@) =~= seq!["-y"@, "-i"@, video_path@]);
    for k in 0..ass_paths.len()
        invariant
            string_views(ass_paths@) == ass,
            string_views(args@) == seq!["-y"@, "-i"@, video_path@] + ass_inputs(ass.take(k as int)),
    {
        push_string(&mut args, "-i");
        push_string(&mut args, ass_paths[k].as_str());
        assert(ass.take(k + 1).drop_last() == ass.take(k as int));
        assert(string_views(args@) =~= seq!["-y"@, "-i"@, video_path@] + ass_inputs(ass.take(k + 1)));
    }
    assert(ass.take(ass_paths.len() as int) == ass);
    let ghost base = string_views(args@);
    push_string(&mut args, "-map");
    push_string(&mut args, "0");
    assert(string_views(args@) =~= base + seq!["-map"@, "0"@]);
    let ghost base2 = string_views(args@);
    for j in 0..ass_paths.len()
        invariant
            string_views(ass_paths@) == ass,
            string_views(args@) == base2 + map_args(j as nat),
    {
        push_string(&mut args, "-map");
        let mut n: Vec<char> = Vec::new();
        push_decimal(&mut n, (j + 1) as u64);
        push_owned(&mut args, string_of(&n));
        assert(string_views(args@) =~= base2 + map_args((j + 1) as nat));
    }
    let ghost base3 = string_views(args@);
    push_string(&mut args, "-c");
    push_string(&mut args, "copy");
    push_string(&mut args, "-c:s");
    push_string(&mut args, "ass");
    assert(string_views(args@) =~= base3 + seq!["-c"@, "copy"@, "-c:s"@, "ass"@]);
    let ghost base4 = string_views(args@);
    for k in 0..subtitles.len()
        invariant
            string_views(args@) == base4 + metadata_args(track_langs(subtitles@.take(k as int))),
    {
        let (iso, title) = subtitle_display(subtitles[k].lang_code.as_str());
        let mut key: Vec<char> = chars_of("-metadata:s:s:");
        push_decimal(&mut key, k as u64);
        let mut lang: Vec<char> = chars_of("language=");
        extend_str(&mut lang, iso);
        let mut name: Vec<char> = chars_of("title=");
        extend_str(&mut name, title);
        push_owned(&mut args, string_of(&key));
        push_owned(&mut args, string_of(&lang));
        push_owned(&mut args, string_of(&key));
        push_owned(&mut args, string_of(&name));
        let ghost langs = track_langs(subtitles@.take(k + 1));
        assert(langs.drop_last() =~= track_langs(subtitles@.take(k as int)));
        assert(string_views(args@) =~= base4 + metadata_args(langs));
    }
    assert(subtitles@.take(subtitles.len() as int) == subtitles@);
    let ghost base5 = string_views(args@);
    push_string(&mut args, "-f");
    push_string(&mut args, "matroska");
    push_owned(&mut args, string_of(&tmp));
    assert(string_views(args@) =~= base5 + seq!["-f"@, "matroska"@, tmp@]);
    EmbedPlan { ass_paths, mkv_path, tmp_output, args }
}


/// The subtitle files among `paths` whose video stem is `stem`, each with
/// its language, in the order of `paths`.
pub open spec fn files_with_stem(paths: Seq<Seq<char>>, stem: Seq<char>) -> Seq<(Seq<char>, Seq<char>)>
    decreases paths.len(),
{
    if paths.len() == 0 {
        Seq::empty()
    } else {
        let rest = files_with_stem(paths.drop_last(), stem);
        match vtt_stem_and_lang(paths.last()) {
            Some((s, l)) => if s == stem {
                rest.push((paths.last(), l))
            } else {
                rest
            },
            None => rest,
        }
    }
}

/// The views of a list of (path, language) pairs.
pub open spec fn pair_views(v: Seq<(String, String)>) -> Seq<(Seq<char>, Seq<char>)> {
    v.map_values(|p: (String, String)| (p.0@, p.1@))
}

/// A group of subtitle files for one video.
pub struct VttGroup {
    /// The video stem shared by the files.
    pub stem: String,
    /// The subtitle files with their languages.
    pub files: Vec<(String, String)>,
}

proof fn lemma_files_with_stem_nonempty(paths: Seq<Seq<char>>, stem: Seq<char>, k: int, l: Seq<char>)
    requires
        0 <= k < paths.len(),
        vtt_stem_and_lang(paths[k]) == Some((stem, l)),
    ensures
        files_with_stem(paths, stem).len() > 0,
    decreases paths.len(),
{
    if k < paths.len() - 1 {
        lemma_files_with_stem_nonempty(paths.drop_last(), stem, k, l);
    }
}

/// The parse of each path.
pub open spec fn parses(ps: Seq<Seq<char>>) -> Seq<Option<(Seq<char>, Seq<char>)>> {
    ps.map_values(|p: Seq<char>| vtt_stem_and_lang(p))
}

/// The parsed entry `e` has stem `stem`.
pub open spec fn has_stem(e: Option<(Seq<char>, Seq<char>)>, stem: Seq<char>) -> bool {
    e is Some && e.unwrap().0 == stem
}

/// Some path among the first `k` has video stem `s`.
#[verifier::opaque]
pub open spec fn stem_seen(pv: Seq<Option<(Seq<char>, Seq<char>)>>, k: int, s: Seq<char>) -> bool {
    exists|m: int| 0 <= m < k && has_stem(pv[m], s)
}

fn position_of(stems: &Vec<String>, s: &String) -> (r: Option<usize>)
    ensures
        r matches Some(i) ==> i < stems.len() && stems[i as int]@ == s@,
        r is None ==> forall|j: int| 0 <= j < stems.len() ==> stems[j]@ != s@,
{
    let mut i: usize = 0;
    while i < stems.len()
        invariant
            i <= stems.len(),
            forall|j: int| 0 <= j < i ==> stems[j]@ != s@,
        decreases stems.len() - i,
    {
        if stems[i] == *s {
            return Some(i);
        }
        i += 1;
    }
    None
}

proof fn lemma_files_with_stem_parses(paths: Seq<Seq<char>>, stem: Seq<char>, k: int)
    requires
        0 <= k < paths.len(),
        has_stem(parses(paths)[k], stem),
    ensures
        files_with_stem(paths, stem).len() > 0,
{
    let e = vtt_stem_and_lang(paths[k]);
    assert(parses(paths)[k] == e);
    lemma_files_with_stem_nonempty(paths, stem, k, e.unwrap().1);
}

/// The views of parsed entries.
pub open spec fn parsed_views(v: Seq<Option<(String, String)>>) -> Seq<Option<(Seq<char>, Seq<char>)>> {
    v.map_values(|e: Option<(String, String)>|
        match e {
            Some((s, l)) => Some((s@, l@)),
            None => None,
        })
}

#[verifier::rlimit(40)]
fn collect_stems(parsed: &Vec<Option<(String, String)>>) -> (stems: Vec<String>)
    ensures
        forall|i: int, j: int| 0 <= i < j < stems.len() ==> stems[i]@ != stems[j]@,
        forall|i: int|
            0 <= i < stems.len() ==> stem_seen(parsed_views(parsed@), parsed.len() as int, #[trigger] stems[i]@),
        forall|m: int|
            0 <= m < parsed.len() && (#[trigger] parsed_views(parsed@)[m]) is Some ==> exists|i: int|
                0 <= i < stems.len() && stems[i]@ == parsed_views(parsed@)[m].unwrap().0,
{
    let ghost pv = parsed_views(parsed@);
    let mut stems: Vec<String> = Vec::new();
    let mut k: usize = 0;
    while k < parsed.len()
        invariant
            k <= parsed.len(),
            pv == parsed_views(parsed@),
            forall|i: int, j: int| 0 <= i < j < stems.len() ==> stems[i]@ != stems[j]@,
            forall|i: int| 0 <= i < stems.len() ==> stem_seen(pv, k as int, #[trigger] stems[i]@),
            forall|m: int|
                0 <= m < k && (#[trigger] pv[m]) is Some ==> exists|i: int|
                    0 <= i < stems.len() && stems[i]@ == pv[m].unwrap().0,
        decreases parsed.len() - k,
    {
        let ghost old_stems = stems@;
        let ghost mut witness: int = 0;
        match &parsed[k] {
            Some((s, _)) => {
                assert(pv[k as int] is Some && pv[k as int].unwrap().0 == s@);
                match position_of(&stems, s) {
                    Some(i) => {
                        proof {
                            witness = i as int;
                        }
                    },
                    None => {
                        stems.push(s.clone());
                        proof {
                            witness = old_stems.len() as int;
                        }
                    },
                }
                assert(0 <= witness < stems.len() && stems[witness]@ == pv[k as int].unwrap().0);
            },
            None => {
                assert(pv[k as int] is None);
            },
        }
        assert(forall|i: int| 0 <= i < old_stems.len() ==> stems[i] == old_stems[i]);
        assert forall|i: int| 0 <= i < stems.len() implies stem_seen(pv, k + 1, #[trigger] stems[i]@) by {
            reveal(stem_seen);
            if i < old_stems.len() {
                assert(stem_seen(pv, k as int, old_stems[i]@));
                let m = choose|m: int| 0 <= m < k && has_stem(pv[m], old_stems[i]@);
                assert(has_stem(pv[m], stems[i]@));
            } else {
                assert(has_stem(pv[k as int], stems[i]@));
            }
        }
        assert forall|m: int|
            0 <= m < k + 1 && (#[trigger] pv[m]) is Some implies exists|i: int|
                0 <= i < stems.len() && stems[i]@ == pv[m].unwrap().0 by {
            if m < k {
                let i = choose|i: int| 0 <= i < old_stems.len() && old_stems[i]@ == pv[m].unwrap().0;
                assert(stems[i] == old_stems[i]);
            } else {
                assert(stems[witness]@ == pv[m].unwrap().0);
            }
        }
        k += 1;
    }
    stems
}

/// Groups subtitle paths by video stem (see [`vtt_stem_and_lang`]): one
/// group per stem, in the order in which stems first appear, each with the
/// files of that stem in the order of `paths`; paths that are not subtitle
/// files are left out.
#[verifier::rlimit(40)]
pub fn group_vtt_files(paths: &Vec<String>) -> (groups: Vec<VttGroup>)
    ensures
        forall|i: int, j: int|
            0 <= i < j < groups.len() ==> groups[i].stem@ != groups[j].stem@,
        forall|i: int|
            0 <= i < groups.len() ==> pair_views(#[trigger] groups[i].files@) == files_with_stem(
                string_views(paths@),
                groups[i].stem@,
            ) && groups[i].files.len() > 0,
        forall|k: int|
            0 <= k < paths.len() && vtt_stem_and_lang(#[trigger] string_views(paths@)[k]) is Some ==> exists|i: int|
                0 <= i < groups.len() && groups[i].stem@ == vtt_stem_and_lang(
                    string_views(paths@)[k],
                ).unwrap().0,
{
    let ghost ps = string_views(paths@);
    let ghost pv = parses(ps);
    let mut parsed: Vec<Option<(String, String)>> = Vec::new();
    for k in 0..paths.len()
        invariant
            ps == string_views(paths@),
            pv == parses(ps),
            parsed.len() == k,
            forall|m: int|
                0 <= m < k ==> match #[trigger] parsed[m] {
                    Some((s, l)) => pv[m] == Some((s@, l@)),
                    None => pv[m] is None,
                },
    {
        let r = parse_vtt_stem_and_lang(paths[k].as_str());
        assert(pv[k as int] == vtt_stem_and_lang(paths[k as int]@));
        parsed.push(r);
    }
    assert(parsed_views(parsed@) =~= pv);
    let stems = collect_stems(&parsed);
    let mut groups: Vec<VttGroup> = Vec::new();
    for g in 0..stems.len()
        invariant
            ps == string_views(paths@),
            pv == parses(ps),
            parsed.len() == paths.len(),
            forall|m: int|
                0 <= m < paths.len() ==> match #[trigger] parsed[m] {
                    Some((s, l)) => pv[m] == Some((s@, l@)),
                    None => pv[m] is None,
                },
            forall|i: int| 0 <= i < stems.len() ==> stem_seen(pv, paths.len() as int, #[trigger] stems[i]@),
            groups.len() == g,
            forall|i: int| 0 <= i < g ==> #[trigger] groups[i].stem@ == stems[i]@,
            forall|i: int|
                0 <= i < g ==> pair_views(#[trigger] groups[i].files@) == files_with_stem(
                    ps,
                    groups[i].stem@,
                ) && groups[i].files.len() > 0,
    {
        let stem = stems[g].clone();
        let mut files: Vec<(String, String)> = Vec::new();
        for m in 0..paths.len()
            invariant
                ps == string_views(paths@),
                pv == parses(ps),
                parsed.len() == paths.len(),
                forall|m2: int|
                    0 <= m2 < paths.len() ==> match #[trigger] parsed[m2] {
                        Some((s, l)) => pv[m2] == Some((s@, l@)),
                        None => pv[m2] is None,
                    },
                pair_views(files@) == files_with_stem(ps.take(m as int), stem@),
        {
            assert(ps.take(m + 1).drop_last() == ps.take(m as int));
            assert(ps.take(m + 1).last() == ps[m as int]);
            assert(pv[m as int] == vtt_stem_and_lang(ps[m as int]));
            let ghost before = files@;
            match &parsed[m] {
                Some((s, l)) => {
                    if *s == stem {
                        files.push((paths[m].clone(), l.clone()));
                        assert(pair_views(files@) =~= pair_views(before).push((ps[m as int], l@)));
                    }
                },
                None => {},
            }
        }
        assert(ps.take(paths.len() as int) == ps);
        proof {
            assert(stem_seen(pv, paths.len() as int, stems[g as int]@));
            reveal(stem_seen);
            let m = choose|m: int| 0 <= m < paths.len() && has_stem(pv[m], stems[g as int]@);
            lemma_files_with_stem_parses(ps, stem@, m);
        }
        let ghost old_groups = groups@;
        let ghost sv = stem@;
        assert(sv == stems[g as int]@);
        groups.push(VttGroup { stem, files });
        assert(groups[g as int].stem@ == sv);
        assert forall|i: int| 0 <= i < g + 1 implies #[trigger] groups[i].stem@ == stems[i]@ by {
            if i < g {
                assert(groups[i] == old_groups[i]);
            }
        }
    }
    assert forall|k: int|
        0 <= k < paths.len() && vtt_stem_and_lang(#[trigger] ps[k]) is Some implies exists|i: int|
            0 <= i < groups.len() && groups[i].stem@ == vtt_stem_and_lang(ps[k]).unwrap().0 by {
        assert(pv[k] == vtt_stem_and_lang(ps[k]));
        let i = choose|i: int| 0 <= i < stems.len() && stems[i]@ == pv[k].unwrap().0;
        assert(groups[i].stem@ == stems[i]@);
    }
    groups
}

/// The video of a group of subtitle files: `{stem}.mp4` in `directory`.
pub open spec fn video_for_stem(directory: Seq<char>, stem: Seq<char>) -> Seq<char> {
    join(directory, stem + ".mp4"@)
}

/// The path of the video that a group of subtitle files belongs to.
pub fn video_path_for_stem(directory: &str, stem: &str) -> (p: String)
    ensures
        p@ == video_for_stem(directory@, stem@),
{
    let d = chars_of(directory);
    let mut name = chars_of(stem);
    extend_str(&mut name, ".mp4");
    let joined = path_join(&d, &name);
    string_of(&joined)
}


/// `s` holds neither `/` nor `.`.
pub open spec fn is_plain(s: Seq<char>) -> bool {
    forall|i: int| 0 <= i < s.len() ==> #[trigger] s[i] != '/' && s[i] != '.'
}

proof fn lemma_plain_concat(a: Seq<char>, b: Seq<char>)
    requires
        is_plain(a),
        is_plain(b),
    ensures
        is_plain(a + b),
{
    assert forall|i: int| 0 <= i < (a + b).len() implies #[trigger] (a + b)[i] != '/' && (a + b)[i] != '.' by {
        if i < a.len() {
            assert((a + b)[i] == a[i]);
        } else {
            assert((a + b)[i] == b[i - a.len()]);
        }
    }
}

proof fn lemma_base_is_plain(item: MediaItem)
    ensures
        is_plain(item.base_name()),
{
    let slug = slug_of(item.title@);
    slug_is_url_friendly(item.title@);
    assert forall|i: int| 0 <= i < slug.len() implies #[trigger] slug[i] != '/' && slug[i] != '.' by {
        assert(is_slug_output_char(slug[i]));
    }
    reveal_strlit("ova-");
    reveal_strlit("-");
    match item.episode_number {
        Some(n) => {
            let d = signed_decimal(n as int);
            if n < 0 {
                lemma_decimal_digits((-n) as nat);
                let m = decimal((-n) as nat);
                assert forall|i: int| 0 <= i < d.len() implies #[trigger] d[i] != '/' && d[i] != '.' by {
                    if i > 0 {
                        assert(d[i] == m[i - 1]);
                        assert(is_ascii_digit(m[i - 1]));
                    }
                }
            } else {
                lemma_decimal_digits(n as nat);
                assert forall|i: int| 0 <= i < d.len() implies #[trigger] d[i] != '/' && d[i] != '.' by {
                    assert(is_ascii_digit(d[i]));
                }
            }
            assert(is_plain("-"@));
            assert(is_plain("ova-"@));
            lemma_plain_concat(d, "-"@);
            lemma_plain_concat(d + "-"@, slug);
            lemma_plain_concat("ova-"@, d);
            lemma_plain_concat("ova-"@ + d, "-"@);
            lemma_plain_concat("ova-"@ + d + "-"@, slug);
        },
        None => {},
    }
}

/// The parts of the path `prefix + name`, where `prefix` is empty or ends
/// in `/` and `name` is a non-empty file name other than `.` and `..`.
pub proof fn lemma_path_parts(prefix: Seq<char>, name: Seq<char>)
    requires
        prefix.len() == 0 || prefix.last() == '/',
        name.len() > 0,
        forall|i: int| 0 <= i < name.len() ==> name[i] != '/',
        name != seq!['.'],
        name != seq!['.', '.'],
    ensures
        extension(prefix + name) == name_extension(name),
        file_stem(prefix + name) == Some(name.take(stem_len(name))),
        with_extension(prefix + name, Seq::empty()) == prefix + name.take(stem_len(name)),
{
    let p = prefix + name;
    assert(p.subrange(prefix.len() as int, p.len() as int) == name);
    assert forall|i: int| prefix.len() <= i < p.len() implies p[i] != '/' by {
        assert(p[i] == name[i - prefix.len()]);
    }
    if prefix.len() > 0 {
        assert(p[prefix.len() - 1] == prefix.last());
    }
    lemma_name_span_last(p, prefix.len() as int);
    crate::paths::lemma_last_dot(name, name.len() as int);
    assert(p.take(prefix.len() + stem_len(name)) == prefix + name.take(stem_len(name)));
}

/// A file name `n.e` with a non-empty `n` and an `e` without dots has the
/// stem `n` and the extension `e`.
pub proof fn lemma_dotted(n: Seq<char>, e: Seq<char>)
    requires
        n.len() > 0,
        forall|i: int| 0 <= i < e.len() ==> e[i] != '.',
    ensures
        name_extension(n + seq!['.'] + e) == Some(e),
        stem_len(n + seq!['.'] + e) == n.len(),
        (n + seq!['.'] + e).take(n.len() as int) == n,
{
    let m = n + seq!['.'] + e;
    assert forall|i: int| n.len() < i < m.len() implies m[i] != '.' by {
        assert(m[i] == e[i - n.len() - 1]);
    }
    lemma_last_dot_at(m, n.len() as int, m.len() as int);
    assert(m.subrange(n.len() as int + 1, m.len() as int) == e);
    assert(m.take(n.len() as int) == n);
}

/// A plain non-empty name is its own stem and has no extension.
proof fn lemma_undotted(n: Seq<char>)
    requires
        n.len() > 0,
        is_plain(n),
    ensures
        name_extension(n) is None,
        stem_len(n) == n.len(),
        n.take(n.len() as int) == n,
        n != seq!['.'],
        n != seq!['.', '.'],
{
    assert(n[0] != '.');
    lemma_no_dot(n, n.len() as int);
    assert(n.take(n.len() as int) == n);
}

/// `prefix + b + "." + lang + ".vtt"` parses to `(b, lang)`.
proof fn lemma_tagged_vtt(prefix: Seq<char>, b: Seq<char>, lang: Seq<char>)
    requires
        prefix.len() == 0 || prefix.last() == '/',
        b.len() > 0,
        is_plain(b),
        is_known_lang(lang),
    ensures
        vtt_stem_and_lang(prefix + (b + seq!['.'] + lang + seq!['.'] + "vtt"@)) == Some((b, lang)),
{
    reveal_strlit("vtt");
    reveal_strlit("ca");
    reveal_strlit("en");
    reveal_strlit("es");
    let vtt = "vtt"@;
    let stem = b + seq!['.'] + lang;
    let name = stem + seq!['.'] + vtt;
    assert(lang.len() == 2 && lang[0] != '.' && lang[1] != '.' && lang[0] != '/' && lang[1] != '/');
    assert forall|i: int| 0 <= i < stem.len() implies stem[i] != '/' by {
        if i < b.len() {
            assert(stem[i] == b[i]);
        }
    }
    assert forall|i: int| 0 <= i < name.len() implies name[i] != '/' by {
        if i < stem.len() {
            assert(name[i] == stem[i]);
        }
    }
    assert(name[0] == b[0] && b[0] != '.');
    assert(stem[0] == b[0]);
    lemma_dotted(stem, vtt);
    lemma_path_parts(prefix, name);
    lemma_dotted(b, lang);
    lemma_path_parts(prefix, stem);
}

/// `prefix + b + ".vtt"` parses to `(b, "ca")`.
proof fn lemma_untagged_vtt(prefix: Seq<char>, b: Seq<char>)
    requires
        prefix.len() == 0 || prefix.last() == '/',
        b.len() > 0,
        is_plain(b),
    ensures
        vtt_stem_and_lang(prefix + (b + seq!['.'] + "vtt"@)) == Some((b, "ca"@)),
{
    reveal_strlit("vtt");
    reveal_strlit("ca");
    reveal_strlit("en");
    reveal_strlit("es");
    let vtt = "vtt"@;
    let name = b + seq!['.'] + vtt;
    assert forall|i: int| 0 <= i < name.len() implies name[i] != '/' by {
        if i < b.len() {
            assert(name[i] == b[i]);
        }
    }
    assert(name[0] == b[0] && b[0] != '.');
    lemma_dotted(b, vtt);
    lemma_path_parts(prefix, name);
    lemma_undotted(b);
    lemma_path_parts(prefix, b);
    assert(!is_known_lang(Seq::<char>::empty()));
}

/// `directory` as the start of the paths of its files: empty or ending in
/// `/`.
pub open spec fn dir_prefix(directory: Seq<char>) -> Seq<char> {
    if directory.len() == 0 || directory.last() == '/' {
        directory
    } else {
        directory + seq!['/']
    }
}

/// A relative name joined to a directory follows its prefix.
proof fn lemma_join_relative(directory: Seq<char>, name: Seq<char>)
    requires
        name.len() > 0,
        name[0] != '/',
    ensures
        join(directory, name) == dir_prefix(directory) + name,
        dir_prefix(directory).len() == 0 || dir_prefix(directory).last() == '/',
{
}

/// The subtitle files written for a media item are grouped back with its
/// video: `{base}.{lang}.vtt` (as yt-dlp writes it, `lang` one of `ca`,
/// `en`, `es`) parses to the video stem `base` and `lang`, `{base}.vtt` (as
/// the built-in downloader writes it) parses to `base` and Catalan, and the
/// video looked for beside them, `{base}.mp4`, is the item's video file.
/// The base must not be empty (a movie whose title gives an empty slug has
/// none).
pub proof fn subtitle_files_match_their_video(item: MediaItem, directory: Seq<char>, lang: Seq<char>)
    requires
        is_known_lang(lang),
        item.base_name().len() > 0,
    ensures
        vtt_stem_and_lang(item.path_in(directory, lang + ".vtt"@)) == Some((item.base_name(), lang)),
        vtt_stem_and_lang(item.path_in(directory, "vtt"@)) == Some((item.base_name(), "ca"@)),
        video_for_stem(directory, item.base_name()) == item.path_in(directory, "mp4"@),
{
    let b = item.base_name();
    lemma_base_is_plain(item);
    reveal_strlit(".");
    reveal_strlit("vtt");
    reveal_strlit(".vtt");
    reveal_strlit("mp4");
    reveal_strlit(".mp4");
    let tagged = b + seq!['.'] + lang + seq!['.'] + "vtt"@;
    let untagged = b + seq!['.'] + "vtt"@;
    let video = b + seq!['.'] + "mp4"@;
    assert(b + seq!['.'] + (lang + ".vtt"@) == tagged);
    assert(item.file_name_with(lang + ".vtt"@) == tagged);
    assert(item.file_name_with("vtt"@) == untagged);
    assert(item.file_name_with("mp4"@) == video);
    assert(b + ".mp4"@ == video);
    assert(b[0] != '/');
    assert(tagged[0] == b[0] && untagged[0] == b[0] && video[0] == b[0]);
    lemma_join_relative(directory, tagged);
    lemma_join_relative(directory, untagged);
    lemma_join_relative(directory, video);
    lemma_tagged_vtt(dir_prefix(directory), b, lang);
    lemma_untagged_vtt(dir_prefix(directory), b);
}

} // verus!
