use cat_show_downloader::error::Error;
use cat_show_downloader::ffmpeg::parse_vtt_stem_and_lang;
use cat_show_downloader::seasons::models::Episode;
use cat_show_downloader::subtitle_cleaner::{
    clean_vtt_content, convert_cue_text_to_ass, convert_vtt_to_ass, vtt_timestamp_to_ass, ASS_HEADER,
};
use cat_show_downloader::text::IntErrorKind;
use cat_show_downloader::tv_show::extract_tv_show_id;

#[test]
fn crlf_subtitles_convert_like_lf_ones() {
    let vtt = "WEBVTT\r\n\r\n1\r\n00:00:01.000 --> 00:00:02.000\r\nHola\r\nAdeu\r\n\r\n";
    let ass = convert_vtt_to_ass(vtt).unwrap();
    assert_eq!(
        ass,
        format!("{ASS_HEADER}Dialogue: 0,0:00:01.00,0:00:02.00,Default,,0,0,0,,Hola\\NAdeu\n")
    );
}

#[test]
fn timing_lines_may_be_indented_and_tight() {
    let vtt = "WEBVTT\n\n  00:01:02.345-->00:01:03.999 align:start\n<c.cyan.background-red>Hi</c>\n";
    let ass = convert_vtt_to_ass(vtt).unwrap();
    assert_eq!(
        ass,
        format!(
            "{ASS_HEADER}Dialogue: 0,0:01:02.34,0:01:03.99,Default,,0,0,0,,{{\\c&H00FFFF00&\\3c&H000000FF&}}Hi\n"
        )
    );
}

#[test]
fn a_timing_line_without_cue_text_gives_an_empty_event() {
    let ass = convert_vtt_to_ass("00:00:01.000 --> 00:00:02.000").unwrap();
    assert_eq!(ass, format!("{ASS_HEADER}Dialogue: 0,0:00:01.00,0:00:02.00,Default,,0,0,0,,\n"));
    assert_eq!(convert_vtt_to_ass("WEBVTT").unwrap(), ASS_HEADER);
}

#[test]
fn timestamps_accept_what_integer_parsing_accepts() {
    assert_eq!(vtt_timestamp_to_ass("+1:+2:+3.+45").unwrap(), "1:02:03.04");
    assert_eq!(vtt_timestamp_to_ass("1:123:4.56789").unwrap(), "1:123:04.5678");
    assert_eq!(
        vtt_timestamp_to_ass("1:2:3.4.5").unwrap_err(),
        "missing milliseconds in timestamp: 1:2:3.4.5"
    );
}

#[test]
fn cue_tags_without_known_classes_keep_only_their_text() {
    assert_eq!(convert_cue_text_to_ass("<c.italic>x</c> y"), "x y");
    assert_eq!(convert_cue_text_to_ass("<c.>x</c>"), "<c.>x</c>");
    assert_eq!(
        convert_cue_text_to_ass("<c.white>a</c><c.green>b</c>"),
        "{\\c&H00FFFFFF&}a{\\c&H0000FF00&}b"
    );
    assert_eq!(convert_cue_text_to_ass("<c.white>a<b</c>"), "<c.white>a<b</c>");
}

#[test]
fn region_attributes_take_the_white_space_before_them() {
    assert_eq!(
        clean_vtt_content("00:00:01.000 --> 00:00:02.000   region:r12 line:1"),
        "00:00:01.000 --> 00:00:02.000 line:1"
    );
    assert_eq!(clean_vtt_content("a region:rx b"), "a region:rx b");
    assert_eq!(clean_vtt_content("Region:x\nRegion: y\nz"), "z");
    assert_eq!(clean_vtt_content("z\n Region: y"), "z\n Region: y");
}

#[test]
fn show_ids_in_other_scripts_are_not_numbers() {
    match extract_tv_show_id("programatv_id=\u{661}\u{662}") {
        Err(Error::ParseInt(k)) => assert_eq!(k, IntErrorKind::InvalidDigit),
        other => panic!("unexpected {other:?}"),
    }
}

#[test]
fn subtitle_paths_with_dots_in_the_stem() {
    assert_eq!(
        parse_vtt_stem_and_lang("/foo/a.b.ca.vtt"),
        Some(("a.b".to_string(), "ca".to_string()))
    );
    assert_eq!(parse_vtt_stem_and_lang("/foo/.vtt"), None);
    assert_eq!(parse_vtt_stem_and_lang("relative.es.vtt"), Some(("relative".to_string(), "es".to_string())));
}

#[test]
fn episode_numbers_are_padded_to_two_digits() {
    let e = Episode::new("T".to_string(), String::new(), 0, -5, "x".to_string());
    assert_eq!(e.filename(), "S-5E00 - T");
}

#[test]
fn malformed_timing_lines_are_errors() {
    match convert_vtt_to_ass("WEBVTT\n\n1\n00:00:1.000 --> 00:00:02.000\nHi") {
        Err(Error::SubtitleCleaning(m)) => {
            assert_eq!(m, "malformed timing line: 00:00:1.000 --> 00:00:02.000")
        }
        other => panic!("unexpected {other:?}"),
    }
    // An arrow inside cue text is part of the cue.
    let ass = convert_vtt_to_ass("00:00:01.000 --> 00:00:02.000\na --> b").unwrap();
    assert_eq!(ass, format!("{ASS_HEADER}Dialogue: 0,0:00:01.00,0:00:02.00,Default,,0,0,0,,a --> b\n"));
}

#[test]
fn untagged_subtitles_keep_their_whole_stem() {
    assert_eq!(
        parse_vtt_stem_and_lang("/foo/1-episode.v2.vtt"),
        Some(("1-episode.v2".to_string(), "ca".to_string()))
    );
}
