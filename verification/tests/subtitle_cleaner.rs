use cat_show_downloader::subtitle_cleaner::{clean_vtt_content, convert_vtt_to_ass};



const SAMPLE_VTT: &str = "\
WEBVTT

Region: id=r1 width=100% lines=3 regionanchor=0%,96% viewportanchor=0%,100% scroll=none 
Region: id=r2 width=100% lines=3 regionanchor=0%,96% viewportanchor=0%,100% scroll=none 
Region: id=r3 width=98% lines=3 regionanchor=3%,88% viewportanchor=0%,100% scroll=none 
Region: id=r4 width=100% lines=1 regionanchor=0%,96% viewportanchor=0%,100% scroll=none 
Region: id=r5 width=100% lines=3 regionanchor=0%,88% viewportanchor=0%,100% scroll=none 
Region: id=r6 width=100% lines=3 regionanchor=0%,79% viewportanchor=0%,100% scroll=none 
Region: id=r7 width=98% lines=3 regionanchor=3%,96% viewportanchor=0%,100% scroll=none 
Region: id=r8 width=98% lines=1 regionanchor=3%,96% viewportanchor=0%,100% scroll=none 
Region: id=r9 width=98% lines=3 regionanchor=3%,88% viewportanchor=0%,100% scroll=none 


1
00:00:11.680 --> 00:00:14.920 region:r1 line:88% align:center
<c.white.background-black>(home) \"Han passat dos anys
des de la guerra entre l'Armada,</c>

2
00:00:15.000 --> 00:00:17.560 region:r2 line:88% align:center
<c.white.background-black>\"els Shichibukais
i els aliats d'en Barbablanca,</c>

3
00:00:17.920 --> 00:00:21.920 region:r1 line:88% align:center
<c.white.background-black>per\u{f2} les seves conseq\u{fc}\u{e8}ncies encara
es noten... a tot el m\u{f3}n.\"</c>";

#[test]
fn test_should_remove_region_header_lines() {
    let cleaned = clean_vtt_content(SAMPLE_VTT);
    assert!(!cleaned.contains("Region:"));
}

#[test]
fn test_should_keep_webvtt_header() {
    let cleaned = clean_vtt_content(SAMPLE_VTT);
    assert!(cleaned.starts_with("WEBVTT"));
}

#[test]
fn test_should_strip_region_attributes_from_timing_lines() {
    let cleaned = clean_vtt_content(SAMPLE_VTT);
    assert!(!cleaned.contains("region:r1"));
    assert!(!cleaned.contains("region:r2"));
}

#[test]
fn test_should_preserve_other_timing_attributes() {
    let cleaned = clean_vtt_content(SAMPLE_VTT);
    assert!(cleaned.contains("line:88%"));
    assert!(cleaned.contains("align:center"));
}

#[test]
fn test_should_preserve_inline_styling_tags() {
    let cleaned = clean_vtt_content(SAMPLE_VTT);
    assert!(cleaned.contains("<c.white.background-black>"));
    assert!(cleaned.contains("</c>"));
}

#[test]
fn test_should_preserve_cue_text_content() {
    let cleaned = clean_vtt_content(SAMPLE_VTT);
    assert!(cleaned.contains("Han passat dos anys"));
    assert!(cleaned.contains("els Shichibukais"));
    assert!(cleaned.contains("es noten... a tot el m"));
}

#[test]
fn test_should_preserve_cue_numbers() {
    let cleaned = clean_vtt_content(SAMPLE_VTT);
    assert!(cleaned.contains("\n1\n"));
    assert!(cleaned.contains("\n2\n"));
    assert!(cleaned.contains("\n3\n"));
}

#[test]
fn test_should_not_leave_excessive_blank_lines() {
    let cleaned = clean_vtt_content(SAMPLE_VTT);
    assert!(!cleaned.contains("\n\n\n"));
}

#[test]
fn test_should_produce_correct_timing_lines() {
    let cleaned = clean_vtt_content(SAMPLE_VTT);
    assert!(cleaned.contains("00:00:11.680 --> 00:00:14.920 line:88% align:center"));
    assert!(cleaned.contains("00:00:15.000 --> 00:00:17.560 line:88% align:center"));
}

#[test]
fn test_should_handle_vtt_with_no_regions() {
    let simple_vtt = "WEBVTT\n\n1\n00:00:01.000 --> 00:00:02.000\nHello world";
    let cleaned = clean_vtt_content(simple_vtt);
    assert_eq!(cleaned, simple_vtt);
}

const CLEANED_VTT: &str = "\
WEBVTT

1
00:00:11.680 --> 00:00:14.920 line:88% align:center
<c.white.background-black>(home) \"Han passat dos anys
des de la guerra entre l'Armada,</c>

2
00:00:15.000 --> 00:00:17.560 line:88% align:center
<c.white.background-black>\"els Shichibukais
i els aliats d'en Barbablanca,</c>

3
00:00:17.920 --> 00:00:21.920 line:88% align:center
<c.white.background-black>per\u{f2} les seves conseq\u{fc}\u{e8}ncies encara
es noten... a tot el m\u{f3}n.\"</c>";

#[test]
fn test_should_convert_vtt_to_ass_with_header() {
    let ass = convert_vtt_to_ass(CLEANED_VTT).unwrap();
    assert!(ass.contains("[Script Info]"));
    assert!(ass.contains("[V4+ Styles]"));
    assert!(ass.contains("[Events]"));
    assert!(ass.contains("Format: Layer, Start, End,"));
}

#[test]
fn test_should_convert_vtt_timestamps_to_ass_format() {
    let ass = convert_vtt_to_ass(CLEANED_VTT).unwrap();
    // VTT 00:00:11.680 → ASS 0:00:11.68
    assert!(ass.contains("0:00:11.68"));
    // VTT 00:00:14.920 → ASS 0:00:14.92
    assert!(ass.contains("0:00:14.92"));
    // VTT 00:00:15.000 → ASS 0:00:15.00
    assert!(ass.contains("0:00:15.00"));
}

#[test]
fn test_should_convert_white_color_to_ass_bgr() {
    let ass = convert_vtt_to_ass(CLEANED_VTT).unwrap();
    assert!(ass.contains("\\c&H00FFFFFF&"));
}

#[test]
fn test_should_convert_background_black_to_ass_border_color() {
    let ass = convert_vtt_to_ass(CLEANED_VTT).unwrap();
    assert!(ass.contains("\\3c&H00000000&"));
}

#[test]
fn test_should_produce_dialogue_lines() {
    let ass = convert_vtt_to_ass(CLEANED_VTT).unwrap();
    let dialogue_count = ass.lines().filter(|l| l.starts_with("Dialogue:")).count();
    assert_eq!(dialogue_count, 3);
}

#[test]
fn test_should_preserve_text_content_in_ass() {
    let ass = convert_vtt_to_ass(CLEANED_VTT).unwrap();
    assert!(ass.contains("Han passat dos anys"));
    assert!(ass.contains("els Shichibukais"));
}

#[test]
fn test_should_convert_newlines_to_ass_newlines() {
    let ass = convert_vtt_to_ass(CLEANED_VTT).unwrap();
    // Multi-line cues should use \N (ASS newline)
    assert!(ass.contains("\\N"));
}

#[test]
fn test_should_convert_yellow_color() {
    let vtt =
        "WEBVTT\n\n1\n00:00:01.000 --> 00:00:02.000\n<c.yellow.background-black>Hello</c>";
    let ass = convert_vtt_to_ass(vtt).unwrap();
    assert!(ass.contains("\\c&H0000FFFF&"));
    assert!(ass.contains("\\3c&H00000000&"));
    assert!(ass.contains("Hello"));
}

#[test]
fn test_should_convert_cyan_color() {
    let vtt = "WEBVTT\n\n1\n00:00:01.000 --> 00:00:02.000\n<c.cyan>Text</c>";
    let ass = convert_vtt_to_ass(vtt).unwrap();
    assert!(ass.contains("\\c&H00FFFF00&"));
    assert!(ass.contains("Text"));
}

#[test]
fn test_should_convert_green_color() {
    let vtt = "WEBVTT\n\n1\n00:00:01.000 --> 00:00:02.000\n<c.green>Text</c>";
    let ass = convert_vtt_to_ass(vtt).unwrap();
    assert!(ass.contains("\\c&H0000FF00&"));
}

#[test]
fn test_should_handle_plain_text_without_styling() {
    let vtt = "WEBVTT\n\n1\n00:00:01.000 --> 00:00:02.000\nPlain text here";
    let ass = convert_vtt_to_ass(vtt).unwrap();
    assert!(ass.contains("Plain text here"));
    // Should not contain any colour overrides
    assert!(!ass.contains("\\c&H"));
}

#[test]
fn test_should_handle_mixed_styled_and_plain_text() {
    let vtt = "WEBVTT\n\n1\n00:00:01.000 --> 00:00:02.000\nBefore <c.white>styled</c> after";
    let ass = convert_vtt_to_ass(vtt).unwrap();
    assert!(ass.contains("Before {\\c&H00FFFFFF&}styled after"));
}

#[test]
fn test_should_handle_timestamp_conversion_edge_cases() {
    // Test hours > 0
    let vtt = "WEBVTT\n\n1\n01:23:45.678 --> 02:00:00.000\nText";
    let ass = convert_vtt_to_ass(vtt).unwrap();
    assert!(ass.contains("1:23:45.67"));
    assert!(ass.contains("2:00:00.00"));
}

#[test]
fn test_should_ignore_unknown_css_classes() {
    let vtt = "WEBVTT\n\n1\n00:00:01.000 --> 00:00:02.000\n<c.unknown-class>Text</c>";
    let ass = convert_vtt_to_ass(vtt).unwrap();
    // Unknown class should be ignored, text preserved without overrides
    assert!(ass.contains("Text"));
}

#[test]
fn test_should_produce_complete_ass_dialogue_format() {
    let vtt = "WEBVTT\n\n1\n00:00:01.000 --> 00:00:02.500\nHello world";
    let ass = convert_vtt_to_ass(vtt).unwrap();
    assert!(ass.contains("Dialogue: 0,0:00:01.00,0:00:02.50,Default,,0,0,0,,Hello world"));
}

