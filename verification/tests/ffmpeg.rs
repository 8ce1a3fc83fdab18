use cat_show_downloader::ffmpeg::parse_vtt_stem_and_lang;

#[test]
fn test_should_parse_language_tagged_vtt() {
    let path = "/foo/1-episode.ca.vtt";
    let (stem, lang) = parse_vtt_stem_and_lang(path).unwrap();
    assert_eq!(stem, "1-episode");
    assert_eq!(lang, "ca");
}

#[test]
fn test_should_parse_untagged_vtt_as_catalan() {
    let path = "/foo/1-episode.vtt";
    let (stem, lang) = parse_vtt_stem_and_lang(path).unwrap();
    assert_eq!(stem, "1-episode");
    assert_eq!(lang, "ca");
}

#[test]
fn test_should_parse_english_vtt() {
    let path = "/foo/1-episode.en.vtt";
    let (stem, lang) = parse_vtt_stem_and_lang(path).unwrap();
    assert_eq!(stem, "1-episode");
    assert_eq!(lang, "en");
}

#[test]
fn test_should_return_none_for_non_vtt() {
    assert!(parse_vtt_stem_and_lang("/foo/video.mp4").is_none());
    assert!(parse_vtt_stem_and_lang("/foo/video.ass").is_none());
}
