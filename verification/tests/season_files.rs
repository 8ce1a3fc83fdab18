use cat_show_downloader::seasons::listing::{episode_page_url, season_episode_list_url};
use cat_show_downloader::seasons::models::{
    episode_name, episodes_to_download, language_from_lookup, Episode, Subtitle,
};
use cat_show_downloader::seasons::subtitles_fix::{
    clean_subtitle_text, fix_subtitles, fixed_subtitle_name, fixed_subtitle_path, is_fixed_subtitle_path, downloaded_subtitles_pattern,
    subtitle_mux_args, subtitles_mux_args, subtitles_to_fix,
};

fn strings(v: &[&str]) -> Vec<String> {
    v.iter().map(|s| s.to_string()).collect()
}

#[test]
fn episode_names_pad_the_numbers() {
    let e = Episode::new("Pilot".to_string(), "https://v".to_string(), 3, 12, "Show".to_string());
    assert_eq!(e.title, "Pilot");
    assert_eq!(e.video_url, "https://v");
    assert_eq!(e.episode_number, 3);
    assert_eq!(e.season_number, 12);
    assert_eq!(e.filename(), "S12E03 - Pilot");
    let big = Episode::new("X".to_string(), String::new(), 123, 1, "ANIME ova".to_string());
    assert_eq!(big.filename(), "S01E123 (OVA) - X");
}

#[test]
fn episode_names_from_ascii_parts() {
    assert_eq!(episode_name("A: b/c?", 1, 2, "serie"), "S02E01 - A bc");
    assert_eq!(episode_name("Final", 10, 1, "the nova show"), "S01E10 (OVA) - Final");
    assert_eq!(episode_name("Final", -1, 1, "x"), "S01E-1 - Final");
}

#[test]
fn subtitles_know_their_language() {
    let s = Subtitle::new("/shows/S01E01 - Pilot.ca.fixed.vtt".to_string()).unwrap();
    assert_eq!(s.path(), "/shows/S01E01 - Pilot.ca.fixed.vtt");
    assert_eq!(s.language_code(), "cat");
    let en = Subtitle::new("en.orig.en.fixed.vtt".to_string()).unwrap();
    assert_eq!(en.language_code(), "eng");
    assert_eq!(language_from_lookup("es", Some("spa".to_string())).unwrap(), "spa");
}

#[test]
fn fixed_subtitles_lose_their_region_lines() {
    let raw = "WEBVTT\nRegion: id=r1\nRegion: id=r2\n\n1\n00:00:01.000 --> 00:00:02.000 region:r1\nHola\n";
    assert_eq!(
        clean_subtitle_text(raw),
        "WEBVTT\n\n1\n00:00:01.000 --> 00:00:02.000 region:r1\nHola"
    );
    assert_eq!(clean_subtitle_text(""), "");
    assert_eq!(clean_subtitle_text("Region: only"), "");
}

#[test]
fn fixed_subtitle_names() {
    assert_eq!(fixed_subtitle_name("S01E01 - Pilot.orig.ca.vtt"), "S01E01 - Pilot.fixed.ca.vtt");
    assert_eq!(fixed_subtitle_name("a.orig.orig.vtt"), "a.fixed.fixed.vtt");
    assert_eq!(fixed_subtitle_name("plain.vtt"), "plain.vtt");
    assert!(is_fixed_subtitle_path("/s/S01E01 - Pilot.ca.fixed.vtt"));
    assert!(!is_fixed_subtitle_path("/s/S01E01 - Pilot.orig.ca.vtt"));
}

#[test]
fn mov_text_mux_arguments() {
    let args = subtitle_mux_args(
        "/s/S01E01.mp4",
        &strings(&["/s/a.ca.fixed.vtt", "/s/a.en.fixed.vtt"]),
        &strings(&["cat", "eng"]),
        "/s/S01E01.fixed.mp4",
    );
    assert_eq!(
        args,
        strings(&[
            "-y",
            "-i",
            "/s/S01E01.mp4",
            "-i",
            "/s/a.ca.fixed.vtt",
            "-i",
            "/s/a.en.fixed.vtt",
            "-map",
            "0:v",
            "-map",
            "0:a",
            "-c:a",
            "copy",
            "-c:v",
            "copy",
            "-map",
            "1",
            "-metadata:s:s:0",
            "language=cat",
            "-c:s:0",
            "mov_text",
            "-map",
            "2",
            "-metadata:s:s:1",
            "language=eng",
            "-c:s:1",
            "mov_text",
            "/s/S01E01.fixed.mp4",
        ])
    );
}

#[test]
fn downloaded_subtitles_are_found_and_filtered() {
    assert_eq!(
        downloaded_subtitles_pattern("/s", "S01E01 - Pilot"),
        "/s/S01E01 - Pilot.orig.*.vtt"
    );
    let found = strings(&[
        "/s/S01E01 - Pilot.orig.ca.vtt",
        "/s/S01E01 - Pilot.orig.ca.fixed.vtt",
        "/s/S01E01 - Pilot.orig.en.vtt",
    ]);
    assert_eq!(
        subtitles_to_fix(&found),
        strings(&["/s/S01E01 - Pilot.orig.ca.vtt", "/s/S01E01 - Pilot.orig.en.vtt"])
    );
}

#[test]
fn mux_arguments_from_subtitles() {
    let subtitles = vec![
        Subtitle::new("/s/a.ca.fixed.vtt".to_string()).unwrap(),
        Subtitle::new("/s/a.es.fixed.vtt".to_string()).unwrap(),
    ];
    let args = subtitles_mux_args("/s/a.mp4", &subtitles, "/s/a.fixed.mp4");
    assert_eq!(
        args,
        subtitle_mux_args(
            "/s/a.mp4",
            &strings(&["/s/a.ca.fixed.vtt", "/s/a.es.fixed.vtt"]),
            &strings(&["cat", "spa"]),
            "/s/a.fixed.mp4",
        )
    );
    assert_eq!(args[18], "language=cat");
    assert_eq!(args[24], "language=spa");
}

#[test]
fn season_urls() {
    assert_eq!(episode_page_url(987), "https://www.3cat.cat/3cat/t/video/987/");
    let url = season_episode_list_url(55, 2);
    assert!(url.contains("%26programatv_id%3D55%26tipus_contingut%3DPPD"));
    assert!(url.contains("%26temporada%3DPUTEMP_2%26https%3Dtrue"));
    assert!(url.ends_with("%22moduleName%22%3A%22BlocDeContinguts%22%7D%5D"));
}

#[test]
fn episodes_before_the_start_are_skipped() {
    let make = |n: i32| Episode::new(format!("E{n}"), String::new(), n, 1, "S".to_string());
    let kept = episodes_to_download(vec![make(1), make(4), make(2), make(3)], 3);
    let numbers: Vec<i32> = kept.iter().map(|e| e.episode_number).collect();
    assert_eq!(numbers, vec![4, 3]);
}

#[test]
fn fixing_plans_skip_a_fixed_video_and_fixed_files() {
    let found = strings(&[
        "/s/E1.orig.ca.vtt",
        "/s/E1.orig.ca.fixed.vtt",
        "/s/E1.en.orig.vtt",
    ]);
    assert!(fix_subtitles(true, &found, false).is_none());

    let plan = fix_subtitles(false, &found, false).unwrap();
    assert!(plan.remove_video);
    assert_eq!(plan.fixes.len(), 2);
    assert_eq!(plan.fixes[0].source, "/s/E1.orig.ca.vtt");
    assert_eq!(plan.fixes[0].fixed, "/s/E1.fixed.ca.vtt");
    // The language pattern wants `.{lang}.fixed.vtt`; this name has none.
    assert!(plan.fixes[0].subtitle.is_err());
    assert!(!plan.fixes[0].remove_source);
    assert_eq!(plan.fixes[1].fixed, "/s/E1.en.fixed.vtt");
    let sub = plan.fixes[1].subtitle.as_ref().unwrap();
    assert_eq!(sub.language_code(), "eng");
    assert!(plan.fixes[1].remove_source);

    let kept = fix_subtitles(false, &found, true).unwrap();
    assert!(!kept.remove_video);
    assert!(kept.fixes.iter().all(|f| !f.remove_source));
}

#[test]
fn fixed_subtitle_paths_keep_the_directory() {
    assert_eq!(fixed_subtitle_path("/s/a.orig.vtt").as_deref(), Some("/s/a.fixed.vtt"));
    assert_eq!(fixed_subtitle_path("a.orig.vtt").as_deref(), Some("a.fixed.vtt"));
    assert_eq!(fixed_subtitle_path("/s/.."), None);
}
