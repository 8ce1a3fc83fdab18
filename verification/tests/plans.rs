use cat_show_downloader::api_structs::{
    SingleEpisodeMedia, SingleEpisodeRoot, SingleEpisodeSubtitles, UrlMetadata,
};
use cat_show_downloader::downloader::{
    apply_media_details, is_video_entry, media_details_url, media_stem, plan_download,
    stale_download_path,
};
use cat_show_downloader::subtitle_cleaner::is_vtt_path;
use cat_show_downloader::ffmpeg::{embed_plan, group_vtt_files, subtitle_display, SubtitleTrack};
use cat_show_downloader::models::{choose_subtitle_mode, file_name_from, MediaItem, SubtitleMode};
use cat_show_downloader::yt_dlp::{found_subtitle_tracks, plan_yt_dlp, progress_fields};

fn item(id: i32, number: Option<i32>, title: &str, show: Option<&str>) -> MediaItem {
    MediaItem {
        id,
        title: title.to_string(),
        video_url: None,
        subtitle_url: None,
        episode_number: number,
        tv_show_name: show.map(|s| s.to_string()),
    }
}

fn strings(v: &[&str]) -> Vec<String> {
    v.iter().map(|s| s.to_string()).collect()
}

#[test]
fn media_details_pick_the_first_active_url_and_first_subtitle() {
    let response = SingleEpisodeRoot {
        media: SingleEpisodeMedia {
            url: vec![
                UrlMetadata { file: "https://v/a.mp4".to_string(), active: false },
                UrlMetadata { file: "https://v/b.mp4".to_string(), active: true },
                UrlMetadata { file: "https://v/c.mp4".to_string(), active: true },
            ],
        },
        subtitles: vec![
            SingleEpisodeSubtitles { url: "https://s/1.vtt".to_string() },
            SingleEpisodeSubtitles { url: "https://s/2.vtt".to_string() },
        ],
    };
    let it = apply_media_details(item(1, Some(1), "Pilot", Some("S")), &response, SubtitleMode::Embed)
        .unwrap();
    assert_eq!(it.video_url.as_deref(), Some("https://v/b.mp4"));
    assert_eq!(it.subtitle_url.as_deref(), Some("https://s/1.vtt"));
    assert_eq!(it.title, "Pilot");
}

#[test]
fn media_details_without_subtitles_are_fine_when_skipping() {
    let response = SingleEpisodeRoot {
        media: SingleEpisodeMedia {
            url: vec![UrlMetadata { file: "https://v/a.mp4".to_string(), active: false }],
        },
        subtitles: vec![],
    };
    let it = apply_media_details(item(1, None, "Film", None), &response, SubtitleMode::Skip).unwrap();
    assert_eq!(it.video_url, None);
    assert_eq!(it.subtitle_url, None);
}

#[test]
fn built_in_download_plan() {
    let mut it = item(4, Some(4), "Hola", Some("Serie"));
    it.video_url = Some("https://v/4.mp4".to_string());
    it.subtitle_url = Some("https://s/4.vtt".to_string());
    let plan = plan_download(&it, "/d", SubtitleMode::Embed).unwrap();
    assert_eq!(plan.video.url, "https://v/4.mp4");
    assert_eq!(plan.video.path, "/d/4-hola.mp4");
    assert_eq!(plan.video.label, "4-hola.mp4");
    let sub = plan.subtitle.unwrap();
    assert_eq!(sub.url, "https://s/4.vtt");
    assert_eq!(sub.path, "/d/4-hola.vtt");
    assert_eq!(sub.label, "4-hola.vtt");
    assert!(plan.embed);

    let plan = plan_download(&it, "/d/", SubtitleMode::Skip).unwrap();
    assert_eq!(plan.video.path, "/d/4-hola.mp4");
    assert!(plan.subtitle.is_none());
    assert!(!plan.embed);
}

#[test]
fn yt_dlp_plan() {
    let it = item(123, Some(2), "Pilot", Some("Anime OVA"));
    let plan = plan_yt_dlp(&it, "/d", SubtitleMode::Download).unwrap();
    assert_eq!(plan.url, "https://www.3cat.cat/3cat/x/video/123");
    assert_eq!(plan.output_filename, "ova-2-pilot.%(ext)s");
    assert_eq!(plan.output_template, "/d/ova-2-pilot.%(ext)s");
    assert_eq!(
        plan.args,
        strings(&[
            "--no-playlist",
            "--progress",
            "--newline",
            "-o",
            "/d/ova-2-pilot.%(ext)s",
            "--write-subs",
            "--sub-langs",
            "ca",
            "https://www.3cat.cat/3cat/x/video/123",
        ])
    );
    let candidates: Vec<(String, String)> = plan.subtitle_candidates.clone();
    assert_eq!(
        candidates,
        vec![
            ("/d/ova-2-pilot.ca.vtt".to_string(), "ca".to_string()),
            ("/d/ova-2-pilot.en.vtt".to_string(), "en".to_string()),
            ("/d/ova-2-pilot.es.vtt".to_string(), "es".to_string()),
        ]
    );
    assert_eq!(plan.video_path, "/d/ova-2-pilot.mp4");

    let skip = plan_yt_dlp(&it, "/d", SubtitleMode::Skip).unwrap();
    assert_eq!(skip.args.len(), 6);
    assert_eq!(skip.args[5], "https://www.3cat.cat/3cat/x/video/123");

    let tracks = found_subtitle_tracks(&it, &candidates, &vec![true, false, true]).unwrap();
    assert_eq!(tracks.len(), 2);
    assert_eq!(tracks[0].path, "/d/ova-2-pilot.ca.vtt");
    assert_eq!(tracks[0].lang_code, "ca");
    assert_eq!(tracks[1].path, "/d/ova-2-pilot.es.vtt");
    assert_eq!(tracks[1].lang_code, "es");
}

#[test]
fn progress_line_fields() {
    assert_eq!(
        progress_fields("[download]  17.3% of    2.37GiB at    3.15MiB/s ETA 09:49"),
        Some(("17.3".to_string(), "of    2.37GiB at    3.15MiB/s ETA 09:49".to_string()))
    );
    assert_eq!(
        progress_fields("[download] 100% of    2.37GiB in 00:13 at    3.15MiB/s"),
        Some(("100".to_string(), "of    2.37GiB in 00:13 at    3.15MiB/s".to_string()))
    );
    assert_eq!(progress_fields("[download] Destination: file.mp4"), None);
    assert_eq!(progress_fields("[info] Some info line"), None);
    assert_eq!(progress_fields(""), None);
}

#[test]
fn embedding_plan_for_two_tracks() {
    let tracks = vec![
        SubtitleTrack { path: "/d/1-ep.ca.vtt".to_string(), lang_code: "ca".to_string() },
        SubtitleTrack { path: "/d/1-ep.en.vtt".to_string(), lang_code: "en".to_string() },
    ];
    let plan = embed_plan("/d/1-ep.mp4", &tracks);
    assert_eq!(plan.ass_paths, strings(&["/d/1-ep.ca.ass", "/d/1-ep.en.ass"]));
    assert_eq!(plan.mkv_path, "/d/1-ep.mkv");
    assert_eq!(plan.tmp_output, "/d/1-ep.mkv.muxed.tmp");
    assert_eq!(
        plan.args,
        strings(&[
            "-y",
            "-i",
            "/d/1-ep.mp4",
            "-i",
            "/d/1-ep.ca.ass",
            "-i",
            "/d/1-ep.en.ass",
            "-map",
            "0",
            "-map",
            "1",
            "-map",
            "2",
            "-c",
            "copy",
            "-c:s",
            "ass",
            "-metadata:s:s:0",
            "language=cat",
            "-metadata:s:s:0",
            "title=Català",
            "-metadata:s:s:1",
            "language=eng",
            "-metadata:s:s:1",
            "title=English",
            "-f",
            "matroska",
            "/d/1-ep.mkv.muxed.tmp",
        ])
    );
}

#[test]
fn display_names_of_subtitle_languages() {
    assert_eq!(subtitle_display("ca"), ("cat", "Català"));
    assert_eq!(subtitle_display("en"), ("eng", "English"));
    assert_eq!(subtitle_display("es"), ("spa", "Español"));
    assert_eq!(subtitle_display("fr"), ("und", "Unknown"));
}

#[test]
fn vtt_files_are_grouped_by_video_stem() {
    let paths = strings(&[
        "/d/1-a.ca.vtt",
        "/d/2-b.vtt",
        "/d/notes.txt",
        "/d/1-a.en.vtt",
        "/d/1-a.fr.vtt",
    ]);
    let groups = group_vtt_files(&paths);
    assert_eq!(groups.len(), 3);
    assert_eq!(groups[0].stem, "1-a");
    assert_eq!(
        groups[0].files,
        vec![
            ("/d/1-a.ca.vtt".to_string(), "ca".to_string()),
            ("/d/1-a.en.vtt".to_string(), "en".to_string()),
        ]
    );
    assert_eq!(groups[1].stem, "2-b");
    assert_eq!(groups[1].files, vec![("/d/2-b.vtt".to_string(), "ca".to_string())]);
    // An unknown language tag is part of the stem of an untagged Catalan file.
    assert_eq!(groups[2].stem, "1-a.fr");
    assert_eq!(groups[2].files, vec![("/d/1-a.fr.vtt".to_string(), "ca".to_string())]);
}

#[test]
fn existing_videos_are_recognised_by_stem() {
    assert!(is_video_entry("3-hola.mkv", "3-hola"));
    assert!(is_video_entry("3-hola.webm", "3-hola"));
    assert!(is_video_entry("3-hola.m4v", "3-hola"));
    assert!(!is_video_entry("3-hola.vtt", "3-hola"));
    assert!(!is_video_entry("3-hola.ass", "3-hola"));
    assert!(!is_video_entry("3-hola.mp4.tmp", "3-hola"));
    assert!(!is_video_entry("3-hol.mp4", "3-hola"));
    assert!(!is_video_entry("3-hola", "3-hola"));
    let it = item(3, Some(3), "Hola", Some("Serie"));
    assert_eq!(media_stem(&it).unwrap(), "3-hola");
    assert_eq!(stale_download_path(&it, "/d").unwrap(), "/d/3-hola.mp4.tmp");
}

#[test]
fn file_names_from_their_parts() {
    assert_eq!(file_name_from("pilot", Some(-2), true, "mp4"), "ova--2-pilot.mp4");
    assert_eq!(file_name_from("pilot", Some(10), false, "ca.vtt"), "10-pilot.ca.vtt");
    assert_eq!(file_name_from("film", None, true, "mp4"), "film.mp4");
    assert_eq!(file_name_from("", None, false, "mp4"), ".mp4");
}

#[test]
fn media_details_and_subtitle_paths() {
    assert_eq!(
        media_details_url(6123),
        "https://dinamics.ccma.cat/pvideo/media.jsp?media=video&version=0s&idint=6123"
    );
    assert!(is_vtt_path("/d/1-a.ca.vtt"));
    assert!(is_vtt_path("b.vtt"));
    assert!(!is_vtt_path("/d/.vtt"));
    assert!(!is_vtt_path("/d/1-a.vtt.tmp"));
    assert!(!is_vtt_path("/d/1-a.VTT"));
}

#[test]
fn subtitle_mode_follows_the_options() {
    assert_eq!(choose_subtitle_mode(true, true), SubtitleMode::Skip);
    assert_eq!(choose_subtitle_mode(true, false), SubtitleMode::Skip);
    assert_eq!(choose_subtitle_mode(false, true), SubtitleMode::Embed);
    assert_eq!(choose_subtitle_mode(false, false), SubtitleMode::Download);
}

#[test]
fn only_names_holding_ova_in_capitals_are_ovas() {
    let nova = item(3, Some(3), "Pilot", Some("Nova"));
    assert_eq!(nova.filename("mp4").unwrap(), "3-pilot.mp4");
    let lower = item(3, Some(3), "Pilot", Some("anime ova"));
    assert_eq!(lower.filename("mp4").unwrap(), "3-pilot.mp4");
    let ova = item(3, Some(3), "Pilot", Some("Anime OVA"));
    assert_eq!(ova.filename("mp4").unwrap(), "ova-3-pilot.mp4");
}
