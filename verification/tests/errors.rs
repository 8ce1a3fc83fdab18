use cat_show_downloader::api_structs::{SingleEpisodeMedia, SingleEpisodeRoot, UrlMetadata};
use cat_show_downloader::downloader::{apply_media_details, plan_download};
use cat_show_downloader::error::Error;
use cat_show_downloader::ffmpeg::SubtitleTrack;
use cat_show_downloader::media_resolver::resolve_media;
use cat_show_downloader::models::{MediaItem, SubtitleMode};
use cat_show_downloader::movie::{
    catalog_json_from_search, extract_catalog_json, find_movie_id, CatalogProps, CatalogRoot,
    ChildEntry, FinalProps, Layout, MovieItem, PageProps, StructureEntry,
};
use cat_show_downloader::seasons::error::Error as SeasonError;
use cat_show_downloader::seasons::models::{language_from_lookup, Subtitle};
use cat_show_downloader::subtitle_cleaner::{convert_vtt_to_ass, vtt_timestamp_to_ass};
use cat_show_downloader::text::IntErrorKind;
use cat_show_downloader::tv_show::{extract_tv_show_id, tv_show_id_from_search};
use cat_show_downloader::yt_dlp::found_subtitle_tracks;

fn movie(title: &str) -> MediaItem {
    MediaItem {
        id: 5,
        title: title.to_string(),
        video_url: None,
        subtitle_url: None,
        episode_number: None,
        tv_show_name: None,
    }
}

#[test]
fn unresolved_slug_is_a_media_id_error() {
    match resolve_media("no-such-thing", None, None) {
        Err(Error::MediaIdRetrieval(m)) => {
            assert_eq!(m, "Could not resolve 'no-such-thing' as a TV show or a movie")
        }
        other => panic!("unexpected {other:?}"),
    }
}

#[test]
fn page_without_show_id_is_a_tv_show_id_error() {
    match extract_tv_show_id("<html><body>nothing here</body></html>") {
        Err(Error::TvShowIdRetrieval(m)) => assert_eq!(m, "No id found in the tv show page"),
        other => panic!("unexpected {other:?}"),
    }
}

#[test]
fn show_id_out_of_range_is_a_parse_error() {
    match extract_tv_show_id("<a href=\"?programatv_id=99999999999\">") {
        Err(Error::ParseInt(k)) => assert_eq!(k, IntErrorKind::PosOverflow),
        other => panic!("unexpected {other:?}"),
    }
}

#[test]
fn failed_search_is_a_regex_error() {
    match tv_show_id_from_search(Err("bad pattern".to_string())) {
        Err(Error::Regex(m)) => assert_eq!(m, "bad pattern"),
        other => panic!("unexpected {other:?}"),
    }
    match catalog_json_from_search(Err("bad pattern".to_string())) {
        Err(Error::Regex(m)) => assert_eq!(m, "bad pattern"),
        other => panic!("unexpected {other:?}"),
    }
}

#[test]
fn catalog_without_next_data_is_a_movie_id_error() {
    match extract_catalog_json("<html><script>var x = 1;</script></html>") {
        Err(Error::MovieIdRetrieval(m)) => assert_eq!(m, "Could not find __NEXT_DATA__ script tag"),
        other => panic!("unexpected {other:?}"),
    }
}

#[test]
fn unknown_movie_slug_is_a_movie_id_error() {
    let catalog = CatalogRoot {
        props: CatalogProps {
            page_props: PageProps {
                layout: Layout {
                    structure: vec![StructureEntry {
                        children: vec![ChildEntry {
                            final_props: FinalProps {
                                items: vec![MovieItem { id: 1, nom_friendly: "iron-man".to_string() }],
                            },
                        }],
                    }],
                },
            },
        },
    };
    match find_movie_id(&catalog, "thor") {
        Err(Error::MovieIdRetrieval(m)) => assert_eq!(m, "Movie with slug 'thor' not found in catalog"),
        other => panic!("unexpected {other:?}"),
    }
}

#[test]
fn missing_video_url_is_reported_with_the_file_name() {
    match plan_download(&movie("Iron Man"), "/tmp", SubtitleMode::Skip) {
        Err(Error::MediaDoesNotHaveVideoUrl(n)) => assert_eq!(n, "iron-man.mp4"),
        other => panic!("unexpected {other:?}"),
    }
}

#[test]
fn missing_subtitles_are_reported_with_the_title() {
    let response = SingleEpisodeRoot {
        media: SingleEpisodeMedia {
            url: vec![UrlMetadata { file: "https://v/1.mp4".to_string(), active: true }],
        },
        subtitles: vec![],
    };
    match apply_media_details(movie("Iron Man"), &response, SubtitleMode::Download) {
        Err(Error::NoSubtitlesAvailable(t)) => assert_eq!(t, "Iron Man"),
        other => panic!("unexpected {other:?}"),
    }
    let candidates = vec![
        ("/d/iron-man.ca.vtt".to_string(), "ca".to_string()),
        ("/d/iron-man.en.vtt".to_string(), "en".to_string()),
    ];
    let found: Result<Vec<SubtitleTrack>, Error> =
        found_subtitle_tracks(&movie("Iron Man"), &candidates, &vec![false, false]);
    match found {
        Err(Error::NoSubtitlesAvailable(t)) => assert_eq!(t, "Iron Man"),
        other => panic!("unexpected {other:?}"),
    }
}

#[test]
fn unparsable_timestamps_are_cleaning_errors() {
    // Arabic-Indic digits match the timing pattern but are no ASCII number.
    let vtt = "WEBVTT\n\n1\n\u{660}\u{660}:00:01.000 --> 00:00:02.000\nHola";
    match convert_vtt_to_ass(vtt) {
        Err(Error::SubtitleCleaning(m)) => {
            assert_eq!(m, "invalid hours in timestamp: \u{660}\u{660}:00:01.000")
        }
        other => panic!("unexpected {other:?}"),
    }
}

#[test]
fn malformed_timestamps_are_described() {
    assert_eq!(vtt_timestamp_to_ass("1:2").unwrap_err(), "unexpected timestamp format: 1:2");
    assert_eq!(
        vtt_timestamp_to_ass("00:00:01").unwrap_err(),
        "missing milliseconds in timestamp: 00:00:01"
    );
    assert_eq!(
        vtt_timestamp_to_ass("aa:00:01.000").unwrap_err(),
        "invalid hours in timestamp: aa:00:01.000"
    );
    assert_eq!(
        vtt_timestamp_to_ass("00:x:01.000").unwrap_err(),
        "invalid minutes in timestamp: 00:x:01.000"
    );
    assert_eq!(
        vtt_timestamp_to_ass("00:00:-1.000").unwrap_err(),
        "invalid seconds in timestamp: 00:00:-1.000"
    );
    assert_eq!(
        vtt_timestamp_to_ass("00:00:01.").unwrap_err(),
        "invalid milliseconds in timestamp: 00:00:01."
    );
}

#[test]
fn subtitle_without_language_is_a_subtitle_error() {
    match Subtitle::new("/shows/S01E01 - Pilot.fixed.vtt".to_string()) {
        Err(SeasonError::SubtitleError(m)) => assert_eq!(m, "Failed to get language code"),
        other => panic!("unexpected {other:?}"),
    }
    match Subtitle::new("/shows/S01E01 - Pilot.zz.fixed.vtt".to_string()) {
        Err(SeasonError::SubtitleError(m)) => {
            assert_eq!(m, "Failed to convert ISO 639-1 language code 'zz' to ISO 639-3")
        }
        other => panic!("unexpected {other:?}"),
    }
    match language_from_lookup("xx", None) {
        Err(SeasonError::SubtitleError(m)) => {
            assert_eq!(m, "Failed to convert ISO 639-1 language code 'xx' to ISO 639-3")
        }
        other => panic!("unexpected {other:?}"),
    }
    match SeasonError::subtitle_error("broken") {
        SeasonError::SubtitleError(m) => assert_eq!(m, "broken"),
        other => panic!("unexpected {other:?}"),
    }
}
