use cat_show_downloader::downloader::full_media_path;
use cat_show_downloader::ffmpeg::{group_vtt_files, parse_vtt_stem_and_lang, video_path_for_stem};
use cat_show_downloader::media_resolver::{resolve_media, MediaType};
use cat_show_downloader::models::MediaItem;
use cat_show_downloader::slug::slugify;
use cat_show_downloader::subtitle_cleaner::{
    clean_vtt_content, convert_cue_text_to_ass, vtt_timestamp_to_ass,
};
use cat_show_downloader::tv_show::select_episodes;

fn episode(id: i32, number: Option<i32>, title: &str, show: &str) -> MediaItem {
    MediaItem {
        id,
        title: title.to_string(),
        video_url: None,
        subtitle_url: None,
        episode_number: number,
        tv_show_name: Some(show.to_string()),
    }
}

#[test]
fn cleaned_subtitles_hold_no_run_of_three_newlines() {
    let raw = "WEBVTT\n\n\n\n\nRegion: id=r1\n\n\n1\n00:00:01.000 --> 00:00:02.000 region:r1\nHola\n\n\n\n2\n00:00:03.000 --> 00:00:04.000\nAdeu\n\n\n";
    let cleaned = clean_vtt_content(raw);
    assert!(!cleaned.contains("\n\n\n"));
    assert_eq!(
        cleaned,
        "WEBVTT\n\n1\n00:00:01.000 --> 00:00:02.000\nHola\n\n2\n00:00:03.000 --> 00:00:04.000\nAdeu\n\n"
    );
}

#[test]
fn clean_subtitles_come_out_unchanged() {
    let vtt = "WEBVTT\n\n1\n00:00:01.000 --> 00:00:02.000 line:88%\n<c.white>Hola</c>\n\n2\n00:00:03.000 --> 00:00:04.000\nAdeu";
    assert_eq!(clean_vtt_content(vtt), vtt);
    let once = clean_vtt_content("WEBVTT\nRegion: x\n\n\n\n1\n00:00:01.000 --> 00:00:02.000 region:r12\nA");
    assert_eq!(clean_vtt_content(&once), once);
}

#[test]
fn cue_text_becomes_one_line() {
    let ass = convert_cue_text_to_ass("first\nsecond\n<c.yellow>third</c>");
    assert!(!ass.contains('\n'));
    assert_eq!(ass, "first\\Nsecond\\N{\\c&H0000FFFF&}third");
}

#[test]
fn ass_timestamps_keep_the_digits() {
    assert_eq!(vtt_timestamp_to_ass("01:23:45.678").unwrap(), "1:23:45.67");
    assert_eq!(vtt_timestamp_to_ass("00:00:00.000").unwrap(), "0:00:00.00");
    assert_eq!(vtt_timestamp_to_ass("12:05:09.999").unwrap(), "12:05:09.99");
}

#[test]
fn slugs_are_url_friendly() {
    let slug = slugify("  --Hola,  Món!!  --  Què tal? ");
    assert_eq!(slug, "hola-mon-que-tal");
    assert!(!slug.contains("--"));
    assert!(!slug.starts_with('-') && !slug.ends_with('-'));
    assert!(slug
        .chars()
        .all(|c| c.is_ascii_lowercase() || c.is_ascii_digit() || c == '-'));
}

#[test]
fn file_names_share_their_base() {
    let item = episode(1, Some(3), "L'últim capítol", "Sèrie");
    let mp4 = item.filename("mp4").unwrap();
    let vtt = item.filename("vtt").unwrap();
    assert_eq!(mp4, "3-lultim-capitol.mp4");
    assert_eq!(vtt, "3-lultim-capitol.vtt");
    assert_eq!(mp4.trim_end_matches("mp4"), vtt.trim_end_matches("vtt"));
}

#[test]
fn subtitle_files_are_grouped_with_their_video() {
    let item = episode(9, Some(12), "El retorn", "Bola de Drac");
    let directory = "/media/shows";
    let tagged = full_media_path(&item, directory, "en.vtt").unwrap();
    let plain = full_media_path(&item, directory, "vtt").unwrap();
    let video = full_media_path(&item, directory, "mp4").unwrap();
    assert_eq!(
        parse_vtt_stem_and_lang(&tagged),
        Some(("12-el-retorn".to_string(), "en".to_string()))
    );
    assert_eq!(
        parse_vtt_stem_and_lang(&plain),
        Some(("12-el-retorn".to_string(), "ca".to_string()))
    );
    let groups = group_vtt_files(&vec![tagged.clone(), plain.clone()]);
    assert_eq!(groups.len(), 1);
    assert_eq!(groups[0].stem, "12-el-retorn");
    assert_eq!(video_path_for_stem(directory, &groups[0].stem), video);
}

#[test]
fn a_tv_show_wins_over_a_movie() {
    match resolve_media("bola-de-drac", Some(7), Some(8)).unwrap() {
        MediaType::TvShow(id) => assert_eq!(id, 7),
        other => panic!("unexpected {other:?}"),
    }
    match resolve_media("iron-man", None, Some(8)).unwrap() {
        MediaType::Movie { id, slug } => {
            assert_eq!(id, 8);
            assert_eq!(slug, "iron-man");
        }
        other => panic!("unexpected {other:?}"),
    }
}

#[test]
fn selected_episodes_keep_their_order() {
    let items = vec![
        episode(1, Some(3), "c", "s"),
        episode(2, Some(1), "a", "s"),
        episode(3, None, "x", "s"),
        episode(4, Some(2), "b", "s"),
        episode(5, Some(5), "e", "s"),
    ];
    let selected = select_episodes(items, 3);
    let ids: Vec<i32> = selected.iter().map(|i| i.id).collect();
    assert_eq!(ids, vec![1, 3, 5]);
}

#[test]
fn cleaning_never_lengthens_subtitles() {
    for raw in [
        "",
        "WEBVTT\n\n\n\nRegion: a\n1\n00:00:01.000 --> 00:00:02.000 region:r3\nx",
        "no cleaning here",
        "\n\n\n\n\n",
    ] {
        assert!(clean_vtt_content(raw).chars().count() <= raw.chars().count());
    }
}

#[test]
fn well_formed_cues_give_one_dialogue_each_in_order() {
    let vtt = "WEBVTT\n\n1\n00:00:01.000 --> 00:00:02.500\nUn\n\n2\n00:00:03.000 --> 00:00:04.000\n<c.white>Dos</c>\nlinia\n\n";
    let ass = cat_show_downloader::subtitle_cleaner::convert_vtt_to_ass(vtt).unwrap();
    let dialogues: Vec<&str> = ass.lines().filter(|l| l.starts_with("Dialogue:")).collect();
    assert_eq!(
        dialogues,
        vec![
            "Dialogue: 0,0:00:01.00,0:00:02.50,Default,,0,0,0,,Un",
            "Dialogue: 0,0:00:03.00,0:00:04.00,Default,,0,0,0,,{\\c&H00FFFFFF&}Dos\\Nlinia",
        ]
    );
}

#[test]
fn movie_titles_made_from_slugs_name_files_after_the_slug() {
    for slug in ["iron-man", "x", "la-guerra-2-dels-mons"] {
        let item = cat_show_downloader::movie::movie_item(1, slug);
        assert_eq!(item.filename("mp4").unwrap(), format!("{slug}.mp4"));
        assert_eq!(item.filename("ca.vtt").unwrap(), format!("{slug}.ca.vtt"));
    }
}

#[test]
fn cue_numbers_between_cues_do_not_change_the_dialogues() {
    let vtt = "WEBVTT\n\n1\n00:00:01.000 --> 00:00:02.000\nA\n\n2\n00:00:03.000 --> 00:00:04.000\nB";
    let ass = cat_show_downloader::subtitle_cleaner::convert_vtt_to_ass(vtt).unwrap();
    assert_eq!(
        ass,
        format!(
            "{}Dialogue: 0,0:00:01.00,0:00:02.00,Default,,0,0,0,,A\nDialogue: 0,0:00:03.00,0:00:04.00,Default,,0,0,0,,B\n",
            cat_show_downloader::subtitle_cleaner::ASS_HEADER
        )
    );
    assert_eq!(
        cat_show_downloader::subtitle_cleaner::convert_vtt_to_ass("").unwrap(),
        cat_show_downloader::subtitle_cleaner::ASS_HEADER
    );
}
