use cat_show_downloader::models::MediaItem;


#[test]
fn test_should_generate_correct_filename_for_episode() {
    let item = MediaItem {
        id: 1,
        title: "T1xC7 - Veureu una cosa al·lucinant i màgica!".to_string(),
        video_url: None,
        subtitle_url: None,
        episode_number: Some(7),
        tv_show_name: Some("Tv show name".to_string()),
    };
    assert_eq!(
        item.filename("mp4").unwrap(),
        "7-t1xc7-veureu-una-cosa-allucinant-i-magica.mp4"
    );
}

#[test]
fn test_should_prefix_ova_in_filename() {
    let item = MediaItem {
        id: 1,
        title: "T1xC7 - Veureu una cosa al·lucinant!".to_string(),
        video_url: None,
        subtitle_url: None,
        episode_number: Some(7),
        tv_show_name: Some("Tv show name (OVA)".to_string()),
    };
    assert_eq!(
        item.filename("mp4").unwrap(),
        "ova-7-t1xc7-veureu-una-cosa-allucinant.mp4"
    );
}

#[test]
fn test_should_generate_filename_for_movie() {
    let item = MediaItem {
        id: 42,
        title: "El secret de la cova".to_string(),
        video_url: None,
        subtitle_url: None,
        episode_number: None,
        tv_show_name: None,
    };
    assert_eq!(item.filename("mp4").unwrap(), "el-secret-de-la-cova.mp4");
}

