use cat_show_downloader::seasons::models::Episode;

#[test]
fn episode_filename_test() {
    let episode = Episode::new(
        "T1xC7 - Veureu una cosa al·lucinant i màgica!".to_string(),
        "".to_string(),
        7,
        1,
        "Tv show name".to_string(),
    );
    assert_eq!(
        episode.filename(),
        "S01E07 - T1xC7 - Veureu una cosa allucinant i magica"
    );

    let episode_ova = Episode::new(
        "T1xC7 - Veureu una cosa al·lucinant i màgica!".to_string(),
        "".to_string(),
        7,
        1,
        "Tv show name (OVA)".to_string(),
    );
    assert_eq!(
        episode_ova.filename(),
        "S01E07 (OVA) - T1xC7 - Veureu una cosa allucinant i magica"
    );
}
