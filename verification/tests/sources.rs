use cat_show_downloader::movie::{
    extract_catalog_json, find_movie_id, movie_item, CatalogProps, CatalogRoot, ChildEntry,
    FinalProps, Layout, MovieItem, PageProps, StructureEntry, MOVIES_CATALOG_URL,
};
use cat_show_downloader::search::{all_captures, first_capture, last_found};
use cat_show_downloader::slug::{slugify, to_lowercase, transliterate};
use cat_show_downloader::subtitle_cleaner::{css_background_to_ass_bgr, css_color_to_ass_bgr};
use cat_show_downloader::tv_show::{
    episode_list_url, episodes_from_response, extract_tv_show_id, tv_show_id_from_search,
    tv_show_page_url, EpisodesRoot, Items, MainResponse, Tv3Episode,
};

fn catalog(entries: Vec<Vec<Vec<(i32, &str)>>>) -> CatalogRoot {
    CatalogRoot {
        props: CatalogProps {
            page_props: PageProps {
                layout: Layout {
                    structure: entries
                        .into_iter()
                        .map(|children| StructureEntry {
                            children: children
                                .into_iter()
                                .map(|items| ChildEntry {
                                    final_props: FinalProps {
                                        items: items
                                            .into_iter()
                                            .map(|(id, slug)| MovieItem {
                                                id,
                                                nom_friendly: slug.to_string(),
                                            })
                                            .collect(),
                                    },
                                })
                                .collect(),
                        })
                        .collect(),
                },
            },
        },
    }
}

#[test]
fn show_id_is_the_last_one_in_the_page() {
    let html = "<a href=\"x?programatv_id=123\">a</a> <div data=\"programatv_id=456&y\"></div>";
    assert_eq!(extract_tv_show_id(html).unwrap(), 456);
    assert_eq!(tv_show_id_from_search(Ok(Some("789".to_string()))).unwrap(), 789);
}

#[test]
fn show_and_episode_list_urls() {
    assert_eq!(tv_show_page_url("bola-de-drac"), "https://www.3cat.cat/3cat/bola-de-drac/");
    let url = episode_list_url(1234);
    assert!(url.starts_with("https://www.3cat.cat/api/3cat/dades/?queryKey="));
    assert!(url.contains("%26programatv_id%3D1234%26origen%3Dauto"));
    assert!(url.ends_with("%26origen%3Dauto%26perfil%3Dpc%22%7D%5D"));
}

#[test]
fn episodes_of_a_list_response() {
    let root = EpisodesRoot {
        response: MainResponse {
            items: Items {
                item: vec![
                    Tv3Episode {
                        id: 10,
                        number_of_episode: 1,
                        permatitle: "el-primer".to_string(),
                        title: Some("El primer".to_string()),
                        tv_show_name: "Serie".to_string(),
                    },
                    Tv3Episode {
                        id: 11,
                        number_of_episode: 2,
                        permatitle: "el-segon".to_string(),
                        title: Some(String::new()),
                        tv_show_name: "Serie".to_string(),
                    },
                    Tv3Episode {
                        id: 12,
                        number_of_episode: 3,
                        permatitle: "el-tercer".to_string(),
                        title: None,
                        tv_show_name: "Serie".to_string(),
                    },
                ],
            },
        },
    };
    let items = episodes_from_response(&root);
    assert_eq!(items.len(), 3);
    assert_eq!(items[0].id, 10);
    assert_eq!(items[0].title, "El primer");
    assert_eq!(items[1].title, "el-segon");
    assert_eq!(items[2].title, "el-tercer");
    assert_eq!(items[2].episode_number, Some(3));
    assert_eq!(items[2].tv_show_name.as_deref(), Some("Serie"));
    assert!(items.iter().all(|i| i.video_url.is_none() && i.subtitle_url.is_none()));
}

#[test]
fn catalog_json_is_the_next_data_script() {
    let html = "<html><script id=\"__NEXT_DATA__\" type=\"application/json\">\n  {\"props\":{}}  \n</script></html>";
    assert_eq!(extract_catalog_json(html).unwrap(), "{\"props\":{}}");
    assert!(MOVIES_CATALOG_URL.ends_with("/pellicules/"));
}

#[test]
fn movie_ids_are_found_in_catalog_order() {
    let c = catalog(vec![
        vec![vec![(1, "thor")], vec![(2, "iron-man"), (3, "hulk")]],
        vec![vec![(4, "iron-man")]],
    ]);
    assert_eq!(find_movie_id(&c, "iron-man").unwrap(), 2);
    assert_eq!(find_movie_id(&c, "hulk").unwrap(), 3);
    assert_eq!(find_movie_id(&c, "thor").unwrap(), 1);
}

#[test]
fn movie_items_take_their_title_from_the_slug() {
    let m = movie_item(42, "el-far-west");
    assert_eq!(m.id, 42);
    assert_eq!(m.title, "el far west");
    assert!(m.video_url.is_none() && m.subtitle_url.is_none());
    assert!(m.episode_number.is_none() && m.tv_show_name.is_none());
    assert_eq!(m.filename("mp4").unwrap(), "el-far-west.mp4");
}

#[test]
fn outside_text_functions_change_their_input() {
    assert_eq!(transliterate("Àlex i Núria"), "Alex i Nuria");
    assert_eq!(to_lowercase("ÀLEX"), "àlex");
    assert_eq!(slugify("ÀLEX"), "alex");
    assert_eq!(
        first_capture("b(\\d+)", "a1 b22 b333").unwrap(),
        Some("22".to_string())
    );
    assert_eq!(
        all_captures("b(\\d+)", "a1 b22 b333").unwrap(),
        vec![Some("22".to_string()), Some("333".to_string())]
    );
    assert_eq!(
        all_captures("b(\\d+)|c", "b1 c").unwrap(),
        vec![Some("1".to_string()), None]
    );
    assert_eq!(
        last_found(all_captures("b(\\d+)", "a1 b22 b333")).unwrap(),
        Some("333".to_string())
    );
    assert_eq!(last_found(Ok(vec![])).unwrap(), None);
    assert_eq!(last_found(Err("bad".to_string())).unwrap_err(), "bad");
    assert_eq!(first_capture("x(\\d+)", "a1").unwrap(), None);
    assert!(first_capture("(", "a").is_err());
}

#[test]
fn css_classes_map_to_ass_colours() {
    assert_eq!(css_color_to_ass_bgr("white"), Some("&H00FFFFFF&"));
    assert_eq!(css_color_to_ass_bgr("red"), Some("&H000000FF&"));
    assert_eq!(css_color_to_ass_bgr("blue"), Some("&H00FF0000&"));
    assert_eq!(css_color_to_ass_bgr("magenta"), Some("&H00FF00FF&"));
    assert_eq!(css_color_to_ass_bgr("purple"), None);
    assert_eq!(css_background_to_ass_bgr("background-black"), Some("&H00000000&"));
    assert_eq!(css_background_to_ass_bgr("background-white"), Some("&H00FFFFFF&"));
    assert_eq!(css_background_to_ass_bgr("background-yellow"), Some("&H0000FFFF&"));
    assert_eq!(css_background_to_ass_bgr("background-red"), Some("&H000000FF&"));
    assert_eq!(css_background_to_ass_bgr("white"), None);
}
