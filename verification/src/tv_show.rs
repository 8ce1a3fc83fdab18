//! TV shows: finding the show id in its page, and the episodes to download.
use vstd::prelude::*;

use crate::error::Error;
use crate::models::{opt_view, MediaItem};
use crate::search::{all_captures, last_found, last_of, regex_group1_captures, regex_is_valid};
use crate::text::{
    chars_of, extend_str, parse_i32, parse_i32_spec, push_signed_decimal, signed_decimal, string_of,
};

verus! {

/// Root of the episode list response.
#[derive(Debug)]
pub struct EpisodesRoot {
    /// The main response payload.
    pub response: MainResponse,
}

/// The payload of the episode list response.
#[derive(Debug)]
pub struct MainResponse {
    /// The collection of episodes.
    pub items: Items,
}

/// The list of episodes.
#[derive(Debug)]
pub struct Items {
    /// The episodes, in the order of the response.
    pub item: Vec<Tv3Episode>,
}

/// One episode as the episode list API describes it.
#[derive(Debug)]
pub struct Tv3Episode {
    /// Internal 3cat episode id.
    pub id: i32,
    /// Episode number within the show.
    pub number_of_episode: i32,
    /// Permanent URL-friendly title.
    pub permatitle: String,
    /// Human-readable title, which may be absent or empty.
    pub title: Option<String>,
    /// Name of the show.
    pub tv_show_name: String,
}

/// The start of the page of a show, before its slug.
pub const TV3_TV_SHOW_PAGE_START: &'static str = "https://www.3cat.cat/3cat/";

/// The pattern whose last match in a show page holds the show id.
pub const PROGRAMATV_ID_PATTERN: &'static str = "programatv_id=(\\d+)";

/// The page of the show with the given slug.
pub fn tv_show_page_url(slug: &str) -> (url: String)
    ensures
        url@ == TV3_TV_SHOW_PAGE_START@ + slug@ + "/"@,
{
    let mut v = chars_of(TV3_TV_SHOW_PAGE_START);
    extend_str(&mut v, slug);
    extend_str(&mut v, "/");
    string_of(&v)
}

/// The show id that the search of a show page gave: `found` is what the
/// search for the last `programatv_id=` returned (the digits after it, none,
/// or the message of a pattern that did not compile).
///
/// # Errors
///
/// [`Error::Regex`] with the message when the search failed,
/// [`Error::TvShowIdRetrieval`] when it found nothing,
/// [`Error::ParseInt`] when the digits do not fit an `i32`.
pub fn tv_show_id_from_search(found: Result<Option<String>, String>) -> (r: Result<i32, Error>)
    ensures
        match found {
            Err(m) => r matches Err(Error::Regex(x)) && x@ == m@,
            Ok(None) => r matches Err(Error::TvShowIdRetrieval(x))
                && x@ == "No id found in the tv show page"@,
            Ok(Some(digits)) => match parse_i32_spec(digits@) {
                Ok(id) => r matches Ok(x) && x == id,
                Err(k) => r matches Err(Error::ParseInt(x)) && x == k,
            },
        },
{
    match found {
        Err(m) => Err(Error::Regex(m)),
        Ok(None) => Err(Error::TvShowIdRetrieval(String::from_str("No id found in the tv show page"))),
        Ok(Some(digits)) => {
            let v = chars_of(digits.as_str());
            match parse_i32(&v) {
                Ok(id) => Ok(id),
                Err(k) => Err(Error::ParseInt(k)),
            }
        },
    }
}

/// Finds the show id in the HTML of a show page: the number after the last
/// `programatv_id=`.
///
/// # Errors
///
/// [`Error::TvShowIdRetrieval`] when the page holds no id,
/// [`Error::ParseInt`] when the number does not fit an `i32`,
/// [`Error::Regex`] if the pattern does not compile.
pub fn extract_tv_show_id(html: &str) -> (r: Result<i32, Error>)
    ensures
        r matches Err(Error::Regex(_)) <==> !regex_is_valid(PROGRAMATV_ID_PATTERN@),
        regex_is_valid(PROGRAMATV_ID_PATTERN@) ==> match last_of(regex_group1_captures(PROGRAMATV_ID_PATTERN@, html@)) {
            None => r matches Err(Error::TvShowIdRetrieval(m)) && m@ == "No id found in the tv show page"@,
            Some(digits) => match parse_i32_spec(digits) {
                Ok(id) => r matches Ok(x) && x == id,
                Err(k) => r matches Err(Error::ParseInt(x)) && x == k,
            },
        },
{
    tv_show_id_from_search(last_found(all_captures(PROGRAMATV_ID_PATTERN, html)))
}

/// The start of the URL of a show's episode list, before the show id.
pub const TV3_EPISODE_LIST_URL_START: &'static str = "https://www.3cat.cat/api/3cat/dades/?queryKey=%5B%22tira%22%2C%7B%22url%22%3A%22%2F%2Fapi.3cat.cat%2Fvideos%3F_format%3Djson%26no_agrupacio%3DPUAGR_LLSIGN%26tipus_contingut%3DPPD%26items_pagina%3D1500%26pagina%3D1%26sdom%3Dimg%26version%3D2.0%26cache%3D180%26https%3Dtrue%26master%3Dyes%26programatv_id%3D";

/// The end of the URL of a show's episode list, after the show id.
pub const TV3_EPISODE_LIST_URL_END: &'static str = "%26origen%3Dauto%26perfil%3Dpc%22%7D%5D";

/// The URL of the episode list of a show.
pub fn episode_list_url(tv_show_id: i32) -> (url: String)
    ensures
        url@ == TV3_EPISODE_LIST_URL_START@ + signed_decimal(tv_show_id as int)
            + TV3_EPISODE_LIST_URL_END@,
{
    let mut v = chars_of(TV3_EPISODE_LIST_URL_START);
    push_signed_decimal(&mut v, tv_show_id as i64);
    extend_str(&mut v, TV3_EPISODE_LIST_URL_END);
    string_of(&v)
}

/// The title of an episode: its title, or its permanent title when the
/// title is absent or empty.
pub open spec fn episode_title(e: Tv3Episode) -> Seq<char> {
    match e.title {
        Some(t) => if t@.len() == 0 {
            e.permatitle@
        } else {
            t@
        },
        None => e.permatitle@,
    }
}

/// The media item of an episode of the list: id, title, number and show
/// name, without URLs yet.
pub open spec fn is_item_of_episode(item: MediaItem, e: Tv3Episode) -> bool {
    &&& item.id == e.id
    &&& item.title@ == episode_title(e)
    &&& item.video_url is None
    &&& item.subtitle_url is None
    &&& item.episode_number == Some(e.number_of_episode)
    &&& opt_view(item.tv_show_name) == Some(e.tv_show_name@)
}

/// The media items of the episodes of a list response, in order.
pub fn episodes_from_response(root: &EpisodesRoot) -> (items: Vec<MediaItem>)
    ensures
        items.len() == root.response.items.item.len(),
        forall|k: int|
            0 <= k < items.len() ==> is_item_of_episode(#[trigger] items[k], root.response.items.item[k]),
{
    let list = &root.response.items.item;
    let mut items: Vec<MediaItem> = Vec::new();
    for k in 0..list.len()
        invariant
            items.len() == k,
            forall|j: int| 0 <= j < k ==> is_item_of_episode(#[trigger] items[j], list[j]),
    {
        let e = &list[k];
        let title = match &e.title {
            Some(t) => if t.as_str().is_empty() {
                e.permatitle.clone()
            } else {
                t.clone()
            },
            None => e.permatitle.clone(),
        };
        items.push(
            MediaItem {
                id: e.id,
                title,
                video_url: None,
                subtitle_url: None,
                episode_number: Some(e.number_of_episode),
                tv_show_name: Some(e.tv_show_name.clone()),
            },
        );
    }
    items
}

/// An episode is downloaded unless its number is below the first one asked for.
pub open spec fn is_wanted(item: MediaItem, start_from_episode: i32) -> bool {
    match item.episode_number {
        Some(n) => n >= start_from_episode,
        None => true,
    }
}

/// The wanted items of `items`, in order.
pub open spec fn wanted_items(items: Seq<MediaItem>, start_from_episode: i32) -> Seq<MediaItem>
    decreases items.len(),
{
    if items.len() == 0 {
        Seq::empty()
    } else if is_wanted(items[0], start_from_episode) {
        seq![items[0]] + wanted_items(items.drop_first(), start_from_episode)
    } else {
        wanted_items(items.drop_first(), start_from_episode)
    }
}

/// Keeps the episodes to download: those numbered `start_from_episode` or
/// later, and those without a number, in their order.
pub fn select_episodes(items: Vec<MediaItem>, start_from_episode: i32) -> (selected: Vec<MediaItem>)
    ensures
        selected@ == wanted_items(items@, start_from_episode),
{
    let ghost all = items@;
    let mut rest = items;
    let mut selected: Vec<MediaItem> = Vec::new();
    while rest.len() > 0
        invariant
            wanted_items(all, start_from_episode) == selected@ + wanted_items(rest@, start_from_episode),
        decreases rest.len(),
    {
        let ghost before = rest@;
        let item = rest.remove(0);
        assert(rest@ == before.drop_first());
        let keep = match item.episode_number {
            Some(n) => n >= start_from_episode,
            None => true,
        };
        if keep {
            let ghost s = selected@;
            selected.push(item);
            assert(selected@ == s + seq![before[0]]);
        }
    }
    selected
}

} // verus!
