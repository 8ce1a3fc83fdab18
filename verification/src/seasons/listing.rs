//! The 3cat URLs of the season-based pipeline.
use vstd::prelude::*;

use crate::text::{chars_of, extend_str, push_signed_decimal, signed_decimal, string_of};

verus! {

/// The start of the URL of an episode page, before the episode id.
pub const EPISODE_PAGE_URL_START: &'static str = "https://www.3cat.cat/3cat/t/video/";

/// The URL of the page of an episode: `https://www.3cat.cat/3cat/t/video/{id}/`.
pub fn episode_page_url(id: i32) -> (url: String)
    ensures
        url@ == EPISODE_PAGE_URL_START@ + signed_decimal(id as int) + "/"@,
{
    let mut v = chars_of(EPISODE_PAGE_URL_START);
    push_signed_decimal(&mut v, id as i64);
    extend_str(&mut v, "/");
    string_of(&v)
}

/// The URL of a season's episode list, before the show id.
pub const SEASON_LIST_URL_START: &'static str = "https://www.3cat.cat/api/3cat/dades/?queryKey=%5B%22tira%22%2C%7B%22url%22%3A%22https%3A%2F%2Fapi.3cat.cat%2Fvideos%3F_format%3Djson%26ordre%3Dcapitol%26origen%3Dllistat%26perfil%3Dpc%26programatv_id%3D";

/// The URL of a season's episode list, between the show id and the season.
pub const SEASON_LIST_URL_MIDDLE: &'static str = "%26tipus_contingut%3DPPD%26items_pagina%3D1000%26pagina%3D1%26sdom%3Dimg%26version%3D2.0%26cache%3D180%26temporada%3DPUTEMP_";

/// The URL of a season's episode list, after the season number.
pub const SEASON_LIST_URL_END: &'static str = "%26https%3Dtrue%26master%3Dyes%26perfils_extra%3Dimatges_minim_master%22%2C%22moduleName%22%3A%22BlocDeContinguts%22%7D%5D";

/// The URL of the episode list of one season of a show.
pub fn season_episode_list_url(tv_show_id: i32, season_number: i32) -> (url: String)
    ensures
        url@ == SEASON_LIST_URL_START@ + signed_decimal(tv_show_id as int) + SEASON_LIST_URL_MIDDLE@
            + signed_decimal(season_number as int) + SEASON_LIST_URL_END@,
{
    let mut v = chars_of(SEASON_LIST_URL_START);
    push_signed_decimal(&mut v, tv_show_id as i64);
    extend_str(&mut v, SEASON_LIST_URL_MIDDLE);
    push_signed_decimal(&mut v, season_number as i64);
    extend_str(&mut v, SEASON_LIST_URL_END);
    string_of(&v)
}

} // verus!
