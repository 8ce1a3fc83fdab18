//! Resolving a 3cat slug into a TV show or a movie.
use vstd::prelude::*;

use crate::error::Error;
use crate::text::{chars_of, extend_str, string_of};

verus! {

/// The kind of media a slug names, with its internal id.
#[derive(Debug)]
pub enum MediaType {
    /// A TV show, with its `programatv_id`.
    TvShow(i32),
    /// A movie, with its id and its slug.
    Movie {
        /// Internal 3cat movie id.
        id: i32,
        /// The slug of the movie page.
        slug: String,
    },
}

/// Decides what a slug names from the two lookups, the TV show lookup
/// first: a TV show id wins; otherwise a movie id; otherwise the slug is
/// resolved as neither. The movie lookup is only consulted when the TV show
/// lookup found nothing.
///
/// # Errors
///
/// [`Error::MediaIdRetrieval`] when neither lookup found an id.
pub fn resolve_media(slug: &str, tv_show_id: Option<i32>, movie_id: Option<i32>) -> (r: Result<MediaType, Error>)
    ensures
        tv_show_id matches Some(id) ==> (r matches Ok(MediaType::TvShow(x)) && x == id),
        tv_show_id is None && movie_id is Some ==> (r matches Ok(MediaType::Movie { id, slug: s })
            && id == movie_id.unwrap() && s@ == slug@),
        tv_show_id is None && movie_id is None ==> (r matches Err(Error::MediaIdRetrieval(m)) && m@
            == "Could not resolve '"@ + slug@ + "' as a TV show or a movie"@),
{
    match tv_show_id {
        Some(id) => Ok(MediaType::TvShow(id)),
        None => match movie_id {
            Some(id) => Ok(MediaType::Movie { id, slug: String::from_str(slug) }),
            None => {
                let mut m = chars_of("Could not resolve '");
                extend_str(&mut m, slug);
                extend_str(&mut m, "' as a TV show or a movie");
                Err(Error::MediaIdRetrieval(string_of(&m)))
            },
        },
    }
}

} // verus!
