//! Movies: finding the movie id in the catalog, and the media item to download.
use vstd::prelude::*;

use crate::error::Error;
use crate::models::MediaItem;
use crate::slug::dashes_to_spaces;
use crate::search::{first_capture, regex_first_capture, regex_is_valid};
use crate::text::{chars_of, eq_str, extend_str, string_of};

verus! {

/// Root of the `__NEXT_DATA__` JSON of the catalog page.
#[derive(Debug)]
pub struct CatalogRoot {
    /// Top-level props.
    pub props: CatalogProps,
}

/// The page-specific props.
#[derive(Debug)]
pub struct CatalogProps {
    /// Page props holding the layout.
    pub page_props: PageProps,
}

/// The page props.
#[derive(Debug)]
pub struct PageProps {
    /// The layout of the page.
    pub layout: Layout,
}

/// The layout of the catalog page.
#[derive(Debug)]
pub struct Layout {
    /// The structural components of the page, in order.
    pub structure: Vec<StructureEntry>,
}

/// One structural component.
#[derive(Debug)]
pub struct StructureEntry {
    /// Its child components (empty when absent).
    pub children: Vec<ChildEntry>,
}

/// A child component.
#[derive(Debug)]
pub struct ChildEntry {
    /// Its resolved props.
    pub final_props: FinalProps,
}

/// Resolved props, which may list movies.
#[derive(Debug)]
pub struct FinalProps {
    /// The movies listed (empty when absent).
    pub items: Vec<MovieItem>,
}

/// One movie of the catalog.
#[derive(Debug)]
pub struct MovieItem {
    /// Internal 3cat movie id.
    pub id: i32,
    /// URL-friendly slug (e.g. `"iron-man"`).
    pub nom_friendly: String,
}

/// The page of the movie catalog.
pub const MOVIES_CATALOG_URL: &'static str = "https://www.3cat.cat/3cat/tot-cataleg/pellicules/";

/// The pattern whose first match in the catalog page holds its JSON data.
pub const NEXT_DATA_PATTERN: &'static str = "(?s)<script\\s+id=\"__NEXT_DATA__\"\\s+type=\"application/json\">\\s*(.*?)\\s*</script>";

/// The JSON data that the search of the catalog page gave: `found` is what
/// the search for its `__NEXT_DATA__` script returned (the script's content,
/// none, or the message of a pattern that did not compile).
///
/// # Errors
///
/// [`Error::Regex`] with the message when the search failed,
/// [`Error::MovieIdRetrieval`] when it found nothing.
pub fn catalog_json_from_search(found: Result<Option<String>, String>) -> (r: Result<String, Error>)
    ensures
        match found {
            Err(m) => r matches Err(Error::Regex(x)) && x@ == m@,
            Ok(None) => r matches Err(Error::MovieIdRetrieval(x))
                && x@ == "Could not find __NEXT_DATA__ script tag"@,
            Ok(Some(json)) => r matches Ok(x) && x@ == json@,
        },
{
    match found {
        Err(m) => Err(Error::Regex(m)),
        Ok(None) => Err(Error::MovieIdRetrieval(String::from_str("Could not find __NEXT_DATA__ script tag"))),
        Ok(Some(json)) => Ok(json),
    }
}

/// Finds the JSON data embedded in the catalog page (its `__NEXT_DATA__`
/// script).
///
/// # Errors
///
/// [`Error::MovieIdRetrieval`] when the page holds no such script,
/// [`Error::Regex`] if the pattern does not compile.
pub fn extract_catalog_json(html: &str) -> (r: Result<String, Error>)
    ensures
        r matches Err(Error::Regex(_)) <==> !regex_is_valid(NEXT_DATA_PATTERN@),
        regex_is_valid(NEXT_DATA_PATTERN@) ==> match regex_first_capture(NEXT_DATA_PATTERN@, html@) {
            None => r matches Err(Error::MovieIdRetrieval(m))
                && m@ == "Could not find __NEXT_DATA__ script tag"@,
            Some(json) => r matches Ok(x) && x@ == json,
        },
{
    catalog_json_from_search(first_capture(NEXT_DATA_PATTERN, html))
}

/// The id of the first movie of `items` with slug `slug`.
pub open spec fn find_in_items(items: Seq<MovieItem>, slug: Seq<char>) -> Option<i32>
    decreases items.len(),
{
    if items.len() == 0 {
        None
    } else if items[0].nom_friendly@ == slug {
        Some(items[0].id)
    } else {
        find_in_items(items.drop_first(), slug)
    }
}

/// The id of the first movie with slug `slug` among the children, in order.
pub open spec fn find_in_children(children: Seq<ChildEntry>, slug: Seq<char>) -> Option<i32>
    decreases children.len(),
{
    if children.len() == 0 {
        None
    } else {
        match find_in_items(children[0].final_props.items@, slug) {
            Some(id) => Some(id),
            None => find_in_children(children.drop_first(), slug),
        }
    }
}

/// The id of the first movie with slug `slug` in the structure, in order.
pub open spec fn find_in_structure(entries: Seq<StructureEntry>, slug: Seq<char>) -> Option<i32>
    decreases entries.len(),
{
    if entries.len() == 0 {
        None
    } else {
        match find_in_children(entries[0].children@, slug) {
            Some(id) => Some(id),
            None => find_in_structure(entries.drop_first(), slug),
        }
    }
}

fn search_items(items: &Vec<MovieItem>, slug: &str) -> (r: Option<i32>)
    ensures
        r == find_in_items(items@, slug@),
{
    let mut k: usize = 0;
    assert(items@.skip(0) == items@);
    while k < items.len()
        invariant
            k <= items.len(),
            find_in_items(items@, slug@) == find_in_items(items@.skip(k as int), slug@),
        decreases items.len() - k,
    {
        let v = chars_of(items[k].nom_friendly.as_str());
        assert(items@.skip(k as int)[0] == items@[k as int]);
        if eq_str(&v, slug) {
            return Some(items[k].id);
        }
        assert(items@.skip(k as int).drop_first() == items@.skip(k + 1));
        k += 1;
    }
    None
}

fn search_children(children: &Vec<ChildEntry>, slug: &str) -> (r: Option<i32>)
    ensures
        r == find_in_children(children@, slug@),
{
    let mut k: usize = 0;
    assert(children@.skip(0) == children@);
    while k < children.len()
        invariant
            k <= children.len(),
            find_in_children(children@, slug@) == find_in_children(children@.skip(k as int), slug@),
        decreases children.len() - k,
    {
        assert(children@.skip(k as int)[0] == children@[k as int]);
        match search_items(&children[k].final_props.items, slug) {
            Some(id) => {
                return Some(id);
            },
            None => {},
        }
        assert(children@.skip(k as int).drop_first() == children@.skip(k + 1));
        k += 1;
    }
    None
}

/// Finds the id of the movie whose slug is `slug`: the first in catalog
/// order (structure entries, their children, their items).
///
/// # Errors
///
/// [`Error::MovieIdRetrieval`] when no movie of the catalog has that slug.
pub fn find_movie_id(catalog: &CatalogRoot, slug: &str) -> (r: Result<i32, Error>)
    ensures
        find_in_structure(catalog.props.page_props.layout.structure@, slug@) matches Some(id) ==> (r matches Ok(x) && x == id),
        find_in_structure(catalog.props.page_props.layout.structure@, slug@) is None ==> (r matches Err(Error::MovieIdRetrieval(m))
            && m@ == "Movie with slug '"@ + slug@ + "' not found in catalog"@),
        r is Err <==> forall|i: int, j: int, k: int|
            !#[trigger] slug_at(catalog.props.page_props.layout.structure@, i, j, k, slug@),
        r matches Ok(id) ==> exists|i: int, j: int, k: int|
            #[trigger] slug_at(catalog.props.page_props.layout.structure@, i, j, k, slug@) && id_at(
                catalog.props.page_props.layout.structure@,
                i,
                j,
                k,
            ) == id && forall|a: int, b: int, c: int|
                comes_before(a, b, c, i, j, k) ==> !#[trigger] slug_at(
                    catalog.props.page_props.layout.structure@,
                    a,
                    b,
                    c,
                    slug@,
                ),
{
    let entries = &catalog.props.page_props.layout.structure;
    let mut k: usize = 0;
    assert(entries@.skip(0) == entries@);
    while k < entries.len()
        invariant
            k <= entries.len(),
            entries@ == catalog.props.page_props.layout.structure@,
            find_in_structure(entries@, slug@) == find_in_structure(entries@.skip(k as int), slug@),
        decreases entries.len() - k,
    {
        assert(entries@.skip(k as int)[0] == entries@[k as int]);
        let found = search_children(&entries[k].children, slug);
        assert(find_in_structure(entries@.skip(k as int), slug@) == match find_in_children(
            entries@[k as int].children@,
            slug@,
        ) {
            Some(id) => Some(id),
            None => find_in_structure(entries@.skip(k as int).drop_first(), slug@),
        });
        match found {
            Some(id) => {
                proof {
                    catalog_search_finds_the_first_exact_slug(entries@, slug@);
                }
                return Ok(id);
            },
            None => {},
        }
        assert(entries@.skip(k as int).drop_first() == entries@.skip(k + 1));
        k += 1;
    }
    proof {
        catalog_search_finds_the_first_exact_slug(entries@, slug@);
    }
    let mut m = chars_of("Movie with slug '");
    extend_str(&mut m, slug);
    extend_str(&mut m, "' not found in catalog");
    Err(Error::MovieIdRetrieval(string_of(&m)))
}

/// The media item of a movie: its id, and its slug with spaces for dashes
/// as title.
pub fn movie_item(movie_id: i32, slug: &str) -> (item: MediaItem)
    ensures
        item.id == movie_id,
        item.title@ == dashes_to_spaces(slug@),
        item.video_url is None,
        item.subtitle_url is None,
        item.episode_number is None,
        item.tv_show_name is None,
{
    let v = chars_of(slug);
    let mut t: Vec<char> = Vec::new();
    for k in 0..v.len()
        invariant
            t@ == dashes_to_spaces(v@.take(k as int)),
    {
        t.push(if v[k] == '-' {
            ' '
        } else {
            v[k]
        });
        assert(t@ =~= dashes_to_spaces(v@.take(k + 1)));
    }
    assert(v@.take(v.len() as int) == v@);
    MediaItem {
        id: movie_id,
        title: string_of(&t),
        video_url: None,
        subtitle_url: None,
        episode_number: None,
        tv_show_name: None,
    }
}

/// The `k`-th item of `items` has slug `slug`.
pub open spec fn item_matches(items: Seq<MovieItem>, k: int, slug: Seq<char>) -> bool {
    0 <= k < items.len() && items[k].nom_friendly@ == slug
}

/// Item `k` of child `j` has slug `slug`.
pub open spec fn child_matches(children: Seq<ChildEntry>, j: int, k: int, slug: Seq<char>) -> bool {
    0 <= j < children.len() && item_matches(children[j].final_props.items@, k, slug)
}

/// Item `k` of child `j` of structure entry `i` has slug `slug`.
pub open spec fn slug_at(entries: Seq<StructureEntry>, i: int, j: int, k: int, slug: Seq<char>) -> bool {
    0 <= i < entries.len() && child_matches(entries[i].children@, j, k, slug)
}

/// The id of item `k` of child `j` of structure entry `i`.
pub open spec fn id_at(entries: Seq<StructureEntry>, i: int, j: int, k: int) -> i32 {
    entries[i].children@[j].final_props.items@[k].id
}

/// `(a, b, c)` comes before `(i, j, k)` in catalog order.
pub open spec fn comes_before(a: int, b: int, c: int, i: int, j: int, k: int) -> bool {
    a < i || (a == i && b < j) || (a == i && b == j && c < k)
}

proof fn lemma_items_search(items: Seq<MovieItem>, slug: Seq<char>)
    ensures
        find_in_items(items, slug) is None ==> forall|k: int| !#[trigger] item_matches(items, k, slug),
        find_in_items(items, slug) matches Some(id) ==> exists|k: int|
            #[trigger] item_matches(items, k, slug) && items[k].id == id && forall|k2: int|
                k2 < k ==> !#[trigger] item_matches(items, k2, slug),
    decreases items.len(),
{
    if items.len() > 0 {
        let rest = items.drop_first();
        lemma_items_search(rest, slug);
        assert forall|k: int| 1 <= k < items.len() implies items[k] == rest[k - 1] by {}
        if items[0].nom_friendly@ == slug {
            assert(item_matches(items, 0, slug));
        } else {
            assert forall|k: int| #[trigger] item_matches(items, k, slug) implies item_matches(rest, k - 1, slug) by {
                assert(k != 0);
            }
            if let Some(id) = find_in_items(items, slug) {
                let k = choose|k: int|
                    #[trigger] item_matches(rest, k, slug) && rest[k].id == id && forall|k2: int|
                        k2 < k ==> !#[trigger] item_matches(rest, k2, slug);
                assert(item_matches(items, k + 1, slug));
                assert forall|k2: int| k2 < k + 1 implies !#[trigger] item_matches(items, k2, slug) by {
                    if k2 > 0 && item_matches(items, k2, slug) {
                        assert(item_matches(rest, k2 - 1, slug));
                    }
                }
            }
        }
    }
}

proof fn lemma_children_search(children: Seq<ChildEntry>, slug: Seq<char>)
    ensures
        find_in_children(children, slug) is None ==> forall|j: int, k: int|
            !#[trigger] child_matches(children, j, k, slug),
        find_in_children(children, slug) matches Some(id) ==> exists|j: int, k: int|
            #[trigger] child_matches(children, j, k, slug) && children[j].final_props.items@[k].id
                == id && forall|j2: int, k2: int|
                (j2 < j || (j2 == j && k2 < k)) ==> !#[trigger] child_matches(children, j2, k2, slug),
    decreases children.len(),
{
    if children.len() > 0 {
        let rest = children.drop_first();
        lemma_children_search(rest, slug);
        let items = children[0].final_props.items@;
        lemma_items_search(items, slug);
        assert forall|j: int| 1 <= j < children.len() implies children[j] == rest[j - 1] by {}
        match find_in_items(items, slug) {
            Some(id) => {
                let k = choose|k: int|
                    #[trigger] item_matches(items, k, slug) && items[k].id == id && forall|k2: int|
                        k2 < k ==> !#[trigger] item_matches(items, k2, slug);
                assert(child_matches(children, 0, k, slug));
                assert forall|j2: int, k2: int| (j2 < 0 || (j2 == 0 && k2 < k)) implies !#[trigger] child_matches(children, j2, k2, slug) by {
                    if j2 == 0 && child_matches(children, j2, k2, slug) {
                        assert(item_matches(items, k2, slug));
                    }
                }
            },
            None => {
                assert forall|j: int, k: int| #[trigger] child_matches(children, j, k, slug) implies child_matches(rest, j - 1, k, slug) by {
                    if j == 0 {
                        assert(item_matches(items, k, slug));
                    }
                }
                if let Some(id) = find_in_children(children, slug) {
                    let (j, k) = choose|j: int, k: int|
                        #[trigger] child_matches(rest, j, k, slug) && rest[j].final_props.items@[k].id
                            == id && forall|j2: int, k2: int|
                            (j2 < j || (j2 == j && k2 < k)) ==> !#[trigger] child_matches(rest, j2, k2, slug);
                    assert(child_matches(children, j + 1, k, slug));
                    assert forall|j2: int, k2: int| (j2 < j + 1 || (j2 == j + 1 && k2 < k)) implies !#[trigger] child_matches(children, j2, k2, slug) by {
                        if child_matches(children, j2, k2, slug) {
                            if j2 == 0 {
                                assert(item_matches(items, k2, slug));
                            } else {
                                assert(child_matches(rest, j2 - 1, k2, slug));
                            }
                        }
                    }
                }
            },
        }
    }
}

/// The catalog search finds exactly the movies named by the slug: it finds
/// nothing only when no item of any child of any structure entry has that
/// slug, and what it finds is the id of an item whose slug is exactly the
/// one asked for, the first such item in catalog order (entries, then
/// children, then items).
pub proof fn catalog_search_finds_the_first_exact_slug(entries: Seq<StructureEntry>, slug: Seq<char>)
    ensures
        find_in_structure(entries, slug) is None <==> forall|i: int, j: int, k: int|
            !#[trigger] slug_at(entries, i, j, k, slug),
        find_in_structure(entries, slug) matches Some(id) ==> exists|i: int, j: int, k: int|
            #[trigger] slug_at(entries, i, j, k, slug) && id_at(entries, i, j, k) == id && forall|
                a: int,
                b: int,
                c: int,
            | comes_before(a, b, c, i, j, k) ==> !#[trigger] slug_at(entries, a, b, c, slug),
    decreases entries.len(),
{
    if entries.len() > 0 {
        let rest = entries.drop_first();
        catalog_search_finds_the_first_exact_slug(rest, slug);
        let children = entries[0].children@;
        lemma_children_search(children, slug);
        assert forall|i: int| 1 <= i < entries.len() implies entries[i] == rest[i - 1] by {}
        match find_in_children(children, slug) {
            Some(id) => {
                let (j, k) = choose|j: int, k: int|
                    #[trigger] child_matches(children, j, k, slug) && children[j].final_props.items@[k].id
                        == id && forall|j2: int, k2: int|
                        (j2 < j || (j2 == j && k2 < k)) ==> !#[trigger] child_matches(children, j2, k2, slug);
                assert(slug_at(entries, 0, j, k, slug));
                assert forall|a: int, b: int, c: int| comes_before(a, b, c, 0, j, k) implies !#[trigger] slug_at(entries, a, b, c, slug) by {
                    if a == 0 && slug_at(entries, a, b, c, slug) {
                        assert(child_matches(children, b, c, slug));
                    }
                }
            },
            None => {
                assert forall|i: int, j: int, k: int| #[trigger] slug_at(entries, i, j, k, slug) implies slug_at(rest, i - 1, j, k, slug) by {
                    if i == 0 {
                        assert(child_matches(children, j, k, slug));
                    }
                }
                if let Some(id) = find_in_structure(entries, slug) {
                    let (i, j, k) = choose|i: int, j: int, k: int|
                        #[trigger] slug_at(rest, i, j, k, slug) && id_at(rest, i, j, k) == id && forall|
                            a: int,
                            b: int,
                            c: int,
                        | comes_before(a, b, c, i, j, k) ==> !#[trigger] slug_at(rest, a, b, c, slug);
                    assert(slug_at(entries, i + 1, j, k, slug));
                    assert(id_at(entries, i + 1, j, k) == id);
                    assert forall|a: int, b: int, c: int| comes_before(a, b, c, i + 1, j, k) implies !#[trigger] slug_at(entries, a, b, c, slug) by {
                        if slug_at(entries, a, b, c, slug) {
                            if a == 0 {
                                assert(child_matches(children, b, c, slug));
                            } else {
                                assert(slug_at(rest, a - 1, b, c, slug));
                                assert(comes_before(a - 1, b, c, i, j, k));
                            }
                        }
                    }
                } else {
                    assert forall|i: int, j: int, k: int| !#[trigger] slug_at(entries, i, j, k, slug) by {
                        if slug_at(entries, i, j, k, slug) {
                            assert(slug_at(rest, i - 1, j, k, slug));
                        }
                    }
                }
            },
        }
    } else {
        assert forall|i: int, j: int, k: int| !#[trigger] slug_at(entries, i, j, k, slug) by {}
    }
}

} // verus!
