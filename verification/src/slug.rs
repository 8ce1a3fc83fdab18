//! Turning titles into file-name slugs.
use vstd::prelude::*;

use crate::text::{chars_of, is_ascii_digit, is_white_space, string_of, white_space};

verus! {

/// What `str::to_lowercase` (std) gives for a string: its full Unicode
/// lower-case mapping.
pub uninterp spec fn lowercase(s: Seq<char>) -> Seq<char>;

/// A character that has no lower-case mapping of its own in Unicode and is
/// already lower-case ASCII text: `a`-`z`, `0`-`9`, space or `-`.
pub open spec fn is_lower_ascii_text_char(c: char) -> bool {
    ('a' <= c && c <= 'z') || ('0' <= c && c <= '9') || c == ' ' || c == '-'
}

/// std's `str::to_lowercase`. The contract names the result and states the
/// one fact its documentation gives for such text: a character without a
/// lower-case mapping (here `a`-`z`, digits, space, `-`) maps to itself, so a
/// string made only of them comes back unchanged. The Unicode mapping
/// itself is not stated.
#[verifier::external_body]
pub fn to_lowercase(s: &str) -> (r: String)
    ensures
        r@ == lowercase(s@),
        (forall|i: int| 0 <= i < s@.len() ==> is_lower_ascii_text_char(#[trigger] s@[i])) ==> r@ == s@,
{
    s.to_lowercase()
}

/// What `unidecode::unidecode` gives for a string: its ASCII
/// transliteration, character by character.
pub uninterp spec fn transliteration(s: Seq<char>) -> Seq<char>;

/// `unidecode::unidecode`. As its documentation guarantees, the result is
/// ASCII and an ASCII string maps to itself; the transliteration table itself
/// is not stated.
#[verifier::external_body]
pub fn transliterate(s: &str) -> (r: String)
    ensures
        r@ == transliteration(s@),
        forall|i: int| 0 <= i < r@.len() ==> (r@[i] as u32) < 128,
        (forall|i: int| 0 <= i < s@.len() ==> (s@[i] as u32) < 128) ==> r@ == s@,
{
    unidecode::unidecode(s)
}

/// A character that the slug filter `[^a-z0-9\s-]` keeps.
pub open spec fn is_slug_char(c: char) -> bool {
    ('a' <= c && c <= 'z') || is_ascii_digit(c) || is_white_space(c) || c == '-'
}

/// `s` with only the characters that satisfy `keep`.
pub open spec fn keep_only(s: Seq<char>, keep: spec_fn(char) -> bool) -> Seq<char>
    decreases s.len(),
{
    if s.len() == 0 {
        Seq::empty()
    } else if keep(s.last()) {
        keep_only(s.drop_last(), keep).push(s.last())
    } else {
        keep_only(s.drop_last(), keep)
    }
}

/// `s` with every space written as `-`.
pub open spec fn spaces_to_dashes(s: Seq<char>) -> Seq<char> {
    s.map_values(|c: char|
        if c == ' ' {
            '-'
        } else {
            c
        })
}

/// `s` with every run of `-` shortened to one.
pub open spec fn collapse_dashes(s: Seq<char>) -> Seq<char>
    decreases s.len(),
{
    if s.len() == 0 {
        Seq::empty()
    } else if s.len() >= 2 && s.last() == '-' && s[s.len() - 2] == '-' {
        collapse_dashes(s.drop_last())
    } else {
        collapse_dashes(s.drop_last()).push(s.last())
    }
}

/// `s` without the `-` at its start.
pub open spec fn trim_start_dashes(s: Seq<char>) -> Seq<char>
    decreases s.len(),
{
    if s.len() > 0 && s[0] == '-' {
        trim_start_dashes(s.drop_first())
    } else {
        s
    }
}

/// `s` without the `-` at its end.
pub open spec fn trim_end_dashes(s: Seq<char>) -> Seq<char>
    decreases s.len(),
{
    if s.len() > 0 && s.last() == '-' {
        trim_end_dashes(s.drop_last())
    } else {
        s
    }
}

/// `s` without the `-` at either end (`trim_matches('-')`).
pub open spec fn trim_dashes(s: Seq<char>) -> Seq<char> {
    trim_end_dashes(trim_start_dashes(s))
}

/// The slug of a title: lower-cased, transliterated to ASCII, stripped of
/// everything but `a-z`, `0-9`, white space and `-`, with spaces as dashes,
/// runs of dashes shortened to one and no dash at either end.
pub open spec fn slug_of(title: Seq<char>) -> Seq<char> {
    let ascii = transliteration(lowercase(title));
    let kept = keep_only(ascii, |c: char| is_slug_char(c));
    trim_dashes(collapse_dashes(spaces_to_dashes(kept)))
}

/// Keeps the characters of `v` that satisfy the slug filter.
pub fn keep_slug_chars(v: &Vec<char>) -> (out: Vec<char>)
    ensures
        out@ == keep_only(v@, |c: char| is_slug_char(c)),
{
    let mut out: Vec<char> = Vec::new();
    for k in 0..v.len()
        invariant
            out@ == keep_only(v@.take(k as int), |c: char| is_slug_char(c)),
    {
        assert(v@.take(k + 1).drop_last() == v@.take(k as int));
        let c = v[k];
        if ('a' <= c && c <= 'z') || ('0' <= c && c <= '9') || white_space(c) || c == '-' {
            out.push(c);
        }
    }
    assert(v@.take(v.len() as int) == v@);
    out
}

/// Writes every space of `v` as `-`, then shortens runs of dashes to one.
pub fn dash_runs(v: &Vec<char>) -> (out: Vec<char>)
    ensures
        out@ == collapse_dashes(spaces_to_dashes(v@)),
{
    let ghost d = spaces_to_dashes(v@);
    let mut out: Vec<char> = Vec::new();
    for k in 0..v.len()
        invariant
            d == spaces_to_dashes(v@),
            out@ == collapse_dashes(d.take(k as int)),
    {
        let c = if v[k] == ' ' {
            '-'
        } else {
            v[k]
        };
        let ghost t = d.take(k + 1);
        assert(t.drop_last() == d.take(k as int));
        assert(t.last() == c);
        if c == '-' && k > 0 && (v[k - 1] == ' ' || v[k - 1] == '-') {
            assert(t[t.len() - 2] == '-');
        } else {
            out.push(c);
        }
    }
    assert(d.take(v.len() as int) == d);
    out
}

/// Removes the dashes at both ends of `v`.
pub fn strip_dashes(v: &Vec<char>) -> (out: Vec<char>)
    ensures
        out@ == trim_dashes(v@),
{
    let mut a: usize = 0;
    assert(v@.subrange(0, v.len() as int) == v@);
    while a < v.len() && v[a] == '-'
        invariant
            a <= v.len(),
            trim_start_dashes(v@) == trim_start_dashes(v@.subrange(a as int, v.len() as int)),
        decreases v.len() - a,
    {
        assert(v@.subrange(a as int, v.len() as int).drop_first() == v@.subrange(a + 1, v.len() as int));
        a += 1;
    }
    let mut b: usize = v.len();
    assert(trim_start_dashes(v@) == v@.subrange(a as int, b as int));
    while b > a && v[b - 1] == '-'
        invariant
            a <= b <= v.len(),
            trim_dashes(v@) == trim_end_dashes(v@.subrange(a as int, b as int)),
        decreases b,
    {
        assert(v@.subrange(a as int, b as int).drop_last() == v@.subrange(a as int, b - 1));
        b -= 1;
    }
    let mut out: Vec<char> = Vec::new();
    let mut k = a;
    while k < b
        invariant
            a <= k <= b <= v.len(),
            out@ == v@.subrange(a as int, k as int),
        decreases b - k,
    {
        out.push(v[k]);
        k += 1;
    }
    out
}

/// The slug of text that needs neither lower-casing nor transliteration
/// nor filtering: spaces as dashes, runs of dashes shortened, no dash at
/// either end.
pub open spec fn plain_slug(s: Seq<char>) -> Seq<char> {
    trim_dashes(collapse_dashes(spaces_to_dashes(s)))
}

/// The slug of a title. A title made only of `a`-`z`, digits, spaces and
/// dashes passes lower-casing and transliteration unchanged, so its slug is
/// its plain slug.
pub fn slugify(title: &str) -> (slug: String)
    ensures
        slug@ == slug_of(title@),
        (forall|i: int| 0 <= i < title@.len() ==> is_lower_ascii_text_char(#[trigger] title@[i]))
            ==> slug@ == plain_slug(title@),
{
    let lowered = to_lowercase(title);
    let ascii = transliterate(lowered.as_str());
    proof {
        if forall|i: int| 0 <= i < title@.len() ==> is_lower_ascii_text_char(#[trigger] title@[i]) {
            assert(lowered@ == title@);
            assert forall|i: int| 0 <= i < lowered@.len() implies (#[trigger] lowered@[i] as u32) < 128 by {
                assert(is_lower_ascii_text_char(title@[i]));
            }
            assert(ascii@ == title@);
            assert forall|i: int| 0 <= i < ascii@.len() implies is_slug_char(#[trigger] ascii@[i]) by {
                assert(is_lower_ascii_text_char(title@[i]));
            }
            lemma_keep_all(ascii@, |c: char| is_slug_char(c));
        }
    }
    let v = chars_of(ascii.as_str());
    let kept = keep_slug_chars(&v);
    let dashed = dash_runs(&kept);
    let stripped = strip_dashes(&dashed);
    string_of(&stripped)
}


/// Every character of `s` satisfies `q`.
pub open spec fn all_chars(s: Seq<char>, q: spec_fn(char) -> bool) -> bool {
    forall|i: int| 0 <= i < s.len() ==> q(#[trigger] s[i])
}

/// `s` holds no two dashes in a row.
pub open spec fn no_double_dash(s: Seq<char>) -> bool {
    forall|i: int| 0 <= i && i + 1 < s.len() ==> !(#[trigger] s[i] == '-' && s[i + 1] == '-')
}

/// A character that a slug may hold: a lower-case ASCII letter, an ASCII
/// digit, `-`, or white space other than the space.
pub open spec fn is_slug_output_char(c: char) -> bool {
    ('a' <= c && c <= 'z') || is_ascii_digit(c) || c == '-' || (is_white_space(c) && c != ' ')
}

proof fn lemma_keep_only(s: Seq<char>, keep: spec_fn(char) -> bool)
    ensures
        all_chars(keep_only(s, keep), keep),
    decreases s.len(),
{
    if s.len() > 0 {
        lemma_keep_only(s.drop_last(), keep);
        let p = keep_only(s.drop_last(), keep);
        if keep(s.last()) {
            assert forall|i: int| 0 <= i < p.push(s.last()).len() implies keep(#[trigger] p.push(s.last())[i]) by {
                if i < p.len() {
                    assert(p.push(s.last())[i] == p[i]);
                }
            }
        }
    }
}

proof fn lemma_collapse_dashes(s: Seq<char>, q: spec_fn(char) -> bool)
    requires
        all_chars(s, q),
    ensures
        all_chars(collapse_dashes(s), q),
        no_double_dash(collapse_dashes(s)),
        s.len() > 0 ==> collapse_dashes(s).len() > 0 && collapse_dashes(s).last() == s.last(),
    decreases s.len(),
{
    if s.len() > 0 {
        let d = s.drop_last();
        assert(all_chars(d, q)) by {
            assert forall|i: int| 0 <= i < d.len() implies q(#[trigger] d[i]) by {
                assert(d[i] == s[i]);
            }
        }
        lemma_collapse_dashes(d, q);
        let p = collapse_dashes(d);
        if s.len() >= 2 && s.last() == '-' && s[s.len() - 2] == '-' {
            assert(d.last() == s[s.len() - 2]);
        } else {
            let r = p.push(s.last());
            assert(q(s[s.len() - 1]));
            assert forall|i: int| 0 <= i < r.len() implies q(#[trigger] r[i]) by {
                if i < p.len() {
                    assert(r[i] == p[i]);
                }
            }
            assert forall|i: int| 0 <= i && i + 1 < r.len() implies !(#[trigger] r[i] == '-' && r[i + 1] == '-') by {
                if i + 1 < p.len() {
                    assert(r[i] == p[i] && r[i + 1] == p[i + 1]);
                } else {
                    assert(r[i] == p.last());
                    if d.len() > 0 {
                        assert(p.last() == d.last());
                        assert(d.last() == s[s.len() - 2]);
                    }
                }
            }
        }
    }
}

proof fn lemma_trim_start(s: Seq<char>)
    ensures
        trim_start_dashes(s).len() <= s.len(),
        trim_start_dashes(s) == s.subrange(s.len() - trim_start_dashes(s).len(), s.len() as int),
        trim_start_dashes(s).len() > 0 ==> trim_start_dashes(s)[0] != '-',
    decreases s.len(),
{
    if s.len() > 0 && s[0] == '-' {
        lemma_trim_start(s.drop_first());
        let t = trim_start_dashes(s.drop_first());
        assert(s.drop_first().subrange(s.drop_first().len() - t.len(), s.drop_first().len() as int)
            == s.subrange(s.len() - t.len(), s.len() as int));
    } else {
        assert(s.subrange(0, s.len() as int) == s);
    }
}

proof fn lemma_trim_end(s: Seq<char>)
    ensures
        trim_end_dashes(s).len() <= s.len(),
        trim_end_dashes(s) == s.subrange(0, trim_end_dashes(s).len() as int),
        trim_end_dashes(s).len() > 0 ==> trim_end_dashes(s).last() != '-',
    decreases s.len(),
{
    if s.len() > 0 && s.last() == '-' {
        lemma_trim_end(s.drop_last());
        let t = trim_end_dashes(s.drop_last());
        assert(s.drop_last().subrange(0, t.len() as int) == s.subrange(0, t.len() as int));
    } else {
        assert(s.subrange(0, s.len() as int) == s);
    }
}

/// Keeping some characters keeps a property that all of them have.
proof fn lemma_keep_only_preserves(s: Seq<char>, keep: spec_fn(char) -> bool, p: spec_fn(char) -> bool)
    requires
        all_chars(s, p),
    ensures
        all_chars(keep_only(s, keep), p),
    decreases s.len(),
{
    if s.len() > 0 {
        let d = s.drop_last();
        assert forall|i: int| 0 <= i < d.len() implies p(#[trigger] d[i]) by {
            assert(d[i] == s[i]);
        }
        lemma_keep_only_preserves(d, keep, p);
        let k = keep_only(d, keep);
        if keep(s.last()) {
            assert(p(s[s.len() - 1]));
            assert forall|i: int| 0 <= i < k.push(s.last()).len() implies p(#[trigger] k.push(s.last())[i]) by {
                if i < k.len() {
                    assert(k.push(s.last())[i] == k[i]);
                }
            }
        }
    }
}

/// Collapsing and trimming the dashes of `dashed` keeps a property of all
/// its characters, and leaves no double dash and no dash at either end.
proof fn lemma_tidy_dashes(dashed: Seq<char>, q: spec_fn(char) -> bool)
    requires
        all_chars(dashed, q),
    ensures
        all_chars(trim_dashes(collapse_dashes(dashed)), q),
        no_double_dash(trim_dashes(collapse_dashes(dashed))),
        trim_dashes(collapse_dashes(dashed)).len() > 0 ==> trim_dashes(collapse_dashes(dashed))[0]
            != '-' && trim_dashes(collapse_dashes(dashed)).last() != '-',
{
    lemma_collapse_dashes(dashed, q);
    let c = collapse_dashes(dashed);
    lemma_trim_start(c);
    let t = trim_start_dashes(c);
    lemma_trim_end(t);
    let r = trim_end_dashes(t);
    let off = c.len() - t.len();
    assert forall|i: int| 0 <= i < r.len() implies q(#[trigger] r[i]) by {
        assert(r[i] == t[i]);
        assert(t[i] == c[off + i]);
    }
    assert forall|i: int| 0 <= i && i + 1 < r.len() implies !(#[trigger] r[i] == '-' && r[i + 1] == '-') by {
        assert(r[i] == t[i] && r[i + 1] == t[i + 1]);
        assert(t[i] == c[off + i] && t[i + 1] == c[off + i + 1]);
    }
    if r.len() > 0 {
        assert(r[0] == t[0]);
    }
}

/// Slugs are URL-friendly: they hold only lower-case ASCII letters, ASCII
/// digits, dashes and white space other than spaces, never two dashes in a
/// row, and no dash at either end.
pub proof fn slug_is_url_friendly(title: Seq<char>)
    ensures
        all_chars(slug_of(title), |c: char| is_slug_output_char(c)),
        no_double_dash(slug_of(title)),
        slug_of(title).len() > 0 ==> slug_of(title)[0] != '-' && slug_of(title).last() != '-',
{
    let ascii = transliteration(lowercase(title));
    let kept = keep_only(ascii, |c: char| is_slug_char(c));
    lemma_keep_only(ascii, |c: char| is_slug_char(c));
    let dashed = spaces_to_dashes(kept);
    let q = |c: char| is_slug_output_char(c);
    assert forall|i: int| 0 <= i < dashed.len() implies q(#[trigger] dashed[i]) by {
        assert(is_slug_char(kept[i]));
    }
    lemma_tidy_dashes(dashed, q);
}

/// A slug is dash-separated words (`^([a-z0-9]+(-[a-z0-9]+)*)?$`) when the
/// transliterated lower-case title holds no white space other than spaces:
/// only lower-case ASCII letters, ASCII digits and dashes, never two dashes
/// in a row, no dash at either end.
pub proof fn slug_is_dash_separated_words(title: Seq<char>)
    requires
        all_chars(transliteration(lowercase(title)), |c: char| is_white_space(c) ==> c == ' '),
    ensures
        all_chars(slug_of(title), |c: char| ('a' <= c && c <= 'z') || is_ascii_digit(c) || c == '-'),
        no_double_dash(slug_of(title)),
        slug_of(title).len() > 0 ==> slug_of(title)[0] != '-' && slug_of(title).last() != '-',
{
    let ascii = transliteration(lowercase(title));
    let kept = keep_only(ascii, |c: char| is_slug_char(c));
    lemma_keep_only(ascii, |c: char| is_slug_char(c));
    lemma_keep_only_preserves(ascii, |c: char| is_slug_char(c), |c: char| is_white_space(c) ==> c == ' ');
    let dashed = spaces_to_dashes(kept);
    let q = |c: char| ('a' <= c && c <= 'z') || is_ascii_digit(c) || c == '-';
    assert forall|i: int| 0 <= i < dashed.len() implies q(#[trigger] dashed[i]) by {
        assert(is_slug_char(kept[i]));
        assert(is_white_space(kept[i]) ==> kept[i] == ' ');
    }
    lemma_tidy_dashes(dashed, q);
}

/// `s` is dash-separated words: `^[a-z0-9]+(-[a-z0-9]+)*$`.
pub open spec fn is_dash_separated_words(s: Seq<char>) -> bool {
    &&& s.len() > 0
    &&& all_chars(s, |c: char| ('a' <= c && c <= 'z') || is_ascii_digit(c) || c == '-')
    &&& no_double_dash(s)
    &&& s[0] != '-'
    &&& s.last() != '-'
}

/// `s` with every `-` written as a space.
pub open spec fn dashes_to_spaces(s: Seq<char>) -> Seq<char> {
    s.map_values(|c: char|
        if c == '-' {
            ' '
        } else {
            c
        })
}

proof fn lemma_keep_all(s: Seq<char>, keep: spec_fn(char) -> bool)
    requires
        all_chars(s, keep),
    ensures
        keep_only(s, keep) == s,
    decreases s.len(),
{
    if s.len() > 0 {
        let d = s.drop_last();
        assert forall|i: int| 0 <= i < d.len() implies keep(#[trigger] d[i]) by {
            assert(d[i] == s[i]);
        }
        lemma_keep_all(d, keep);
        assert(keep(s[s.len() - 1]));
        assert(d.push(s.last()) == s);
    }
}

proof fn lemma_collapse_none(s: Seq<char>)
    requires
        no_double_dash(s),
    ensures
        collapse_dashes(s) == s,
    decreases s.len(),
{
    if s.len() > 0 {
        let d = s.drop_last();
        assert forall|i: int| 0 <= i && i + 1 < d.len() implies !(#[trigger] d[i] == '-' && d[i + 1] == '-') by {
            assert(d[i] == s[i] && d[i + 1] == s[i + 1]);
        }
        lemma_collapse_none(d);
        if s.len() >= 2 {
            assert(!(s[s.len() - 2] == '-' && s[s.len() - 1] == '-'));
        }
        assert(d.push(s.last()) == s);
    }
}

/// A slug of dash-separated words turned into a title (dashes as spaces) is
/// lower-case ASCII text whose plain slug is the slug again.
pub proof fn lemma_slug_title_round_trip(slug: Seq<char>)
    requires
        is_dash_separated_words(slug),
    ensures
        forall|i: int| 0 <= i < dashes_to_spaces(slug).len() ==> is_lower_ascii_text_char(#[trigger] dashes_to_spaces(slug)[i]),
        plain_slug(dashes_to_spaces(slug)) == slug,
{
    let title = dashes_to_spaces(slug);
    assert forall|i: int| 0 <= i < title.len() implies is_lower_ascii_text_char(#[trigger] title[i]) by {
        assert(('a' <= slug[i] && slug[i] <= 'z') || is_ascii_digit(slug[i]) || slug[i] == '-');
    }
    assert(spaces_to_dashes(title) =~= slug) by {
        assert forall|i: int| 0 <= i < slug.len() implies spaces_to_dashes(title)[i] == slug[i] by {
            assert(('a' <= slug[i] && slug[i] <= 'z') || is_ascii_digit(slug[i]) || slug[i] == '-');
        }
    }
    lemma_collapse_none(slug);
    assert(trim_start_dashes(slug) == slug);
    assert(trim_end_dashes(slug) == slug);
}

} // verus!
