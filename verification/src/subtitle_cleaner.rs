//! WebVTT subtitle cleaning and conversion to ASS (Advanced SubStation Alpha).
//!
//! The VTT files published by 3cat carry non-standard `Region:` header lines
//! and `region:rN` attributes on cue timing lines. Cleaning removes them and
//! keeps everything else, inline styling tags such as
//! `<c.white.background-black>` included. Conversion turns cleaned VTT into
//! ASS, whose inline colour overrides keep the styling in Matroska files.
use vstd::prelude::*;

use crate::error::Error;
use crate::text::{
    chars_of, contains, contains_seq, copy_range, decimal, eq_str, extend_chars, extend_str, find_char, find_line_end,
    has_at, index_from, is_unicode_digit, lemma_index_from, lemma_line_end, line_end, lines,
    lines_of, matches_at, padded2, parse_u32, parse_u32_spec, push_decimal, push_padded2,
    skip_white, skip_ws, split, split_char, string_of, trim, trimmed, unicode_digit, views,
};

verus! {

// ---------------------------------------------------------------------------
// Cleaning
// ---------------------------------------------------------------------------

/// The start of a non-standard region header line.
pub open spec fn region_header() -> Seq<char> {
    "Region:"@
}

/// The start of a non-standard region attribute.
pub open spec fn region_attribute() -> Seq<char> {
    "region:r"@
}

/// `s[i..]`, where `i` starts a line, without the lines that begin with
/// `Region:` (each removed with the newline that ends it).
pub open spec fn drop_region_lines_from(s: Seq<char>, i: int) -> Seq<char>
    decreases s.len() - i,
{
    if i < 0 || i >= s.len() {
        Seq::empty()
    } else {
        let e = line_end(s, i);
        let next = if e < s.len() {
            e + 1
        } else {
            s.len() as int
        };
        if next <= i || next > s.len() {
            Seq::empty()
        } else if has_at(s, i, region_header()) {
            drop_region_lines_from(s, next)
        } else {
            s.subrange(i, next) + drop_region_lines_from(s, next)
        }
    }
}

/// The first index at or after `i` that does not hold a decimal digit.
pub open spec fn digits_end(s: Seq<char>, i: int) -> int
    decreases s.len() - i,
{
    if i < 0 || i >= s.len() {
        s.len() as int
    } else if is_unicode_digit(s[i]) {
        digits_end(s, i + 1)
    } else {
        i
    }
}

/// Where a region attribute that starts at `i` ends: white space, then
/// `region:r`, then one or more decimal digits (`\s*region:r\d+`).
pub open spec fn region_attribute_end(s: Seq<char>, i: int) -> Option<int> {
    let w = skip_ws(s, i);
    let p = region_attribute();
    if has_at(s, w, p) && w + p.len() < s.len() && is_unicode_digit(s[w + p.len()]) {
        Some(digits_end(s, w + p.len()))
    } else {
        None
    }
}

/// `s[i..]` without its region attributes, found left to right.
pub open spec fn drop_region_attributes_from(s: Seq<char>, i: int) -> Seq<char>
    decreases s.len() - i,
{
    if i < 0 || i >= s.len() {
        Seq::empty()
    } else {
        match region_attribute_end(s, i) {
            Some(e) => if i < e <= s.len() {
                drop_region_attributes_from(s, e)
            } else {
                Seq::empty()
            },
            None => seq![s[i]] + drop_region_attributes_from(s, i + 1),
        }
    }
}

/// The first index at or after `i` that does not hold a newline.
pub open spec fn newlines_end(s: Seq<char>, i: int) -> int
    decreases s.len() - i,
{
    if i < 0 || i >= s.len() {
        s.len() as int
    } else if s[i] == '\n' {
        newlines_end(s, i + 1)
    } else {
        i
    }
}

/// `k` newlines.
pub open spec fn newlines(k: int) -> Seq<char> {
    Seq::new(k as nat, |j: int| '\n')
}

/// `s[i..]` with every run of three or more newlines shortened to two.
pub open spec fn collapse_newlines_from(s: Seq<char>, i: int) -> Seq<char>
    decreases s.len() - i,
{
    if i < 0 || i >= s.len() {
        Seq::empty()
    } else if s[i] == '\n' {
        let e = newlines_end(s, i);
        if e <= i || e > s.len() {
            Seq::empty()
        } else if e - i >= 3 {
            newlines(2) + collapse_newlines_from(s, e)
        } else {
            newlines(e - i) + collapse_newlines_from(s, e)
        }
    } else {
        seq![s[i]] + collapse_newlines_from(s, i + 1)
    }
}

/// The cleaned form of VTT text `s`.
pub open spec fn clean_vtt(s: Seq<char>) -> Seq<char> {
    let without_headers = drop_region_lines_from(s, 0);
    let without_attributes = drop_region_attributes_from(without_headers, 0);
    collapse_newlines_from(without_attributes, 0)
}

fn drop_region_lines(v: &Vec<char>) -> (out: Vec<char>)
    ensures
        out@ == drop_region_lines_from(v@, 0),
{
    let header = chars_of("Region:");
    let mut out: Vec<char> = Vec::new();
    let mut i: usize = 0;
    while i < v.len()
        invariant
            i <= v.len(),
            header@ == region_header(),
            drop_region_lines_from(v@, 0) == out@ + drop_region_lines_from(v@, i as int),
        decreases v.len() - i,
    {
        let e = find_line_end(v, i);
        proof {
            lemma_line_end(v@, i as int);
        }
        let next = if e < v.len() {
            e + 1
        } else {
            e
        };
        if !matches_at(v, i, &header) {
            let line = copy_range(v, i, next);
            extend_chars(&mut out, &line);
        }
        i = next;
    }
    out
}

proof fn lemma_skip_ws(s: Seq<char>, i: int)
    requires
        0 <= i <= s.len(),
    ensures
        i <= skip_ws(s, i) <= s.len(),
    decreases s.len() - i,
{
    if i < s.len() && crate::text::is_white_space(s[i]) {
        lemma_skip_ws(s, i + 1);
    }
}

proof fn lemma_digits_end(s: Seq<char>, i: int)
    requires
        0 <= i <= s.len(),
    ensures
        i <= digits_end(s, i) <= s.len(),
    decreases s.len() - i,
{
    if i < s.len() && is_unicode_digit(s[i]) {
        lemma_digits_end(s, i + 1);
    }
}

fn find_digits_end(v: &Vec<char>, i: usize) -> (e: usize)
    requires
        i <= v.len(),
    ensures
        e == digits_end(v@, i as int),
        i <= e <= v.len(),
{
    let mut j = i;
    while j < v.len() && unicode_digit(v[j])
        invariant
            i <= j <= v.len(),
            digits_end(v@, i as int) == digits_end(v@, j as int),
        decreases v.len() - j,
    {
        j += 1;
    }
    proof {
        lemma_digits_end(v@, j as int);
    }
    j
}

fn find_region_attribute_end(v: &Vec<char>, i: usize, attribute: &Vec<char>) -> (r: Option<usize>)
    requires
        i < v.len(),
        attribute@ == region_attribute(),
    ensures
        r matches Some(e) ==> region_attribute_end(v@, i as int) == Some(e as int) && i < e <= v.len(),
        r is None ==> region_attribute_end(v@, i as int) is None,
{
    let w = skip_white(v, i);
    proof {
        reveal_strlit("region:r");
    }
    if matches_at(v, w, attribute) {
        let k = w + attribute.len();
        if k < v.len() && unicode_digit(v[k]) {
            let e = find_digits_end(v, k);
            return Some(e);
        }
    }
    None
}

fn drop_region_attributes(v: &Vec<char>) -> (out: Vec<char>)
    ensures
        out@ == drop_region_attributes_from(v@, 0),
{
    let attribute = chars_of("region:r");
    let mut out: Vec<char> = Vec::new();
    let mut i: usize = 0;
    while i < v.len()
        invariant
            i <= v.len(),
            attribute@ == region_attribute(),
            drop_region_attributes_from(v@, 0) == out@ + drop_region_attributes_from(v@, i as int),
        decreases v.len() - i,
    {
        match find_region_attribute_end(v, i, &attribute) {
            Some(e) => {
                i = e;
            },
            None => {
                out.push(v[i]);
                i += 1;
            },
        }
    }
    out
}

fn collapse_newlines(v: &Vec<char>) -> (out: Vec<char>)
    ensures
        out@ == collapse_newlines_from(v@, 0),
{
    let mut out: Vec<char> = Vec::new();
    let mut i: usize = 0;
    while i < v.len()
        invariant
            i <= v.len(),
            collapse_newlines_from(v@, 0) == out@ + collapse_newlines_from(v@, i as int),
        decreases v.len() - i,
    {
        if v[i] == '\n' {
            let mut e = i;
            while e < v.len() && v[e] == '\n'
                invariant
                    i <= e <= v.len(),
                    newlines_end(v@, i as int) == newlines_end(v@, e as int),
                decreases v.len() - e,
            {
                e += 1;
            }
            assert(e > i);
            let ghost before = out@;
            let k = if e - i >= 3 {
                2
            } else {
                e - i
            };
            let mut n: usize = 0;
            while n < k
                invariant
                    n <= k,
                    out@ == before + newlines(n as int),
                decreases k - n,
            {
                out.push('\n');
                n += 1;
                assert(before + newlines(n as int) == (before + newlines(n - 1)).push('\n'));
            }
            i = e;
        } else {
            out.push(v[i]);
            i += 1;
        }
    }
    out
}

/// Whether `path` names a subtitle file to clean: its extension is `vtt`.
pub fn is_vtt_path(path: &str) -> (b: bool)
    ensures
        b == (crate::paths::extension(path@) == Some("vtt"@)),
{
    let p = chars_of(path);
    match crate::paths::path_extension(&p) {
        Some(e) => eq_str(&e, "vtt"),
        None => false,
    }
}

/// Cleans raw VTT content: removes the `Region:` header lines, the
/// `region:rN` attributes (with the white space before them) and the runs of
/// three or more newlines that such removals leave, which become two. All
/// other content, inline styling tags included, is kept.
pub fn clean_vtt_content(content: &str) -> (cleaned: String)
    ensures
        cleaned@ == clean_vtt(content@),
{
    let v = chars_of(content);
    let a = drop_region_lines(&v);
    let b = drop_region_attributes(&a);
    let c = collapse_newlines(&b);
    string_of(&c)
}


// ---------------------------------------------------------------------------
// Conversion to ASS
// ---------------------------------------------------------------------------

/// The ASS header: script info, a default style (white text, black outline)
/// and the format of the events that follow.
pub const ASS_HEADER: &'static str = "[Script Info]\nTitle: Converted from VTT\nScriptType: v4.00+\nWrapStyle: 0\nPlayResX: 1920\nPlayResY: 1080\n\n[V4+ Styles]\nFormat: Name, Fontname, Fontsize, PrimaryColour, SecondaryColour, OutlineColour, BackColour, Bold, Italic, Underline, StrikeOut, ScaleX, ScaleY, Spacing, Angle, BorderStyle, Outline, Shadow, Alignment, MarginL, MarginR, MarginV, Encoding\nStyle: Default,Arial,72,&H00FFFFFF,&H000000FF,&H00000000,&H80000000,-1,0,0,0,100,100,0,0,1,2,0,2,20,20,40,1\n\n[Events]\nFormat: Layer, Start, End, Style, Name, MarginL, MarginR, MarginV, Effect, Text\n";

/// The ASS colour (BGR) of a VTT colour class.
pub open spec fn color_code(name: Seq<char>) -> Option<Seq<char>> {
    if name == "white"@ {
        Some("&H00FFFFFF&"@)
    } else if name == "yellow"@ {
        Some("&H0000FFFF&"@)
    } else if name == "cyan"@ {
        Some("&H00FFFF00&"@)
    } else if name == "green"@ {
        Some("&H0000FF00&"@)
    } else if name == "red"@ {
        Some("&H000000FF&"@)
    } else if name == "blue"@ {
        Some("&H00FF0000&"@)
    } else if name == "magenta"@ {
        Some("&H00FF00FF&"@)
    } else {
        None
    }
}

/// The ASS colour (BGR) of a VTT background class, for the `\3c` override.
pub open spec fn background_code(name: Seq<char>) -> Option<Seq<char>> {
    if name == "background-black"@ {
        Some("&H00000000&"@)
    } else if name == "background-white"@ {
        Some("&H00FFFFFF&"@)
    } else if name == "background-yellow"@ {
        Some("&H0000FFFF&"@)
    } else if name == "background-red"@ {
        Some("&H000000FF&"@)
    } else {
        None
    }
}

/// Maps a VTT CSS colour class name to an ASS BGR colour code; `None` for
/// names it does not know.
pub fn css_color_to_ass_bgr(name: &str) -> (r: Option<&'static str>)
    ensures
        r matches Some(c) ==> color_code(name@) == Some(c@),
        r is None ==> color_code(name@) is None,
{
    let v = chars_of(name);
    if eq_str(&v, "white") {
        Some("&H00FFFFFF&")
    } else if eq_str(&v, "yellow") {
        Some("&H0000FFFF&")
    } else if eq_str(&v, "cyan") {
        Some("&H00FFFF00&")
    } else if eq_str(&v, "green") {
        Some("&H0000FF00&")
    } else if eq_str(&v, "red") {
        Some("&H000000FF&")
    } else if eq_str(&v, "blue") {
        Some("&H00FF0000&")
    } else if eq_str(&v, "magenta") {
        Some("&H00FF00FF&")
    } else {
        None
    }
}

/// Maps a VTT CSS background class name to an ASS BGR colour code for the
/// `\3c` (border colour) override; `None` for names it does not know.
pub fn css_background_to_ass_bgr(name: &str) -> (r: Option<&'static str>)
    ensures
        r matches Some(c) ==> background_code(name@) == Some(c@),
        r is None ==> background_code(name@) is None,
{
    let v = chars_of(name);
    if eq_str(&v, "background-black") {
        Some("&H00000000&")
    } else if eq_str(&v, "background-white") {
        Some("&H00FFFFFF&")
    } else if eq_str(&v, "background-yellow") {
        Some("&H0000FFFF&")
    } else if eq_str(&v, "background-red") {
        Some("&H000000FF&")
    } else {
        None
    }
}

/// What [`vtt_timestamp_to_ass`] gives for `ts`: `H:MM:SS.cc` from
/// `HH:MM:SS.mmm` (hours without padding, milliseconds cut to centiseconds),
/// or the message of the first part that does not parse.
pub open spec fn timestamp_to_ass(ts: Seq<char>) -> Result<Seq<char>, Seq<char>> {
    let parts = split_char(ts, ':');
    if parts.len() != 3 {
        Err("unexpected timestamp format: "@ + ts)
    } else {
        match parse_u32_spec(parts[0]) {
            None => Err("invalid hours in timestamp: "@ + ts),
            Some(hours) => match parse_u32_spec(parts[1]) {
                None => Err("invalid minutes in timestamp: "@ + ts),
                Some(minutes) => {
                    let sec_parts = split_char(parts[2], '.');
                    if sec_parts.len() != 2 {
                        Err("missing milliseconds in timestamp: "@ + ts)
                    } else {
                        match parse_u32_spec(sec_parts[0]) {
                            None => Err("invalid seconds in timestamp: "@ + ts),
                            Some(seconds) => match parse_u32_spec(sec_parts[1]) {
                                None => Err("invalid milliseconds in timestamp: "@ + ts),
                                Some(millis) => Ok(
                                    decimal(hours as nat) + ":"@ + padded2(minutes as int) + ":"@
                                        + padded2(seconds as int) + "."@ + padded2(
                                        (millis / 10) as int,
                                    ),
                                ),
                            },
                        }
                    }
                },
            },
        }
    }
}

fn message(prefix: &str, ts: &Vec<char>) -> (m: String)
    ensures
        m@ == prefix@ + ts@,
{
    let mut v = chars_of(prefix);
    extend_chars(&mut v, ts);
    string_of(&v)
}

/// Converts a VTT timestamp (`HH:MM:SS.mmm`) to ASS format (`H:MM:SS.cc`).
pub fn vtt_timestamp_to_ass(ts: &str) -> (r: Result<String, String>)
    ensures
        r matches Ok(s) ==> timestamp_to_ass(ts@) == Ok::<Seq<char>, Seq<char>>(s@),
        r matches Err(m) ==> timestamp_to_ass(ts@) == Err::<Seq<char>, Seq<char>>(m@),
{
    let v = chars_of(ts);
    let parts = split(&v, ':');
    assert(views(parts@) == split_char(ts@, ':'));
    if parts.len() != 3 {
        return Err(message("unexpected timestamp format: ", &v));
    }
    assert(parts[0]@ == split_char(ts@, ':')[0]);
    assert(parts[1]@ == split_char(ts@, ':')[1]);
    assert(parts[2]@ == split_char(ts@, ':')[2]);
    let hours = match parse_u32(&parts[0]) {
        Some(h) => h,
        None => {
            return Err(message("invalid hours in timestamp: ", &v));
        },
    };
    let minutes = match parse_u32(&parts[1]) {
        Some(m) => m,
        None => {
            return Err(message("invalid minutes in timestamp: ", &v));
        },
    };
    let sec_parts = split(&parts[2], '.');
    if sec_parts.len() != 2 {
        return Err(message("missing milliseconds in timestamp: ", &v));
    }
    assert(sec_parts[0]@ == split_char(parts[2]@, '.')[0]);
    assert(sec_parts[1]@ == split_char(parts[2]@, '.')[1]);
    let seconds = match parse_u32(&sec_parts[0]) {
        Some(s) => s,
        None => {
            return Err(message("invalid seconds in timestamp: ", &v));
        },
    };
    let millis = match parse_u32(&sec_parts[1]) {
        Some(m) => m,
        None => {
            return Err(message("invalid milliseconds in timestamp: ", &v));
        },
    };
    proof {
        reveal_strlit(":");
        reveal_strlit(".");
    }
    let mut out: Vec<char> = Vec::new();
    push_decimal(&mut out, hours as u64);
    let ghost a = out@;
    out.push(':');
    assert(out@ == a + ":"@);
    push_padded2(&mut out, minutes as i64);
    let ghost b = out@;
    out.push(':');
    assert(out@ == b + ":"@);
    push_padded2(&mut out, seconds as i64);
    let ghost c = out@;
    out.push('.');
    assert(out@ == c + "."@);
    push_padded2(&mut out, (millis / 10) as i64);
    assert(out@ =~= decimal(hours as nat) + ":"@ + padded2(minutes as int) + ":"@ + padded2(
        seconds as int,
    ) + "."@ + padded2((millis / 10) as int));
    Ok(string_of(&out))
}



/// The opening of an inline class tag.
pub open spec fn tag_open() -> Seq<char> {
    "<c."@
}

/// The closing of an inline class tag.
pub open spec fn tag_close() -> Seq<char> {
    "</c>"@
}

/// A class tag `<c.CLASSES>CONTENT</c>` at `p` (`CLASSES` holds no `>` and
/// is not empty, `CONTENT` holds no `<`): the index of the `>` that ends the
/// classes, the index where the content ends, and the end of the tag.
pub open spec fn class_tag_at(t: Seq<char>, p: int) -> Option<(int, int, int)> {
    if has_at(t, p, tag_open()) {
        let cs = p + tag_open().len();
        let ce = index_from(t, cs, '>');
        if cs < ce < t.len() {
            let ke = index_from(t, ce + 1, '<');
            if has_at(t, ke, tag_close()) {
                Some((ce, ke, ke + tag_close().len()))
            } else {
                None
            }
        } else {
            None
        }
    } else {
        None
    }
}

/// The override of one class: `\c` with a colour, `\3c` with a background
/// colour, nothing for a class it does not know.
pub open spec fn class_override(class: Seq<char>) -> Seq<char> {
    match color_code(class) {
        Some(c) => "\\c"@ + c,
        None => match background_code(class) {
            Some(b) => "\\3c"@ + b,
            None => Seq::empty(),
        },
    }
}

/// The overrides of a list of classes, in order.
pub open spec fn overrides_of(classes: Seq<Seq<char>>) -> Seq<char>
    decreases classes.len(),
{
    if classes.len() == 0 {
        Seq::empty()
    } else {
        overrides_of(classes.drop_last()) + class_override(classes.last())
    }
}

/// What a class tag becomes: its content, behind `{OVERRIDES}` when its
/// classes (separated by `.`) give any.
pub open spec fn tag_replacement(classes: Seq<char>, content: Seq<char>) -> Seq<char> {
    let o = overrides_of(split_char(classes, '.'));
    if o.len() == 0 {
        content
    } else {
        "{"@ + o + "}"@ + content
    }
}

/// `t[i..]` with its class tags, found left to right, replaced.
pub open spec fn replace_tags_from(t: Seq<char>, i: int) -> Seq<char>
    decreases t.len() - i,
{
    if i < 0 || i >= t.len() {
        Seq::empty()
    } else {
        match class_tag_at(t, i) {
            Some((ce, ke, end)) => if i < end <= t.len() {
                tag_replacement(t.subrange(i + tag_open().len(), ce), t.subrange(ce + 1, ke))
                    + replace_tags_from(t, end)
            } else {
                Seq::empty()
            },
            None => seq![t[i]] + replace_tags_from(t, i + 1),
        }
    }
}

/// `s` with each newline written as the ASS line break `\N`.
pub open spec fn ass_line_breaks(s: Seq<char>) -> Seq<char>
    decreases s.len(),
{
    if s.len() == 0 {
        Seq::empty()
    } else {
        ass_line_breaks(s.drop_last()) + if s.last() == '\n' {
            seq!['\\', 'N']
        } else {
            seq![s.last()]
        }
    }
}

/// The ASS text of a cue.
pub open spec fn cue_to_ass(t: Seq<char>) -> Seq<char> {
    ass_line_breaks(replace_tags_from(t, 0))
}

fn find_class_tag(v: &Vec<char>, p: usize, open: &Vec<char>, close: &Vec<char>) -> (r: Option<(usize, usize, usize)>)
    requires
        p < v.len(),
        open@ == tag_open(),
        close@ == tag_close(),
    ensures
        r matches Some((ce, ke, end)) ==> class_tag_at(v@, p as int) == Some((ce as int, ke as int, end as int)) && p < end <= v.len() && p + open@.len() < ce < ke < end,
        r is None ==> class_tag_at(v@, p as int) is None,
{
    proof {
        reveal_strlit("<c.");
        reveal_strlit("</c>");
    }
    if !matches_at(v, p, open) {
        return None;
    }
    let cs = p + open.len();
    let ce = find_char(v, cs, '>');
    if !(cs < ce && ce < v.len()) {
        return None;
    }
    let ke = find_char(v, ce + 1, '<');
    proof {
        lemma_index_from(v@, ce + 1, '<');
    }
    if !matches_at(v, ke, close) {
        return None;
    }
    Some((ce, ke, ke + close.len()))
}

fn class_overrides(classes: &Vec<char>) -> (o: Vec<char>)
    ensures
        o@ == overrides_of(split_char(classes@, '.')),
{
    let pieces = split(classes, '.');
    let ghost ps = split_char(classes@, '.');
    let mut o: Vec<char> = Vec::new();
    for k in 0..pieces.len()
        invariant
            views(pieces@) == ps,
            o@ == overrides_of(ps.take(k as int)),
    {
        let name = string_of(&pieces[k]);
        let ghost prefix = ps.take(k as int);
        assert(ps.take(k + 1).drop_last() == prefix);
        assert(ps.take(k + 1).last() == pieces[k as int]@);
        match css_color_to_ass_bgr(name.as_str()) {
            Some(c) => {
                extend_str(&mut o, "\\c");
                extend_str(&mut o, c);
            },
            None => match css_background_to_ass_bgr(name.as_str()) {
                Some(b) => {
                    extend_str(&mut o, "\\3c");
                    extend_str(&mut o, b);
                },
                None => {},
            },
        }
        assert(o@ =~= overrides_of(ps.take(k + 1)));
    }
    assert(ps.take(pieces.len() as int) == ps);
    o
}

fn replace_tags(v: &Vec<char>) -> (out: Vec<char>)
    ensures
        out@ == replace_tags_from(v@, 0),
{
    let open = chars_of("<c.");
    let close = chars_of("</c>");
    let mut out: Vec<char> = Vec::new();
    let mut i: usize = 0;
    while i < v.len()
        invariant
            i <= v.len(),
            open@ == tag_open(),
            close@ == tag_close(),
            replace_tags_from(v@, 0) == out@ + replace_tags_from(v@, i as int),
        decreases v.len() - i,
    {
        match find_class_tag(v, i, &open, &close) {
            Some((ce, ke, end)) => {
                let classes = copy_range(v, i + open.len(), ce);
                let content = copy_range(v, ce + 1, ke);
                let o = class_overrides(&classes);
                let ghost before = out@;
                if o.len() == 0 {
                    extend_chars(&mut out, &content);
                } else {
                    out.push('{');
                    extend_chars(&mut out, &o);
                    out.push('}');
                    extend_chars(&mut out, &content);
                    proof {
                        reveal_strlit("{");
                        reveal_strlit("}");
                    }
                }
                assert(out@ =~= before + tag_replacement(classes@, content@));
                i = end;
            },
            None => {
                out.push(v[i]);
                i += 1;
            },
        }
    }
    out
}

fn ass_breaks(v: &Vec<char>) -> (out: Vec<char>)
    ensures
        out@ == ass_line_breaks(v@),
{
    let mut out: Vec<char> = Vec::new();
    for k in 0..v.len()
        invariant
            out@ == ass_line_breaks(v@.take(k as int)),
    {
        assert(v@.take(k + 1).drop_last() == v@.take(k as int));
        if v[k] == '\n' {
            out.push('\\');
            out.push('N');
        } else {
            out.push(v[k]);
        }
        assert(out@ =~= ass_line_breaks(v@.take(k + 1)));
    }
    assert(v@.take(v.len() as int) == v@);
    out
}

/// Converts the inline `<c.CLASS...>text</c>` tags of a cue to ASS override
/// tags (`<c.white.background-black>Hello</c>` becomes
/// `{\c&H00FFFFFF&\3c&H00000000&}Hello`) and its newlines to `\N`.
pub fn convert_cue_text_to_ass(text: &str) -> (r: String)
    ensures
        r@ == cue_to_ass(text@),
{
    let v = chars_of(text);
    let replaced = replace_tags(&v);
    let broken = ass_breaks(&replaced);
    string_of(&broken)
}


/// A VTT timestamp `dd:dd:dd.ddd` (decimal digits) at `p`.
pub open spec fn is_timestamp_at(t: Seq<char>, p: int) -> bool {
    &&& 0 <= p && p + 12 <= t.len()
    &&& is_unicode_digit(t[p]) && is_unicode_digit(t[p + 1]) && t[p + 2] == ':'
    &&& is_unicode_digit(t[p + 3]) && is_unicode_digit(t[p + 4]) && t[p + 5] == ':'
    &&& is_unicode_digit(t[p + 6]) && is_unicode_digit(t[p + 7]) && t[p + 8] == '.'
    &&& is_unicode_digit(t[p + 9]) && is_unicode_digit(t[p + 10]) && is_unicode_digit(t[p + 11])
}

/// The arrow between the two timestamps of a timing line.
pub open spec fn arrow() -> Seq<char> {
    "-->"@
}

/// The start and end timestamps of a timing line: a timestamp at its start,
/// white space, `-->`, white space, a timestamp; anything may follow.
pub open spec fn timing_of(t: Seq<char>) -> Option<(Seq<char>, Seq<char>)> {
    if is_timestamp_at(t, 0) {
        let a = skip_ws(t, 12);
        if has_at(t, a, arrow()) {
            let b = skip_ws(t, a + arrow().len());
            if is_timestamp_at(t, b) {
                Some((t.subrange(0, 12), t.subrange(b, b + 12)))
            } else {
                None
            }
        } else {
            None
        }
    } else {
        None
    }
}

/// The first index at or after `j` whose line is empty, or the number of lines.
pub open spec fn cue_end(lines: Seq<Seq<char>>, j: int) -> int
    decreases lines.len() - j,
{
    if j < 0 || j >= lines.len() {
        lines.len() as int
    } else if lines[j].len() == 0 {
        j
    } else {
        cue_end(lines, j + 1)
    }
}

/// The lines joined with newlines.
pub open spec fn join_lines(ls: Seq<Seq<char>>) -> Seq<char>
    decreases ls.len(),
{
    if ls.len() == 0 {
        Seq::empty()
    } else if ls.len() == 1 {
        ls[0]
    } else {
        join_lines(ls.drop_last()) + seq!['\n'] + ls.last()
    }
}

/// The ASS event line of a cue.
pub open spec fn dialogue_line(start: Seq<char>, end: Seq<char>, text: Seq<char>) -> Seq<char> {
    "Dialogue: 0,"@ + start + ","@ + end + ",Default,,0,0,0,,"@ + cue_to_ass(text) + "\n"@
}

/// `prefix` before a successful result; an error as it is.
pub open spec fn after(prefix: Seq<char>, r: Result<Seq<char>, Seq<char>>) -> Result<Seq<char>, Seq<char>> {
    match r {
        Ok(s) => Ok(prefix + s),
        Err(e) => Err(e),
    }
}

/// The ASS events of the VTT lines from `i` on: each line that (trimmed) is
/// a timing line gives one dialogue line whose text is the non-empty lines
/// that follow it; a line that holds `-->` but is no timing line fails as
/// malformed; other lines are skipped. The first timestamp that does not
/// convert makes it fail with that timestamp's message.
pub open spec fn events_from(lines: Seq<Seq<char>>, i: int) -> Result<Seq<char>, Seq<char>>
    decreases lines.len() - i,
{
    if i < 0 || i >= lines.len() {
        Ok(Seq::empty())
    } else {
        match timing_of(trim(lines[i])) {
            None => if contains_seq(trim(lines[i]), arrow()) {
                Err("malformed timing line: "@ + trim(lines[i]))
            } else {
                events_from(lines, i + 1)
            },
            Some((a, b)) => match timestamp_to_ass(a) {
                Err(e) => Err(e),
                Ok(start) => match timestamp_to_ass(b) {
                    Err(e) => Err(e),
                    Ok(end) => {
                        let j = cue_end(lines, i + 1);
                        if j <= i || j > lines.len() {
                            Ok(Seq::empty())
                        } else {
                            after(
                                dialogue_line(start, end, join_lines(lines.subrange(i + 1, j))),
                                events_from(lines, j),
                            )
                        }
                    },
                },
            },
        }
    }
}

/// What [`convert_vtt_to_ass`] gives for VTT text `s`: the header followed
/// by the events, or the message of the first timestamp that fails.
pub open spec fn vtt_to_ass(s: Seq<char>) -> Result<Seq<char>, Seq<char>> {
    after(ASS_HEADER@, events_from(lines_of(s), 0))
}

proof fn lemma_cue_end(lines: Seq<Seq<char>>, j: int)
    requires
        0 <= j <= lines.len(),
    ensures
        j <= cue_end(lines, j) <= lines.len(),
        forall|k: int| j <= k < cue_end(lines, j) ==> lines[k].len() > 0,
    decreases lines.len() - j,
{
    if j < lines.len() && lines[j].len() > 0 {
        lemma_cue_end(lines, j + 1);
    }
}

fn find_timestamp(t: &Vec<char>, p: usize) -> (b: bool)
    ensures
        b == is_timestamp_at(t@, p as int),
{
    if p > t.len() || t.len() - p < 12 {
        return false;
    }
    unicode_digit(t[p]) && unicode_digit(t[p + 1]) && t[p + 2] == ':' && unicode_digit(t[p + 3])
        && unicode_digit(t[p + 4]) && t[p + 5] == ':' && unicode_digit(t[p + 6]) && unicode_digit(
        t[p + 7],
    ) && t[p + 8] == '.' && unicode_digit(t[p + 9]) && unicode_digit(t[p + 10]) && unicode_digit(
        t[p + 11],
    )
}

fn timing_line(t: &Vec<char>, arrow_chars: &Vec<char>) -> (r: Option<(Vec<char>, Vec<char>)>)
    requires
        arrow_chars@ == arrow(),
    ensures
        r matches Some((a, b)) ==> timing_of(t@) == Some((a@, b@)),
        r is None ==> timing_of(t@) is None,
{
    if !find_timestamp(t, 0) {
        return None;
    }
    let a = skip_white(t, 12);
    if !matches_at(t, a, arrow_chars) {
        return None;
    }
    let b = skip_white(t, a + arrow_chars.len());
    if !find_timestamp(t, b) {
        return None;
    }
    Some((copy_range(t, 0, 12), copy_range(t, b, b + 12)))
}

/// Converts cleaned VTT content to ASS: the header, then one `Dialogue`
/// event per cue, with timestamps in ASS form and `<c.COLOR>` styling turned
/// into override tags.
///
/// # Errors
///
/// [`Error::SubtitleCleaning`] for the first malformed timing line: one that
/// holds `-->` but does not match `HH:MM:SS.mmm --> HH:MM:SS.mmm`, or whose
/// timestamps do not convert.
#[verifier::rlimit(40)]
pub fn convert_vtt_to_ass(vtt_content: &str) -> (r: Result<String, Error>)
    ensures
        r matches Ok(s) ==> vtt_to_ass(vtt_content@) == Ok::<Seq<char>, Seq<char>>(s@),
        r matches Err(e) ==> exists|m: String|
            e == Error::SubtitleCleaning(m) && vtt_to_ass(vtt_content@) == Err::<Seq<char>, Seq<char>>(m@),
        r is Ok <==> vtt_to_ass(vtt_content@) is Ok,
{
    let content = chars_of(vtt_content);
    let ls = lines(&content);
    let ghost lv = lines_of(vtt_content@);
    let arrow_chars = chars_of("-->");
    let mut out = chars_of(ASS_HEADER);
    let mut i: usize = 0;
    while i < ls.len()
        invariant
            i <= ls.len(),
            views(ls@) == lv,
            arrow_chars@ == arrow(),
            vtt_to_ass(vtt_content@) == after(out@, events_from(lv, i as int)),
        decreases ls.len() - i,
    {
        let line = trimmed(&ls[i]);
        assert(lv[i as int] == ls[i as int]@);
        match timing_line(&line, &arrow_chars) {
            None => {
                if contains(&line, &arrow_chars) {
                    let mut m = chars_of("malformed timing line: ");
                    extend_chars(&mut m, &line);
                    return Err(Error::SubtitleCleaning(string_of(&m)));
                }
                i += 1;
            },
            Some((a, b)) => {
                let start = match vtt_timestamp_to_ass(string_of(&a).as_str()) {
                    Ok(s) => s,
                    Err(m) => {
                        return Err(Error::SubtitleCleaning(m));
                    },
                };
                let end = match vtt_timestamp_to_ass(string_of(&b).as_str()) {
                    Ok(s) => s,
                    Err(m) => {
                        return Err(Error::SubtitleCleaning(m));
                    },
                };
                i += 1;
                let first = i;
                let mut cue: Vec<char> = Vec::new();
                while i < ls.len() && ls[i].len() > 0
                    invariant
                        first <= i <= ls.len(),
                        views(ls@) == lv,
                        cue_end(lv, first as int) == cue_end(lv, i as int),
                        cue@ == join_lines(lv.subrange(first as int, i as int)),
                    decreases ls.len() - i,
                {
                    let ghost prev = lv.subrange(first as int, i as int);
                    assert(lv.subrange(first as int, i + 1).drop_last() == prev);
                    assert(lv[i as int] == ls[i as int]@);
                    if i > first {
                        cue.push('\n');
                    }
                    extend_chars(&mut cue, &ls[i]);
                    assert(cue@ =~= join_lines(lv.subrange(first as int, i + 1)));
                    i += 1;
                }
                let text = convert_cue_text_to_ass(string_of(&cue).as_str());
                let ghost before = out@;
                extend_str(&mut out, "Dialogue: 0,");
                extend_str(&mut out, start.as_str());
                extend_str(&mut out, ",");
                extend_str(&mut out, end.as_str());
                extend_str(&mut out, ",Default,,0,0,0,,");
                extend_str(&mut out, text.as_str());
                extend_str(&mut out, "\n");
                assert(out@ =~= before + dialogue_line(start@, end@, cue@));
                proof {
                    let i0 = first - 1;
                    lemma_cue_end(lv, first as int);
                    assert(cue_end(lv, i as int) == i as int);
                    assert(cue_end(lv, first as int) == i as int);
                    assert(events_from(lv, i0) == after(
                        dialogue_line(start@, end@, cue@),
                        events_from(lv, i as int),
                    ));
                    match events_from(lv, i as int) {
                        Ok(rest) => {
                            assert(before + (dialogue_line(start@, end@, cue@) + rest) == out@ + rest);
                        },
                        Err(_) => {},
                    }
                }
            },
        }
    }
    Ok(string_of(&out))
}


// ---------------------------------------------------------------------------
// Laws of cleaning and conversion
// ---------------------------------------------------------------------------

/// `t` holds no three newlines in a row.
pub open spec fn no_blank_line_run(t: Seq<char>) -> bool {
    forall|j: int|
        0 <= j && j + 2 < t.len() ==> !(#[trigger] t[j] == '\n' && t[j + 1] == '\n' && t[j + 2] == '\n')
}

proof fn lemma_newlines_end(s: Seq<char>, i: int)
    requires
        0 <= i <= s.len(),
    ensures
        i <= newlines_end(s, i) <= s.len(),
        forall|j: int| i <= j < newlines_end(s, i) ==> s[j] == '\n',
        newlines_end(s, i) < s.len() ==> s[newlines_end(s, i)] != '\n',
    decreases s.len() - i,
{
    if i < s.len() && s[i] == '\n' {
        lemma_newlines_end(s, i + 1);
    }
}

proof fn lemma_collapse_no_run(s: Seq<char>, i: int)
    requires
        0 <= i <= s.len(),
    ensures
        no_blank_line_run(collapse_newlines_from(s, i)),
        i < s.len() ==> collapse_newlines_from(s, i).len() > 0,
        i < s.len() && s[i] != '\n' ==> collapse_newlines_from(s, i)[0] == s[i],
    decreases s.len() - i,
{
    if i < s.len() {
        if s[i] == '\n' {
            let e = newlines_end(s, i);
            lemma_newlines_end(s, i);
            lemma_newlines_end(s, i + 1);
            assert(e > i);
            lemma_collapse_no_run(s, e);
            let k = if e - i >= 3 {
                2
            } else {
                e - i
            };
            let rest = collapse_newlines_from(s, e);
            let out = collapse_newlines_from(s, i);
            assert(out == newlines(k) + rest);
            assert forall|j: int|
                0 <= j && j + 2 < out.len() implies !(#[trigger] out[j] == '\n' && out[j + 1] == '\n'
                && out[j + 2] == '\n') by {
                if j >= k {
                    assert(out[j] == rest[j - k]);
                    assert(out[j + 1] == rest[j + 1 - k]);
                    assert(out[j + 2] == rest[j + 2 - k]);
                } else {
                    assert(e < s.len());
                    assert(out[k] == rest[0]);
                }
            }
        } else {
            lemma_collapse_no_run(s, i + 1);
            let rest = collapse_newlines_from(s, i + 1);
            let out = collapse_newlines_from(s, i);
            assert(out == seq![s[i]] + rest);
            assert forall|j: int|
                0 <= j && j + 2 < out.len() implies !(#[trigger] out[j] == '\n' && out[j + 1] == '\n'
                && out[j + 2] == '\n') by {
                if j >= 1 {
                    assert(out[j] == rest[j - 1]);
                    assert(out[j + 1] == rest[j]);
                    assert(out[j + 2] == rest[j + 1]);
                }
            }
        }
    }
}

/// Cleaned subtitles never hold a run of three or more newlines: the blank
/// lines that removed headers leave behind are collapsed.
pub proof fn cleaned_text_has_no_blank_line_runs(content: Seq<char>)
    ensures
        no_blank_line_run(clean_vtt(content)),
        !crate::text::contains_seq(clean_vtt(content), "\n\n\n"@),
{
    let without_headers = drop_region_lines_from(content, 0);
    let without_attributes = drop_region_attributes_from(without_headers, 0);
    lemma_collapse_no_run(without_attributes, 0);
    let t = clean_vtt(content);
    reveal_strlit("\n\n\n");
    assert forall|j: int| !has_at(t, j, "\n\n\n"@) by {
        if has_at(t, j, "\n\n\n"@) {
            assert(t.subrange(j, j + 3)[0] == t[j]);
            assert(t.subrange(j, j + 3)[1] == t[j + 1]);
            assert(t.subrange(j, j + 3)[2] == t[j + 2]);
        }
    }
}

/// No line of `s` begins with `Region:`.
pub open spec fn has_no_region_lines(s: Seq<char>) -> bool {
    forall|i: int|
        0 <= i < s.len() && (i == 0 || s[i - 1] == '\n') ==> !#[trigger] has_at(s, i, region_header())
}

/// No region attribute starts anywhere in `s`.
pub open spec fn has_no_region_attributes(s: Seq<char>) -> bool {
    forall|i: int| 0 <= i < s.len() ==> #[trigger] region_attribute_end(s, i) is None
}

proof fn lemma_drop_region_lines_identity(s: Seq<char>, i: int)
    requires
        0 <= i <= s.len(),
        i == 0 || s[i - 1] == '\n',
        has_no_region_lines(s),
    ensures
        drop_region_lines_from(s, i) == s.subrange(i, s.len() as int),
    decreases s.len() - i,
{
    if i < s.len() {
        lemma_line_end(s, i);
        let e = line_end(s, i);
        let next = if e < s.len() {
            e + 1
        } else {
            s.len() as int
        };
        assert(!has_at(s, i, region_header()));
        if next < s.len() {
            lemma_drop_region_lines_identity(s, next);
        } else {
            assert(drop_region_lines_from(s, next) == Seq::<char>::empty());
        }
        assert(s.subrange(i, next) + s.subrange(next, s.len() as int) == s.subrange(i, s.len() as int));
    }
}

proof fn lemma_drop_region_attributes_identity(s: Seq<char>, i: int)
    requires
        0 <= i <= s.len(),
        has_no_region_attributes(s),
    ensures
        drop_region_attributes_from(s, i) == s.subrange(i, s.len() as int),
    decreases s.len() - i,
{
    if i < s.len() {
        assert(region_attribute_end(s, i) is None);
        lemma_drop_region_attributes_identity(s, i + 1);
        assert(seq![s[i]] + s.subrange(i + 1, s.len() as int) == s.subrange(i, s.len() as int));
    }
}

proof fn lemma_collapse_identity(s: Seq<char>, i: int)
    requires
        0 <= i <= s.len(),
        no_blank_line_run(s),
    ensures
        collapse_newlines_from(s, i) == s.subrange(i, s.len() as int),
    decreases s.len() - i,
{
    if i < s.len() {
        if s[i] == '\n' {
            lemma_newlines_end(s, i);
            let e = newlines_end(s, i);
            if e - i >= 3 {
                assert(s[i] == '\n' && s[i + 1] == '\n' && s[i + 2] == '\n');
            }
            lemma_collapse_identity(s, e);
            assert(newlines(e - i) == s.subrange(i, e));
            assert(s.subrange(i, e) + s.subrange(e, s.len() as int) == s.subrange(i, s.len() as int));
        } else {
            lemma_collapse_identity(s, i + 1);
            assert(seq![s[i]] + s.subrange(i + 1, s.len() as int) == s.subrange(i, s.len() as int));
        }
    }
}

/// Subtitles that are already clean (no `Region:` line, no region
/// attribute, no run of three newlines) come out of cleaning unchanged.
pub proof fn clean_content_is_unchanged(content: Seq<char>)
    requires
        has_no_region_lines(content),
        has_no_region_attributes(content),
        no_blank_line_run(content),
    ensures
        clean_vtt(content) == content,
{
    lemma_drop_region_lines_identity(content, 0);
    assert(content.subrange(0, content.len() as int) == content);
    lemma_drop_region_attributes_identity(content, 0);
    lemma_collapse_identity(content, 0);
}

proof fn lemma_line_breaks_one_line(s: Seq<char>)
    ensures
        forall|j: int| 0 <= j < ass_line_breaks(s).len() ==> ass_line_breaks(s)[j] != '\n',
    decreases s.len(),
{
    if s.len() > 0 {
        lemma_line_breaks_one_line(s.drop_last());
        let p = ass_line_breaks(s.drop_last());
        let tail = if s.last() == '\n' {
            seq!['\\', 'N']
        } else {
            seq![s.last()]
        };
        assert(ass_line_breaks(s) == p + tail);
        assert forall|j: int| 0 <= j < ass_line_breaks(s).len() implies ass_line_breaks(s)[j] != '\n' by {
            if j >= p.len() {
                assert(ass_line_breaks(s)[j] == tail[j - p.len()]);
            } else {
                assert(ass_line_breaks(s)[j] == p[j]);
            }
        }
    }
}

proof fn lemma_drop_region_lines_len(s: Seq<char>, i: int)
    requires
        0 <= i <= s.len(),
    ensures
        drop_region_lines_from(s, i).len() <= s.len() - i,
    decreases s.len() - i,
{
    if i < s.len() {
        let e = line_end(s, i);
        let next = if e < s.len() {
            e + 1
        } else {
            s.len() as int
        };
        if i < next <= s.len() {
            lemma_drop_region_lines_len(s, next);
        }
    }
}

proof fn lemma_drop_region_attributes_len(s: Seq<char>, i: int)
    requires
        0 <= i <= s.len(),
    ensures
        drop_region_attributes_from(s, i).len() <= s.len() - i,
    decreases s.len() - i,
{
    if i < s.len() {
        match region_attribute_end(s, i) {
            Some(e) => if i < e <= s.len() {
                lemma_drop_region_attributes_len(s, e);
            },
            None => lemma_drop_region_attributes_len(s, i + 1),
        }
    }
}

proof fn lemma_collapse_len(s: Seq<char>, i: int)
    requires
        0 <= i <= s.len(),
    ensures
        collapse_newlines_from(s, i).len() <= s.len() - i,
    decreases s.len() - i,
{
    if i < s.len() {
        if s[i] == '\n' {
            let e = newlines_end(s, i);
            if i < e <= s.len() {
                lemma_collapse_len(s, e);
            }
        } else {
            lemma_collapse_len(s, i + 1);
        }
    }
}

/// Cleaning never makes subtitles longer: it only removes header lines,
/// region attributes and surplus newlines.
pub proof fn cleaning_never_lengthens(content: Seq<char>)
    ensures
        clean_vtt(content).len() <= content.len(),
{
    let a = drop_region_lines_from(content, 0);
    lemma_drop_region_lines_len(content, 0);
    let b = drop_region_attributes_from(a, 0);
    lemma_drop_region_attributes_len(a, 0);
    lemma_collapse_len(b, 0);
}

/// A cue block of VTT text: the lines before the cue (a cue number, a
/// header, empty lines), its timing line, and its text lines.
pub type CueBlock = (Seq<Seq<char>>, Seq<char>, Seq<Seq<char>>);

/// A line that conversion passes over: trimmed, it is no timing line and
/// holds no `-->`.
pub open spec fn is_plain_line(l: Seq<char>) -> bool {
    timing_of(trim(l)) is None && !contains_seq(trim(l), arrow())
}

/// A well-formed cue block: plain lines before the cue, a timing line that
/// (trimmed) matches `HH:MM:SS.mmm --> HH:MM:SS.mmm` with timestamps that
/// convert, and text lines none of which is empty.
pub open spec fn is_well_formed_block(b: CueBlock) -> bool {
    &&& forall|k: int| 0 <= k < b.0.len() ==> is_plain_line(#[trigger] b.0[k])
    &&& timing_of(trim(b.1)) matches Some((x, y)) && timestamp_to_ass(x) is Ok
        && timestamp_to_ass(y) is Ok
    &&& forall|k: int| 0 <= k < b.2.len() ==> (#[trigger] b.2[k]).len() > 0
}

/// The lines of a cue block, closed by an empty line or not.
pub open spec fn block_lines(b: CueBlock, closed: bool) -> Seq<Seq<char>> {
    b.0 + seq![b.1] + b.2 + if closed {
        seq![Seq::<char>::empty()]
    } else {
        Seq::empty()
    }
}

/// The lines of a list of cue blocks, each closed by an empty line, except
/// the last one when `last_open` (its text then runs to the end).
pub open spec fn blocks_lines(bs: Seq<CueBlock>, last_open: bool) -> Seq<Seq<char>>
    decreases bs.len(),
{
    if bs.len() == 0 {
        Seq::empty()
    } else if bs.len() == 1 {
        block_lines(bs[0], !last_open)
    } else {
        block_lines(bs[0], true) + blocks_lines(bs.drop_first(), last_open)
    }
}

/// The `Dialogue` line of a well-formed cue block.
pub open spec fn cue_dialogue(b: CueBlock) -> Seq<char> {
    match timing_of(trim(b.1)) {
        Some((x, y)) => match (timestamp_to_ass(x), timestamp_to_ass(y)) {
            (Ok(start), Ok(end)) => dialogue_line(start, end, join_lines(b.2)),
            _ => Seq::empty(),
        },
        None => Seq::empty(),
    }
}

/// The `Dialogue` lines of the cue blocks, in order.
pub open spec fn cue_dialogues(bs: Seq<CueBlock>) -> Seq<char>
    decreases bs.len(),
{
    if bs.len() == 0 {
        Seq::empty()
    } else {
        cue_dialogue(bs[0]) + cue_dialogues(bs.drop_first())
    }
}

proof fn lemma_cue_end_at(lines: Seq<Seq<char>>, k: int, n: int)
    requires
        0 <= k,
        0 <= n,
        k + n < lines.len(),
        forall|m: int| k <= m < k + n ==> (#[trigger] lines[m]).len() > 0,
        lines[k + n].len() == 0,
    ensures
        cue_end(lines, k) == k + n,
    decreases n,
{
    if n > 0 {
        lemma_cue_end_at(lines, k + 1, n - 1);
    }
}

proof fn lemma_cue_end_at_end(lines: Seq<Seq<char>>, k: int)
    requires
        0 <= k <= lines.len(),
        forall|m: int| k <= m < lines.len() ==> (#[trigger] lines[m]).len() > 0,
    ensures
        cue_end(lines, k) == lines.len(),
    decreases lines.len() - k,
{
    if k < lines.len() {
        lemma_cue_end_at_end(lines, k + 1);
    }
}

proof fn lemma_empty_line_is_plain(l: Seq<char>)
    requires
        l.len() == 0,
    ensures
        is_plain_line(l),
{
    let t = trim(l);
    assert(t.len() == 0);
    assert(!contains_seq(t, arrow())) by {
        reveal_strlit("-->");
        assert forall|j: int| !has_at(t, j, arrow()) by {}
    }
}

proof fn lemma_plain_lines_skipped(lines: Seq<Seq<char>>, i: int, h: int)
    requires
        0 <= i <= h <= lines.len(),
        forall|k: int| i <= k < h ==> is_plain_line(#[trigger] lines[k]),
    ensures
        events_from(lines, i) == events_from(lines, h),
    decreases h - i,
{
    if i < h {
        assert(is_plain_line(lines[i]));
        lemma_plain_lines_skipped(lines, i + 1, h);
    }
}

proof fn lemma_one_block(lines: Seq<Seq<char>>, i0: int, b: CueBlock, closed: bool)
    requires
        is_well_formed_block(b),
        0 <= i0,
        i0 + block_lines(b, closed).len() <= lines.len(),
        lines.subrange(i0, i0 + block_lines(b, closed).len()) == block_lines(b, closed),
        !closed ==> i0 + block_lines(b, closed).len() == lines.len(),
    ensures
        events_from(lines, i0) == after(
            cue_dialogue(b),
            events_from(lines, i0 + block_lines(b, closed).len()),
        ),
{
    let bl = block_lines(b, closed);
    let m = b.0.len() as int;
    let n = b.2.len() as int;
    let t = i0 + m;
    assert forall|k: int| 0 <= k < bl.len() implies lines[i0 + k] == #[trigger] bl[k] by {
        assert(lines.subrange(i0, i0 + bl.len())[k] == lines[i0 + k]);
    }
    assert forall|k: int| i0 <= k < t implies is_plain_line(#[trigger] lines[k]) by {
        assert(lines[i0 + (k - i0)] == bl[k - i0]);
        assert(bl[k - i0] == b.0[k - i0]);
    }
    lemma_plain_lines_skipped(lines, i0, t);
    assert(lines[i0 + m] == bl[m]);
    assert(bl[m] == b.1);
    assert forall|k: int| t + 1 <= k < t + 1 + n implies (#[trigger] lines[k]).len() > 0 by {
        assert(lines[i0 + (k - i0)] == bl[k - i0]);
        assert(bl[k - i0] == b.2[k - t - 1]);
    }
    assert(lines.subrange(t + 1, t + 1 + n) =~= b.2) by {
        assert forall|k: int| 0 <= k < n implies lines.subrange(t + 1, t + 1 + n)[k] == b.2[k] by {
            assert(lines[i0 + (m + 1 + k)] == bl[m + 1 + k]);
        }
    }
    if closed {
        assert(lines[i0 + (m + 1 + n)] == bl[m + 1 + n]);
        assert(lines[t + 1 + n] == Seq::<char>::empty());
        lemma_cue_end_at(lines, t + 1, n);
        lemma_empty_line_is_plain(lines[t + 1 + n]);
        assert(events_from(lines, t + 1 + n) == events_from(lines, t + 2 + n));
    } else {
        lemma_cue_end_at_end(lines, t + 1);
    }
}

proof fn lemma_blocks_give_dialogues(
    prefix: Seq<Seq<char>>,
    bs: Seq<CueBlock>,
    last_open: bool,
    tail: Seq<Seq<char>>,
)
    requires
        forall|k: int| 0 <= k < bs.len() ==> is_well_formed_block(#[trigger] bs[k]),
        forall|k: int| 0 <= k < tail.len() ==> is_plain_line(#[trigger] tail[k]),
        last_open && bs.len() > 0 ==> tail.len() == 0,
    ensures
        events_from(prefix + blocks_lines(bs, last_open) + tail, prefix.len() as int)
            == Ok::<Seq<char>, Seq<char>>(cue_dialogues(bs)),
    decreases bs.len(),
{
    let lines = prefix + blocks_lines(bs, last_open) + tail;
    let i0 = prefix.len() as int;
    if bs.len() == 0 {
        assert(lines == prefix + tail);
        assert forall|k: int| i0 <= k < lines.len() implies is_plain_line(#[trigger] lines[k]) by {
            assert(lines[k] == tail[k - i0]);
        }
        lemma_plain_lines_skipped(lines, i0, lines.len() as int);
    } else {
        let b = bs[0];
        assert(is_well_formed_block(b));
        let rest = bs.drop_first();
        assert forall|k: int| 0 <= k < rest.len() implies is_well_formed_block(#[trigger] rest[k]) by {
            assert(rest[k] == bs[k + 1]);
        }
        let closed = bs.len() > 1 || !last_open;
        let bl = block_lines(b, closed);
        assert(blocks_lines(bs, last_open) == bl + blocks_lines(rest, last_open));
        let next = prefix + bl;
        assert(lines == next + blocks_lines(rest, last_open) + tail);
        assert(lines.subrange(i0, i0 + bl.len()) == bl);
        if !closed {
            assert(rest.len() == 0 && tail.len() == 0);
            assert(blocks_lines(rest, last_open) == Seq::<Seq<char>>::empty());
            assert(lines.len() == i0 + bl.len());
        }
        lemma_one_block(lines, i0, b, closed);
        lemma_blocks_give_dialogues(next, rest, last_open, tail);
        assert(next.len() == i0 + bl.len());
    }
}

/// Well-formed VTT converts cue by cue: text made of cue blocks (plain
/// lines such as a header or a cue number, a timing line, the cue's
/// non-empty text lines, then an empty line, or the end of the text after
/// the last block) followed by plain lines gives the ASS header followed by
/// one `Dialogue` line per cue, in order. Empty text gives the header alone.
pub proof fn well_formed_cues_give_one_dialogue_each(
    content: Seq<char>,
    blocks: Seq<CueBlock>,
    last_open: bool,
    tail: Seq<Seq<char>>,
)
    requires
        lines_of(content) == blocks_lines(blocks, last_open) + tail,
        forall|k: int| 0 <= k < blocks.len() ==> is_well_formed_block(#[trigger] blocks[k]),
        forall|k: int| 0 <= k < tail.len() ==> is_plain_line(#[trigger] tail[k]),
        last_open && blocks.len() > 0 ==> tail.len() == 0,
    ensures
        vtt_to_ass(content) == Ok::<Seq<char>, Seq<char>>(ASS_HEADER@ + cue_dialogues(blocks)),
{
    lemma_blocks_give_dialogues(Seq::empty(), blocks, last_open, tail);
    assert(Seq::<Seq<char>>::empty() + blocks_lines(blocks, last_open) + tail == lines_of(content));
}

/// The ASS text of a cue is a single line: every newline of the cue
/// becomes `\N`, so each dialogue event takes exactly one line.
pub proof fn cue_text_is_one_line(text: Seq<char>)
    ensures
        forall|j: int| 0 <= j < cue_to_ass(text).len() ==> cue_to_ass(text)[j] != '\n',
{
    lemma_line_breaks_one_line(replace_tags_from(text, 0));
}


proof fn lemma_digit_char(c: char)
    requires
        crate::text::is_ascii_digit(c),
    ensures
        crate::text::digit_char(crate::text::digit_value(c) as nat) == c,
{
}

proof fn lemma_two_digits(c1: char, c2: char)
    requires
        crate::text::is_ascii_digit(c1),
        crate::text::is_ascii_digit(c2),
    ensures
        padded2(10 * crate::text::digit_value(c1) + crate::text::digit_value(c2)) == seq![c1, c2],
{
    let a = crate::text::digit_value(c1);
    let b = crate::text::digit_value(c2);
    let n = 10 * a + b;
    lemma_digit_char(c1);
    lemma_digit_char(c2);
    if n < 10 {
        assert(a == 0);
        assert(c1 == '0');
        assert(decimal(b as nat) == seq![crate::text::digit_char(b as nat)]);
        assert(padded2(n) == seq!['0'] + decimal(n as nat));
    } else {
        assert(n / 10 == a);
        assert(n % 10 == b);
        assert(decimal(a as nat) == seq![crate::text::digit_char(a as nat)]);
        assert(decimal(n as nat) == decimal((n / 10) as nat).push(crate::text::digit_char((n % 10) as nat)));
    }
}

proof fn lemma_parse_digits(d: Seq<char>)
    requires
        1 <= d.len() <= 3,
        forall|i: int| 0 <= i < d.len() ==> crate::text::is_ascii_digit(#[trigger] d[i]),
    ensures
        parse_u32_spec(d) == Some(crate::text::digits_value(d) as u32),
        d.len() == 2 ==> crate::text::digits_value(d) == 10 * crate::text::digit_value(d[0])
            + crate::text::digit_value(d[1]),
        d.len() == 3 ==> crate::text::digits_value(d) == 100 * crate::text::digit_value(d[0]) + 10
            * crate::text::digit_value(d[1]) + crate::text::digit_value(d[2]),
{
    let v0 = crate::text::digit_value(d[0]);
    let e = Seq::<char>::empty();
    assert(crate::text::digits_value(e) == 0);
    let one = seq![d[0]];
    assert(one.drop_last() == e);
    assert(one.last() == d[0]);
    assert(crate::text::digits_value(one) == v0);
    if d.len() == 1 {
        assert(d == one);
    } else {
        let two = seq![d[0], d[1]];
        assert(two.drop_last() == one);
        assert(two.last() == d[1]);
        assert(crate::text::digits_value(two) == v0 * 10 + crate::text::digit_value(d[1]));
        if d.len() == 2 {
            assert(d == two);
        } else {
            let three = seq![d[0], d[1], d[2]];
            assert(three.drop_last() == two);
            assert(three.last() == d[2]);
            assert(d == three);
        }
    }
    assert(crate::text::all_ascii_digits(d));
    assert(d.len() > 0 && d[0] != '+');
}

/// A VTT timestamp `HH:MM:SS.mmm` in ASCII digits converts to the ASS
/// timestamp with the same digits: the hours without leading zeros, minutes
/// and seconds as they are, and the milliseconds cut to their first two
/// digits (`01:23:45.678` becomes `1:23:45.67`).
pub proof fn ass_timestamp_keeps_digits(ts: Seq<char>)
    requires
        ts.len() == 12,
        ts[2] == ':',
        ts[5] == ':',
        ts[8] == '.',
        forall|i: int|
            0 <= i < 12 && i != 2 && i != 5 && i != 8 ==> crate::text::is_ascii_digit(#[trigger] ts[i]),
    ensures
        timestamp_to_ass(ts) == Ok::<Seq<char>, Seq<char>>(
            decimal((10 * crate::text::digit_value(ts[0]) + crate::text::digit_value(ts[1])) as nat)
                + seq![':', ts[3], ts[4], ':', ts[6], ts[7], '.', ts[9], ts[10]],
        ),
{
    reveal_strlit(":");
    reveal_strlit(".");
    let digit = |c: char| crate::text::is_ascii_digit(c);
    assert(digit(ts[0]) && digit(ts[1]) && digit(ts[3]) && digit(ts[4]) && digit(ts[6]));
    assert(digit(ts[7]) && digit(ts[9]) && digit(ts[10]) && digit(ts[11]));
    assert(index_from(ts, 2, ':') == 2);
    assert(index_from(ts, 1, ':') == 2);
    assert(index_from(ts, 0, ':') == 2);
    assert(index_from(ts, 5, ':') == 5);
    assert(index_from(ts, 4, ':') == 5);
    assert(index_from(ts, 3, ':') == 5);
    assert(index_from(ts, 12, ':') == 12);
    assert(index_from(ts, 11, ':') == 12);
    assert(index_from(ts, 10, ':') == 12);
    assert(index_from(ts, 9, ':') == 12);
    assert(index_from(ts, 8, ':') == 12);
    assert(index_from(ts, 7, ':') == 12);
    assert(index_from(ts, 6, ':') == 12);
    let h = ts.subrange(0, 2);
    let m = ts.subrange(3, 5);
    let rest = ts.subrange(6, 12);
    assert(crate::text::split_from(ts, 6, ':') == seq![rest]);
    assert(crate::text::split_from(ts, 3, ':') == seq![m] + seq![rest]);
    assert(split_char(ts, ':') == seq![h] + (seq![m] + seq![rest]));
    let parts = split_char(ts, ':');
    assert(parts.len() == 3 && parts[0] == h && parts[1] == m && parts[2] == rest);
    assert(index_from(rest, 2, '.') == 2);
    assert(index_from(rest, 1, '.') == 2);
    assert(index_from(rest, 0, '.') == 2);
    assert(index_from(rest, 6, '.') == 6);
    assert(index_from(rest, 5, '.') == 6);
    assert(index_from(rest, 4, '.') == 6);
    assert(index_from(rest, 3, '.') == 6);
    let s = rest.subrange(0, 2);
    let ms = rest.subrange(3, 6);
    assert(crate::text::split_from(rest, 3, '.') == seq![ms]);
    assert(split_char(rest, '.') == seq![s] + seq![ms]);
    let sec_parts = split_char(rest, '.');
    assert(sec_parts.len() == 2 && sec_parts[0] == s && sec_parts[1] == ms);
    assert(h[0] == ts[0] && h[1] == ts[1]);
    assert(m[0] == ts[3] && m[1] == ts[4]);
    assert(s[0] == ts[6] && s[1] == ts[7]);
    assert(ms[0] == ts[9] && ms[1] == ts[10] && ms[2] == ts[11]);
    lemma_parse_digits(h);
    lemma_parse_digits(m);
    lemma_parse_digits(s);
    lemma_parse_digits(ms);
    let millis = crate::text::digits_value(ms);
    let v9 = crate::text::digit_value(ts[9]);
    let v10 = crate::text::digit_value(ts[10]);
    let v11 = crate::text::digit_value(ts[11]);
    assert(millis / 10 == 10 * v9 + v10);
    lemma_two_digits(ts[3], ts[4]);
    lemma_two_digits(ts[6], ts[7]);
    lemma_two_digits(ts[9], ts[10]);
    assert(((millis as u32) / 10) as int == 10 * v9 + v10);
    let hv = crate::text::digits_value(h) as u32;
    let mv = crate::text::digits_value(m) as u32;
    let sv = crate::text::digits_value(s) as u32;
    let msv = millis as u32;
    assert(parse_u32_spec(parts[0]) == Some(hv));
    assert(parse_u32_spec(parts[1]) == Some(mv));
    assert(parse_u32_spec(sec_parts[0]) == Some(sv));
    assert(parse_u32_spec(sec_parts[1]) == Some(msv));
    assert(timestamp_to_ass(ts) == Ok::<Seq<char>, Seq<char>>(
        decimal(hv as nat) + ":"@ + padded2(mv as int) + ":"@ + padded2(sv as int) + "."@ + padded2(
            (msv / 10) as int,
        ),
    ));
    assert(padded2(mv as int) == seq![ts[3], ts[4]]);
    assert(padded2(sv as int) == seq![ts[6], ts[7]]);
    assert(padded2((msv / 10) as int) == seq![ts[9], ts[10]]);
    assert(decimal(hv as nat) + ":"@ + padded2(mv as int) + ":"@ + padded2(sv as int) + "."@
        + padded2((msv / 10) as int) =~= decimal(hv as nat) + seq![':', ts[3], ts[4], ':', ts[6], ts[7], '.', ts[9], ts[10]]);
}

} // verus!
