//! Character-level helpers shared by the text formats of the library.
use vstd::prelude::*;

verus! {

/// std's `String::push`: the contract claims that the string's characters
/// become its former characters followed by `c`.
#[verifier::external_body]
pub(crate) fn push_char(s: &mut String, c: char)
    ensures
        final(s)@ == old(s)@.push(c),
{
    s.push(c);
}

/// The characters of `s`, in order.
pub fn chars_of(s: &str) -> (v: Vec<char>)
    ensures
        v@ == s@,
{
    let mut v: Vec<char> = Vec::new();
    for c in it: s.chars()
        invariant
            v@ == it.seq().take(it.index() as int),
            it.seq() == s@,
    {
        v.push(c);
    }
    v
}

/// A `String` holding exactly the characters of `v`.
pub fn string_of(v: &Vec<char>) -> (s: String)
    ensures
        s@ == v@,
{
    let mut s = String::new();
    for i in 0..v.len()
        invariant
            s@ == v@.take(i as int),
    {
        push_char(&mut s, v[i]);
        assert(v@.take(i + 1) == v@.take(i as int).push(v@[i as int]));
    }
    assert(v@.take(v.len() as int) == v@);
    s
}


/// Unicode `White_Space`: the characters that `char::is_whitespace` and the
/// `\s` class of regular expressions accept.
pub open spec fn is_white_space(c: char) -> bool {
    let x = c as u32;
    (0x9 <= x && x <= 0xd) || x == 0x20 || x == 0x85 || x == 0xa0 || x == 0x1680
        || (0x2000 <= x && x <= 0x200a) || x == 0x2028 || x == 0x2029 || x == 0x202f
        || x == 0x205f || x == 0x3000
}

/// Executable form of [`is_white_space`].
pub fn white_space(c: char) -> (b: bool)
    ensures
        b == is_white_space(c),
{
    let x = c as u32;
    (0x9 <= x && x <= 0xd) || x == 0x20 || x == 0x85 || x == 0xa0 || x == 0x1680
        || (0x2000 <= x && x <= 0x200a) || x == 0x2028 || x == 0x2029 || x == 0x202f
        || x == 0x205f || x == 0x3000
}

/// Unicode decimal digits (general category `Nd`): the characters that the
/// `\d` class of regular expressions accepts.
pub open spec fn is_unicode_digit(c: char) -> bool {
    let x = c as u32;
    (0x30 <= x && x <= 0x39) || (0x660 <= x && x <= 0x669) || (0x6f0 <= x && x <= 0x6f9)
    || (0x7c0 <= x && x <= 0x7c9) || (0x966 <= x && x <= 0x96f) || (0x9e6 <= x && x <= 0x9ef)
    || (0xa66 <= x && x <= 0xa6f) || (0xae6 <= x && x <= 0xaef) || (0xb66 <= x && x <= 0xb6f)
    || (0xbe6 <= x && x <= 0xbef) || (0xc66 <= x && x <= 0xc6f) || (0xce6 <= x && x <= 0xcef)
    || (0xd66 <= x && x <= 0xd6f) || (0xde6 <= x && x <= 0xdef) || (0xe50 <= x && x <= 0xe59)
    || (0xed0 <= x && x <= 0xed9) || (0xf20 <= x && x <= 0xf29) || (0x1040 <= x && x <= 0x1049)
    || (0x1090 <= x && x <= 0x1099) || (0x17e0 <= x && x <= 0x17e9) || (0x1810 <= x && x <= 0x1819)
    || (0x1946 <= x && x <= 0x194f) || (0x19d0 <= x && x <= 0x19d9) || (0x1a80 <= x && x <= 0x1a89)
    || (0x1a90 <= x && x <= 0x1a99) || (0x1b50 <= x && x <= 0x1b59) || (0x1bb0 <= x && x <= 0x1bb9)
    || (0x1c40 <= x && x <= 0x1c49) || (0x1c50 <= x && x <= 0x1c59) || (0xa620 <= x && x <= 0xa629)
    || (0xa8d0 <= x && x <= 0xa8d9) || (0xa900 <= x && x <= 0xa909) || (0xa9d0 <= x && x <= 0xa9d9)
    || (0xa9f0 <= x && x <= 0xa9f9) || (0xaa50 <= x && x <= 0xaa59) || (0xabf0 <= x && x <= 0xabf9)
    || (0xff10 <= x && x <= 0xff19) || (0x104a0 <= x && x <= 0x104a9) || (0x10d30 <= x && x <= 0x10d39)
    || (0x10d40 <= x && x <= 0x10d49) || (0x11066 <= x && x <= 0x1106f) || (0x110f0 <= x && x <= 0x110f9)
    || (0x11136 <= x && x <= 0x1113f) || (0x111d0 <= x && x <= 0x111d9) || (0x112f0 <= x && x <= 0x112f9)
    || (0x11450 <= x && x <= 0x11459) || (0x114d0 <= x && x <= 0x114d9) || (0x11650 <= x && x <= 0x11659)
    || (0x116c0 <= x && x <= 0x116c9) || (0x116d0 <= x && x <= 0x116e3) || (0x11730 <= x && x <= 0x11739)
    || (0x118e0 <= x && x <= 0x118e9) || (0x11950 <= x && x <= 0x11959) || (0x11bf0 <= x && x <= 0x11bf9)
    || (0x11c50 <= x && x <= 0x11c59) || (0x11d50 <= x && x <= 0x11d59) || (0x11da0 <= x && x <= 0x11da9)
    || (0x11f50 <= x && x <= 0x11f59) || (0x16130 <= x && x <= 0x16139) || (0x16a60 <= x && x <= 0x16a69)
    || (0x16ac0 <= x && x <= 0x16ac9) || (0x16b50 <= x && x <= 0x16b59) || (0x16d70 <= x && x <= 0x16d79)
    || (0x1ccf0 <= x && x <= 0x1ccf9) || (0x1d7ce <= x && x <= 0x1d7ff) || (0x1e140 <= x && x <= 0x1e149)
    || (0x1e2f0 <= x && x <= 0x1e2f9) || (0x1e4f0 <= x && x <= 0x1e4f9) || (0x1e5f1 <= x && x <= 0x1e5fa)
    || (0x1e950 <= x && x <= 0x1e959) || (0x1fbf0 <= x && x <= 0x1fbf9)
}

/// Executable form of [`is_unicode_digit`].
pub fn unicode_digit(c: char) -> (b: bool)
    ensures
        b == is_unicode_digit(c),
{
    let x = c as u32;
    (0x30 <= x && x <= 0x39) || (0x660 <= x && x <= 0x669) || (0x6f0 <= x && x <= 0x6f9)
    || (0x7c0 <= x && x <= 0x7c9) || (0x966 <= x && x <= 0x96f) || (0x9e6 <= x && x <= 0x9ef)
    || (0xa66 <= x && x <= 0xa6f) || (0xae6 <= x && x <= 0xaef) || (0xb66 <= x && x <= 0xb6f)
    || (0xbe6 <= x && x <= 0xbef) || (0xc66 <= x && x <= 0xc6f) || (0xce6 <= x && x <= 0xcef)
    || (0xd66 <= x && x <= 0xd6f) || (0xde6 <= x && x <= 0xdef) || (0xe50 <= x && x <= 0xe59)
    || (0xed0 <= x && x <= 0xed9) || (0xf20 <= x && x <= 0xf29) || (0x1040 <= x && x <= 0x1049)
    || (0x1090 <= x && x <= 0x1099) || (0x17e0 <= x && x <= 0x17e9) || (0x1810 <= x && x <= 0x1819)
    || (0x1946 <= x && x <= 0x194f) || (0x19d0 <= x && x <= 0x19d9) || (0x1a80 <= x && x <= 0x1a89)
    || (0x1a90 <= x && x <= 0x1a99) || (0x1b50 <= x && x <= 0x1b59) || (0x1bb0 <= x && x <= 0x1bb9)
    || (0x1c40 <= x && x <= 0x1c49) || (0x1c50 <= x && x <= 0x1c59) || (0xa620 <= x && x <= 0xa629)
    || (0xa8d0 <= x && x <= 0xa8d9) || (0xa900 <= x && x <= 0xa909) || (0xa9d0 <= x && x <= 0xa9d9)
    || (0xa9f0 <= x && x <= 0xa9f9) || (0xaa50 <= x && x <= 0xaa59) || (0xabf0 <= x && x <= 0xabf9)
    || (0xff10 <= x && x <= 0xff19) || (0x104a0 <= x && x <= 0x104a9) || (0x10d30 <= x && x <= 0x10d39)
    || (0x10d40 <= x && x <= 0x10d49) || (0x11066 <= x && x <= 0x1106f) || (0x110f0 <= x && x <= 0x110f9)
    || (0x11136 <= x && x <= 0x1113f) || (0x111d0 <= x && x <= 0x111d9) || (0x112f0 <= x && x <= 0x112f9)
    || (0x11450 <= x && x <= 0x11459) || (0x114d0 <= x && x <= 0x114d9) || (0x11650 <= x && x <= 0x11659)
    || (0x116c0 <= x && x <= 0x116c9) || (0x116d0 <= x && x <= 0x116e3) || (0x11730 <= x && x <= 0x11739)
    || (0x118e0 <= x && x <= 0x118e9) || (0x11950 <= x && x <= 0x11959) || (0x11bf0 <= x && x <= 0x11bf9)
    || (0x11c50 <= x && x <= 0x11c59) || (0x11d50 <= x && x <= 0x11d59) || (0x11da0 <= x && x <= 0x11da9)
    || (0x11f50 <= x && x <= 0x11f59) || (0x16130 <= x && x <= 0x16139) || (0x16a60 <= x && x <= 0x16a69)
    || (0x16ac0 <= x && x <= 0x16ac9) || (0x16b50 <= x && x <= 0x16b59) || (0x16d70 <= x && x <= 0x16d79)
    || (0x1ccf0 <= x && x <= 0x1ccf9) || (0x1d7ce <= x && x <= 0x1d7ff) || (0x1e140 <= x && x <= 0x1e149)
    || (0x1e2f0 <= x && x <= 0x1e2f9) || (0x1e4f0 <= x && x <= 0x1e4f9) || (0x1e5f1 <= x && x <= 0x1e5fa)
    || (0x1e950 <= x && x <= 0x1e959) || (0x1fbf0 <= x && x <= 0x1fbf9)
}

/// `'0'..='9'`.
pub open spec fn is_ascii_digit(c: char) -> bool {
    '0' <= c && c <= '9'
}

/// The value of an ASCII digit.
pub open spec fn digit_value(c: char) -> int {
    (c as u32) - ('0' as u32)
}


/// The views of a sequence of character vectors.
pub open spec fn views(v: Seq<Vec<char>>) -> Seq<Seq<char>> {
    v.map_values(|l: Vec<char>| l@)
}

/// `s[i..j]` as a new vector.
pub fn copy_range(v: &Vec<char>, i: usize, j: usize) -> (out: Vec<char>)
    requires
        i <= j <= v.len(),
    ensures
        out@ == v@.subrange(i as int, j as int),
{
    let mut out: Vec<char> = Vec::new();
    let mut k = i;
    while k < j
        invariant
            i <= k <= j <= v.len(),
            out@ == v@.subrange(i as int, k as int),
        decreases j - k,
    {
        out.push(v[k]);
        k += 1;
    }
    out
}

/// Appends the characters of `s` to `v`.
pub fn extend_str(v: &mut Vec<char>, s: &str)
    ensures
        final(v)@ == old(v)@ + s@,
{
    let w = chars_of(s);
    extend_chars(v, &w);
}

/// Appends the characters of `w` to `v`.
pub fn extend_chars(v: &mut Vec<char>, w: &Vec<char>)
    ensures
        final(v)@ == old(v)@ + w@,
{
    let ghost start = v@;
    for k in 0..w.len()
        invariant
            v@ == start + w@.take(k as int),
    {
        v.push(w[k]);
        assert(w@.take(k + 1) == w@.take(k as int).push(w@[k as int]));
    }
    assert(w@.take(w.len() as int) == w@);
}

/// Index of the first `'\n'` at or after `i`, or the length of `s`.
pub open spec fn line_end(s: Seq<char>, i: int) -> int
    decreases s.len() - i,
{
    if i >= s.len() {
        s.len() as int
    } else if s[i] == '\n' {
        i
    } else {
        line_end(s, i + 1)
    }
}

/// Where [`line_end`] lands.
pub proof fn lemma_line_end(s: Seq<char>, i: int)
    requires
        0 <= i <= s.len(),
    ensures
        i <= line_end(s, i) <= s.len(),
        forall|j: int| i <= j < line_end(s, i) ==> s[j] != '\n',
        line_end(s, i) < s.len() ==> s[line_end(s, i)] == '\n',
    decreases s.len() - i,
{
    if i < s.len() && s[i] != '\n' {
        lemma_line_end(s, i + 1);
    }
}

/// Executable form of [`line_end`].
pub fn find_line_end(v: &Vec<char>, i: usize) -> (e: usize)
    requires
        i <= v.len(),
    ensures
        e == line_end(v@, i as int),
{
    let mut j = i;
    while j < v.len() && v[j] != '\n'
        invariant
            i <= j <= v.len(),
            line_end(v@, i as int) == line_end(v@, j as int),
        decreases v.len() - j,
    {
        j += 1;
    }
    j
}

/// A line without the `'\r'` that ends it, if any.
pub open spec fn strip_cr(l: Seq<char>) -> Seq<char> {
    if l.len() > 0 && l.last() == '\r' {
        l.drop_last()
    } else {
        l
    }
}

/// The lines of `s` from index `i` on, as `str::lines` yields them: pieces
/// ended by `'\n'` lose it and a `'\r'` before it; a last piece without
/// `'\n'` is kept as it is; nothing follows a final `'\n'`.
pub open spec fn lines_from(s: Seq<char>, i: int) -> Seq<Seq<char>>
    decreases s.len() - i,
{
    if i < 0 || i >= s.len() {
        seq![]
    } else {
        let e = line_end(s, i);
        if e >= s.len() || e < i {
            seq![s.subrange(i, s.len() as int)]
        } else {
            seq![strip_cr(s.subrange(i, e))] + lines_from(s, e + 1)
        }
    }
}

/// The lines of `s`, as `str::lines` yields them.
pub open spec fn lines_of(s: Seq<char>) -> Seq<Seq<char>> {
    lines_from(s, 0)
}

/// Splits `v` into its lines, as `str::lines` does.
pub fn lines(v: &Vec<char>) -> (out: Vec<Vec<char>>)
    ensures
        views(out@) == lines_of(v@),
{
    let mut out: Vec<Vec<char>> = Vec::new();
    let mut i: usize = 0;
    while i < v.len()
        invariant
            i <= v.len(),
            lines_of(v@) == views(out@) + lines_from(v@, i as int),
        decreases v.len() - i,
    {
        let e = find_line_end(v, i);
        proof {
            lemma_line_end(v@, i as int);
        }
        let mut line = copy_range(v, i, e);
        let ghost before = views(out@);
        if e < v.len() {
            if line.len() > 0 && line[line.len() - 1] == '\r' {
                line.pop();
            }
            assert(line@ == strip_cr(v@.subrange(i as int, e as int)));
            i = e + 1;
        } else {
            i = e;
        }
        out.push(line);
        assert(views(out@) == before.push(line@));
    }
    assert(lines_from(v@, i as int) == Seq::<Seq<char>>::empty());
    out
}


/// `s[i..]` begins with `p`.
pub open spec fn has_at(s: Seq<char>, i: int, p: Seq<char>) -> bool {
    0 <= i && i + p.len() <= s.len() && s.subrange(i, i + p.len()) == p
}

/// `p` occurs somewhere in `s`.
pub open spec fn contains_seq(s: Seq<char>, p: Seq<char>) -> bool {
    exists|i: int| has_at(s, i, p)
}

/// Executable form of [`has_at`].
pub fn matches_at(v: &Vec<char>, i: usize, p: &Vec<char>) -> (b: bool)
    ensures
        b == has_at(v@, i as int, p@),
{
    if i > v.len() || p.len() > v.len() - i {
        return false;
    }
    let mut k: usize = 0;
    while k < p.len()
        invariant
            i + p.len() <= v.len(),
            k <= p.len(),
            forall|j: int| 0 <= j < k ==> v@[i + j] == p@[j],
        decreases p.len() - k,
    {
        if v[i + k] != p[k] {
            assert(v@.subrange(i as int, i + p.len())[k as int] != p@[k as int]);
            return false;
        }
        k += 1;
    }
    assert(v@.subrange(i as int, i + p.len()) =~= p@);
    true
}

/// Executable form of [`contains_seq`].
pub fn contains(v: &Vec<char>, p: &Vec<char>) -> (b: bool)
    ensures
        b == contains_seq(v@, p@),
{
    let mut i: usize = 0;
    while i < v.len()
        invariant
            i <= v.len(),
            forall|j: int| 0 <= j < i ==> !has_at(v@, j, p@),
        decreases v.len() - i,
    {
        if matches_at(v, i, p) {
            return true;
        }
        i += 1;
    }
    matches_at(v, i, p)
}

/// Index of the first white-space character from `i` on, skipping none:
/// the first index at or after `i` that does not hold white space.
pub open spec fn skip_ws(s: Seq<char>, i: int) -> int
    decreases s.len() - i,
{
    if i < 0 || i >= s.len() {
        s.len() as int
    } else if is_white_space(s[i]) {
        skip_ws(s, i + 1)
    } else {
        i
    }
}

/// The end of `s[..j]` once the white space that ends it is dropped.
pub open spec fn back_ws(s: Seq<char>, j: int) -> int
    decreases j,
{
    if j <= 0 || j > s.len() {
        0
    } else if is_white_space(s[j - 1]) {
        back_ws(s, j - 1)
    } else {
        j
    }
}

/// `s` without the white space at either end (`str::trim`).
pub open spec fn trim(s: Seq<char>) -> Seq<char> {
    let a = skip_ws(s, 0);
    let b = back_ws(s, s.len() as int);
    if b <= a {
        Seq::empty()
    } else {
        s.subrange(a, b)
    }
}

/// Executable form of [`trim`].
pub fn trimmed(v: &Vec<char>) -> (out: Vec<char>)
    ensures
        out@ == trim(v@),
{
    let mut a: usize = 0;
    while a < v.len() && white_space(v[a])
        invariant
            a <= v.len(),
            skip_ws(v@, 0) == skip_ws(v@, a as int),
        decreases v.len() - a,
    {
        a += 1;
    }
    let mut b: usize = v.len();
    while b > 0 && white_space(v[b - 1])
        invariant
            b <= v.len(),
            back_ws(v@, v.len() as int) == back_ws(v@, b as int),
        decreases b,
    {
        b -= 1;
    }
    if b <= a {
        Vec::new()
    } else {
        copy_range(v, a, b)
    }
}

/// The character of a digit value below ten.
pub open spec fn digit_char(d: nat) -> char {
    if d == 0 {
        '0'
    } else if d == 1 {
        '1'
    } else if d == 2 {
        '2'
    } else if d == 3 {
        '3'
    } else if d == 4 {
        '4'
    } else if d == 5 {
        '5'
    } else if d == 6 {
        '6'
    } else if d == 7 {
        '7'
    } else if d == 8 {
        '8'
    } else {
        '9'
    }
}

/// The decimal notation of `n`, without leading zeros.
pub open spec fn decimal(n: nat) -> Seq<char>
    decreases n,
{
    if n < 10 {
        seq![digit_char(n)]
    } else {
        decimal(n / 10).push(digit_char(n % 10))
    }
}

/// The decimal notation of a signed number, `'-'` first when negative.
pub open spec fn signed_decimal(n: int) -> Seq<char> {
    if n < 0 {
        seq!['-'] + decimal((-n) as nat)
    } else {
        decimal(n as nat)
    }
}

/// `format!("{:02}", n)`: the decimal notation, zero-padded to two characters
/// after the sign.
pub open spec fn padded2(n: int) -> Seq<char> {
    if 0 <= n < 10 {
        seq!['0'] + decimal(n as nat)
    } else {
        signed_decimal(n)
    }
}

fn digit_of(d: u64) -> (c: char)
    requires
        d < 10,
    ensures
        c == digit_char(d as nat),
{
    if d == 0 {
        '0'
    } else if d == 1 {
        '1'
    } else if d == 2 {
        '2'
    } else if d == 3 {
        '3'
    } else if d == 4 {
        '4'
    } else if d == 5 {
        '5'
    } else if d == 6 {
        '6'
    } else if d == 7 {
        '7'
    } else if d == 8 {
        '8'
    } else {
        '9'
    }
}

/// Appends the decimal notation of `n` to `v`.
pub fn push_decimal(v: &mut Vec<char>, n: u64)
    ensures
        final(v)@ == old(v)@ + decimal(n as nat),
    decreases n,
{
    if n < 10 {
        v.push(digit_of(n));
        assert(decimal(n as nat) == seq![digit_char(n as nat)]);
    } else {
        push_decimal(v, n / 10);
        v.push(digit_of(n % 10));
    }
}

/// Appends the decimal notation of a signed number to `v`.
pub fn push_signed_decimal(v: &mut Vec<char>, n: i64)
    ensures
        final(v)@ == old(v)@ + signed_decimal(n as int),
{
    if n < 0 {
        v.push('-');
        let m: u64 = if n == i64::MIN {
            9223372036854775808u64
        } else {
            (-n) as u64
        };
        push_decimal(v, m);
    } else {
        push_decimal(v, n as u64);
    }
}

/// Appends `format!("{:02}", n)` to `v`.
pub fn push_padded2(v: &mut Vec<char>, n: i64)
    ensures
        final(v)@ == old(v)@ + padded2(n as int),
{
    if 0 <= n && n < 10 {
        v.push('0');
        push_decimal(v, n as u64);
    } else {
        push_signed_decimal(v, n);
    }
}


/// Every character of `s` is an ASCII digit.
pub open spec fn all_ascii_digits(s: Seq<char>) -> bool {
    forall|i: int| 0 <= i < s.len() ==> is_ascii_digit(#[trigger] s[i])
}

/// The number that the ASCII digits of `s` spell.
pub open spec fn digits_value(s: Seq<char>) -> int
    decreases s.len(),
{
    if s.len() == 0 {
        0
    } else {
        digits_value(s.drop_last()) * 10 + digit_value(s.last())
    }
}

/// What `str::parse::<u32>` gives: an optional `'+'`, then one or more ASCII
/// digits whose value fits in a `u32`.
pub open spec fn parse_u32_spec(s: Seq<char>) -> Option<u32> {
    let d = if s.len() > 0 && s[0] == '+' {
        s.drop_first()
    } else {
        s
    };
    if d.len() > 0 && all_ascii_digits(d) && digits_value(d) <= u32::MAX {
        Some(digits_value(d) as u32)
    } else {
        None
    }
}

proof fn lemma_digits_value_prefix(s: Seq<char>, k: int)
    requires
        all_ascii_digits(s),
        0 <= k <= s.len(),
    ensures
        0 <= digits_value(s.take(k)) <= digits_value(s),
    decreases s.len(),
{
    if s.len() > 0 {
        assert(all_ascii_digits(s.drop_last()));
        if k == s.len() {
            assert(s.take(k) == s);
            lemma_digits_value_prefix(s.drop_last(), k - 1);
        } else {
            assert(s.drop_last().take(k) == s.take(k));
            lemma_digits_value_prefix(s.drop_last(), k);
        }
    }
}

/// `str::parse::<u32>`.
pub fn parse_u32(v: &Vec<char>) -> (r: Option<u32>)
    ensures
        r == parse_u32_spec(v@),
{
    let start: usize = if v.len() > 0 && v[0] == '+' {
        1
    } else {
        0
    };
    let ghost d = if v@.len() > 0 && v@[0] == '+' {
        v@.drop_first()
    } else {
        v@
    };
    assert(d == v@.subrange(start as int, v.len() as int));
    if start >= v.len() {
        return None;
    }
    let mut acc: u64 = 0;
    let mut i = start;
    while i < v.len()
        invariant
            start <= i <= v.len(),
            d == v@.subrange(start as int, v.len() as int),
            d == (if v@.len() > 0 && v@[0] == '+' {
                v@.drop_first()
            } else {
                v@
            }),
            d.len() > 0,
            all_ascii_digits(d.take(i - start)),
            acc == digits_value(d.take(i - start)),
            acc <= u32::MAX,
        decreases v.len() - i,
    {
        let c = v[i];
        if !('0' <= c && c <= '9') {
            assert(d[i - start] == c);
            assert(!is_ascii_digit(d[i - start]));
            assert(!all_ascii_digits(d));
            return None;
        }
        let ghost prev = d.take(i - start);
        assert(d.take(i - start + 1).drop_last() == prev);
        assert(d.take(i - start + 1).last() == c);
        assert(all_ascii_digits(d.take(i - start + 1)));
        let next = acc * 10 + ((c as u32) - ('0' as u32)) as u64;
        assert(next == digits_value(d.take(i - start + 1)));
        if next > 0xffff_ffff {
            proof {
                if all_ascii_digits(d) {
                    lemma_digits_value_prefix(d, i - start + 1);
                }
            }
            return None;
        }
        acc = next;
        i += 1;
    }
    assert(d.take(i - start) == d);
    Some(acc as u32)
}

/// How `str::parse` fails on an integer (`std::num::IntErrorKind`).
#[derive(Clone, Copy, Debug, PartialEq, Eq)]
pub enum IntErrorKind {
    /// The text is empty.
    Empty,
    /// A character is not a digit, or a sign stands alone.
    InvalidDigit,
    /// The number is above the type's maximum.
    PosOverflow,
    /// The number is below the type's minimum.
    NegOverflow,
}

/// Accumulates the digits `d[i..]` onto `acc`, as `str::parse::<i32>` does:
/// an invalid character or a step out of the range of `i32` ends it.
pub open spec fn i32_digits_from(d: Seq<char>, i: int, acc: int, negative: bool) -> Result<i32, IntErrorKind>
    decreases d.len() - i,
{
    if i < 0 || i >= d.len() {
        Ok(acc as i32)
    } else if !is_ascii_digit(d[i]) {
        Err(IntErrorKind::InvalidDigit)
    } else {
        let next = if negative {
            acc * 10 - digit_value(d[i])
        } else {
            acc * 10 + digit_value(d[i])
        };
        if next > i32::MAX {
            Err(IntErrorKind::PosOverflow)
        } else if next < i32::MIN {
            Err(IntErrorKind::NegOverflow)
        } else {
            i32_digits_from(d, i + 1, next, negative)
        }
    }
}

/// What `str::parse::<i32>` gives.
pub open spec fn parse_i32_spec(s: Seq<char>) -> Result<i32, IntErrorKind> {
    if s.len() == 0 {
        Err(IntErrorKind::Empty)
    } else if (s[0] == '+' || s[0] == '-') && s.len() == 1 {
        Err(IntErrorKind::InvalidDigit)
    } else if s[0] == '+' {
        i32_digits_from(s, 1, 0, false)
    } else if s[0] == '-' {
        i32_digits_from(s, 1, 0, true)
    } else {
        i32_digits_from(s, 0, 0, false)
    }
}

/// `str::parse::<i32>`.
pub fn parse_i32(v: &Vec<char>) -> (r: Result<i32, IntErrorKind>)
    ensures
        r == parse_i32_spec(v@),
{
    if v.len() == 0 {
        return Err(IntErrorKind::Empty);
    }
    if (v[0] == '+' || v[0] == '-') && v.len() == 1 {
        return Err(IntErrorKind::InvalidDigit);
    }
    let negative = v[0] == '-';
    let mut i: usize = if v[0] == '+' || v[0] == '-' {
        1
    } else {
        0
    };
    let ghost first = i;
    let mut acc: i64 = 0;
    while i < v.len()
        invariant
            first <= i <= v.len(),
            i32::MIN <= acc <= i32::MAX,
            parse_i32_spec(v@) == i32_digits_from(v@, i as int, acc as int, negative),
        decreases v.len() - i,
    {
        let c = v[i];
        if !('0' <= c && c <= '9') {
            return Err(IntErrorKind::InvalidDigit);
        }
        let dv = ((c as u32) - ('0' as u32)) as i64;
        let next = if negative {
            acc * 10 - dv
        } else {
            acc * 10 + dv
        };
        if next > 2147483647 {
            return Err(IntErrorKind::PosOverflow);
        }
        if next < -2147483648 {
            return Err(IntErrorKind::NegOverflow);
        }
        acc = next;
        i += 1;
    }
    Ok(acc as i32)
}

/// Index of the first `c` at or after `i`, or the length of `s`.
pub open spec fn index_from(s: Seq<char>, i: int, c: char) -> int
    decreases s.len() - i,
{
    if i < 0 || i >= s.len() {
        s.len() as int
    } else if s[i] == c {
        i
    } else {
        index_from(s, i + 1, c)
    }
}

/// Where [`index_from`] lands.
pub proof fn lemma_index_from(s: Seq<char>, i: int, c: char)
    requires
        0 <= i <= s.len(),
    ensures
        i <= index_from(s, i, c) <= s.len(),
        forall|j: int| i <= j < index_from(s, i, c) ==> s[j] != c,
        index_from(s, i, c) < s.len() ==> s[index_from(s, i, c)] == c,
    decreases s.len() - i,
{
    if i < s.len() && s[i] != c {
        lemma_index_from(s, i + 1, c);
    }
}

/// Executable form of [`index_from`].
pub fn find_char(v: &Vec<char>, i: usize, c: char) -> (e: usize)
    requires
        i <= v.len(),
    ensures
        e == index_from(v@, i as int, c),
{
    let mut j = i;
    while j < v.len() && v[j] != c
        invariant
            i <= j <= v.len(),
            index_from(v@, i as int, c) == index_from(v@, j as int, c),
        decreases v.len() - j,
    {
        j += 1;
    }
    j
}

/// The pieces of `s[i..]` between occurrences of `c` (`str::split` with a
/// character): there is always at least one piece.
pub open spec fn split_from(s: Seq<char>, i: int, c: char) -> Seq<Seq<char>>
    decreases s.len() - i,
{
    if i < 0 || i > s.len() {
        seq![]
    } else {
        let e = index_from(s, i, c);
        if e >= s.len() || e < i {
            seq![s.subrange(i, s.len() as int)]
        } else {
            seq![s.subrange(i, e)] + split_from(s, e + 1, c)
        }
    }
}

/// The pieces of `s` between occurrences of `c` (`str::split`).
pub open spec fn split_char(s: Seq<char>, c: char) -> Seq<Seq<char>> {
    split_from(s, 0, c)
}

/// Executable form of [`split_char`].
pub fn split(v: &Vec<char>, c: char) -> (out: Vec<Vec<char>>)
    ensures
        views(out@) == split_char(v@, c),
{
    let mut out: Vec<Vec<char>> = Vec::new();
    let mut i: usize = 0;
    loop
        invariant
            i <= v.len(),
            split_char(v@, c) == views(out@) + split_from(v@, i as int, c),
        decreases v.len() - i,
    {
        let e = find_char(v, i, c);
        proof {
            lemma_index_from(v@, i as int, c);
        }
        let piece = copy_range(v, i, e);
        let ghost before = views(out@);
        out.push(piece);
        assert(views(out@) == before.push(piece@));
        if e >= v.len() {
            assert(split_from(v@, i as int, c) == seq![piece@]);
            assert(views(out@) == before + seq![piece@]);
            return out;
        }
        i = e + 1;
    }
}


/// Executable form of [`skip_ws`].
pub fn skip_white(v: &Vec<char>, i: usize) -> (e: usize)
    requires
        i <= v.len(),
    ensures
        e == skip_ws(v@, i as int),
        i <= e <= v.len(),
        forall|j: int| i <= j < e ==> is_white_space(#[trigger] v@[j]),
        e < v.len() ==> !is_white_space(v@[e as int]),
{
    let mut j = i;
    while j < v.len() && white_space(v[j])
        invariant
            i <= j <= v.len(),
            skip_ws(v@, i as int) == skip_ws(v@, j as int),
            forall|k: int| i <= k < j ==> is_white_space(#[trigger] v@[k]),
        decreases v.len() - j,
    {
        j += 1;
    }
    j
}

/// `v@ == s@`, decided.
pub fn eq_str(v: &Vec<char>, s: &str) -> (b: bool)
    ensures
        b == (v@ == s@),
{
    let w = chars_of(s);
    if v.len() != w.len() {
        return false;
    }
    let b = matches_at(v, 0, &w);
    assert(v@.subrange(0, w@.len() as int) == v@);
    b
}


/// The characters of a decimal notation are ASCII digits.
pub proof fn lemma_decimal_digits(n: nat)
    ensures
        decimal(n).len() > 0,
        forall|i: int| 0 <= i < decimal(n).len() ==> is_ascii_digit(#[trigger] decimal(n)[i]),
    decreases n,
{
    if n >= 10 {
        lemma_decimal_digits(n / 10);
        let p = decimal(n / 10);
        assert forall|i: int| 0 <= i < decimal(n).len() implies is_ascii_digit(#[trigger] decimal(n)[i]) by {
            if i < p.len() {
                assert(decimal(n)[i] == p[i]);
            }
        }
    }
}

} // verus!
