//! File paths (Unix form) as text: file name, stem, extension, joining.
use vstd::prelude::*;

use crate::text::{copy_range, extend_chars};

verus! {

/// The start of the path segment that ends at `j`: the index after the last
/// `/` before `j`, or 0.
pub open spec fn segment_start(p: Seq<char>, j: int) -> int
    decreases j,
{
    if j <= 0 || j > p.len() {
        0
    } else if p[j - 1] == '/' {
        j
    } else {
        segment_start(p, j - 1)
    }
}

/// Where the last normal component of `p[..j]` lies: trailing `/` and `.`
/// components are passed over; a last component `..`, or none, gives `None`.
pub open spec fn name_span_from(p: Seq<char>, j: int) -> Option<(int, int)>
    decreases j,
{
    if j <= 0 || j > p.len() {
        None
    } else if p[j - 1] == '/' {
        name_span_from(p, j - 1)
    } else {
        let a = segment_start(p, j);
        if !(0 <= a < j) {
            None
        } else if p.subrange(a, j) == seq!['.'] {
            name_span_from(p, a)
        } else if p.subrange(a, j) == seq!['.', '.'] {
            None
        } else {
            Some((a, j))
        }
    }
}

/// Where the file name of `p` lies.
pub open spec fn name_span(p: Seq<char>) -> Option<(int, int)> {
    name_span_from(p, p.len() as int)
}

/// The file name of `p` (`Path::file_name`).
pub open spec fn file_name(p: Seq<char>) -> Option<Seq<char>> {
    match name_span(p) {
        Some((a, b)) => Some(p.subrange(a, b)),
        None => None,
    }
}

/// The index of the last `.` before `j` in `n`, or -1.
pub open spec fn last_dot(n: Seq<char>, j: int) -> int
    decreases j,
{
    if j <= 0 || j > n.len() {
        -1
    } else if n[j - 1] == '.' {
        j - 1
    } else {
        last_dot(n, j - 1)
    }
}

/// The length of the stem of file name `n`: up to its last `.`, or all of
/// it when it holds no `.` or only one at its start.
pub open spec fn stem_len(n: Seq<char>) -> int {
    let k = last_dot(n, n.len() as int);
    if k <= 0 {
        n.len() as int
    } else {
        k
    }
}

/// The extension of file name `n`: after its last `.`, unless it holds no
/// `.` or only one at its start.
pub open spec fn name_extension(n: Seq<char>) -> Option<Seq<char>> {
    let k = last_dot(n, n.len() as int);
    if k <= 0 {
        None
    } else {
        Some(n.subrange(k + 1, n.len() as int))
    }
}

/// The extension of `p` (`Path::extension`).
pub open spec fn extension(p: Seq<char>) -> Option<Seq<char>> {
    match file_name(p) {
        Some(n) => name_extension(n),
        None => None,
    }
}

/// The stem of `p` (`Path::file_stem`).
pub open spec fn file_stem(p: Seq<char>) -> Option<Seq<char>> {
    match file_name(p) {
        Some(n) => Some(n.take(stem_len(n))),
        None => None,
    }
}

/// `p` with its extension replaced by `e`, or removed when `e` is empty
/// (`Path::with_extension`): the path is cut right after the stem of its
/// file name; a path without file name is left as it is.
pub open spec fn with_extension(p: Seq<char>, e: Seq<char>) -> Seq<char> {
    match name_span(p) {
        None => p,
        Some((a, b)) => {
            let cut = p.take(a + stem_len(p.subrange(a, b)));
            if e.len() > 0 {
                cut + seq!['.'] + e
            } else {
                cut
            }
        },
    }
}

/// `dir` joined with `name` (`Path::join`): an absolute `name` replaces
/// `dir`; otherwise a `/` separates them unless `dir` is empty or ends with
/// one.
pub open spec fn join(dir: Seq<char>, name: Seq<char>) -> Seq<char> {
    if name.len() > 0 && name[0] == '/' {
        name
    } else if dir.len() == 0 || dir.last() == '/' {
        dir + name
    } else {
        dir + seq!['/'] + name
    }
}

proof fn lemma_segment_start(p: Seq<char>, j: int)
    requires
        0 <= j <= p.len(),
    ensures
        0 <= segment_start(p, j) <= j,
        forall|k: int| segment_start(p, j) <= k < j ==> p[k] != '/',
        segment_start(p, j) > 0 ==> p[segment_start(p, j) - 1] == '/',
    decreases j,
{
    if j > 0 && p[j - 1] != '/' {
        lemma_segment_start(p, j - 1);
    }
}

/// `last_dot` finds a `.` before `j`, and none follows it there.
pub proof fn lemma_last_dot(n: Seq<char>, j: int)
    requires
        0 <= j <= n.len(),
    ensures
        -1 <= last_dot(n, j) < j,
        last_dot(n, j) >= 0 ==> n[last_dot(n, j)] == '.',
        forall|k: int| last_dot(n, j) < k < j ==> n[k] != '.',
    decreases j,
{
    if j > 0 && n[j - 1] != '.' {
        lemma_last_dot(n, j - 1);
    }
}

/// Executable form of [`name_span`].
pub fn find_name_span(p: &Vec<char>) -> (r: Option<(usize, usize)>)
    ensures
        r matches Some((a, b)) ==> name_span(p@) == Some((a as int, b as int)) && a < b <= p.len(),
        r is None ==> name_span(p@) is None,
{
    let mut j: usize = p.len();
    loop
        invariant
            j <= p.len(),
            name_span(p@) == name_span_from(p@, j as int),
        decreases j,
    {
        if j == 0 {
            return None;
        }
        if p[j - 1] == '/' {
            j -= 1;
        } else {
            let mut a = j;
            while a > 0 && p[a - 1] != '/'
                invariant
                    a <= j <= p.len(),
                    segment_start(p@, j as int) == segment_start(p@, a as int),
                decreases a,
            {
                a -= 1;
            }
            proof {
                lemma_segment_start(p@, j as int);
            }
            if j - a == 1 && p[a] == '.' {
                assert(p@.subrange(a as int, j as int) == seq!['.']);
                j = a;
            } else if j - a == 2 && p[a] == '.' && p[a + 1] == '.' {
                assert(p@.subrange(a as int, j as int) == seq!['.', '.']);
                return None;
            } else {
                let ghost seg = p@.subrange(a as int, j as int);
                assert(seg != seq!['.']) by {
                    if seg == seq!['.'] {
                        assert(seg.len() == 1);
                        assert(seg[0] == p@[a as int]);
                    }
                }
                assert(seg != seq!['.', '.']) by {
                    if seg == seq!['.', '.'] {
                        assert(seg.len() == 2);
                        assert(seg[0] == p@[a as int]);
                        assert(seg[1] == p@[a + 1]);
                    }
                }
                return Some((a, j));
            }
        }
    }
}

/// Executable form of [`stem_len`].
pub fn find_stem_len(n: &Vec<char>) -> (k: usize)
    ensures
        k == stem_len(n@),
        k <= n.len(),
{
    let mut j = n.len();
    while j > 0 && n[j - 1] != '.'
        invariant
            j <= n.len(),
            last_dot(n@, n.len() as int) == last_dot(n@, j as int),
        decreases j,
    {
        j -= 1;
    }
    if j <= 1 {
        n.len()
    } else {
        j - 1
    }
}

/// Executable form of [`file_name`].
pub fn path_file_name(p: &Vec<char>) -> (r: Option<Vec<char>>)
    ensures
        r matches Some(n) ==> file_name(p@) == Some(n@),
        r is None ==> file_name(p@) is None,
{
    match find_name_span(p) {
        Some((a, b)) => Some(copy_range(p, a, b)),
        None => None,
    }
}

/// Executable form of [`extension`].
pub fn path_extension(p: &Vec<char>) -> (r: Option<Vec<char>>)
    ensures
        r matches Some(e) ==> extension(p@) == Some(e@),
        r is None ==> extension(p@) is None,
{
    match path_file_name(p) {
        Some(n) => {
            let mut j = n.len();
            while j > 0 && n[j - 1] != '.'
                invariant
                    j <= n.len(),
                    last_dot(n@, n.len() as int) == last_dot(n@, j as int),
                decreases j,
            {
                j -= 1;
            }
            if j <= 1 {
                None
            } else {
                Some(copy_range(&n, j, n.len()))
            }
        },
        None => None,
    }
}

/// Executable form of [`file_stem`].
pub fn path_file_stem(p: &Vec<char>) -> (r: Option<Vec<char>>)
    ensures
        r matches Some(s) ==> file_stem(p@) == Some(s@),
        r is None ==> file_stem(p@) is None,
{
    match path_file_name(p) {
        Some(n) => {
            let k = find_stem_len(&n);
            let s = copy_range(&n, 0, k);
            assert(s@ == n@.take(k as int));
            Some(s)
        },
        None => None,
    }
}

/// Executable form of [`with_extension`].
pub fn path_with_extension(p: &Vec<char>, e: &Vec<char>) -> (r: Vec<char>)
    ensures
        r@ == with_extension(p@, e@),
{
    match find_name_span(p) {
        None => copy_range(p, 0, p.len()),
        Some((a, b)) => {
            let n = copy_range(p, a, b);
            let k = find_stem_len(&n);
            let mut out = copy_range(p, 0, a + k);
            assert(out@ == p@.take(a + k));
            if e.len() > 0 {
                out.push('.');
                extend_chars(&mut out, e);
            }
            out
        },
    }
}

/// Executable form of [`join`].
pub fn path_join(dir: &Vec<char>, name: &Vec<char>) -> (r: Vec<char>)
    ensures
        r@ == join(dir@, name@),
{
    if name.len() > 0 && name[0] == '/' {
        copy_range(name, 0, name.len())
    } else {
        let mut out = copy_range(dir, 0, dir.len());
        if dir.len() > 0 && dir[dir.len() - 1] != '/' {
            out.push('/');
        }
        extend_chars(&mut out, name);
        out
    }
}


/// `segment_start` lands on `k` when `p[k..j]` holds no `/` and `k` starts
/// the path or follows a `/`.
pub proof fn lemma_segment_start_at(p: Seq<char>, k: int, j: int)
    requires
        0 <= k < j <= p.len(),
        k == 0 || p[k - 1] == '/',
        forall|i: int| k <= i < j ==> p[i] != '/',
    ensures
        segment_start(p, j) == k,
    decreases j - k,
{
    if j - 1 > k {
        lemma_segment_start_at(p, k, j - 1);
    } else {
        assert(segment_start(p, k) == k);
        assert(p[j - 1] != '/');
    }
}

/// The file name of a path that ends in a plain component `p[k..]`.
pub proof fn lemma_name_span_last(p: Seq<char>, k: int)
    requires
        0 <= k < p.len(),
        k == 0 || p[k - 1] == '/',
        forall|i: int| k <= i < p.len() ==> p[i] != '/',
        p.subrange(k, p.len() as int) != seq!['.'],
        p.subrange(k, p.len() as int) != seq!['.', '.'],
    ensures
        name_span(p) == Some((k, p.len() as int)),
{
    lemma_segment_start_at(p, k, p.len() as int);
}

/// The last `.` before `j` is at `k` when `n[k]` is one and none follows
/// it before `j`.
pub proof fn lemma_last_dot_at(n: Seq<char>, k: int, j: int)
    requires
        0 <= k < j <= n.len(),
        n[k] == '.',
        forall|i: int| k < i < j ==> n[i] != '.',
    ensures
        last_dot(n, j) == k,
    decreases j - k,
{
    if j - 1 > k {
        lemma_last_dot_at(n, k, j - 1);
    }
}

/// No `.` before `j`: there is no last dot.
pub proof fn lemma_no_dot(n: Seq<char>, j: int)
    requires
        0 <= j <= n.len(),
        forall|i: int| 0 <= i < j ==> n[i] != '.',
    ensures
        last_dot(n, j) == -1,
    decreases j,
{
    if j > 0 {
        lemma_no_dot(n, j - 1);
    }
}

} // verus!
