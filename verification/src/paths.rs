//! Unix path text: the parts of a path that the scenario runner reads, and
//! the places where it puts what it produces.
//!
//! A path is read as `std::path::Path` reads it on Unix: an optional head
//! (the root `/`, or `.` when the path is `.` or starts with `./`), then
//! pieces between `/`; empty pieces and `.` pieces after the head count
//! for nothing.

use vstd::prelude::*;

use crate::text::{append_chars, chars_of, slice_chars};

verus! {

/// The length of the head of `p`: 1 for a root `/` or a leading `.`
/// component, else 0.
pub open spec fn head_len(p: Seq<char>) -> int {
    if p.len() > 0 && p[0] == '/' {
        1
    } else if p.len() > 0 && p[0] == '.' && (p.len() == 1 || p[1] == '/') {
        1
    } else {
        0
    }
}

/// `p` without trailing separators and trailing `.` pieces, never cutting
/// into the first `h` characters.
pub open spec fn trim_tail(p: Seq<char>, h: int) -> Seq<char>
    decreases p.len(),
{
    if p.len() > 0 && p.len() > h && p.last() == '/' {
        trim_tail(p.drop_last(), h)
    } else if p.len() > 0 && p.len() > h && p.last() == '.' && (p.len() - 1 == h || p[p.len() - 2] == '/') {
        trim_tail(p.drop_last(), h)
    } else {
        p
    }
}

/// Where the last `c` in `s` stands.
pub open spec fn last_index_of(s: Seq<char>, c: char) -> Option<int>
    decreases s.len(),
{
    if s.len() == 0 {
        None
    } else if s.last() == c {
        Some(s.len() - 1)
    } else {
        last_index_of(s.drop_last(), c)
    }
}

/// The last piece of `p` after its head, if there is one.
pub open spec fn last_piece(p: Seq<char>) -> Option<Seq<char>> {
    let h = head_len(p);
    let q = trim_tail(p, h);
    if q.len() <= h {
        None
    } else {
        match last_index_of(q, '/') {
            Some(k) => Some(q.skip(k + 1)),
            None => Some(q),
        }
    }
}

/// The file name of `p` (`Path::file_name`): its last piece, unless that is `..`.
pub open spec fn file_name(p: Seq<char>) -> Option<Seq<char>> {
    match last_piece(p) {
        Some(x) => if x == ".."@ {
            None
        } else {
            Some(x)
        },
        None => None,
    }
}

/// The parent of `p` (`Path::parent`) when `p` ends in a piece: the text
/// before that piece, without trailing separators and `.` pieces.
pub open spec fn parent(p: Seq<char>) -> Option<Seq<char>> {
    let h = head_len(p);
    let q = trim_tail(p, h);
    if q.len() <= h {
        if h == 1 && p[0] == '.' {
            Some(seq![])
        } else {
            None
        }
    } else {
        match last_index_of(q, '/') {
            Some(k) => Some(trim_tail(q.take(k + 1), h)),
            None => Some(seq![]),
        }
    }
}

/// The stem of `p` (`Path::file_stem`): the file name before its last
/// `.`, or the whole name when it has no `.` but possibly a leading one.
pub open spec fn file_stem(p: Seq<char>) -> Option<Seq<char>> {
    match file_name(p) {
        None => None,
        Some(n) => match last_index_of(n, '.') {
            Some(i) => if i == 0 {
                Some(n)
            } else {
                Some(n.take(i))
            },
            None => Some(n),
        },
    }
}

/// The extension of `p` (`Path::extension`): the file name after its last
/// `.`, when that `.` is not the name's first character.
pub open spec fn extension(p: Seq<char>) -> Option<Seq<char>> {
    match file_name(p) {
        None => None,
        Some(n) => match last_index_of(n, '.') {
            Some(i) => if i == 0 {
                None
            } else {
                Some(n.skip(i + 1))
            },
            None => None,
        },
    }
}

/// `base` joined with the relative path `rel` (`Path::join`): a separator
/// goes between them unless `base` is empty or already ends in one.
pub open spec fn join(base: Seq<char>, rel: Seq<char>) -> Seq<char> {
    if base.len() > 0 && base.last() != '/' {
        base + seq!['/'] + rel
    } else {
        base + rel
    }
}

pub proof fn lemma_last_index_bounds(s: Seq<char>, c: char)
    ensures
        last_index_of(s, c) matches Some(k) ==> 0 <= k < s.len() && s[k] == c,
    decreases s.len(),
{
    if s.len() > 0 && s.last() != c {
        lemma_last_index_bounds(s.drop_last(), c);
    }
}

/// A path with an extension has a non-empty stem.
pub proof fn lemma_extension_has_stem(p: Seq<char>)
    requires
        extension(p) is Some,
    ensures
        file_stem(p) matches Some(st) && st.len() > 0,
{
    lemma_last_index_bounds(file_name(p)->0, '.');
}

fn trim_tail_len(p: &Vec<char>, n: usize, h: usize) -> (r: usize)
    requires
        n <= p.len(),
    ensures
        r <= n,
        r > h ==> p@[r - 1] != '/',
        p@.take(r as int) == trim_tail(p@.take(n as int), h as int),
{
    let mut m = n;
    while m > h && (p[m - 1] == '/' || (p[m - 1] == '.' && (m - 1 == h || p[m - 2] == '/')))
        invariant
            m <= n <= p.len(),
            trim_tail(p@.take(n as int), h as int) == trim_tail(p@.take(m as int), h as int),
        decreases m,
    {
        assert(p@.take(m as int).drop_last() =~= p@.take(m - 1));
        m = m - 1;
    }
    m
}

fn last_index_in(s: &Vec<char>, n: usize, c: char) -> (r: Option<usize>)
    requires
        n <= s.len(),
    ensures
        r matches Some(k) ==> k < n && s@[k as int] == c && last_index_of(s@.take(n as int), c)
            == Some(k as int),
        r is None ==> last_index_of(s@.take(n as int), c) is None,
{
    let mut m = n;
    while m > 0
        invariant
            m <= n <= s.len(),
            last_index_of(s@.take(n as int), c) == last_index_of(s@.take(m as int), c),
        decreases m,
    {
        if s[m - 1] == c {
            return Some(m - 1);
        }
        assert(s@.take(m as int).drop_last() =~= s@.take(m - 1));
        m = m - 1;
    }
    None
}

fn head_of(p: &Vec<char>) -> (h: usize)
    ensures
        h == head_len(p@),
{
    if p.len() > 0 && p[0] == '/' {
        1
    } else if p.len() > 0 && p[0] == '.' && (p.len() == 1 || p[1] == '/') {
        1
    } else {
        0
    }
}

/// Where the last piece of `p` starts and ends, if there is one.
fn last_piece_bounds(p: &Vec<char>) -> (r: Option<(usize, usize)>)
    ensures
        r matches Some((a, b)) ==> a < b <= p.len() && last_piece(p@) == Some(
            p@.subrange(a as int, b as int),
        ),
        r is None ==> last_piece(p@) is None,
{
    let h = head_of(p);
    assert(p@.take(p.len() as int) =~= p@);
    let n = trim_tail_len(p, p.len(), h);
    if n <= h {
        return None;
    }
    match last_index_in(p, n, '/') {
        Some(k) => {
            assert(p@.take(n as int).skip(k + 1) =~= p@.subrange(k + 1, n as int));
            Some((k + 1, n))
        },
        None => {
            assert(p@.take(n as int) =~= p@.subrange(0, n as int));
            Some((0, n))
        },
    }
}

/// The file name of `p`.
pub fn file_name_of(p: &Vec<char>) -> (r: Option<Vec<char>>)
    ensures
        r matches Some(n) ==> file_name(p@) == Some(n@),
        r is None ==> file_name(p@) is None,
{
    match last_piece_bounds(p) {
        Some((a, b)) => {
            let x = slice_chars(p, a, b);
            if crate::text::same_chars(&x, &chars_of("..")) {
                None
            } else {
                Some(x)
            }
        },
        None => None,
    }
}

/// The stem and the extension of the file name of `p`.
pub fn stem_and_extension(p: &Vec<char>) -> (r: (Option<Vec<char>>, Option<Vec<char>>))
    ensures
        r.0 matches Some(s) ==> file_stem(p@) == Some(s@),
        r.0 is None ==> file_stem(p@) is None,
        r.1 matches Some(e) ==> extension(p@) == Some(e@),
        r.1 is None ==> extension(p@) is None,
{
    match file_name_of(p) {
        None => (None, None),
        Some(n) => {
            assert(n@.take(n.len() as int) =~= n@);
            match last_index_in(&n, n.len(), '.') {
                Some(i) => {
                    if i == 0 {
                        (Some(n), None)
                    } else {
                        let stem = slice_chars(&n, 0, i);
                        let ext = slice_chars(&n, i + 1, n.len());
                        assert(stem@ =~= n@.take(i as int));
                        assert(ext@ =~= n@.skip(i + 1));
                        (Some(stem), Some(ext))
                    }
                },
                None => (Some(n), None),
            }
        },
    }
}

/// The parent of `p`.
pub fn parent_of(p: &Vec<char>) -> (r: Option<Vec<char>>)
    ensures
        r matches Some(x) ==> parent(p@) == Some(x@),
        r is None ==> parent(p@) is None,
{
    let h = head_of(p);
    assert(p@.take(p.len() as int) =~= p@);
    let n = trim_tail_len(p, p.len(), h);
    if n <= h {
        if h == 1 && p[0] == '.' {
            return Some(Vec::new());
        }
        return None;
    }
    match last_index_in(p, n, '/') {
        Some(k) => {
            let m = trim_tail_len(p, k + 1, h);
            assert(p@.take(n as int).take(k + 1) =~= p@.take(k + 1));
            Some(slice_chars(p, 0, m))
        },
        None => Some(Vec::new()),
    }
}

/// `base` joined with the relative path `rel`.
pub fn join_chars(base: &Vec<char>, rel: &Vec<char>) -> (r: Vec<char>)
    ensures
        r@ == join(base@, rel@),
{
    let mut r: Vec<char> = Vec::new();
    append_chars(&mut r, base);
    if base.len() > 0 && base[base.len() - 1] != '/' {
        r.push('/');
    }
    append_chars(&mut r, rel);
    r
}

} // verus!
