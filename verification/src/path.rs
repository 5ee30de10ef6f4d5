//! Path arithmetic on strings, as the standard library's `Path` does it on
//! Unix and on Windows: joining a path onto a base directory, the final
//! component of a path and the extension of a file name.

use vstd::prelude::*;
use vstd::string::*;
use crate::windows_path::{windows_body, windows_body_seps, windows_body_start, windows_join, windows_join_path};

verus! {

/// Which platform's path rules apply.
#[derive(Clone, Copy, Debug, PartialEq, Eq, Structural)]
pub enum PathStyle {
    /// `/` separates components; a path that starts with `/` is absolute.
    Unix,
    /// `\\` and `/` separate components, paths may start with a prefix
    /// (`C:`, `\\\\server\\share`, `\\\\?\\...`), and `\\` is written between
    /// joined parts.
    Windows,
}

/// Which characters separate the components of a path.
#[derive(Clone, Copy, Debug, PartialEq, Eq, Structural)]
pub enum SepKind {
    /// `/` only (Unix).
    Slash,
    /// `/` and `\\` (Windows).
    Both,
    /// `\\` only (the verbatim `\\\\?\\` paths of Windows).
    Backslash,
}

/// Whether `c` separates components under `k`.
pub open spec fn is_sep(c: char, k: SepKind) -> bool {
    match k {
        SepKind::Slash => c == '/',
        SepKind::Both => c == '/' || c == '\\',
        SepKind::Backslash => c == '\\',
    }
}

/// Whether `c` separates components under `k`.
pub fn sep_matches(c: char, k: SepKind) -> (b: bool)
    ensures
        b == is_sep(c, k),
{
    match k {
        SepKind::Slash => c == '/',
        SepKind::Both => c == '/' || c == '\\',
        SepKind::Backslash => c == '\\',
    }
}

/// The path that results from joining `p` onto `base` on Unix: an absolute
/// `p` replaces `base`; otherwise `p` is appended, with a `/` in between
/// unless `base` is empty or already ends with one.
pub open spec fn unix_join(base: Seq<char>, p: Seq<char>) -> Seq<char> {
    if p.len() > 0 && p[0] == '/' {
        p
    } else if base.len() == 0 {
        p
    } else if base.last() == '/' {
        base + p
    } else {
        base + seq!['/'] + p
    }
}

/// The path that results from joining `p` onto `base` under `style`, as
/// `Path::join` gives it on that platform.
pub open spec fn path_join(base: Seq<char>, p: Seq<char>, style: PathStyle) -> Seq<char> {
    match style {
        PathStyle::Unix => unix_join(base, p),
        PathStyle::Windows => windows_join(base, p),
    }
}

/// Index of the last separator (under `k`) in `s`, or -1 when there is none.
pub open spec fn last_sep_index(s: Seq<char>, k: SepKind) -> int
    decreases s.len(),
{
    if s.len() == 0 {
        -1
    } else if is_sep(s.last(), k) {
        s.len() - 1
    } else {
        last_sep_index(s.drop_last(), k)
    }
}

pub proof fn lemma_last_sep_index(s: Seq<char>, k: SepKind)
    ensures
        -1 <= last_sep_index(s, k) < s.len(),
        last_sep_index(s, k) >= 0 ==> is_sep(s[last_sep_index(s, k)], k),
        forall|j: int| last_sep_index(s, k) < j < s.len() ==> !is_sep(s[j], k),
    decreases s.len(),
{
    if s.len() > 0 && !is_sep(s.last(), k) {
        lemma_last_sep_index(s.drop_last(), k);
        assert forall|j: int| last_sep_index(s, k) < j < s.len() implies !is_sep(s[j], k) by {
            if j < s.len() - 1 {
                assert(s.drop_last()[j] == s[j]);
            }
        }
    }
}

/// Index of the last occurrence of `c` in `s`, or -1 when there is none.
pub open spec fn last_index_of(s: Seq<char>, c: char) -> int
    decreases s.len(),
{
    if s.len() == 0 {
        -1
    } else if s.last() == c {
        s.len() - 1
    } else {
        last_index_of(s.drop_last(), c)
    }
}

pub proof fn lemma_last_index_of(s: Seq<char>, c: char)
    ensures
        -1 <= last_index_of(s, c) < s.len(),
        last_index_of(s, c) >= 0 ==> s[last_index_of(s, c)] == c,
        forall|j: int| last_index_of(s, c) < j < s.len() ==> s[j] != c,
    decreases s.len(),
{
    if s.len() > 0 && s.last() != c {
        lemma_last_index_of(s.drop_last(), c);
        assert forall|j: int| last_index_of(s, c) < j < s.len() implies s[j] != c by {
            if j < s.len() - 1 {
                assert(s.drop_last()[j] == s[j]);
            }
        }
    }
}

/// The last component of the body of a path (what follows its prefix),
/// with separators `k`: empty components and trailing separators are
/// skipped, and so are `.` components except in verbatim paths (`k` is
/// `Backslash`), where `.` is a component; `None` when nothing is left.
pub open spec fn last_component(p: Seq<char>, k: SepKind) -> Option<Seq<char>>
    decreases p.len(),
{
    if p.len() == 0 {
        None
    } else if is_sep(p.last(), k) {
        last_component(p.drop_last(), k)
    } else {
        let j = last_sep_index(p, k);
        let c = p.subrange(j + 1, p.len() as int);
        if c == seq!['.'] && k != SepKind::Backslash {
            proof {
                lemma_last_sep_index(p, k);
            }
            last_component(p.subrange(0, j + 1), k)
        } else {
            Some(c)
        }
    }
}

/// The file name that a last component gives: none for `.` and `..`.
pub open spec fn name_of_component(c: Option<Seq<char>>) -> Option<Seq<char>> {
    match c {
        Some(c) => if c == seq!['.', '.'] || c == seq!['.'] {
            None
        } else {
            Some(c)
        },
        None => None,
    }
}

/// The file name of a path under `style`, as `Path::file_name` gives it on
/// that platform: its last component, unless that is `.` or `..`.
pub open spec fn spec_file_name(p: Seq<char>, style: PathStyle) -> Option<Seq<char>> {
    match style {
        PathStyle::Unix => name_of_component(last_component(p, SepKind::Slash)),
        PathStyle::Windows => name_of_component(
            last_component(
                p.subrange(windows_body_start(p), p.len() as int),
                windows_body_seps(p),
            ),
        ),
    }
}

/// The extension of a file name: what follows its last `.`, when that dot
/// is not the first character.
pub open spec fn spec_extension(name: Seq<char>) -> Option<Seq<char>> {
    let k = last_index_of(name, '.');
    if k <= 0 {
        None
    } else {
        Some(name.subrange(k + 1, name.len() as int))
    }
}

/// The characters `s[from..to]` in a vector of their own.
pub fn copy_range(s: &[char], from: usize, to: usize) -> (v: Vec<char>)
    requires
        from <= to <= s@.len(),
    ensures
        v@ == s@.subrange(from as int, to as int),
{
    let mut v: Vec<char> = Vec::new();
    let mut i = from;
    while i < to
        invariant
            from <= i <= to,
            to <= s@.len(),
            v@ == s@.subrange(from as int, i as int),
        decreases to - i,
    {
        v.push(s[i]);
        i = i + 1;
        assert(v@ == s@.subrange(from as int, i as int));
    }
    v
}

/// The position of the last `c` among the first `end` characters of `s`.
pub fn rfind_char(s: &[char], end: usize, c: char) -> (r: Option<usize>)
    requires
        end <= s@.len(),
    ensures
        match r {
            Some(k) => k as int == last_index_of(s@.subrange(0, end as int), c),
            None => last_index_of(s@.subrange(0, end as int), c) == -1,
        },
{
    let mut i = end;
    while i > 0
        invariant
            i <= end <= s@.len(),
            last_index_of(s@.subrange(0, end as int), c) == last_index_of(
                s@.subrange(0, i as int),
                c,
            ),
        decreases i,
    {
        if s[i - 1] == c {
            return Some(i - 1);
        }
        assert(s@.subrange(0, i as int).drop_last() == s@.subrange(0, i - 1));
        i = i - 1;
    }
    None
}

/// The position of the last separator (under `k`) among the first `end`
/// characters of `s`.
pub fn rfind_sep(s: &[char], end: usize, k: SepKind) -> (r: Option<usize>)
    requires
        end <= s@.len(),
    ensures
        match r {
            Some(j) => j as int == last_sep_index(s@.subrange(0, end as int), k),
            None => last_sep_index(s@.subrange(0, end as int), k) == -1,
        },
{
    let mut i = end;
    while i > 0
        invariant
            i <= end <= s@.len(),
            last_sep_index(s@.subrange(0, end as int), k) == last_sep_index(
                s@.subrange(0, i as int),
                k,
            ),
        decreases i,
    {
        if sep_matches(s[i - 1], k) {
            return Some(i - 1);
        }
        assert(s@.subrange(0, i as int).drop_last() == s@.subrange(0, i - 1));
        i = i - 1;
    }
    None
}

/// Joins `p` onto the directory `base`, as `Path::join` does on Unix.
pub fn unix_join_path(base: &str, p: &str) -> (r: String)
    ensures
        r@ == unix_join(base@, p@),
{
    let plen = p.unicode_len();
    if plen > 0 && p.get_char(0) == '/' {
        return String::from_str(p);
    }
    let blen = base.unicode_len();
    if blen == 0 {
        return String::from_str(p);
    }
    let mut r = String::from_str(base);
    if base.get_char(blen - 1) != '/' {
        r.append("/");
        proof {
            reveal_strlit("/");
        }
    }
    r.append(p);
    r
}

/// Joins `p` onto the directory `base`, as `Path::join` does under `style`.
pub fn join_path(base: &str, p: &str, style: PathStyle) -> (r: String)
    ensures
        r@ == path_join(base@, p@, style),
{
    match style {
        PathStyle::Unix => unix_join_path(base, p),
        PathStyle::Windows => windows_join_path(base, p),
    }
}

/// The last component of the path `p` with separators `k`.
pub fn last_component_of(p: &[char], k: SepKind) -> (r: Option<Vec<char>>)
    ensures
        match r {
            Some(v) => last_component(p@, k) == Some(v@),
            None => last_component(p@, k) is None,
        },
{
    let mut end = p.len();
    assert(p@.subrange(0, end as int) == p@);
    loop
        invariant
            end <= p@.len(),
            last_component(p@, k) == last_component(p@.subrange(0, end as int), k),
        decreases end,
    {
        let ghost q = p@.subrange(0, end as int);
        if end == 0 {
            return None;
        }
        if sep_matches(p[end - 1], k) {
            assert(q.drop_last() == p@.subrange(0, end - 1));
            end = end - 1;
        } else {
            let j = rfind_sep(p, end, k);
            proof {
                lemma_last_sep_index(q, k);
            }
            let start = match j {
                Some(j) => j + 1,
                None => 0,
            };
            assert(q.subrange(last_sep_index(q, k) + 1, q.len() as int) == p@.subrange(
                start as int,
                end as int,
            ));
            let is_dot = end - start == 1 && p[start] == '.';
            proof {
                if is_dot {
                    assert(p@.subrange(start as int, end as int) == seq!['.']);
                } else if p@.subrange(start as int, end as int) == seq!['.'] {
                    assert(p@.subrange(start as int, end as int)[0] == p@[start as int]);
                }
            }
            let verbatim = match k {
                SepKind::Backslash => true,
                _ => false,
            };
            if is_dot && !verbatim {
                assert(q.subrange(0, last_sep_index(q, k) + 1) == p@.subrange(0, start as int));
                end = start;
            } else {
                return Some(copy_range(p, start, end));
            }
        }
    }
}

/// The file name that a last component gives: none for `.` and `..`.
pub fn component_name(c: Option<Vec<char>>) -> (r: Option<Vec<char>>)
    ensures
        match r {
            Some(v) => c matches Some(w) && name_of_component(Some(w@)) == Some(v@),
            None => c is None || (c matches Some(w) && name_of_component(Some(w@)) is None),
        },
{
    match c {
        Some(v) => {
            let dotdot = v.len() == 2 && v[0] == '.' && v[1] == '.';
            let dot = v.len() == 1 && v[0] == '.';
            proof {
                if v@ == seq!['.', '.'] {
                    assert(v@[0] == '.' && v@[1] == '.');
                }
                if v@ == seq!['.'] {
                    assert(v@[0] == '.');
                }
                if dotdot {
                    assert(v@ == seq!['.', '.']);
                }
                if dot {
                    assert(v@ == seq!['.']);
                }
            }
            if dotdot || dot {
                None
            } else {
                Some(v)
            }
        },
        None => None,
    }
}

/// The file name of a path, as `Path::file_name` gives it under `style`.
pub fn file_name(p: &[char], style: PathStyle) -> (r: Option<Vec<char>>)
    ensures
        match r {
            Some(v) => spec_file_name(p@, style) == Some(v@),
            None => spec_file_name(p@, style) is None,
        },
{
    match style {
        PathStyle::Unix => component_name(last_component_of(p, SepKind::Slash)),
        PathStyle::Windows => {
            let (start, k) = windows_body(p);
            let body = copy_range(p, start, p.len());
            component_name(last_component_of(body.as_slice(), k))
        },
    }
}

/// The extension of a file name, as `Path::extension` gives it.
pub fn extension(name: &[char]) -> (r: Option<Vec<char>>)
    ensures
        match r {
            Some(v) => spec_extension(name@) == Some(v@),
            None => spec_extension(name@) is None,
        },
{
    assert(name@.subrange(0, name@.len() as int) == name@);
    match rfind_char(name, name.len(), '.') {
        Some(k) => {
            if k == 0 {
                None
            } else {
                proof {
                    lemma_last_index_of(name@, '.');
                }
                Some(copy_range(name, k + 1, name.len()))
            }
        },
        None => None,
    }
}

} // verus!

verus! {

/// Joining a relative path never loses the directory: on Unix, a `p` that
/// does not start with `/` is appended to `base`, which stays the start of
/// the result, with at most one `/` put between them.
pub proof fn law_relative_unix_join_keeps_base(base: Seq<char>, p: Seq<char>)
    requires
        p.len() == 0 || p[0] != '/',
    ensures
        unix_join(base, p).len() >= base.len(),
        unix_join(base, p).subrange(0, base.len() as int) == base,
        unix_join(base, p) == base + p || unix_join(base, p) == base + seq!['/'] + p,
        path_join(base, p, PathStyle::Unix) == unix_join(base, p),
{
    if base.len() > 0 {
        assert((base + p).subrange(0, base.len() as int) == base);
        assert((base + seq!['/'] + p).subrange(0, base.len() as int) == base);
    } else {
        assert(base + p == p);
    }
}

/// On Unix a path that starts with `/` is absolute: joining it onto any
/// directory gives the path itself.
pub proof fn law_absolute_unix_join_is_the_path(base: Seq<char>, p: Seq<char>)
    requires
        p.len() > 0,
        p[0] == '/',
    ensures
        unix_join(base, p) == p,
        path_join(base, p, PathStyle::Unix) == p,
{
}

} // verus!
