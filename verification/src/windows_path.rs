//! Windows paths as the standard library's `Path` reads them: prefixes
//! (`C:`, `\\server\share`, `\\.\device`, and the verbatim `\\?\...`
//! forms), roots, and how a path is joined onto a directory.

use vstd::prelude::*;
use vstd::string::*;
use crate::path::{SepKind, copy_range, is_sep, sep_matches};
use crate::text::{char_string, chars_of};

verus! {

/// The kinds of prefix a Windows path may start with.
#[derive(Clone, Copy, Debug, PartialEq, Eq, Structural)]
pub enum PrefixKind {
    /// `\\?\name`
    Verbatim,
    /// `\\?\UNC\server\share`
    VerbatimUNC,
    /// `\\?\C:`
    VerbatimDisk,
    /// `\\.\name`
    DeviceNS,
    /// `\\server\share`
    UNC,
    /// `C:`
    Disk,
}

/// Whether the prefix makes the path verbatim: `/` is then no separator
/// and `.` is a component.
pub open spec fn is_verbatim(k: PrefixKind) -> bool {
    k == PrefixKind::Verbatim || k == PrefixKind::VerbatimUNC || k == PrefixKind::VerbatimDisk
}

/// An ASCII letter, as a drive letter must be.
pub open spec fn is_ascii_alpha(c: char) -> bool {
    (97 <= (c as u32) && (c as u32) <= 122) || (65 <= (c as u32) && (c as u32) <= 90)
}

/// The index of the first separator (under `k`) in `s` at or after `from`,
/// or the length of `s` when there is none.
pub open spec fn first_sep_from(s: Seq<char>, from: int, k: SepKind) -> int
    decreases s.len() - from,
{
    if from < 0 || from >= s.len() {
        s.len() as int
    } else if is_sep(s[from], k) {
        from
    } else {
        first_sep_from(s, from + 1, k)
    }
}

pub proof fn lemma_first_sep_from(s: Seq<char>, from: int, k: SepKind)
    requires
        0 <= from <= s.len(),
    ensures
        from <= first_sep_from(s, from, k) <= s.len(),
        first_sep_from(s, from, k) < s.len() ==> is_sep(s[first_sep_from(s, from, k)], k),
        forall|j: int| from <= j < first_sep_from(s, from, k) ==> !is_sep(s[j], k),
    decreases s.len() - from,
{
    if from < s.len() && !is_sep(s[from], k) {
        lemma_first_sep_from(s, from + 1, k);
    }
}

/// The prefix that a Windows path starts with, and its length.
pub open spec fn windows_prefix(p: Seq<char>) -> Option<(PrefixKind, int)> {
    if p.len() >= 2 && is_sep(p[0], SepKind::Both) && is_sep(p[1], SepKind::Both) {
        if p.len() >= 4 && p[0] == '\\' && p[1] == '\\' && p[2] == '?' && p[3] == '\\' {
            if p.len() >= 8 && p[4] == 'U' && p[5] == 'N' && p[6] == 'C' && is_sep(
                p[7],
                SepKind::Both,
            ) {
                let e1 = first_sep_from(p, 8, SepKind::Backslash);
                if e1 < p.len() {
                    let e2 = first_sep_from(p, e1 + 1, SepKind::Backslash);
                    if e2 > e1 + 1 {
                        Some((PrefixKind::VerbatimUNC, e2))
                    } else {
                        Some((PrefixKind::VerbatimUNC, e1))
                    }
                } else {
                    Some((PrefixKind::VerbatimUNC, e1))
                }
            } else if p.len() >= 6 && is_ascii_alpha(p[4]) && p[5] == ':' && (p.len() == 6 || p[6]
                == '\\') {
                Some((PrefixKind::VerbatimDisk, 6))
            } else {
                Some((PrefixKind::Verbatim, first_sep_from(p, 4, SepKind::Backslash)))
            }
        } else if p.len() >= 4 && p[2] == '.' && is_sep(p[3], SepKind::Both) {
            Some((PrefixKind::DeviceNS, first_sep_from(p, 4, SepKind::Both)))
        } else {
            let e1 = first_sep_from(p, 2, SepKind::Both);
            if e1 > 2 && e1 < p.len() {
                let e2 = first_sep_from(p, e1 + 1, SepKind::Both);
                if e2 > e1 + 1 {
                    Some((PrefixKind::UNC, e2))
                } else {
                    None
                }
            } else {
                None
            }
        }
    } else if p.len() >= 2 && is_ascii_alpha(p[0]) && p[1] == ':' {
        Some((PrefixKind::Disk, 2))
    } else {
        None
    }
}

/// The length of a Windows path's prefix (0 without one).
pub open spec fn windows_prefix_len(p: Seq<char>) -> int {
    match windows_prefix(p) {
        Some((_, l)) => l,
        None => 0,
    }
}

/// Whether a Windows path has a separator right after its prefix.
pub open spec fn windows_physical_root(p: Seq<char>) -> bool {
    windows_prefix_len(p) < p.len() && is_sep(p[windows_prefix_len(p)], SepKind::Both)
}

/// Where the components of a Windows path begin: after its prefix and
/// the separator of its root.
pub open spec fn windows_body_start(p: Seq<char>) -> int {
    windows_prefix_len(p) + if windows_physical_root(p) {
        1int
    } else {
        0int
    }
}

/// The separators between a Windows path's components.
pub open spec fn windows_body_seps(p: Seq<char>) -> SepKind {
    match windows_prefix(p) {
        Some((k, _)) => if is_verbatim(k) {
            SepKind::Backslash
        } else {
            SepKind::Both
        },
        None => SepKind::Both,
    }
}

/// The components of `s` from index `i` on, split at separators `k`:
/// empty ones left out, and `.` left out unless `keep_dot`.
pub open spec fn split_comps(s: Seq<char>, i: int, k: SepKind, keep_dot: bool) -> Seq<Seq<char>>
    decreases s.len() - i,
{
    if i < 0 || i >= s.len() {
        seq![]
    } else {
        let j = first_sep_from(s, i, k);
        proof {
            lemma_first_sep_from(s, i, k);
        }
        let piece = s.subrange(i, j);
        let rest = if j < s.len() {
            split_comps(s, j + 1, k, keep_dot)
        } else {
            seq![]
        };
        if piece.len() == 0 || (piece == seq!['.'] && !keep_dot) {
            rest
        } else {
            seq![piece] + rest
        }
    }
}

/// Whether a component is an ordinary name (neither `.` nor `..`).
pub open spec fn is_normal(c: Seq<char>) -> bool {
    c != seq!['.'] && c != seq!['.', '.']
}

/// Pushes the components `ps[i..]` onto `comps`: `..` removes a preceding
/// ordinary name (and is dropped otherwise), `.` is dropped, and every
/// other component is appended.
pub open spec fn apply_from(comps: Seq<Seq<char>>, ps: Seq<Seq<char>>, i: int) -> Seq<Seq<char>>
    decreases ps.len() - i,
{
    if i < 0 || i >= ps.len() {
        comps
    } else {
        let c = ps[i];
        let next = if c == seq!['.', '.'] {
            if comps.len() > 0 && is_normal(comps.last()) {
                comps.drop_last()
            } else {
                comps
            }
        } else if c == seq!['.'] {
            comps
        } else {
            comps.push(c)
        };
        apply_from(next, ps, i + 1)
    }
}

/// The components `cs` written one after the other with `\` between them.
pub open spec fn join_texts(cs: Seq<Seq<char>>) -> Seq<char>
    decreases cs.len(),
{
    if cs.len() == 0 {
        seq![]
    } else if cs.len() == 1 {
        cs[0]
    } else {
        join_texts(cs.drop_last()) + seq!['\\'] + cs.last()
    }
}

/// Joining the relative path `p` onto the verbatim path `b`: the
/// components of both are combined (`.` dropped, `..` taking back a name)
/// and written out again behind `b`'s prefix.
pub open spec fn verbatim_join(b: Seq<char>, p: Seq<char>) -> Seq<char> {
    let plen = windows_prefix_len(b);
    let root_b = windows_physical_root(b);
    let bcomps = split_comps(b, windows_body_start(b), SepKind::Backslash, true);
    let root_p = p.len() > 0 && is_sep(p[0], SepKind::Both);
    let pcomps = split_comps(
        p,
        if root_p {
            1int
        } else {
            0int
        },
        SepKind::Both,
        false,
    );
    let comps = apply_from(
        if root_p {
            seq![]
        } else {
            bcomps
        },
        pcomps,
        0,
    );
    b.subrange(0, plen) + (if root_b || root_p || comps.len() > 0 {
        seq!['\\']
    } else {
        seq![]
    }) + join_texts(comps)
}

/// The path that results from joining `p` onto `b` on Windows: a `p` with
/// a prefix replaces `b`; onto a verbatim `b`, the components are combined;
/// a `p` that starts at the root keeps only `b`'s prefix; otherwise `p` is
/// appended, with a `\` in between unless `b` is empty, ends with a
/// separator, or is a bare drive (`C:`).
pub open spec fn windows_join(b: Seq<char>, p: Seq<char>) -> Seq<char> {
    let bare_drive = windows_prefix(b) == Some((PrefixKind::Disk, b.len() as int));
    let need_sep = b.len() > 0 && !is_sep(b.last(), SepKind::Both) && !bare_drive;
    if windows_prefix(p) is Some {
        p
    } else if (windows_prefix(b) matches Some((k, _)) && is_verbatim(k)) && p.len() > 0 {
        verbatim_join(b, p)
    } else if p.len() > 0 && is_sep(p[0], SepKind::Both) {
        b.subrange(0, windows_prefix_len(b)) + p
    } else if need_sep {
        b + seq!['\\'] + p
    } else {
        b + p
    }
}

} // verus!

verus! {

/// The index of the first separator (under `k`) in `s` at or after `from`.
pub fn find_sep_from(s: &[char], from: usize, k: SepKind) -> (r: usize)
    requires
        from <= s@.len(),
    ensures
        r as int == first_sep_from(s@, from as int, k),
{
    let mut i = from;
    while i < s.len()
        invariant
            from <= i <= s@.len(),
            first_sep_from(s@, from as int, k) == first_sep_from(s@, i as int, k),
        decreases s.len() - i,
    {
        if sep_matches(s[i], k) {
            return i;
        }
        i = i + 1;
    }
    i
}

fn ascii_alpha(c: char) -> (b: bool)
    ensures
        b == is_ascii_alpha(c),
{
    let u = c as u32;
    (97 <= u && u <= 122) || (65 <= u && u <= 90)
}

/// The prefix that the Windows path `p` starts with, and its length.
pub fn windows_prefix_of(p: &[char]) -> (r: Option<(PrefixKind, usize)>)
    ensures
        match r {
            Some((k, l)) => windows_prefix(p@) == Some((k, l as int)) && l <= p@.len(),
            None => windows_prefix(p@) is None,
        },
{
    let n = p.len();
    if n >= 2 && sep_matches(p[0], SepKind::Both) && sep_matches(p[1], SepKind::Both) {
        if n >= 4 && p[0] == '\\' && p[1] == '\\' && p[2] == '?' && p[3] == '\\' {
            if n >= 8 && p[4] == 'U' && p[5] == 'N' && p[6] == 'C' && sep_matches(p[7], SepKind::Both) {
                let e1 = find_sep_from(p, 8, SepKind::Backslash);
                proof {
                    lemma_first_sep_from(p@, 8, SepKind::Backslash);
                }
                if e1 < n {
                    let e2 = find_sep_from(p, e1 + 1, SepKind::Backslash);
                    proof {
                        lemma_first_sep_from(p@, e1 + 1, SepKind::Backslash);
                    }
                    if e2 > e1 + 1 {
                        Some((PrefixKind::VerbatimUNC, e2))
                    } else {
                        Some((PrefixKind::VerbatimUNC, e1))
                    }
                } else {
                    Some((PrefixKind::VerbatimUNC, e1))
                }
            } else if n >= 6 && ascii_alpha(p[4]) && p[5] == ':' && (n == 6 || p[6] == '\\') {
                Some((PrefixKind::VerbatimDisk, 6))
            } else {
                let e = find_sep_from(p, 4, SepKind::Backslash);
                proof {
                    lemma_first_sep_from(p@, 4, SepKind::Backslash);
                }
                Some((PrefixKind::Verbatim, e))
            }
        } else if n >= 4 && p[2] == '.' && sep_matches(p[3], SepKind::Both) {
            let e = find_sep_from(p, 4, SepKind::Both);
            proof {
                lemma_first_sep_from(p@, 4, SepKind::Both);
            }
            Some((PrefixKind::DeviceNS, e))
        } else {
            let e1 = find_sep_from(p, 2, SepKind::Both);
            proof {
                lemma_first_sep_from(p@, 2, SepKind::Both);
            }
            if e1 > 2 && e1 < n {
                let e2 = find_sep_from(p, e1 + 1, SepKind::Both);
                proof {
                    lemma_first_sep_from(p@, e1 + 1, SepKind::Both);
                }
                if e2 > e1 + 1 {
                    Some((PrefixKind::UNC, e2))
                } else {
                    None
                }
            } else {
                None
            }
        }
    } else if n >= 2 && ascii_alpha(p[0]) && p[1] == ':' {
        Some((PrefixKind::Disk, 2))
    } else {
        None
    }
}

/// Where the components of the Windows path `p` begin, and what separates
/// them.
pub fn windows_body(p: &[char]) -> (r: (usize, SepKind))
    ensures
        r.0 as int == windows_body_start(p@),
        r.0 <= p@.len(),
        r.1 == windows_body_seps(p@),
{
    let (plen, k) = match windows_prefix_of(p) {
        Some((kind, l)) => {
            let verbatim = match kind {
                PrefixKind::Verbatim | PrefixKind::VerbatimUNC | PrefixKind::VerbatimDisk => true,
                _ => false,
            };
            (l, if verbatim { SepKind::Backslash } else { SepKind::Both })
        },
        None => (0, SepKind::Both),
    };
    if plen < p.len() && sep_matches(p[plen], SepKind::Both) {
        (plen + 1, k)
    } else {
        (plen, k)
    }
}

/// The components of `s` from index `start` on (see `split_comps`).
pub fn split_components(s: &[char], start: usize, k: SepKind, keep_dot: bool) -> (r: Vec<Vec<char>>)
    requires
        start <= s@.len(),
    ensures
        r.deep_view() == split_comps(s@, start as int, k, keep_dot),
{
    let mut out: Vec<Vec<char>> = Vec::new();
    let mut i = start;
    assert(out.deep_view() == Seq::<Seq<char>>::empty());
    while i < s.len()
        invariant
            start <= i <= s@.len(),
            split_comps(s@, start as int, k, keep_dot) == out.deep_view() + split_comps(
                s@,
                i as int,
                k,
                keep_dot,
            ),
        decreases s.len() - i,
    {
        let j = find_sep_from(s, i, k);
        proof {
            lemma_first_sep_from(s@, i as int, k);
        }
        let piece = copy_range(s, i, j);
        let ghost rest = if j < s@.len() {
            split_comps(s@, j + 1, k, keep_dot)
        } else {
            seq![]
        };
        let is_dot = piece.len() == 1 && piece[0] == '.';
        proof {
            if is_dot {
                assert(piece@ == seq!['.']);
            } else if piece@ == seq!['.'] {
                assert(piece@[0] == '.');
            }
        }
        if !(piece.len() == 0 || (is_dot && !keep_dot)) {
            let ghost before = out.deep_view();
            let ghost pv = piece@;
            assert(piece.deep_view() =~= pv);
            out.push(piece);
            assert(out.deep_view() == before.push(pv));
            assert(before + (seq![pv] + rest) == out.deep_view() + rest);
        }
        if j < s.len() {
            i = j + 1;
        } else {
            i = s.len();
            assert(split_comps(s@, i as int, k, keep_dot) == Seq::<Seq<char>>::empty());
        }
    }
    assert(out.deep_view() + Seq::<Seq<char>>::empty() == out.deep_view());
    out
}

fn is_dot_dot(c: &Vec<char>) -> (b: bool)
    ensures
        b == (c@ == seq!['.', '.']),
{
    let b = c.len() == 2 && c[0] == '.' && c[1] == '.';
    proof {
        if c@ == seq!['.', '.'] {
            assert(c@[0] == '.' && c@[1] == '.');
        }
        if b {
            assert(c@ == seq!['.', '.']);
        }
    }
    b
}

fn is_dot(c: &Vec<char>) -> (b: bool)
    ensures
        b == (c@ == seq!['.']),
{
    let b = c.len() == 1 && c[0] == '.';
    proof {
        if c@ == seq!['.'] {
            assert(c@[0] == '.');
        }
        if b {
            assert(c@ == seq!['.']);
        }
    }
    b
}

/// Pushes the components `ps` onto `comps` (see `apply_from`).
pub fn apply_components(comps: Vec<Vec<char>>, ps: Vec<Vec<char>>) -> (r: Vec<Vec<char>>)
    ensures
        r.deep_view() == apply_from(comps.deep_view(), ps.deep_view(), 0),
{
    let mut out = comps;
    let ghost all = ps.deep_view();
    let ghost start = out.deep_view();
    let mut i: usize = 0;
    let n = ps.len();
    while i < n
        invariant
            n == all.len(),
            all == ps.deep_view(),
            i <= n,
            apply_from(start, all, 0) == apply_from(out.deep_view(), all, i as int),
        decreases n - i,
    {
        let c = copy_range(ps[i].as_slice(), 0, ps[i].len());
        assert(ps[i as int]@.subrange(0, ps[i as int]@.len() as int) == ps[i as int]@);
        assert(c@ == all[i as int]);
        let ghost before = out.deep_view();
        if is_dot_dot(&c) {
            if out.len() > 0 {
                let last = &out[out.len() - 1];
                assert(last@ == before.last());
                if !is_dot_dot(last) && !is_dot(last) {
                    out.pop();
                    assert(out.deep_view() == before.drop_last());
                }
            }
        } else if is_dot(&c) {
        } else {
            out.push(c);
            assert(out.deep_view() == before.push(all[i as int]));
        }
        i = i + 1;
    }
    out
}

/// The components `cs` written one after the other with `\` between them.
pub fn join_components(cs: &Vec<Vec<char>>) -> (r: Vec<char>)
    ensures
        r@ == join_texts(cs.deep_view()),
{
    let mut out: Vec<char> = Vec::new();
    let mut i: usize = 0;
    let ghost all = cs.deep_view();
    assert(all.take(0) == Seq::<Seq<char>>::empty());
    while i < cs.len()
        invariant
            all == cs.deep_view(),
            i <= all.len(),
            out@ == join_texts(all.take(i as int)),
        decreases cs.len() - i,
    {
        let c = &cs[i];
        assert(c@ == all[i as int]);
        let ghost before = out@;
        if i > 0 {
            out.push('\\');
        }
        let mut j: usize = 0;
        let ghost mid = out@;
        while j < c.len()
            invariant
                j <= c@.len(),
                out@ == mid + c@.take(j as int),
            decreases c.len() - j,
        {
            out.push(c[j]);
            j = j + 1;
            assert(out@ == mid + c@.take(j as int));
        }
        assert(c@.take(c@.len() as int) == c@);
        assert(all.take(i + 1).drop_last() == all.take(i as int));
        assert(all.take(i + 1).last() == all[i as int]);
        if i == 0 {
            assert(all.take(1)[0] == all[0]);
        }
        i = i + 1;
    }
    assert(all.take(all.len() as int) == all);
    out
}

/// A string of the characters `v`.
pub fn string_of(v: &[char]) -> (r: String)
    ensures
        r@ == v@,
{
    let mut r = String::new();
    let mut i: usize = 0;
    while i < v.len()
        invariant
            i <= v@.len(),
            r@ == v@.take(i as int),
        decreases v.len() - i,
    {
        let s = char_string(v[i]);
        r.append(s.as_str());
        i = i + 1;
        assert(r@ == v@.take(i as int));
    }
    assert(v@.take(v@.len() as int) == v@);
    r
}

} // verus!

verus! {

/// Appends the characters `s` to `r`.
pub fn append_chars(r: &mut Vec<char>, s: &[char])
    ensures
        final(r)@ == old(r)@ + s@,
{
    let mut i: usize = 0;
    let ghost start = r@;
    while i < s.len()
        invariant
            i <= s@.len(),
            r@ == start + s@.take(i as int),
        decreases s.len() - i,
    {
        r.push(s[i]);
        i = i + 1;
        assert(r@ == start + s@.take(i as int));
    }
    assert(s@.take(s@.len() as int) == s@);
}

fn verbatim_join_chars(b: &[char], p: &[char], plen: usize) -> (r: Vec<char>)
    requires
        windows_prefix(b@) matches Some((k, l)) && is_verbatim(k) && l == plen,
        p@.len() > 0,
    ensures
        r@ == verbatim_join(b@, p@),
{
    let (bstart, _) = windows_body(b);
    let root_b = bstart > plen;
    let bcomps = split_components(b, bstart, SepKind::Backslash, true);
    let root_p = sep_matches(p[0], SepKind::Both);
    let pstart: usize = if root_p { 1 } else { 0 };
    let pcomps = split_components(p, pstart, SepKind::Both, false);
    let start_comps = if root_p { Vec::new() } else { bcomps };
    assert(root_p ==> start_comps.deep_view() == Seq::<Seq<char>>::empty());
    let comps = apply_components(start_comps, pcomps);
    let mut r = copy_range(b, 0, plen);
    if root_b || root_p || comps.len() > 0 {
        r.push('\\');
    }
    let j = join_components(&comps);
    append_chars(&mut r, j.as_slice());
    r
}

fn windows_join_chars(b: &[char], p: &[char]) -> (r: Vec<char>)
    ensures
        r@ == windows_join(b@, p@),
{
    assert(p@.subrange(0, p@.len() as int) == p@);
    assert(b@.subrange(0, b@.len() as int) == b@);
    if windows_prefix_of(p).is_some() {
        return copy_range(p, 0, p.len());
    }
    let (plen, verbatim, bare_drive) = match windows_prefix_of(b) {
        Some((k, l)) => {
            let verbatim = match k {
                PrefixKind::Verbatim | PrefixKind::VerbatimUNC | PrefixKind::VerbatimDisk => true,
                _ => false,
            };
            let disk = match k {
                PrefixKind::Disk => true,
                _ => false,
            };
            (l, verbatim, disk && l == b.len())
        },
        None => (0, false, false),
    };
    if verbatim && p.len() > 0 {
        return verbatim_join_chars(b, p, plen);
    }
    if p.len() > 0 && sep_matches(p[0], SepKind::Both) {
        let mut r = copy_range(b, 0, plen);
        append_chars(&mut r, p);
        return r;
    }
    let need_sep = b.len() > 0 && !sep_matches(b[b.len() - 1], SepKind::Both) && !bare_drive;
    let mut r = copy_range(b, 0, b.len());
    if need_sep {
        r.push('\\');
    }
    append_chars(&mut r, p);
    r
}

/// Joins `p` onto the directory `base`, as `Path::join` does on Windows.
pub fn windows_join_path(base: &str, p: &str) -> (r: String)
    ensures
        r@ == windows_join(base@, p@),
{
    let b = chars_of(base);
    let pc = chars_of(p);
    let v = windows_join_chars(b.as_slice(), pc.as_slice());
    string_of(v.as_slice())
}

} // verus!

verus! {

/// A drive letter of either case followed by `:` makes a Windows path
/// start with a drive prefix of two characters, and joining such a path
/// onto any directory gives the path itself.
pub proof fn law_drive_paths_stand_alone(b: Seq<char>, d: char, rest: Seq<char>)
    requires
        (97 <= (d as u32) && (d as u32) <= 122) || (65 <= (d as u32) && (d as u32) <= 90),
    ensures
        windows_prefix(seq![d, ':'] + rest) == Some((PrefixKind::Disk, 2int)),
        windows_join(b, seq![d, ':'] + rest) == seq![d, ':'] + rest,
        crate::path::path_join(b, seq![d, ':'] + rest, crate::path::PathStyle::Windows) == seq![
            d,
            ':',
        ] + rest,
{
    let p = seq![d, ':'] + rest;
    assert(p[0] == d && p[1] == ':');
    assert(d != '/' && d != '\\') by {
        assert(('/' as u32) == 47);
        assert(('\\' as u32) == 92);
    }
    assert(!is_sep(p[0], SepKind::Both));
}

/// Joining a relative path onto a directory that is not verbatim keeps the
/// directory as the start of the result: a `p` with neither a prefix nor a
/// root is appended, with at most one `\` put between.
pub proof fn law_relative_windows_join_keeps_base(b: Seq<char>, p: Seq<char>)
    requires
        windows_prefix(p) is None,
        p.len() == 0 || !is_sep(p[0], SepKind::Both),
        !(windows_prefix(b) matches Some((k, _)) && is_verbatim(k)),
    ensures
        windows_join(b, p).len() >= b.len(),
        windows_join(b, p).subrange(0, b.len() as int) == b,
        windows_join(b, p) == b + p || windows_join(b, p) == b + seq!['\\'] + p,
{
    assert((b + p).subrange(0, b.len() as int) == b);
    assert((b + seq!['\\'] + p).subrange(0, b.len() as int) == b);
}

} // verus!
