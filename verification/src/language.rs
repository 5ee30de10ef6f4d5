//! Source languages, recognised by the extension of a file name.

use vstd::prelude::*;
use crate::path::{PathStyle, extension, file_name, spec_extension, spec_file_name};
use crate::text::{chars_eq, chars_of};

verus! {

/// The language of a compiler input.
#[derive(Clone, Copy, Debug, PartialEq, Eq, Structural)]
pub enum Language {
    C,
    GenericHeader,
    Cxx,
    CxxHeader,
    ObjectiveC,
    ObjectiveCxx,
    Cuda,
    Ptx,
    Cubin,
    Rust,
    Hip,
    Wasm,
}

/// The language that a file extension stands for.
pub open spec fn language_for_extension(e: Seq<char>) -> Option<Language> {
    if e == seq!['c'] {
        Some(Language::C)
    } else if e == seq!['h'] {
        Some(Language::GenericHeader)
    } else if is_cxx_extension(e) {
        Some(Language::Cxx)
    } else if is_cxx_header_extension(e) {
        Some(Language::CxxHeader)
    } else if e == seq!['m'] {
        Some(Language::ObjectiveC)
    } else if e == seq!['M'] || e == seq!['m', 'm'] {
        Some(Language::ObjectiveCxx)
    } else if e == seq!['c', 'u'] {
        Some(Language::Cuda)
    } else if e == seq!['p', 't', 'x'] {
        Some(Language::Ptx)
    } else if e == seq!['c', 'u', 'b', 'i', 'n'] {
        Some(Language::Cubin)
    } else if e == seq!['r', 's'] {
        Some(Language::Rust)
    } else if e == seq!['h', 'i', 'p'] {
        Some(Language::Hip)
    } else if e == seq!['w', 'a', 's', 'm'] || e == seq!['w', 'a', 't'] {
        Some(Language::Wasm)
    } else {
        None
    }
}

/// The language of the file at path `p`, by the extension of its file name.
pub open spec fn spec_language_of(p: Seq<char>, style: PathStyle) -> Option<Language> {
    match spec_file_name(p, style) {
        Some(name) => match spec_extension(name) {
            Some(e) => language_for_extension(e),
            None => None,
        },
        None => None,
    }
}

fn is_ext(e: &Vec<char>, lit: Vec<char>) -> (b: bool)
    ensures
        b == (e@ == lit@),
{
    chars_eq(e.as_slice(), lit.as_slice())
}

/// The extensions of C++ sources.
pub open spec fn is_cxx_extension(e: Seq<char>) -> bool {
    e == seq!['C'] || e == seq!['c', 'c'] || e == seq!['c', 'p'] || e == seq!['c', 'p', 'p']
        || e == seq!['C', 'P', 'P'] || e == seq!['c', 'x', 'x'] || e == seq!['c', '+', '+']
}

/// The extensions of C++ headers.
pub open spec fn is_cxx_header_extension(e: Seq<char>) -> bool {
    e == seq!['H'] || e == seq!['h', 'h'] || e == seq!['h', 'p'] || e == seq!['h', 'p', 'p']
        || e == seq!['H', 'P', 'P'] || e == seq!['h', 'x', 'x'] || e == seq!['h', '+', '+']
        || e == seq!['t', 'c', 'c']
}

fn cxx_extension(e: &Vec<char>) -> (b: bool)
    ensures
        b == is_cxx_extension(e@),
{
    let v0 = vec!['C'];
    let v1 = vec!['c', 'c'];
    let v2 = vec!['c', 'p'];
    let v3 = vec!['c', 'p', 'p'];
    let v4 = vec!['C', 'P', 'P'];
    let v5 = vec!['c', 'x', 'x'];
    let v6 = vec!['c', '+', '+'];
    assert(v0@ == seq!['C'] && v1@ == seq!['c', 'c'] && v2@ == seq!['c', 'p']);
    assert(v3@ == seq!['c', 'p', 'p'] && v4@ == seq!['C', 'P', 'P']);
    assert(v5@ == seq!['c', 'x', 'x'] && v6@ == seq!['c', '+', '+']);
    let b0 = is_ext(e, v0);
    let b1 = is_ext(e, v1);
    let b2 = is_ext(e, v2);
    let b3 = is_ext(e, v3);
    let b4 = is_ext(e, v4);
    let b5 = is_ext(e, v5);
    let b6 = is_ext(e, v6);
    b0 || b1 || b2 || b3 || b4 || b5 || b6
}

fn cxx_header_extension(e: &Vec<char>) -> (b: bool)
    ensures
        b == is_cxx_header_extension(e@),
{
    let v0 = vec!['H'];
    let v1 = vec!['h', 'h'];
    let v2 = vec!['h', 'p'];
    let v3 = vec!['h', 'p', 'p'];
    let v4 = vec!['H', 'P', 'P'];
    let v5 = vec!['h', 'x', 'x'];
    let v6 = vec!['h', '+', '+'];
    let v7 = vec!['t', 'c', 'c'];
    assert(v0@ == seq!['H'] && v1@ == seq!['h', 'h'] && v2@ == seq!['h', 'p']);
    assert(v3@ == seq!['h', 'p', 'p'] && v4@ == seq!['H', 'P', 'P']);
    assert(v5@ == seq!['h', 'x', 'x'] && v6@ == seq!['h', '+', '+']);
    assert(v7@ == seq!['t', 'c', 'c']);
    let b0 = is_ext(e, v0);
    let b1 = is_ext(e, v1);
    let b2 = is_ext(e, v2);
    let b3 = is_ext(e, v3);
    let b4 = is_ext(e, v4);
    let b5 = is_ext(e, v5);
    let b6 = is_ext(e, v6);
    let b7 = is_ext(e, v7);
    b0 || b1 || b2 || b3 || b4 || b5 || b6 || b7
}

fn language_of_extension(e: &Vec<char>) -> (r: Option<Language>)
    ensures
        r == language_for_extension(e@),
{
    let c = vec!['c'];
    let h = vec!['h'];
    let m = vec!['m'];
    let big_m = vec!['M'];
    let mm = vec!['m', 'm'];
    let cu = vec!['c', 'u'];
    let ptx = vec!['p', 't', 'x'];
    let cubin = vec!['c', 'u', 'b', 'i', 'n'];
    let rs = vec!['r', 's'];
    let hip = vec!['h', 'i', 'p'];
    let wasm = vec!['w', 'a', 's', 'm'];
    let wat = vec!['w', 'a', 't'];
    assert(c@ == seq!['c'] && h@ == seq!['h'] && m@ == seq!['m'] && big_m@ == seq!['M']);
    assert(mm@ == seq!['m', 'm'] && cu@ == seq!['c', 'u'] && ptx@ == seq!['p', 't', 'x']);
    assert(cubin@ == seq!['c', 'u', 'b', 'i', 'n'] && rs@ == seq!['r', 's']);
    assert(hip@ == seq!['h', 'i', 'p'] && wasm@ == seq!['w', 'a', 's', 'm']);
    assert(wat@ == seq!['w', 'a', 't']);
    if is_ext(e, c) {
        Some(Language::C)
    } else if is_ext(e, h) {
        Some(Language::GenericHeader)
    } else if cxx_extension(e) {
        Some(Language::Cxx)
    } else if cxx_header_extension(e) {
        Some(Language::CxxHeader)
    } else if is_ext(e, m) {
        Some(Language::ObjectiveC)
    } else if is_ext(e, big_m) || is_ext(e, mm) {
        Some(Language::ObjectiveCxx)
    } else if is_ext(e, cu) {
        Some(Language::Cuda)
    } else if is_ext(e, ptx) {
        Some(Language::Ptx)
    } else if is_ext(e, cubin) {
        Some(Language::Cubin)
    } else if is_ext(e, rs) {
        Some(Language::Rust)
    } else if is_ext(e, hip) {
        Some(Language::Hip)
    } else if is_ext(e, wasm) || is_ext(e, wat) {
        Some(Language::Wasm)
    } else {
        None
    }
}

impl Language {
    /// The language of the file at `file`, by the extension of its name;
    /// `None` for a name without an extension or with one that no language
    /// claims.
    pub fn from_file_name(file: &str, style: PathStyle) -> (r: Option<Language>)
        ensures
            r == spec_language_of(file@, style),
    {
        let p = chars_of(file);
        match file_name(p.as_slice(), style) {
            Some(name) => match extension(name.as_slice()) {
                Some(e) => language_of_extension(&e),
                None => None,
            },
            None => None,
        }
    }
}

} // verus!
