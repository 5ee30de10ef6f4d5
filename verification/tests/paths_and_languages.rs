use sccache_wasm::language::Language;
use sccache_wasm::path::{extension, file_name, join_path, PathStyle};
use sccache_wasm::text::chars_of;
use std::path::{Path, MAIN_SEPARATOR};

fn host_style() -> PathStyle {
    if MAIN_SEPARATOR == '\\' {
        PathStyle::Windows
    } else {
        PathStyle::Unix
    }
}

fn name_of(p: &str) -> Option<String> {
    file_name(&chars_of(p), host_style()).map(|v| v.into_iter().collect())
}

fn ext_of(n: &str) -> Option<String> {
    extension(&chars_of(n)).map(|v| v.into_iter().collect())
}

#[test]
fn join_matches_std_on_host() {
    for (base, p) in [
        (".", "output.wasm"),
        ("/work", "a/b.wasm"),
        ("/work/", "b.wasm"),
        ("", "x"),
        ("/work", "/abs"),
        ("a", ""),
    ] {
        let ours = join_path(base, p, host_style());
        let std = Path::new(base).join(p);
        assert_eq!(Some(ours.as_str()), std.to_str(), "{} + {}", base, p);
    }
}

#[test]
fn file_name_matches_std_on_host() {
    for p in [
        "foo.wasm",
        "dir/foo.wasm",
        "dir/foo.wasm/",
        "dir/foo.wasm/.",
        "/",
        "",
        ".",
        "..",
        "a/..",
        "./x",
        "a//b",
    ] {
        let std = Path::new(p).file_name().map(|s| s.to_str().unwrap().to_string());
        assert_eq!(name_of(p), std, "{:?}", p);
    }
}

#[test]
fn extension_matches_std() {
    for n in ["foo.wasm", "foo", ".bashrc", "a.b.c", "foo.", ".x.y"] {
        let std = Path::new(n).extension().map(|s| s.to_str().unwrap().to_string());
        assert_eq!(ext_of(n), std, "{:?}", n);
    }
}

#[test]
fn languages_by_extension() {
    assert_eq!(Language::from_file_name("foo.c", host_style()), Some(Language::C));
    assert_eq!(Language::from_file_name("foo.cpp", host_style()), Some(Language::Cxx));
    assert_eq!(Language::from_file_name("foo.cc", host_style()), Some(Language::Cxx));
    assert_eq!(Language::from_file_name("foo.h", host_style()), Some(Language::GenericHeader));
    assert_eq!(Language::from_file_name("foo.hpp", host_style()), Some(Language::CxxHeader));
    assert_eq!(Language::from_file_name("foo.m", host_style()), Some(Language::ObjectiveC));
    assert_eq!(Language::from_file_name("foo.mm", host_style()), Some(Language::ObjectiveCxx));
    assert_eq!(Language::from_file_name("foo.cu", host_style()), Some(Language::Cuda));
    assert_eq!(Language::from_file_name("foo.rs", host_style()), Some(Language::Rust));
    assert_eq!(Language::from_file_name("dir/foo.wasm", host_style()), Some(Language::Wasm));
    assert_eq!(Language::from_file_name("foo.wat", host_style()), Some(Language::Wasm));
    assert_eq!(Language::from_file_name("foo.js", host_style()), None);
    assert_eq!(Language::from_file_name(".wasm", host_style()), None);
    assert_eq!(Language::from_file_name("foo", host_style()), None);
}

fn wjoin(b: &str, p: &str) -> String {
    join_path(b, p, PathStyle::Windows)
}

fn wname(p: &str) -> Option<String> {
    file_name(&chars_of(p), PathStyle::Windows).map(|v| v.into_iter().collect())
}

#[test]
fn windows_join_rules() {
    assert_eq!(wjoin(".", "output.wasm"), ".\\output.wasm");
    assert_eq!(wjoin("C:\\w\\", "x"), "C:\\w\\x");
    assert_eq!(wjoin("C:\\w/", "x"), "C:\\w/x");
    assert_eq!(wjoin("", "x"), "x");
    assert_eq!(wjoin("C:\\w", "D:\\x"), "D:\\x");
    assert_eq!(wjoin("C:\\w", "D:x"), "D:x");
    assert_eq!(wjoin("C:\\w", "\\abs"), "C:\\abs");
    assert_eq!(wjoin("C:\\w", "/abs"), "C:/abs");
    assert_eq!(wjoin("C:", "x"), "C:x");
    assert_eq!(wjoin("\\\\srv\\share\\d", "\\x"), "\\\\srv\\share\\x");
    assert_eq!(wjoin("\\\\srv\\share\\d", "x"), "\\\\srv\\share\\d\\x");
    assert_eq!(wjoin("w", "\\\\srv\\share"), "\\\\srv\\share");
    assert_eq!(wjoin("\\\\?\\C:\\a\\b", "..\\c/./d"), "\\\\?\\C:\\a\\c\\d");
    assert_eq!(wjoin("\\\\?\\C:\\a", "\\x"), "\\\\?\\C:\\x");
    assert_eq!(wjoin("\\\\?\\C:", "x"), "\\\\?\\C:\\x");
    assert_eq!(wjoin("\\\\?\\C:\\a", ""), "\\\\?\\C:\\a\\");
}

#[test]
fn windows_file_names() {
    assert_eq!(wname("dir\\foo.wasm"), Some("foo.wasm".to_string()));
    assert_eq!(wname("dir/foo.wasm"), Some("foo.wasm".to_string()));
    assert_eq!(wname("C:foo.wasm"), Some("foo.wasm".to_string()));
    assert_eq!(wname("C:\\"), None);
    assert_eq!(wname("foo.wasm\\."), Some("foo.wasm".to_string()));
    assert_eq!(wname("\\\\?\\C:\\foo\\."), None);
    assert_eq!(wname("\\\\?\\C:\\a/b.wasm"), Some("a/b.wasm".to_string()));
    assert_eq!(wname("\\\\srv\\share"), None);
    assert_eq!(wname("\\\\srv\\share\\f.c"), Some("f.c".to_string()));
    assert_eq!(wname("a\\.."), None);
}
