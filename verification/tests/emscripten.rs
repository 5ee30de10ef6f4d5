use sccache_wasm::compiler::CCompilerKind;
use sccache_wasm::emscripten::{
    classify_emscripten_arg, emscripten_args, ArgInfo, Emscripten, EmscriptenArgument,
};

fn strings(items: &[&str]) -> Vec<String> {
    items.iter().map(|s| s.to_string()).collect()
}

fn classify(items: &[&str], i: usize) -> Option<(EmscriptenArgument, usize)> {
    classify_emscripten_arg(&strings(items), i)
}

fn passed(items: &[&str], i: usize) -> (Vec<String>, usize) {
    match classify(items, i) {
        Some((EmscriptenArgument::PassThrough(v), n)) => (v, n),
        o => panic!("unexpected: {:?}", o),
    }
}

fn too_hard(items: &[&str], i: usize) -> &'static str {
    match classify(items, i) {
        Some((EmscriptenArgument::TooHard(f), 2)) => f,
        o => panic!("unexpected: {:?}", o),
    }
}

#[test]
fn emscripten_compiler_facts() {
    let c = Emscripten {
        emcplusplus: true,
        version: None,
    };
    assert_eq!(c.kind(), CCompilerKind::Emscripten);
    assert!(c.plusplus());
    assert_eq!(c.version(), None);
    let c = Emscripten {
        emcplusplus: false,
        version: Some("3.1.0".to_string()),
    };
    assert!(!c.plusplus());
    assert_eq!(c.version(), Some("3.1.0".to_string()));
    let d = c.clone();
    assert_eq!(d.emcplusplus, c.emcplusplus);
    assert_eq!(d.version, c.version);
}

#[test]
fn preprocessing_drops_line_markers_unless_cache_mode() {
    let c = Emscripten {
        emcplusplus: false,
        version: None,
    };
    assert_eq!(c.ignorable_whitespace_flags(false), strings(&["-P"]));
    assert!(c.ignorable_whitespace_flags(true).is_empty());
}

#[test]
fn emscripten_table_is_sorted() {
    let names: Vec<&str> = emscripten_args()
        .iter()
        .map(|a| match a {
            ArgInfo::Flag(n, _) => *n,
            ArgInfo::TakeArg(n, _, _) => *n,
        })
        .collect();
    assert_eq!(names.len(), 7);
    for w in names.windows(2) {
        assert!(w[0] < w[1], "{} !< {}", w[0], w[1]);
    }
}

#[test]
fn s_flag_separated_is_glued() {
    let (v, n) = passed(&["-c", "foo.cpp", "-o", "foo.o", "-s", "WASM=1"], 4);
    assert_eq!(v, strings(&["-sWASM=1"]));
    assert_eq!(n, 2);
}

#[test]
fn s_flag_concatenated_passes() {
    let (v, n) = passed(&["-c", "foo.cpp", "-o", "foo.o", "-sWASM=1"], 4);
    assert_eq!(v, strings(&["-sWASM=1"]));
    assert_eq!(n, 1);
}

#[test]
fn s_flags_each_pass() {
    let args = [
        "-s",
        "WASM=1",
        "-s",
        "USE_SDL=2",
        "-s",
        "ALLOW_MEMORY_GROWTH=1",
    ];
    assert_eq!(passed(&args, 0).0, strings(&["-sWASM=1"]));
    assert_eq!(passed(&args, 2).0, strings(&["-sUSE_SDL=2"]));
    assert_eq!(passed(&args, 4).0, strings(&["-sALLOW_MEMORY_GROWTH=1"]));
}

#[test]
fn s_flag_values_change_the_key() {
    let (a, _) = passed(&["-s", "WASM=1"], 0);
    let (b, _) = passed(&["-s", "WASM=0"], 0);
    assert_ne!(a, b);
}

#[test]
fn trailing_s_flag_passes_alone() {
    let (v, n) = passed(&["foo.c", "-s"], 1);
    assert_eq!(v, strings(&["-s"]));
    assert_eq!(n, 1);
}

#[test]
fn linking_flags_are_too_hard() {
    assert_eq!(too_hard(&["-c", "foo.cpp", "--preload-file", "data"], 2), "--preload-file");
    assert_eq!(too_hard(&["-c", "foo.cpp", "--embed-file", "data"], 2), "--embed-file");
    assert_eq!(too_hard(&["-c", "foo.cpp", "--pre-js", "pre.js"], 2), "--pre-js");
    assert_eq!(too_hard(&["-c", "foo.cpp", "--post-js", "post.js"], 2), "--post-js");
    assert_eq!(too_hard(&["-c", "foo.cpp", "--js-library", "lib.js"], 2), "--js-library");
}

#[test]
fn linking_flag_without_value_is_missing_value() {
    assert!(matches!(
        classify(&["--pre-js"], 0),
        Some((EmscriptenArgument::MissingValue, 1))
    ));
}

#[test]
fn emrun_passes_through() {
    let (v, n) = passed(&["-c", "foo.cpp", "-o", "foo.o", "--emrun"], 4);
    assert_eq!(v, strings(&["--emrun"]));
    assert_eq!(n, 1);
}

#[test]
fn other_arguments_are_not_emscripten_s() {
    assert!(classify(&["-O2"], 0).is_none());
    assert!(classify(&["foo.cpp"], 0).is_none());
    assert!(classify(&["--emrunx"], 0).is_none());
    assert!(classify(&["--preload-file=x"], 0).is_none());
}
