use sccache_wasm::compiler::{
    ArtifactDescriptor, Cacheable, ColorMode, CommandError, CompilerArguments, ParsedArguments,
};
use sccache_wasm::language::Language;
use sccache_wasm::wasm_opt::{generate_compile_commands, parse_arguments, WasmOpt};
use sccache_wasm::path::PathStyle;
use std::path::{PathBuf, MAIN_SEPARATOR};

fn strings(items: &[&str]) -> Vec<String> {
    items.iter().map(|s| s.to_string()).collect()
}

fn host_style() -> PathStyle {
    if MAIN_SEPARATOR == '\\' {
        PathStyle::Windows
    } else {
        PathStyle::Unix
    }
}

fn parse_arguments_(arguments: Vec<String>) -> CompilerArguments<ParsedArguments> {
    parse_arguments(&arguments, ".", host_style())
}

fn expect_parsed(r: CompilerArguments<ParsedArguments>) -> ParsedArguments {
    match r {
        CompilerArguments::Parsed(args) => args,
        o => panic!("Got unexpected parse result: {:?}", o),
    }
}

fn obj_output(outputs: &[(String, ArtifactDescriptor)]) -> &ArtifactDescriptor {
    &outputs
        .iter()
        .find(|(k, _)| k == "obj")
        .expect("no obj output")
        .1
}

#[test]
fn test_parse_arguments_simple_wasm() {
    let args = strings(&["input.wasm", "-O2", "-o", "output.wasm"]);
    let ParsedArguments {
        input,
        language,
        outputs,
        common_args,
        ..
    } = expect_parsed(parse_arguments_(args));
    assert_eq!(Some("input.wasm"), Some(input.as_str()));
    assert_eq!(Language::Wasm, language);
    let obj = obj_output(&outputs);
    let expected = PathBuf::from(".").join("output.wasm");
    assert_eq!(Some(obj.path.as_str()), expected.to_str());
    assert!(!obj.optional);
    assert_eq!(strings(&["-O2"]), common_args);
}

#[test]
fn test_parse_arguments_simple_wat() {
    let args = strings(&["input.wat", "--strip-debug", "-o", "output.wasm"]);
    let ParsedArguments {
        input,
        language,
        common_args,
        ..
    } = expect_parsed(parse_arguments_(args));
    assert_eq!(Some("input.wat"), Some(input.as_str()));
    assert_eq!(Language::Wasm, language);
    assert_eq!(strings(&["--strip-debug"]), common_args);
}

#[test]
fn test_parse_arguments_flags_affect_hash() {
    let args1 = strings(&["input.wasm", "-O2", "-o", "output.wasm"]);
    let args2 = strings(&["input.wasm", "-O3", "-o", "output.wasm"]);
    let parsed1 = expect_parsed(parse_arguments_(args1));
    let parsed2 = expect_parsed(parse_arguments_(args2));
    assert_ne!(parsed1.common_args, parsed2.common_args);
}

#[test]
fn test_parse_arguments_requires_output() {
    let args = strings(&["input.wasm", "-O2"]);
    assert!(matches!(
        parse_arguments_(args),
        CompilerArguments::CannotCache("no output file", _)
    ));
}

#[test]
fn test_parse_arguments_rejects_multiple_inputs() {
    let args = strings(&["input.wasm", "extra.wasm", "-o", "output.wasm"]);
    assert!(matches!(
        parse_arguments_(args),
        CompilerArguments::CannotCache("multiple input files", _)
    ));
}

#[test]
fn test_parse_arguments_rejects_stdout_output() {
    let args = strings(&["input.wasm", "-o", "-"]);
    assert!(matches!(
        parse_arguments_(args),
        CompilerArguments::CannotCache("-o", _)
    ));
}

#[test]
fn test_parse_arguments_rejects_response_files() {
    let args = strings(&["@args.rsp"]);
    assert!(matches!(
        parse_arguments_(args),
        CompilerArguments::CannotCache("@", _)
    ));
}

#[test]
fn test_parse_arguments_rejects_stdin_input() {
    let args = strings(&["-", "-o", "output.wasm"]);
    assert!(matches!(
        parse_arguments_(args),
        CompilerArguments::CannotCache("stdin input", _)
    ));
}

#[test]
fn empty_command_line_is_not_a_compilation() {
    assert!(matches!(
        parse_arguments_(vec![]),
        CompilerArguments::NotCompilation
    ));
}

#[test]
fn flags_without_input_are_not_a_compilation() {
    let args = strings(&["-O2", "-o", "output.wasm"]);
    assert!(matches!(
        parse_arguments_(args),
        CompilerArguments::NotCompilation
    ));
}

#[test]
fn missing_output_operands_are_refused() {
    assert!(matches!(
        parse_arguments_(strings(&["input.wasm", "-o"])),
        CompilerArguments::CannotCache("missing argument to -o", None)
    ));
    assert!(matches!(
        parse_arguments_(strings(&["input.wasm", "--output"])),
        CompilerArguments::CannotCache("missing argument to --output", None)
    ));
}

#[test]
fn output_equals_form_is_accepted_and_stdout_refused() {
    let parsed = expect_parsed(parse_arguments_(strings(&[
        "input.wasm",
        "--output=out/x.wasm",
    ])));
    assert_eq!(obj_output(&parsed.outputs).path, "./out/x.wasm");
    match parse_arguments_(strings(&["input.wasm", "--output=-"])) {
        CompilerArguments::CannotCache("-o", Some(extra)) => assert_eq!(extra, "-"),
        o => panic!("unexpected: {:?}", o),
    }
    match parse_arguments_(strings(&["input.wasm", "--output", "-"])) {
        CompilerArguments::CannotCache("-o", Some(extra)) => assert_eq!(extra, "-"),
        o => panic!("unexpected: {:?}", o),
    }
}

#[test]
fn absolute_output_path_replaces_cwd() {
    let parsed = expect_parsed(parse_arguments(
        &strings(&["input.wasm", "-o", "/tmp/out.wasm"]),
        "/work",
        PathStyle::Unix,
    ));
    assert_eq!(obj_output(&parsed.outputs).path, "/tmp/out.wasm");
    let parsed = expect_parsed(parse_arguments(
        &strings(&["input.wasm", "-o", "out.wasm"]),
        "/work/",
        PathStyle::Unix,
    ));
    assert_eq!(obj_output(&parsed.outputs).path, "/work/out.wasm");
}

#[test]
fn last_output_wins() {
    let parsed = expect_parsed(parse_arguments_(strings(&[
        "-o", "a.wasm", "input.wasm", "--output", "b.wasm",
    ])));
    assert_eq!(obj_output(&parsed.outputs).path, "./b.wasm");
}

#[test]
fn multiple_inputs_detail_lists_the_extra_input() {
    match parse_arguments_(strings(&["input.wasm", "extra.wasm", "-o", "output.wasm"])) {
        CompilerArguments::CannotCache("multiple input files", Some(extra)) => {
            assert_eq!(extra, "[\"extra.wasm\"]")
        }
        o => panic!("unexpected: {:?}", o),
    }
}

#[test]
fn inputs_of_other_languages_are_refused() {
    assert!(matches!(
        parse_arguments_(strings(&["input.c", "-o", "output.wasm"])),
        CompilerArguments::CannotCache("unsupported input type", None)
    ));
    assert!(matches!(
        parse_arguments_(strings(&["input.bin", "-o", "output.wasm"])),
        CompilerArguments::CannotCache("unknown source language", None)
    ));
    assert!(matches!(
        parse_arguments_(strings(&["input", "-o", "output.wasm"])),
        CompilerArguments::CannotCache("unknown source language", None)
    ));
}

#[test]
fn parsed_defaults_are_fixed() {
    let p = expect_parsed(parse_arguments_(strings(&["in.wasm", "-o", "out.wasm"])));
    assert!(!p.double_dash_input);
    assert_eq!(p.compilation_flag, "");
    assert!(p.depfile.is_none());
    assert_eq!(p.outputs.len(), 1);
    assert!(p.dependency_args.is_empty());
    assert!(p.preprocessor_args.is_empty());
    assert!(p.arch_args.is_empty());
    assert!(p.unhashed_args.is_empty());
    assert!(p.extra_dist_files.is_empty());
    assert!(p.extra_hash_files.is_empty());
    assert!(!p.msvc_show_includes);
    assert!(!p.profile_generate);
    assert_eq!(p.color_mode, ColorMode::Off);
    assert!(!p.suppress_rewrite_includes_only);
    assert!(p.too_hard_for_preprocessor_cache_mode.is_none());
}

#[test]
fn appended_flag_joins_the_cache_key() {
    let base = strings(&["input.wasm", "-o", "output.wasm"]);
    let mut longer = base.clone();
    longer.push("--strip-debug".to_string());
    let p1 = expect_parsed(parse_arguments_(base));
    let p2 = expect_parsed(parse_arguments_(longer));
    let mut expected = p1.common_args.clone();
    expected.push("--strip-debug".to_string());
    assert_eq!(p2.common_args, expected);
    assert_eq!(p1.input, p2.input);
    assert_eq!(obj_output(&p1.outputs).path, obj_output(&p2.outputs).path);
}

#[test]
fn refusals_hold_wherever_they_stand() {
    assert!(matches!(
        parse_arguments_(strings(&["-O2", "input.wasm", "-", "-o", "x.wasm"])),
        CompilerArguments::CannotCache("stdin input", None)
    ));
    assert!(matches!(
        parse_arguments_(strings(&["-O2", "-o", "x.wasm", "@more", "input.wasm"])),
        CompilerArguments::CannotCache("@", None)
    ));
    assert!(matches!(
        parse_arguments_(strings(&["a.wasm", "-O1", "b.c"])),
        CompilerArguments::CannotCache("multiple input files", Some(_))
    ));
}

#[test]
fn test_generate_compile_commands() {
    let args = strings(&["input.wasm", "-O2", "--strip-debug", "-o", "output.wasm"]);
    let parsed_args = expect_parsed(parse_arguments(&args, ".", PathStyle::Windows));
    let compiler = "/fixture/bin/wasm-opt";
    let tempdir = "/fixture/tmp";
    let (command, cacheable) =
        generate_compile_commands(compiler, &parsed_args, tempdir, &[]).unwrap();
    assert_eq!(
        command.arguments,
        strings(&["-O2", "--strip-debug", "input.wasm", "-o", ".\\output.wasm"])
    );
    assert_eq!(Cacheable::Yes, cacheable);
}

#[test]
fn parse_then_generate_keeps_flags_input_and_last_output() {
    let parsed_args = expect_parsed(parse_arguments_(strings(&[
        "-o", "a.wasm", "in.wasm", "-g", "--output=o.wasm", "-O1",
    ])));
    let env = vec![("A".to_string(), "1".to_string())];
    let (command, cacheable) =
        generate_compile_commands("/usr/bin/wasm-opt", &parsed_args, "/tmp/work", &env).unwrap();
    let out = PathBuf::from(".").join("o.wasm");
    assert_eq!(
        command.arguments,
        strings(&["-g", "-O1", "in.wasm", "-o", out.to_str().unwrap()])
    );
    assert_eq!(Cacheable::Yes, cacheable);
    assert_eq!(command.executable, "/usr/bin/wasm-opt");
    assert_eq!(command.cwd, "/tmp/work");
    assert_eq!(command.env_vars, env);
}

#[test]
fn generate_without_obj_output_fails() {
    let mut parsed_args = expect_parsed(parse_arguments_(strings(&[
        "input.wasm",
        "-o",
        "output.wasm",
    ])));
    parsed_args.outputs.clear();
    let r = generate_compile_commands("wasm-opt", &parsed_args, ".", &[]);
    assert!(matches!(r, Err(CommandError::MissingOutputFile)));
}

#[test]
fn wasm_opt_compiler_facts() {
    let c = WasmOpt {
        version: Some("116".to_string()),
    };
    assert_eq!(c.kind(), sccache_wasm::compiler::CCompilerKind::WasmOpt);
    assert!(!c.plusplus());
    assert_eq!(c.version(), Some("116".to_string()));
    let p = expect_parsed(c.parse_arguments(&strings(&["in.wasm", "-o", "o.wasm"]), "/w", &[], PathStyle::Unix));
    assert_eq!(c.preprocessed_input_path(&p, "/w", PathStyle::Unix), "/w/in.wasm");
    let abs = expect_parsed(c.parse_arguments(
        &strings(&["/abs/in.wasm", "-o", "o.wasm"]),
        "/w",
        &[],
        PathStyle::Unix,
    ));
    assert_eq!(c.preprocessed_input_path(&abs, "/w", PathStyle::Unix), "/abs/in.wasm");
    let c2 = c.clone();
    assert_eq!(c2.version(), Some("116".to_string()));
    let w = expect_parsed(c.parse_arguments(&strings(&["in.wasm", "-o", "o.wasm"]), "C:\\w", &[], PathStyle::Windows));
    assert_eq!(obj_output(&w.outputs).path, "C:\\w\\o.wasm");
    assert_eq!(c.preprocessed_input_path(&w, "C:\\w", PathStyle::Windows), "C:\\w\\in.wasm");
    let (cmd, _) = c.generate_compile_commands("wasm-opt", &p, "/w", &[]).unwrap();
    assert_eq!(cmd.arguments, strings(&["in.wasm", "-o", "/w/o.wasm"]));
}

#[test]
fn windows_absolute_output_replaces_cwd() {
    let p = expect_parsed(parse_arguments(
        &strings(&["in.wasm", "-o", "D:\\out\\o.wasm"]),
        "C:\\work",
        PathStyle::Windows,
    ));
    assert_eq!(obj_output(&p.outputs).path, "D:\\out\\o.wasm");
    let p = expect_parsed(parse_arguments(
        &strings(&["in.wasm", "-o", "\\out\\o.wasm"]),
        "C:\\work",
        PathStyle::Windows,
    ));
    assert_eq!(obj_output(&p.outputs).path, "C:\\out\\o.wasm");
    let p = expect_parsed(parse_arguments(
        &strings(&["dir\\in.wasm", "-o", "o.wasm"]),
        "\\\\server\\share",
        PathStyle::Windows,
    ));
    assert_eq!(obj_output(&p.outputs).path, "\\\\server\\share\\o.wasm");
}

#[test]
fn windows_input_names_follow_windows_rules() {
    assert!(matches!(
        parse_arguments(&strings(&["a.c\\in.wasm", "-o", "o.wasm"]), "C:\\w", PathStyle::Windows),
        CompilerArguments::Parsed(_)
    ));
    assert!(matches!(
        parse_arguments(&strings(&["in.wasm\\.", "-o", "o.wasm"]), "C:\\w", PathStyle::Windows),
        CompilerArguments::Parsed(_)
    ));
    assert!(matches!(
        parse_arguments(&strings(&["in.wasm/.", "-o", "o.wasm"]), "/w", PathStyle::Unix),
        CompilerArguments::Parsed(_)
    ));
}
