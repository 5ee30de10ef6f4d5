//! The `wasm-opt` optimizer: reading its command line, and the command that
//! runs it for a cached compilation.

use vstd::prelude::*;
use vstd::string::*;
use crate::compiler::{
    ArtifactDescriptor, CCompilerKind, Cacheable, ColorMode, CommandError, CompilerArguments,
    ParsedArguments, SingleCompileCommand, find_output, output_names_unique, spec_find_output,
};
use crate::language::{Language, spec_language_of};
use crate::path::{PathStyle, join_path, path_join};
use crate::text::{chars_eq, chars_of, has_prefix, starts_with};

verus! {

/// The state of a left-to-right reading of a `wasm-opt` command line.
pub struct ScanState {
    /// The output path, already joined onto the working directory.
    pub output: Option<Seq<char>>,
    /// The input file, as given.
    pub input: Option<Seq<char>>,
    /// The flags seen so far, in order.
    pub common_args: Seq<Seq<char>>,
}

/// Where a reading of a command line ends: at its end, in some state, or
/// refused, with a reason and sometimes more detail.
pub enum Scan {
    Done(ScanState),
    Refused(Seq<char>, Option<Seq<char>>),
}

/// The state before any argument is read.
pub open spec fn initial_state() -> ScanState {
    ScanState { output: None, input: None, common_args: Seq::empty() }
}

/// A state with the output set to `path`.
pub open spec fn with_output(st: ScanState, path: Seq<char>) -> ScanState {
    ScanState { output: Some(path), input: st.input, common_args: st.common_args }
}

/// The Debug rendering of a list that holds the single OS string `arg`, as
/// the standard library's `{:?}` writes it.
pub uninterp spec fn debug_list_of_one(arg: Seq<char>) -> Seq<char>;

/// Reads `args` from index `i` on, in state `st`.
///
/// Each argument is, in this order: a response file (`@...`), refused; `-o`
/// with the output path in the next argument; `--output=PATH`; `--output`
/// with the path in the next argument (an output of `-` is refused, and so
/// is a missing path); `-`, standard input, refused; another flag, kept;
/// or the input file, which must be the only one and must be WebAssembly.
/// Output paths are joined onto `cwd`, and inputs recognised, by the path
/// rules of `style`.
pub open spec fn scan_from(
    args: Seq<Seq<char>>,
    cwd: Seq<char>,
    style: PathStyle,
    i: int,
    st: ScanState,
) -> Scan
    decreases args.len() - i,
{
    if i < 0 || i >= args.len() {
        Scan::Done(st)
    } else {
        let a = args[i];
        if has_prefix(a, "@"@) {
            Scan::Refused("@"@, None)
        } else if a == "-o"@ {
            if i + 1 >= args.len() {
                Scan::Refused("missing argument to -o"@, None)
            } else if args[i + 1] == "-"@ {
                Scan::Refused("-o"@, Some("-"@))
            } else {
                scan_from(args, cwd, style, i + 2, with_output(st, path_join(cwd, args[i + 1], style)))
            }
        } else if has_prefix(a, "--output="@) {
            let p = a.skip("--output="@.len() as int);
            if p == "-"@ {
                Scan::Refused("-o"@, Some("-"@))
            } else {
                scan_from(args, cwd, style, i + 1, with_output(st, path_join(cwd, p, style)))
            }
        } else if a == "--output"@ {
            if i + 1 >= args.len() {
                Scan::Refused("missing argument to --output"@, None)
            } else if args[i + 1] == "-"@ {
                Scan::Refused("-o"@, Some("-"@))
            } else {
                scan_from(args, cwd, style, i + 2, with_output(st, path_join(cwd, args[i + 1], style)))
            }
        } else if a == "-"@ {
            Scan::Refused("stdin input"@, None)
        } else if has_prefix(a, "-"@) {
            scan_from(
                args,
                cwd,
                style,
                i + 1,
                ScanState {
                    output: st.output,
                    input: st.input,
                    common_args: st.common_args.push(a),
                },
            )
        } else if st.input is Some {
            Scan::Refused("multiple input files"@, Some(debug_list_of_one(a)))
        } else {
            match spec_language_of(a, style) {
                Some(Language::Wasm) => scan_from(
                    args,
                    cwd,
                    style,
                    i + 1,
                    ScanState { output: st.output, input: Some(a), common_args: st.common_args },
                ),
                Some(_) => Scan::Refused("unsupported input type"@, None),
                None => Scan::Refused("unknown source language"@, None),
            }
        }
    }
}

/// What a `wasm-opt` command line amounts to.
pub enum ParseOutcome {
    /// A cacheable optimization of `input` into `output` with the flags
    /// `common_args`.
    Parsed { input: Seq<char>, output: Seq<char>, common_args: Seq<Seq<char>> },
    /// Not cacheable, for `reason`.
    Refused { reason: Seq<char>, detail: Option<Seq<char>> },
    /// Not an optimization at all.
    NotCompilation,
}

/// The meaning of the `wasm-opt` command line `args` run in `cwd`: read it
/// whole; a line without an input is no compilation, and one with an input
/// but no output cannot be cached.
pub open spec fn spec_parse_arguments(
    args: Seq<Seq<char>>,
    cwd: Seq<char>,
    style: PathStyle,
) -> ParseOutcome {
    match scan_from(args, cwd, style, 0, initial_state()) {
        Scan::Refused(reason, detail) => ParseOutcome::Refused { reason, detail },
        Scan::Done(st) => match st.input {
            None => ParseOutcome::NotCompilation,
            Some(input) => match st.output {
                None => ParseOutcome::Refused { reason: "no output file"@, detail: None },
                Some(output) => ParseOutcome::Parsed {
                    input,
                    output,
                    common_args: st.common_args,
                },
            },
        },
    }
}

/// The fields of a parsed `wasm-opt` compilation that do not depend on its
/// command line.
pub open spec fn wasm_defaults(p: ParsedArguments) -> bool {
    &&& !p.double_dash_input
    &&& p.language == Language::Wasm
    &&& p.compilation_flag@ == Seq::<char>::empty()
    &&& p.depfile is None
    &&& p.dependency_args@.len() == 0
    &&& p.preprocessor_args@.len() == 0
    &&& p.arch_args@.len() == 0
    &&& p.unhashed_args@.len() == 0
    &&& p.extra_dist_files@.len() == 0
    &&& p.extra_hash_files@.len() == 0
    &&& !p.msvc_show_includes
    &&& !p.profile_generate
    &&& p.color_mode == ColorMode::Off
    &&& !p.suppress_rewrite_includes_only
    &&& p.too_hard_for_preprocessor_cache_mode is None
}

/// `r` is the executable form of the outcome `o`.
pub open spec fn represents(r: CompilerArguments<ParsedArguments>, o: ParseOutcome) -> bool {
    match o {
        ParseOutcome::Parsed { input, output, common_args } => match r {
            CompilerArguments::Parsed(p) => {
                &&& p.input@ == input
                &&& p.common_args.deep_view() == common_args
                &&& p.outputs@.len() == 1
                &&& output_names_unique(p.outputs@)
                &&& p.outputs@[0].0@ == "obj"@
                &&& p.outputs@[0].1.path@ == output
                &&& !p.outputs@[0].1.optional
                &&& wasm_defaults(p)
            },
            _ => false,
        },
        ParseOutcome::Refused { reason, detail } => match r {
            CompilerArguments::CannotCache(why, extra) => why@ == reason && extra.deep_view()
                == detail,
            _ => false,
        },
        ParseOutcome::NotCompilation => r is NotCompilation,
    }
}

/// Renders the one-element list `[arg]`, `arg` taken as an OS string, with
/// the standard library's `Debug` formatting (`format!("{:?}", ..)` on a
/// `Vec<&Path>`; a path renders as its OS string does). The contract claims
/// only that the text is `debug_list_of_one` of `arg`'s characters, which
/// depends on them alone; how characters are escaped is left unsaid.
#[verifier::external_body]
fn format_debug_list(arg: &str) -> (r: String)
    ensures
        r@ == debug_list_of_one(arg@),
{
    format!("{:?}", vec![std::path::Path::new(arg)])
}

/// The state that the executable reading holds.
pub open spec fn state_view(
    output: Option<String>,
    input: Option<String>,
    common_args: Vec<String>,
) -> ScanState {
    ScanState {
        output: output.deep_view(),
        input: input.deep_view(),
        common_args: common_args.deep_view(),
    }
}

/// Reads a `wasm-opt` command line run in the directory `cwd`, on a
/// platform whose path rules are those of `style`.
pub fn parse_arguments(
    arguments: &[String],
    cwd: &str,
    style: PathStyle,
) -> (r: CompilerArguments<ParsedArguments>)
    ensures
        represents(r, spec_parse_arguments(arguments.deep_view(), cwd@, style)),
{
    let ghost args = arguments.deep_view();
    let ghost start = scan_from(args, cwd@, style, 0, initial_state());
    if arguments.len() == 0 {
        return CompilerArguments::NotCompilation;
    }
    let at = chars_of("@");
    let dash = chars_of("-");
    let dash_o = chars_of("-o");
    let output_eq = chars_of("--output=");
    let output_flag = chars_of("--output");
    let mut output: Option<String> = None;
    let mut input: Option<String> = None;
    let mut common_args: Vec<String> = Vec::new();
    let mut i: usize = 0;
    assert(common_args.deep_view() == Seq::<Seq<char>>::empty());
    while i < arguments.len()
        invariant
            args == arguments.deep_view(),
            args.len() == arguments@.len(),
            at@ == "@"@,
            dash@ == "-"@,
            dash_o@ == "-o"@,
            output_eq@ == "--output="@,
            output_flag@ == "--output"@,
            i <= arguments@.len(),
            start == scan_from(args, cwd@, style, 0, initial_state()),
            start == scan_from(args, cwd@, style, i as int, state_view(output, input, common_args)),
        decreases arguments@.len() - i,
    {
        let ghost st = state_view(output, input, common_args);
        let arg = &arguments[i];
        assert(arg@ == args[i as int]);
        let a = chars_of(arg.as_str());
        if starts_with(a.as_slice(), at.as_slice()) {
            return CompilerArguments::CannotCache("@", None);
        } else if chars_eq(a.as_slice(), dash_o.as_slice()) {
            if i + 1 >= arguments.len() {
                return CompilerArguments::CannotCache("missing argument to -o", None);
            }
            let next = &arguments[i + 1];
            assert(next@ == args[i + 1]);
            let n = chars_of(next.as_str());
            if chars_eq(n.as_slice(), dash.as_slice()) {
                return CompilerArguments::CannotCache("-o", Some(String::from_str("-")));
            }
            output = Some(join_path(cwd, next.as_str(), style));
            i = i + 2;
        } else if starts_with(a.as_slice(), output_eq.as_slice()) {
            let p = arg.as_str().substring_char(output_eq.len(), a.len());
            assert(p@ == args[i as int].skip("--output="@.len() as int));
            let pc = chars_of(p);
            if chars_eq(pc.as_slice(), dash.as_slice()) {
                return CompilerArguments::CannotCache("-o", Some(String::from_str("-")));
            }
            output = Some(join_path(cwd, p, style));
            i = i + 1;
        } else if chars_eq(a.as_slice(), output_flag.as_slice()) {
            if i + 1 >= arguments.len() {
                return CompilerArguments::CannotCache("missing argument to --output", None);
            }
            let next = &arguments[i + 1];
            assert(next@ == args[i + 1]);
            let n = chars_of(next.as_str());
            if chars_eq(n.as_slice(), dash.as_slice()) {
                return CompilerArguments::CannotCache("-o", Some(String::from_str("-")));
            }
            output = Some(join_path(cwd, next.as_str(), style));
            i = i + 2;
        } else if chars_eq(a.as_slice(), dash.as_slice()) {
            return CompilerArguments::CannotCache("stdin input", None);
        } else if starts_with(a.as_slice(), dash.as_slice()) {
            common_args.push(arg.clone());
            assert(common_args.deep_view() == st.common_args.push(args[i as int]));
            i = i + 1;
        } else {
            if input.is_some() {
                return CompilerArguments::CannotCache(
                    "multiple input files",
                    Some(format_debug_list(arg.as_str())),
                );
            }
            match Language::from_file_name(arg.as_str(), style) {
                Some(Language::Wasm) => {
                    input = Some(arg.clone());
                },
                Some(_) => {
                    return CompilerArguments::CannotCache("unsupported input type", None);
                },
                None => {
                    return CompilerArguments::CannotCache("unknown source language", None);
                },
            }
            i = i + 1;
        }
    }
    let input = match input {
        Some(input) => input,
        None => {
            return CompilerArguments::NotCompilation;
        },
    };
    let output = match output {
        Some(output) => output,
        None => {
            return CompilerArguments::CannotCache("no output file", None);
        },
    };
    let mut outputs: Vec<(String, ArtifactDescriptor)> = Vec::new();
    outputs.push((String::from_str("obj"), ArtifactDescriptor { path: output, optional: false }));
    CompilerArguments::Parsed(
        ParsedArguments {
            input,
            double_dash_input: false,
            language: Language::Wasm,
            compilation_flag: String::new(),
            depfile: None,
            outputs,
            dependency_args: Vec::new(),
            preprocessor_args: Vec::new(),
            common_args,
            arch_args: Vec::new(),
            unhashed_args: Vec::new(),
            extra_dist_files: Vec::new(),
            extra_hash_files: Vec::new(),
            msvc_show_includes: false,
            profile_generate: false,
            color_mode: ColorMode::Off,
            suppress_rewrite_includes_only: false,
            too_hard_for_preprocessor_cache_mode: None,
        },
    )
}

} // verus!

verus! {

/// The arguments of the command that optimizes `input` into `output` with
/// the flags `common_args`: the flags, then the input, `-o` and the output.
pub open spec fn command_arguments(
    common_args: Seq<Seq<char>>,
    input: Seq<char>,
    output: Seq<char>,
) -> Seq<Seq<char>> {
    common_args + seq![input, "-o"@, output]
}

/// A copy of a list of strings.
pub fn copy_strings(v: &Vec<String>) -> (r: Vec<String>)
    ensures
        r.deep_view() == v.deep_view(),
{
    let mut r: Vec<String> = Vec::new();
    let mut i: usize = 0;
    while i < v.len()
        invariant
            i <= v@.len(),
            r.deep_view() == v.deep_view().subrange(0, i as int),
        decreases v.len() - i,
    {
        let ghost prev = r.deep_view();
        r.push(v[i].clone());
        assert(r.deep_view() == prev.push(v.deep_view()[i as int]));
        assert(v.deep_view().subrange(0, i + 1) == v.deep_view().subrange(0, i as int).push(
            v.deep_view()[i as int],
        ));
        i = i + 1;
    }
    assert(v.deep_view().subrange(0, i as int) == v.deep_view());
    r
}

/// A copy of a list of environment variables.
pub fn copy_env_vars(v: &[(String, String)]) -> (r: Vec<(String, String)>)
    ensures
        r.deep_view() == v.deep_view(),
{
    let mut r: Vec<(String, String)> = Vec::new();
    let mut i: usize = 0;
    while i < v.len()
        invariant
            i <= v@.len(),
            r.deep_view() == v.deep_view().subrange(0, i as int),
        decreases v.len() - i,
    {
        let (k, val) = &v[i];
        let ghost prev = r.deep_view();
        r.push((k.clone(), val.clone()));
        assert(r.deep_view() == prev.push(v.deep_view()[i as int]));
        assert(v.deep_view().subrange(0, i + 1) == v.deep_view().subrange(0, i as int).push(
            v.deep_view()[i as int],
        ));
        i = i + 1;
    }
    assert(v.deep_view().subrange(0, i as int) == v.deep_view());
    r
}

/// The command that runs `wasm-opt` with `executable` for the compilation
/// `parsed_args`, in `cwd` with `env_vars`; it fails only when the
/// compilation names no `obj` output.
pub fn generate_compile_commands(
    executable: &str,
    parsed_args: &ParsedArguments,
    cwd: &str,
    env_vars: &[(String, String)],
) -> (r: Result<(SingleCompileCommand, Cacheable), CommandError>)
    ensures
        match spec_find_output(parsed_args.outputs@, "obj"@) {
            None => r matches Err(CommandError::MissingOutputFile),
            Some(k) => match r {
                Ok((cmd, cacheable)) => {
                    &&& cacheable == Cacheable::Yes
                    &&& cmd.executable@ == executable@
                    &&& cmd.arguments.deep_view() == command_arguments(
                        parsed_args.common_args.deep_view(),
                        parsed_args.input@,
                        parsed_args.outputs@[k].1.path@,
                    )
                    &&& cmd.env_vars.deep_view() == env_vars.deep_view()
                    &&& cmd.cwd@ == cwd@
                },
                Err(_) => false,
            },
        },
{
    let key = String::from_str("obj");
    let k = match find_output(&parsed_args.outputs, &key) {
        Some(k) => k,
        None => {
            return Err(CommandError::MissingOutputFile);
        },
    };
    let out_file = &parsed_args.outputs[k].1.path;
    let mut arguments = copy_strings(&parsed_args.common_args);
    let ghost before = arguments.deep_view();
    arguments.push(parsed_args.input.clone());
    arguments.push(String::from_str("-o"));
    arguments.push(out_file.clone());
    assert(arguments.deep_view() == before + seq![parsed_args.input@, "-o"@, out_file@]);
    let command = SingleCompileCommand {
        executable: String::from_str(executable),
        arguments,
        env_vars: copy_env_vars(env_vars),
        cwd: String::from_str(cwd),
    };
    Ok((command, Cacheable::Yes))
}

/// The `wasm-opt` optimizer.
#[derive(Clone, Debug)]
pub struct WasmOpt {
    /// Its version string, when known.
    pub version: Option<String>,
}

/// A copy of an optional string.
pub fn copy_option_string(s: &Option<String>) -> (r: Option<String>)
    ensures
        r.deep_view() == s.deep_view(),
{
    match s {
        Some(v) => Some(v.clone()),
        None => None,
    }
}

impl WasmOpt {
    /// Which compiler this is.
    pub fn kind(&self) -> (k: CCompilerKind)
        ensures
            k == CCompilerKind::WasmOpt,
    {
        CCompilerKind::WasmOpt
    }

    /// Whether it compiles C++: never.
    pub fn plusplus(&self) -> (b: bool)
        ensures
            !b,
    {
        false
    }

    /// Its version string.
    pub fn version(&self) -> (v: Option<String>)
        ensures
            v.deep_view() == self.version.deep_view(),
    {
        copy_option_string(&self.version)
    }

    /// Reads a command line run in `cwd`; the environment plays no part.
    pub fn parse_arguments(
        &self,
        arguments: &[String],
        cwd: &str,
        _env_vars: &[(String, String)],
        style: PathStyle,
    ) -> (r: CompilerArguments<ParsedArguments>)
        ensures
            represents(r, spec_parse_arguments(arguments.deep_view(), cwd@, style)),
    {
        parse_arguments(arguments, cwd, style)
    }

    /// The file whose contents stand for the preprocessed input: the input
    /// itself, taken relative to `cwd` unless it is absolute.
    pub fn preprocessed_input_path(
    &self,
    parsed_args: &ParsedArguments,
    cwd: &str,
    style: PathStyle,
) -> (r: String)
        ensures
            r@ == path_join(cwd@, parsed_args.input@, style),
    {
        join_path(cwd, parsed_args.input.as_str(), style)
    }

    /// The command that runs the optimizer for `parsed_args`.
    pub fn generate_compile_commands(
        &self,
        executable: &str,
        parsed_args: &ParsedArguments,
        cwd: &str,
        env_vars: &[(String, String)],
    ) -> (r: Result<(SingleCompileCommand, Cacheable), CommandError>)
        ensures
            match spec_find_output(parsed_args.outputs@, "obj"@) {
                None => r matches Err(CommandError::MissingOutputFile),
                Some(k) => match r {
                    Ok((cmd, cacheable)) => {
                        &&& cacheable == Cacheable::Yes
                        &&& cmd.executable@ == executable@
                        &&& cmd.arguments.deep_view() == command_arguments(
                            parsed_args.common_args.deep_view(),
                            parsed_args.input@,
                            parsed_args.outputs@[k].1.path@,
                        )
                        &&& cmd.env_vars.deep_view() == env_vars.deep_view()
                        &&& cmd.cwd@ == cwd@
                    },
                    Err(_) => false,
                },
            },
    {
        generate_compile_commands(executable, parsed_args, cwd, env_vars)
    }
}

} // verus!

verus! {

/// Reading `p + b` from inside `b` is reading `b`.
proof fn lemma_scan_shift(
    p: Seq<Seq<char>>,
    b: Seq<Seq<char>>,
    cwd: Seq<char>,
    style: PathStyle,
    j: int,
    st: ScanState,
)
    requires
        0 <= j,
    ensures
        scan_from(p + b, cwd, style, p.len() + j, st) == scan_from(b, cwd, style, j, st),
    decreases b.len() - j,
{
    let s = p + b;
    let i = p.len() + j;
    if j < b.len() {
        assert(s[i] == b[j]);
        if j + 1 < b.len() {
            assert(s[i + 1] == b[j + 1]);
        }
        let a = b[j];
        lemma_scan_shift(p, b, cwd, style, j + 1, with_output(st, path_join(cwd, a.skip("--output="@.len() as int), style)));
        if j + 1 < b.len() {
            lemma_scan_shift(p, b, cwd, style, j + 2, with_output(st, path_join(cwd, b[j + 1], style)));
        }
        lemma_scan_shift(
            p,
            b,
            cwd,
            style,
            j + 1,
            ScanState { output: st.output, input: st.input, common_args: st.common_args.push(a) },
        );
        lemma_scan_shift(
            p,
            b,
            cwd,
            style,
            j + 1,
            ScanState { output: st.output, input: Some(a), common_args: st.common_args },
        );
    }
}

/// A reading of `a` from `i` that reaches the end of `a` without refusal
/// goes on into whatever follows `a` from the state it ended in.
proof fn lemma_scan_concat(
    a: Seq<Seq<char>>,
    b: Seq<Seq<char>>,
    cwd: Seq<char>,
    style: PathStyle,
    i: int,
    st: ScanState,
)
    requires
        0 <= i <= a.len(),
        scan_from(a, cwd, style, i, st) is Done,
    ensures
        scan_from(a + b, cwd, style, i, st) == scan_from(b, cwd, style, 0, scan_from(a, cwd, style, i, st)->Done_0),
    decreases a.len() - i,
{
    let s = a + b;
    if i == a.len() {
        lemma_scan_shift(a, b, cwd, style, 0, st);
    } else {
        let x = a[i];
        assert(s[i] == x);
        if i + 1 < a.len() {
            assert(s[i + 1] == a[i + 1]);
        }
        if has_prefix(x, "@"@) {
        } else if x == "-o"@ || (!has_prefix(x, "--output="@) && x == "--output"@) {
            lemma_scan_concat(a, b, cwd, style, i + 2, with_output(st, path_join(cwd, a[i + 1], style)));
        } else if has_prefix(x, "--output="@) {
            lemma_scan_concat(a, b, cwd, style, i + 1, with_output(st, path_join(cwd, x.skip("--output="@.len() as int), style)));
        } else if x == "-"@ {
        } else if has_prefix(x, "-"@) {
            lemma_scan_concat(
                a,
                b,
                cwd,
                style,
                i + 1,
                ScanState { output: st.output, input: st.input, common_args: st.common_args.push(x) },
            );
        } else {
            lemma_scan_concat(
                a,
                b,
                cwd,
                style,
                i + 1,
                ScanState { output: st.output, input: Some(x), common_args: st.common_args },
            );
        }
    }
}

/// The characters of the flags that a reading tells apart.
proof fn lemma_flag_literals()
    ensures
        "-"@ == seq!['-'],
        "@"@ == seq!['@'],
        "-o"@ == seq!['-', 'o'],
        "--output"@ == seq!['-', '-', 'o', 'u', 't', 'p', 'u', 't'],
        "--output="@ == seq!['-', '-', 'o', 'u', 't', 'p', 'u', 't', '='],
{
    reveal_strlit("-");
    reveal_strlit("@");
    reveal_strlit("-o");
    reveal_strlit("--output");
    reveal_strlit("--output=");
}

/// Whether a refusal is for an output flag that ends the command line.
pub open spec fn is_missing_operand(reason: Seq<char>) -> bool {
    reason == "missing argument to -o"@ || reason == "missing argument to --output"@
}

/// A reading of `a` from `i` that is refused for any reason but a missing
/// output path is refused the same way whatever follows `a`.
proof fn lemma_scan_concat_refused(
    a: Seq<Seq<char>>,
    b: Seq<Seq<char>>,
    cwd: Seq<char>,
    style: PathStyle,
    i: int,
    st: ScanState,
)
    requires
        0 <= i <= a.len(),
        scan_from(a, cwd, style, i, st) matches Scan::Refused(reason, _) && !is_missing_operand(reason),
    ensures
        scan_from(a + b, cwd, style, i, st) == scan_from(a, cwd, style, i, st),
    decreases a.len() - i,
{
    let s = a + b;
    if i < a.len() {
        let x = a[i];
        assert(s[i] == x);
        if i + 1 < a.len() {
            assert(s[i + 1] == a[i + 1]);
        }
        if has_prefix(x, "@"@) {
        } else if x == "-o"@ || (!has_prefix(x, "--output="@) && x == "--output"@) {
            if i + 1 < a.len() && a[i + 1] != "-"@ {
                lemma_scan_concat_refused(a, b, cwd, style, i + 2, with_output(st, path_join(cwd, a[i + 1], style)));
            }
        } else if has_prefix(x, "--output="@) {
            if x.skip("--output="@.len() as int) != "-"@ {
                lemma_scan_concat_refused(a, b, cwd, style, i + 1, with_output(st, path_join(cwd, x.skip("--output="@.len() as int), style)));
            }
        } else if x == "-"@ {
        } else if has_prefix(x, "-"@) {
            lemma_scan_concat_refused(
                a,
                b,
                cwd,
                style,
                i + 1,
                ScanState { output: st.output, input: st.input, common_args: st.common_args.push(x) },
            );
        } else if st.input is None && spec_language_of(x, style) == Some(Language::Wasm) {
            lemma_scan_concat_refused(
                a,
                b,
                cwd,
                style,
                i + 1,
                ScanState { output: st.output, input: Some(x), common_args: st.common_args },
            );
        }
    }
}

/// A flag appended to a command line joins the flags of the compilation,
/// after the others, and changes nothing else: the outcome is the same
/// unless the line ended in an output flag still waiting for its path.
pub proof fn law_appended_flag_is_kept(
    args: Seq<Seq<char>>,
    cwd: Seq<char>,
    style: PathStyle,
    f: Seq<char>,
)
    requires
        has_prefix(f, "-"@),
        f != "-"@,
        f != "-o"@,
        f != "--output"@,
        !has_prefix(f, "--output="@),
        !(spec_parse_arguments(args, cwd, style) matches ParseOutcome::Refused { reason, .. }
            && is_missing_operand(reason)),
    ensures
        spec_parse_arguments(args.push(f), cwd, style) == match spec_parse_arguments(args, cwd, style) {
            ParseOutcome::Parsed { input, output, common_args } => ParseOutcome::Parsed {
                input,
                output,
                common_args: common_args.push(f),
            },
            other => other,
        },
{
    lemma_flag_literals();
    assert(args.push(f) == args + seq![f]);
    assert(f.subrange(0, 1)[0] == f[0]);
    assert(!has_prefix(f, "@"@));
    match scan_from(args, cwd, style, 0, initial_state()) {
        Scan::Done(st) => {
            lemma_scan_concat(args, seq![f], cwd, style, 0, initial_state());
            let st2 = ScanState { output: st.output, input: st.input, common_args: st.common_args.push(f) };
            assert(scan_from(seq![f], cwd, style, 1, st2) == Scan::Done(st2));
        },
        Scan::Refused(reason, _) => {
            lemma_scan_concat_refused(args, seq![f], cwd, style, 0, initial_state());
        },
    }
}

/// The state a reading of `prefix` ends in, when it is not refused.
pub open spec fn state_after(prefix: Seq<Seq<char>>, cwd: Seq<char>, style: PathStyle) -> ScanState {
    scan_from(prefix, cwd, style, 0, initial_state())->Done_0
}

/// Reading `prefix`, then the single argument `x`, then `rest`.
proof fn lemma_after_prefix(
    prefix: Seq<Seq<char>>,
    x: Seq<char>,
    rest: Seq<Seq<char>>,
    cwd: Seq<char>,
    style: PathStyle,
)
    requires
        scan_from(prefix, cwd, style, 0, initial_state()) is Done,
    ensures
        scan_from(prefix + seq![x] + rest, cwd, style, 0, initial_state()) == scan_from(
            seq![x] + rest,
            cwd,
            style,
            0,
            state_after(prefix, cwd, style),
        ),
        (seq![x] + rest)[0] == x,
        (seq![x] + rest).len() >= 1,
{
    assert(prefix + seq![x] + rest == prefix + (seq![x] + rest));
    lemma_scan_concat(prefix, seq![x] + rest, cwd, style, 0, initial_state());
}

/// Standard input (`-`) as an argument of its own is refused, wherever it
/// stands after arguments that were read without refusal.
pub proof fn law_stdin_input_is_refused(
    prefix: Seq<Seq<char>>,
    rest: Seq<Seq<char>>,
    cwd: Seq<char>,
    style: PathStyle,
)
    requires
        scan_from(prefix, cwd, style, 0, initial_state()) is Done,
    ensures
        spec_parse_arguments(prefix + seq!["-"@] + rest, cwd, style) == (ParseOutcome::Refused {
            reason: "stdin input"@,
            detail: None,
        }),
{
    lemma_flag_literals();
    lemma_after_prefix(prefix, "-"@, rest, cwd, style);
    assert(!has_prefix("-"@, "@"@)) by {
        assert("-"@.subrange(0, 1)[0] == '-');
    }
    assert("-"@ != "-o"@);
    assert(!has_prefix("-"@, "--output="@));
    assert("-"@ != "--output"@);
}

/// A response file (`@...`) is refused, wherever it stands after arguments
/// that were read without refusal.
pub proof fn law_response_file_is_refused(
    prefix: Seq<Seq<char>>,
    x: Seq<char>,
    rest: Seq<Seq<char>>,
    cwd: Seq<char>,
    style: PathStyle,
)
    requires
        scan_from(prefix, cwd, style, 0, initial_state()) is Done,
        has_prefix(x, "@"@),
    ensures
        spec_parse_arguments(prefix + seq![x] + rest, cwd, style) == (ParseOutcome::Refused {
            reason: "@"@,
            detail: None,
        }),
{
    lemma_after_prefix(prefix, x, rest, cwd, style);
}

/// A second input file is refused, and the refusal shows it.
pub proof fn law_second_input_is_refused(
    prefix: Seq<Seq<char>>,
    x: Seq<char>,
    rest: Seq<Seq<char>>,
    cwd: Seq<char>,
    style: PathStyle,
)
    requires
        scan_from(prefix, cwd, style, 0, initial_state()) is Done,
        state_after(prefix, cwd, style).input is Some,
        !has_prefix(x, "@"@),
        !has_prefix(x, "-"@),
    ensures
        spec_parse_arguments(prefix + seq![x] + rest, cwd, style) == (ParseOutcome::Refused {
            reason: "multiple input files"@,
            detail: Some(debug_list_of_one(x)),
        }),
{
    lemma_flag_literals();
    lemma_after_prefix(prefix, x, rest, cwd, style);
    assert(x.len() == 0 || x[0] != '-') by {
        if x.len() > 0 && x[0] == '-' {
            assert(x.subrange(0, 1) == seq!['-']);
        }
    }
    assert(x != "-o"@);
    assert(x != "--output"@);
    assert(x != "-"@);
    assert(!has_prefix(x, "--output="@)) by {
        if has_prefix(x, "--output="@) {
            assert(x.subrange(0, 9)[0] == x[0]);
        }
    }
}

} // verus!

verus! {

/// What holds of every state a reading passes through: the input, once
/// found, is WebAssembly, and every flag kept is a flag other than `-`.
pub open spec fn state_invariant(st: ScanState, style: PathStyle) -> bool {
    &&& (st.input matches Some(x) ==> spec_language_of(x, style) == Some(Language::Wasm))
    &&& forall|k: int|
        0 <= k < st.common_args.len() ==> has_prefix(#[trigger] st.common_args[k], "-"@)
            && st.common_args[k] != "-"@
}

proof fn lemma_scan_keeps_invariant(
    args: Seq<Seq<char>>,
    cwd: Seq<char>,
    style: PathStyle,
    i: int,
    st: ScanState,
)
    requires
        state_invariant(st, style),
    ensures
        scan_from(args, cwd, style, i, st) matches Scan::Done(end) ==> state_invariant(end, style),
    decreases args.len() - i,
{
    if 0 <= i < args.len() {
        let a = args[i];
        lemma_scan_keeps_invariant(args, cwd, style, i + 1, with_output(st, path_join(cwd, a.skip("--output="@.len() as int), style)));
        if i + 1 < args.len() {
            lemma_scan_keeps_invariant(args, cwd, style, i + 2, with_output(st, path_join(cwd, args[i + 1], style)));
        }
        let pushed = ScanState { output: st.output, input: st.input, common_args: st.common_args.push(a) };
        if has_prefix(a, "-"@) && a != "-"@ {
            assert forall|k: int| 0 <= k < pushed.common_args.len() implies has_prefix(#[trigger] pushed.common_args[k], "-"@)
                && pushed.common_args[k] != "-"@ by {
                if k < st.common_args.len() {
                    assert(pushed.common_args[k] == st.common_args[k]);
                }
            }
            lemma_scan_keeps_invariant(args, cwd, style, i + 1, pushed);
        }
        if spec_language_of(a, style) == Some(Language::Wasm) {
            lemma_scan_keeps_invariant(
                args,
                cwd,
                style,
                i + 1,
                ScanState { output: st.output, input: Some(a), common_args: st.common_args },
            );
        }
    }
}

/// A command line that parses names a WebAssembly input, and every argument
/// kept for the cache key is a flag.
pub proof fn law_parsed_input_is_wasm(args: Seq<Seq<char>>, cwd: Seq<char>, style: PathStyle)
    ensures
        spec_parse_arguments(args, cwd, style) matches ParseOutcome::Parsed { input, common_args, .. }
            ==> {
            &&& spec_language_of(input, style) == Some(Language::Wasm)
            &&& forall|k: int|
                0 <= k < common_args.len() ==> has_prefix(#[trigger] common_args[k], "-"@)
                    && common_args[k] != "-"@
        },
{
    lemma_scan_keeps_invariant(args, cwd, style, 0, initial_state());
}

/// The flags of the command line `args` from index `i` on: the arguments
/// that start with `-`, other than `-`, `-o`, `--output` and
/// `--output=...`, leaving out the paths that follow `-o` and `--output`,
/// in order.
pub open spec fn flags_from(args: Seq<Seq<char>>, i: int) -> Seq<Seq<char>>
    decreases args.len() - i,
{
    if i < 0 || i >= args.len() {
        seq![]
    } else {
        let a = args[i];
        if a == "-o"@ || a == "--output"@ {
            if i + 1 < args.len() {
                flags_from(args, i + 2)
            } else {
                seq![]
            }
        } else if is_plain_flag(a) {
            seq![a] + flags_from(args, i + 1)
        } else {
            flags_from(args, i + 1)
        }
    }
}

/// The last output path given in `args` from index `i` on, by `-o PATH`,
/// `--output=PATH` or `--output PATH`, as written.
pub open spec fn last_output_from(args: Seq<Seq<char>>, i: int) -> Option<Seq<char>>
    decreases args.len() - i,
{
    if i < 0 || i >= args.len() {
        None
    } else {
        let a = args[i];
        if a == "-o"@ {
            if i + 1 < args.len() {
                match last_output_from(args, i + 2) {
                    Some(v) => Some(v),
                    None => Some(args[i + 1]),
                }
            } else {
                None
            }
        } else if has_prefix(a, "--output="@) {
            match last_output_from(args, i + 1) {
                Some(v) => Some(v),
                None => Some(a.skip("--output="@.len() as int)),
            }
        } else if a == "--output"@ {
            if i + 1 < args.len() {
                match last_output_from(args, i + 2) {
                    Some(v) => Some(v),
                    None => Some(args[i + 1]),
                }
            } else {
                None
            }
        } else {
            last_output_from(args, i + 1)
        }
    }
}

/// The first argument of `args` from index `i` on that is neither a flag
/// nor the path after `-o` or `--output`: the input file.
pub open spec fn positional_from(args: Seq<Seq<char>>, i: int) -> Option<Seq<char>>
    decreases args.len() - i,
{
    if i < 0 || i >= args.len() {
        None
    } else {
        let a = args[i];
        if a == "-o"@ || (!has_prefix(a, "--output="@) && a == "--output"@) {
            if i + 1 < args.len() {
                positional_from(args, i + 2)
            } else {
                None
            }
        } else if has_prefix(a, "--output="@) {
            positional_from(args, i + 1)
        } else if has_prefix(a, "-"@) {
            positional_from(args, i + 1)
        } else {
            Some(a)
        }
    }
}

/// A reading that ends without refusal has kept exactly the flags, the
/// last output (joined onto `cwd`) and the input of the arguments it read.
proof fn lemma_scan_collects(args: Seq<Seq<char>>, cwd: Seq<char>, style: PathStyle, i: int, st: ScanState)
    requires
        0 <= i,
    ensures
        scan_from(args, cwd, style, i, st) matches Scan::Done(end) ==> {
            &&& end.common_args == st.common_args + flags_from(args, i)
            &&& end.output == match last_output_from(args, i) {
                Some(v) => Some(path_join(cwd, v, style)),
                None => st.output,
            }
            &&& end.input == match positional_from(args, i) {
                Some(x) => Some(x),
                None => st.input,
            }
            &&& (st.input is Some ==> positional_from(args, i) is None)
        },
    decreases args.len() - i,
{
    lemma_flag_literals();
    if i >= args.len() {
        assert(st.common_args + flags_from(args, i) == st.common_args);
    } else {
        let a = args[i];
        if let Scan::Done(end) = scan_from(args, cwd, style, i, st) {
            if has_prefix(a, "@"@) {
                assert(false);
            } else if a == "-o"@ {
                let nst = with_output(st, path_join(cwd, args[i + 1], style));
                lemma_scan_collects(args, cwd, style, i + 2, nst);
                assert(flags_from(args, i) == flags_from(args, i + 2));
            } else if has_prefix(a, "--output="@) {
                let nst = with_output(st, path_join(cwd, a.skip("--output="@.len() as int), style));
                lemma_scan_collects(args, cwd, style, i + 1, nst);
                assert(!is_plain_flag(a));
                assert(a != "--output"@) by {
                    assert(a.len() >= 9);
                }
                assert(flags_from(args, i) == flags_from(args, i + 1));
            } else if a == "--output"@ {
                let nst = with_output(st, path_join(cwd, args[i + 1], style));
                lemma_scan_collects(args, cwd, style, i + 2, nst);
                assert(flags_from(args, i) == flags_from(args, i + 2));
            } else if a == "-"@ {
                assert(false);
            } else if has_prefix(a, "-"@) {
                let pushed = ScanState { output: st.output, input: st.input, common_args: st.common_args.push(a) };
                lemma_scan_collects(args, cwd, style, i + 1, pushed);
                assert(is_plain_flag(a));
                assert(flags_from(args, i) == seq![a] + flags_from(args, i + 1));
                assert(st.common_args.push(a) + flags_from(args, i + 1) == st.common_args + (seq![a]
                    + flags_from(args, i + 1)));
            } else {
                let nst = ScanState { output: st.output, input: Some(a), common_args: st.common_args };
                lemma_scan_collects(args, cwd, style, i + 1, nst);
                assert(!is_plain_flag(a));
                assert(flags_from(args, i) == flags_from(args, i + 1));
                assert(positional_from(args, i) == Some(a));
            }
        }
    }
}

/// Reading a command line and then making its command gives the flags of
/// the line in order, then its input, `-o`, and its last output path joined
/// onto `cwd`; the compilation read always names its `obj` output, first
/// among its outputs, so making the command cannot fail.
pub proof fn law_parse_then_generate(
    r: CompilerArguments<ParsedArguments>,
    args: Seq<Seq<char>>,
    cwd: Seq<char>,
    style: PathStyle,
)
    requires
        represents(r, spec_parse_arguments(args, cwd, style)),
        r is Parsed,
    ensures
        spec_find_output(r->Parsed_0.outputs@, "obj"@) == Some(0int),
        positional_from(args, 0) is Some,
        last_output_from(args, 0) is Some,
        command_arguments(
            r->Parsed_0.common_args.deep_view(),
            r->Parsed_0.input@,
            r->Parsed_0.outputs@[0].1.path@,
        ) == command_arguments(
            flags_from(args, 0),
            positional_from(args, 0)->Some_0,
            path_join(cwd, last_output_from(args, 0)->Some_0, style),
        ),
{
    lemma_scan_collects(args, cwd, style, 0, initial_state());
    assert(Seq::<Seq<char>>::empty() + flags_from(args, 0) == flags_from(args, 0));
}

} // verus!

verus! {

/// A reading only ever adds flags after those of the state it starts in.
proof fn lemma_scan_extends_flags(
    args: Seq<Seq<char>>,
    cwd: Seq<char>,
    style: PathStyle,
    i: int,
    st: ScanState,
)
    ensures
        scan_from(args, cwd, style, i, st) matches Scan::Done(end) ==> {
            &&& st.common_args.len() <= end.common_args.len()
            &&& end.common_args.subrange(0, st.common_args.len() as int) == st.common_args
        },
    decreases args.len() - i,
{
    if 0 <= i < args.len() {
        let a = args[i];
        lemma_scan_extends_flags(args, cwd, style, i + 1, with_output(st, path_join(cwd, a.skip("--output="@.len() as int), style)));
        if i + 1 < args.len() {
            lemma_scan_extends_flags(args, cwd, style, i + 2, with_output(st, path_join(cwd, args[i + 1], style)));
        }
        let pushed = ScanState { output: st.output, input: st.input, common_args: st.common_args.push(a) };
        lemma_scan_extends_flags(args, cwd, style, i + 1, pushed);
        if let Scan::Done(end) = scan_from(args, cwd, style, i + 1, pushed) {
            assert(end.common_args.subrange(0, st.common_args.len() as int) == pushed.common_args.subrange(
                0,
                st.common_args.len() as int,
            ));
        }
        lemma_scan_extends_flags(
            args,
            cwd,
            style,
            i + 1,
            ScanState { output: st.output, input: Some(a), common_args: st.common_args },
        );
    }
}

/// An argument that the reading keeps as a flag.
pub open spec fn is_plain_flag(f: Seq<char>) -> bool {
    &&& has_prefix(f, "-"@)
    &&& f != "-"@
    &&& f != "-o"@
    &&& f != "--output"@
    &&& !has_prefix(f, "--output="@)
}

/// Two command lines that differ in one flag, standing where an argument
/// of its own may stand, give compilations with different cache keys.
pub proof fn law_flags_affect_cache_key(
    prefix: Seq<Seq<char>>,
    f1: Seq<char>,
    f2: Seq<char>,
    rest: Seq<Seq<char>>,
    cwd: Seq<char>,
    style: PathStyle,
)
    requires
        scan_from(prefix, cwd, style, 0, initial_state()) is Done,
        is_plain_flag(f1),
        is_plain_flag(f2),
        f1 != f2,
    ensures
        match (
            spec_parse_arguments(prefix + seq![f1] + rest, cwd, style),
            spec_parse_arguments(prefix + seq![f2] + rest, cwd, style),
        ) {
            (
                ParseOutcome::Parsed { common_args: c1, .. },
                ParseOutcome::Parsed { common_args: c2, .. },
            ) => c1 != c2,
            _ => true,
        },
{
    lemma_flag_literals();
    let st = state_after(prefix, cwd, style);
    let n = st.common_args.len();
    lemma_after_prefix(prefix, f1, rest, cwd, style);
    lemma_after_prefix(prefix, f2, rest, cwd, style);
    assert(!has_prefix(f1, "@"@)) by {
        assert(f1.subrange(0, 1)[0] == f1[0]);
    }
    assert(!has_prefix(f2, "@"@)) by {
        assert(f2.subrange(0, 1)[0] == f2[0]);
    }
    let s1 = ScanState { output: st.output, input: st.input, common_args: st.common_args.push(f1) };
    let s2 = ScanState { output: st.output, input: st.input, common_args: st.common_args.push(f2) };
    assert(scan_from(seq![f1] + rest, cwd, style, 0, st) == scan_from(seq![f1] + rest, cwd, style, 1, s1));
    assert(scan_from(seq![f2] + rest, cwd, style, 0, st) == scan_from(seq![f2] + rest, cwd, style, 1, s2));
    lemma_scan_extends_flags(seq![f1] + rest, cwd, style, 1, s1);
    lemma_scan_extends_flags(seq![f2] + rest, cwd, style, 1, s2);
    if let Scan::Done(e1) = scan_from(seq![f1] + rest, cwd, style, 1, s1) {
        if let Scan::Done(e2) = scan_from(seq![f2] + rest, cwd, style, 1, s2) {
            assert(e1.common_args.subrange(0, n as int + 1)[n as int] == f1);
            assert(e2.common_args.subrange(0, n as int + 1)[n as int] == f2);
            assert(e1.common_args[n as int] != e2.common_args[n as int]);
            assert(e1.common_args != e2.common_args);
        }
    }
}

} // verus!

verus! {

/// The command's arguments are the flags unchanged, then the input, `-o`,
/// and the output exactly as given, character for character: the last
/// argument is the output path itself.
pub proof fn law_command_layout(c: Seq<Seq<char>>, i: Seq<char>, o: Seq<char>)
    ensures
        command_arguments(c, i, o).len() == c.len() + 3,
        command_arguments(c, i, o).subrange(0, c.len() as int) == c,
        command_arguments(c, i, o)[c.len() as int] == i,
        command_arguments(c, i, o)[c.len() as int + 1] == "-o"@,
        command_arguments(c, i, o)[c.len() as int + 2] == o,
        command_arguments(c, i, o).last() == o,
{
    assert((c + seq![i, "-o"@, o]).subrange(0, c.len() as int) == c);
}

/// A command line that reads without refusal from index `i` on, with an
/// input already found or not: no response file, no standalone `-`, every
/// output flag followed by a path other than `-`, and at most one input,
/// which is WebAssembly.
pub open spec fn reads_cleanly_from(args: Seq<Seq<char>>, i: int, has_input: bool, style: PathStyle) -> bool
    decreases args.len() - i,
{
    if i < 0 || i >= args.len() {
        true
    } else {
        let a = args[i];
        if has_prefix(a, "@"@) {
            false
        } else if a == "-o"@ {
            if i + 1 < args.len() {
                args[i + 1] != "-"@ && reads_cleanly_from(args, i + 2, has_input, style)
            } else {
                false
            }
        } else if has_prefix(a, "--output="@) {
            a.skip("--output="@.len() as int) != "-"@ && reads_cleanly_from(args, i + 1, has_input, style)
        } else if a == "--output"@ {
            if i + 1 < args.len() {
                args[i + 1] != "-"@ && reads_cleanly_from(args, i + 2, has_input, style)
            } else {
                false
            }
        } else if a == "-"@ {
            false
        } else if has_prefix(a, "-"@) {
            reads_cleanly_from(args, i + 1, has_input, style)
        } else {
            !has_input && spec_language_of(a, style) == Some(Language::Wasm) && reads_cleanly_from(
                args,
                i + 1,
                true,
                style,
            )
        }
    }
}

proof fn lemma_clean_reading_is_done(
    args: Seq<Seq<char>>,
    cwd: Seq<char>,
    style: PathStyle,
    i: int,
    st: ScanState,
)
    requires
        0 <= i,
        reads_cleanly_from(args, i, st.input is Some, style),
    ensures
        scan_from(args, cwd, style, i, st) is Done,
    decreases args.len() - i,
{
    if i < args.len() {
        let a = args[i];
        if has_prefix(a, "@"@) {
        } else if a == "-o"@ || (!has_prefix(a, "--output="@) && a == "--output"@) {
            lemma_clean_reading_is_done(args, cwd, style, i + 2, with_output(st, path_join(cwd, args[i + 1], style)));
        } else if has_prefix(a, "--output="@) {
            lemma_clean_reading_is_done(
                args,
                cwd,
                style,
                i + 1,
                with_output(st, path_join(cwd, a.skip("--output="@.len() as int), style)),
            );
        } else if a == "-"@ {
        } else if has_prefix(a, "-"@) {
            lemma_clean_reading_is_done(
                args,
                cwd,
                style,
                i + 1,
                ScanState { output: st.output, input: st.input, common_args: st.common_args.push(a) },
            );
        } else {
            lemma_clean_reading_is_done(
                args,
                cwd,
                style,
                i + 1,
                ScanState { output: st.output, input: Some(a), common_args: st.common_args },
            );
        }
    }
}

/// A command line that reads without refusal is judged by its input and
/// output alone: without an input it is no compilation; with an input but
/// no output it cannot be cached for want of an output file; with both it
/// is always a cacheable compilation of that input, into the last output
/// path joined onto `cwd`, keeping the line's flags in order.
pub proof fn law_clean_line_outcome(
    r: CompilerArguments<ParsedArguments>,
    args: Seq<Seq<char>>,
    cwd: Seq<char>,
    style: PathStyle,
)
    requires
        represents(r, spec_parse_arguments(args, cwd, style)),
        reads_cleanly_from(args, 0, false, style),
    ensures
        match positional_from(args, 0) {
            None => r is NotCompilation,
            Some(x) => match last_output_from(args, 0) {
                None => match r {
                    CompilerArguments::CannotCache(why, extra) => why@ == "no output file"@
                        && extra is None,
                    _ => false,
                },
                Some(o) => match r {
                    CompilerArguments::Parsed(p) => {
                        &&& p.input@ == x
                        &&& p.common_args.deep_view() == flags_from(args, 0)
                        &&& p.outputs@.len() == 1
                        &&& p.outputs@[0].0@ == "obj"@
                        &&& p.outputs@[0].1.path@ == path_join(cwd, o, style)
                        &&& !p.outputs@[0].1.optional
                    },
                    _ => false,
                },
            },
        },
{
    lemma_clean_reading_is_done(args, cwd, style, 0, initial_state());
    lemma_scan_collects(args, cwd, style, 0, initial_state());
    assert(Seq::<Seq<char>>::empty() + flags_from(args, 0) == flags_from(args, 0));
}

/// Whether `reason` is one of the refusals that the reading of a line
/// itself can give.
pub open spec fn is_reading_refusal(reason: Seq<char>) -> bool {
    ||| reason == "@"@
    ||| reason == "missing argument to -o"@
    ||| reason == "missing argument to --output"@
    ||| reason == "-o"@
    ||| reason == "stdin input"@
    ||| reason == "multiple input files"@
    ||| reason == "unsupported input type"@
    ||| reason == "unknown source language"@
}

proof fn lemma_scan_refusals(args: Seq<Seq<char>>, cwd: Seq<char>, style: PathStyle, i: int, st: ScanState)
    ensures
        scan_from(args, cwd, style, i, st) matches Scan::Refused(reason, _) ==> is_reading_refusal(
            reason,
        ),
    decreases args.len() - i,
{
    if 0 <= i < args.len() {
        let a = args[i];
        lemma_scan_refusals(args, cwd, style, i + 1, with_output(st, path_join(cwd, a.skip("--output="@.len() as int), style)));
        if i + 1 < args.len() {
            lemma_scan_refusals(args, cwd, style, i + 2, with_output(st, path_join(cwd, args[i + 1], style)));
        }
        lemma_scan_refusals(
            args,
            cwd,
            style,
            i + 1,
            ScanState { output: st.output, input: st.input, common_args: st.common_args.push(a) },
        );
        lemma_scan_refusals(
            args,
            cwd,
            style,
            i + 1,
            ScanState { output: st.output, input: Some(a), common_args: st.common_args },
        );
    }
}

/// A command line is refused only for one of the reasons the reading
/// gives, or for want of an output file; and a line refused for want of an
/// output file has an input and no output flag.
pub proof fn law_refusal_reasons(
    r: CompilerArguments<ParsedArguments>,
    args: Seq<Seq<char>>,
    cwd: Seq<char>,
    style: PathStyle,
)
    requires
        represents(r, spec_parse_arguments(args, cwd, style)),
    ensures
        match r {
            CompilerArguments::CannotCache(why, _) => is_reading_refusal(why@) || why@
                == "no output file"@,
            _ => true,
        },
{
    lemma_scan_refusals(args, cwd, style, 0, initial_state());
}

} // verus!
