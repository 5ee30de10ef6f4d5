//! The values that the compiler front ends share: how a command line was
//! judged, what a parsed compilation consists of, and the command that
//! performs it.

use vstd::prelude::*;
use crate::language::Language;

verus! {

/// The verdict on a compiler command line.
#[derive(Debug)]
pub enum CompilerArguments<T> {
    /// The command line is a compilation that can be cached.
    Parsed(T),
    /// The command line is a compilation that cannot be cached: the reason,
    /// and sometimes more detail.
    CannotCache(&'static str, Option<String>),
    /// The command line is not a compilation.
    NotCompilation,
}

/// Whether the compiler colours its diagnostics.
#[derive(Clone, Copy, Debug, PartialEq, Eq, Structural)]
pub enum ColorMode {
    Off,
    On,
    Auto,
}

/// The compilers that share the C-like front end.
#[derive(Clone, Copy, Debug, PartialEq, Eq, Structural)]
pub enum CCompilerKind {
    Emscripten,
    WasmOpt,
}

/// Whether the result of a compilation may be stored in the cache.
#[derive(Clone, Copy, Debug, PartialEq, Eq, Structural)]
pub enum Cacheable {
    Yes,
    No,
}

/// A file that a compilation produces.
#[derive(Clone, Debug)]
pub struct ArtifactDescriptor {
    /// Where the file is written.
    pub path: String,
    /// Whether the compilation may leave it out.
    pub optional: bool,
}

/// A compilation, as read from its command line.
#[derive(Debug)]
pub struct ParsedArguments {
    /// The input file.
    pub input: String,
    /// Whether the input came after a `--`.
    pub double_dash_input: bool,
    /// The language of the input.
    pub language: Language,
    /// The flag that asked for compilation only, if any.
    pub compilation_flag: String,
    /// The dependency file to write, if any.
    pub depfile: Option<String>,
    /// The files produced, each under a name of its own (`obj` for the
    /// main output): no two entries share a name (`output_names_unique`).
    pub outputs: Vec<(String, ArtifactDescriptor)>,
    /// Arguments that concern dependency generation.
    pub dependency_args: Vec<String>,
    /// Arguments for the preprocessor.
    pub preprocessor_args: Vec<String>,
    /// Arguments that take part in every step, and so in the cache key.
    pub common_args: Vec<String>,
    /// Target architecture arguments.
    pub arch_args: Vec<String>,
    /// Arguments that do not affect the output.
    pub unhashed_args: Vec<String>,
    /// Extra files to send along with a distributed compilation.
    pub extra_dist_files: Vec<String>,
    /// Extra files whose contents enter the cache key.
    pub extra_hash_files: Vec<String>,
    /// Whether `/showIncludes` was given.
    pub msvc_show_includes: bool,
    /// Whether profile generation was asked for.
    pub profile_generate: bool,
    /// How diagnostics are coloured.
    pub color_mode: ColorMode,
    /// Whether rewriting includes only must be avoided.
    pub suppress_rewrite_includes_only: bool,
    /// Why the preprocessor cache mode cannot be used, if it cannot.
    pub too_hard_for_preprocessor_cache_mode: Option<String>,
}

/// A single process to run for a compilation.
#[derive(Debug)]
pub struct SingleCompileCommand {
    /// The program to run.
    pub executable: String,
    /// Its arguments.
    pub arguments: Vec<String>,
    /// The environment variables to set.
    pub env_vars: Vec<(String, String)>,
    /// The directory to run it in.
    pub cwd: String,
}

/// Why no compile command could be made.
#[derive(Clone, Copy, Debug, PartialEq, Eq, Structural)]
pub enum CommandError {
    /// The parsed arguments name no `obj` output.
    MissingOutputFile,
}

/// No two outputs share a name, as in a map from names to outputs.
pub open spec fn output_names_unique(outputs: Seq<(String, ArtifactDescriptor)>) -> bool {
    forall|i: int, j: int| 0 <= i < j < outputs.len() ==> outputs[i].0@ != outputs[j].0@
}

/// Index of the first output registered under `key`, if any.
pub open spec fn spec_find_output(outputs: Seq<(String, ArtifactDescriptor)>, key: Seq<char>) -> Option<int>
    decreases outputs.len(),
{
    if outputs.len() == 0 {
        None
    } else if outputs[0].0@ == key {
        Some(0)
    } else {
        match spec_find_output(outputs.drop_first(), key) {
            Some(k) => Some(k + 1),
            None => None,
        }
    }
}

/// Where names are unique, looking a name up finds the one entry that has
/// it, and finds nothing where no entry has it.
pub proof fn law_unique_names_lookup(outputs: Seq<(String, ArtifactDescriptor)>, key: Seq<char>)
    requires
        output_names_unique(outputs),
    ensures
        forall|k: int|
            0 <= k < outputs.len() && #[trigger] outputs[k].0@ == key ==> spec_find_output(
                outputs,
                key,
            ) == Some(k),
        (forall|k: int| 0 <= k < outputs.len() ==> #[trigger] outputs[k].0@ != key)
            ==> spec_find_output(outputs, key) is None,
    decreases outputs.len(),
{
    if outputs.len() > 0 {
        let rest = outputs.drop_first();
        assert forall|i: int, j: int| 0 <= i < j < rest.len() implies rest[i].0@ != rest[j].0@ by {
            assert(rest[i] == outputs[i + 1] && rest[j] == outputs[j + 1]);
        }
        law_unique_names_lookup(rest, key);
        assert forall|k: int| 0 <= k < outputs.len() && #[trigger] outputs[k].0@ == key implies spec_find_output(
            outputs,
            key,
        ) == Some(k) by {
            if k > 0 {
                assert(outputs[0].0@ != outputs[k].0@);
                assert(rest[k - 1] == outputs[k]);
            }
        }
        if forall|k: int| 0 <= k < outputs.len() ==> #[trigger] outputs[k].0@ != key {
            assert forall|k: int| 0 <= k < rest.len() implies #[trigger] rest[k].0@ != key by {
                assert(rest[k] == outputs[k + 1]);
            }
        }
    }
}

/// Finds the first output registered under `key`.
pub fn find_output(outputs: &Vec<(String, ArtifactDescriptor)>, key: &String) -> (r: Option<usize>)
    ensures
        match r {
            Some(k) => spec_find_output(outputs@, key@) == Some(k as int) && k < outputs@.len(),
            None => spec_find_output(outputs@, key@) is None,
        },
{
    let mut i: usize = 0;
    assert(outputs@.skip(0) == outputs@);
    while i < outputs.len()
        invariant
            i <= outputs@.len(),
            spec_find_output(outputs@, key@) == match spec_find_output(outputs@.skip(i as int), key@) {
                Some(k) => Some(k + i),
                None => None,
            },
        decreases outputs.len() - i,
    {
        assert(outputs@.skip(i as int).drop_first() == outputs@.skip(i + 1));
        if outputs[i].0 == *key {
            return Some(i);
        }
        i = i + 1;
    }
    assert(outputs@.skip(i as int).len() == 0);
    None
}

} // verus!
