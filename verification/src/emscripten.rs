//! The Emscripten compiler drivers (`emcc` and `em++`): what sets them
//! apart from the C compilers whose front end they share, namely the table
//! of their own command-line arguments and the flags their preprocessing
//! step may drop.

use vstd::prelude::*;
use vstd::string::*;
use crate::compiler::CCompilerKind;
use crate::text::{chars_eq, chars_of, has_prefix, starts_with};
use crate::wasm_opt::copy_option_string;

verus! {

/// The Emscripten compiler driver.
#[derive(Clone, Debug)]
pub struct Emscripten {
    /// Whether this is `em++` rather than `emcc`.
    pub emcplusplus: bool,
    /// Its version string, when known.
    pub version: Option<String>,
}

impl Emscripten {
    /// Which compiler this is.
    pub fn kind(&self) -> (k: CCompilerKind)
        ensures
            k == CCompilerKind::Emscripten,
    {
        CCompilerKind::Emscripten
    }

    /// Whether it compiles C++: exactly when it is `em++`.
    pub fn plusplus(&self) -> (b: bool)
        ensures
            b == self.emcplusplus,
    {
        self.emcplusplus
    }

    /// Its version string.
    pub fn version(&self) -> (v: Option<String>)
        ensures
            v.deep_view() == self.version.deep_view(),
    {
        copy_option_string(&self.version)
    }

    /// The flags that make the preprocessor leave out line markers, which
    /// the preprocessing step passes unless the preprocessor cache mode is
    /// on (that mode needs them).
    pub fn ignorable_whitespace_flags(&self, preprocessor_cache_mode: bool) -> (r: Vec<String>)
        ensures
            r.deep_view() == if preprocessor_cache_mode {
                Seq::<Seq<char>>::empty()
            } else {
                seq!["-P"@]
            },
    {
        let mut r: Vec<String> = Vec::new();
        if !preprocessor_cache_mode {
            r.push(String::from_str("-P"));
        }
        assert(r.deep_view() == if preprocessor_cache_mode {
            Seq::<Seq<char>>::empty()
        } else {
            seq!["-P"@]
        });
        r
    }
}

/// How an argument that takes a value may receive it.
#[derive(Clone, Copy, Debug, PartialEq, Eq, Structural)]
pub enum ArgDisposition {
    /// Only in the next argument (`--pre-js FILE`).
    Separated,
    /// In the next argument, or glued to the flag (`-s X=1` or `-sX=1`).
    CanBeSeparated,
}

/// What the driver does with a recognised argument.
#[derive(Clone, Copy, Debug, PartialEq, Eq, Structural)]
pub enum ArgTreatment {
    /// It affects compilation: it is passed on and enters the cache key.
    PassThrough,
    /// It cannot be cached.
    TooHard,
}

/// An entry of an argument table.
#[derive(Clone, Copy, Debug)]
pub enum ArgInfo {
    /// A flag without a value.
    Flag(&'static str, ArgTreatment),
    /// A flag that takes a value.
    TakeArg(&'static str, ArgDisposition, ArgTreatment),
}

impl ArgInfo {
    /// The flag that the entry describes.
    pub open spec fn name(self) -> &'static str {
        match self {
            ArgInfo::Flag(n, _) => n,
            ArgInfo::TakeArg(n, _, _) => n,
        }
    }
}

/// Emscripten's own arguments: the linking-only ones, which make a
/// compilation impossible to cache, `--emrun`, and `-s KEY=VALUE` settings,
/// which change the generated code and so enter the cache key.
pub open spec fn spec_emscripten_args() -> Seq<ArgInfo> {
    seq![
        ArgInfo::TakeArg("--embed-file", ArgDisposition::Separated, ArgTreatment::TooHard),
        ArgInfo::Flag("--emrun", ArgTreatment::PassThrough),
        ArgInfo::TakeArg("--js-library", ArgDisposition::Separated, ArgTreatment::TooHard),
        ArgInfo::TakeArg("--post-js", ArgDisposition::Separated, ArgTreatment::TooHard),
        ArgInfo::TakeArg("--pre-js", ArgDisposition::Separated, ArgTreatment::TooHard),
        ArgInfo::TakeArg("--preload-file", ArgDisposition::Separated, ArgTreatment::TooHard),
        ArgInfo::TakeArg("-s", ArgDisposition::CanBeSeparated, ArgTreatment::PassThrough),
    ]
}

/// The table of Emscripten's own arguments.
pub fn emscripten_args() -> (r: Vec<ArgInfo>)
    ensures
        r@ == spec_emscripten_args(),
{
    let r = vec![
        ArgInfo::TakeArg("--embed-file", ArgDisposition::Separated, ArgTreatment::TooHard),
        ArgInfo::Flag("--emrun", ArgTreatment::PassThrough),
        ArgInfo::TakeArg("--js-library", ArgDisposition::Separated, ArgTreatment::TooHard),
        ArgInfo::TakeArg("--post-js", ArgDisposition::Separated, ArgTreatment::TooHard),
        ArgInfo::TakeArg("--pre-js", ArgDisposition::Separated, ArgTreatment::TooHard),
        ArgInfo::TakeArg("--preload-file", ArgDisposition::Separated, ArgTreatment::TooHard),
        ArgInfo::TakeArg("-s", ArgDisposition::CanBeSeparated, ArgTreatment::PassThrough),
    ];
    assert(r@ == spec_emscripten_args());
    r
}

} // verus!

verus! {

/// Whether the entry `e` recognises the argument `arg`: a flag whose value
/// may be glued to it recognises every argument that starts with it; any
/// other entry only its flag itself.
pub open spec fn entry_matches(e: ArgInfo, arg: Seq<char>) -> bool {
    match e {
        ArgInfo::TakeArg(n, ArgDisposition::CanBeSeparated, _) => has_prefix(arg, n@),
        _ => arg == e.name()@,
    }
}

/// The first entry of `table` that recognises `arg`.
pub open spec fn spec_lookup(table: Seq<ArgInfo>, arg: Seq<char>) -> Option<ArgInfo>
    decreases table.len(),
{
    if table.len() == 0 {
        None
    } else if entry_matches(table[0], arg) {
        Some(table[0])
    } else {
        spec_lookup(table.drop_first(), arg)
    }
}

fn entry_recognises(e: &ArgInfo, arg: &[char]) -> (b: bool)
    ensures
        b == entry_matches(*e, arg@),
{
    match e {
        ArgInfo::Flag(n, _) => {
            let nc = chars_of(n);
            chars_eq(arg, nc.as_slice())
        },
        ArgInfo::TakeArg(n, d, _) => {
            let nc = chars_of(n);
            match d {
                ArgDisposition::CanBeSeparated => starts_with(arg, nc.as_slice()),
                ArgDisposition::Separated => chars_eq(arg, nc.as_slice()),
            }
        },
    }
}

/// Looks `arg` up in `table`.
pub fn lookup(table: &Vec<ArgInfo>, arg: &[char]) -> (r: Option<ArgInfo>)
    ensures
        r == spec_lookup(table@, arg@),
{
    let mut i: usize = 0;
    assert(table@.skip(0) == table@);
    while i < table.len()
        invariant
            i <= table@.len(),
            spec_lookup(table@, arg@) == spec_lookup(table@.skip(i as int), arg@),
        decreases table.len() - i,
    {
        assert(table@.skip(i as int).drop_first() == table@.skip(i + 1));
        assert(table@.skip(i as int)[0] == table@[i as int]);
        if entry_recognises(&table[i], arg) {
            return Some(table[i]);
        }
        i = i + 1;
    }
    None
}

/// What becomes of an argument of Emscripten's table.
#[derive(Debug)]
pub enum EmscriptenArgument {
    /// It is passed on, as these arguments (a value that may be glued to
    /// its flag is glued to it), and enters the cache key.
    PassThrough(Vec<String>),
    /// It makes the compilation impossible to cache; the flag is the reason.
    TooHard(&'static str),
    /// Its flag needs a value, and the command line ended before one.
    MissingValue,
}

/// What becomes of an argument, as values.
pub enum ArgVerdict {
    PassThrough(Seq<Seq<char>>),
    TooHard(Seq<char>),
    MissingValue,
}

/// The verdict for an argument of treatment `t` with flag `name`, passed
/// on as `normalized`.
pub open spec fn treat(t: ArgTreatment, name: Seq<char>, normalized: Seq<Seq<char>>) -> ArgVerdict {
    match t {
        ArgTreatment::PassThrough => ArgVerdict::PassThrough(normalized),
        ArgTreatment::TooHard => ArgVerdict::TooHard(name),
    }
}

/// What becomes of `args[i]` by Emscripten's table, and how many arguments
/// it takes up; `None` when the table does not know it. A glued-or-separate
/// flag that ends the line takes the empty value; a separate-only flag there
/// has no value.
pub open spec fn spec_classify(args: Seq<Seq<char>>, i: int) -> Option<(ArgVerdict, int)> {
    match spec_lookup(spec_emscripten_args(), args[i]) {
        None => None,
        Some(ArgInfo::Flag(n, t)) => Some((treat(t, n@, seq![n@]), 1)),
        Some(ArgInfo::TakeArg(n, ArgDisposition::Separated, t)) => if i + 1 < args.len() {
            Some((treat(t, n@, seq![n@, args[i + 1]]), 2))
        } else {
            Some((ArgVerdict::MissingValue, 1))
        },
        Some(ArgInfo::TakeArg(n, ArgDisposition::CanBeSeparated, t)) => if args[i] == n@ {
            if i + 1 < args.len() {
                Some((treat(t, n@, seq![n@ + args[i + 1]]), 2))
            } else {
                Some((treat(t, n@, seq![n@]), 1))
            }
        } else {
            Some((treat(t, n@, seq![args[i]]), 1))
        },
    }
}

/// The value form of a verdict.
pub open spec fn verdict_view(v: EmscriptenArgument) -> ArgVerdict {
    match v {
        EmscriptenArgument::PassThrough(a) => ArgVerdict::PassThrough(a.deep_view()),
        EmscriptenArgument::TooHard(n) => ArgVerdict::TooHard(n@),
        EmscriptenArgument::MissingValue => ArgVerdict::MissingValue,
    }
}

fn make_verdict(t: ArgTreatment, name: &'static str, normalized: Vec<String>) -> (r: EmscriptenArgument)
    ensures
        verdict_view(r) == treat(t, name@, normalized.deep_view()),
{
    match t {
        ArgTreatment::PassThrough => EmscriptenArgument::PassThrough(normalized),
        ArgTreatment::TooHard => EmscriptenArgument::TooHard(name),
    }
}

fn one_string(s: String) -> (r: Vec<String>)
    ensures
        r.deep_view() == seq![s@],
{
    let mut r: Vec<String> = Vec::new();
    r.push(s);
    assert(r.deep_view() == seq![s@]);
    r
}

/// What becomes of `arguments[i]` by Emscripten's table, and how many
/// arguments it takes up (the flag, and its value when that follows it);
/// `None` when the table does not know the argument.
///
/// Only Emscripten's own table is consulted. The driver searches the GCC
/// argument table first and this one only for arguments GCC's does not
/// know, so an argument that GCC's table claims (`-std=c++17`, which
/// starts with `-s`) never reaches this one; on its own this function
/// would read it as a setting.
///
/// A flag whose value may be glued to it (`-s`) takes an empty value when
/// it ends the command line, and so passes on alone; a flag whose value
/// must be the next argument (`--pre-js` and the other linking-only flags)
/// has no value to take there, and gives `MissingValue`.
pub fn classify_emscripten_arg(arguments: &[String], i: usize) -> (r: Option<(EmscriptenArgument, usize)>)
    requires
        i < arguments@.len(),
    ensures
        match r {
            None => spec_classify(arguments.deep_view(), i as int) is None,
            Some((v, n)) => spec_classify(arguments.deep_view(), i as int) == Some(
                (verdict_view(v), n as int),
            ),
        },
{
    let ghost args = arguments.deep_view();
    let arg = &arguments[i];
    assert(arg@ == args[i as int]);
    if i + 1 < arguments.len() {
        assert(arguments[i + 1]@ == args[i + 1]);
    }
    let a = chars_of(arg.as_str());
    let table = emscripten_args();
    match lookup(&table, a.as_slice()) {
        None => None,
        Some(ArgInfo::Flag(n, t)) => {
            Some((make_verdict(t, n, one_string(String::from_str(n))), 1))
        },
        Some(ArgInfo::TakeArg(n, ArgDisposition::Separated, t)) => {
            if i + 1 < arguments.len() {
                let mut normalized = one_string(String::from_str(n));
                let ghost first = normalized.deep_view();
                normalized.push(arguments[i + 1].clone());
                assert(normalized.deep_view() == first.push(args[i + 1]));
                assert(normalized.deep_view() == seq![n@, args[i + 1]]);
                Some((make_verdict(t, n, normalized), 2))
            } else {
                Some((EmscriptenArgument::MissingValue, 1))
            }
        },
        Some(ArgInfo::TakeArg(n, ArgDisposition::CanBeSeparated, t)) => {
            let nc = chars_of(n);
            if chars_eq(a.as_slice(), nc.as_slice()) {
                if i + 1 < arguments.len() {
                    let mut glued = String::from_str(n);
                    glued.append(arguments[i + 1].as_str());
                    Some((make_verdict(t, n, one_string(glued)), 2))
                } else {
                    Some((make_verdict(t, n, one_string(String::from_str(n))), 1))
                }
            } else {
                Some((make_verdict(t, n, one_string(arg.clone())), 1))
            }
        },
    }
}

} // verus!

verus! {

/// `a` comes strictly before `b` in the order of their characters' code
/// points, which for strings is the order of their UTF-8 bytes.
pub open spec fn lex_less(a: Seq<char>, b: Seq<char>) -> bool
    decreases a.len(),
{
    if b.len() == 0 {
        false
    } else if a.len() == 0 {
        true
    } else if a[0] != b[0] {
        (a[0] as u32) < (b[0] as u32)
    } else {
        lex_less(a.drop_first(), b.drop_first())
    }
}

proof fn lemma_lex_less_transitive(a: Seq<char>, b: Seq<char>, c: Seq<char>)
    requires
        lex_less(a, b),
        lex_less(b, c),
    ensures
        lex_less(a, c),
    decreases a.len(),
{
    if a.len() > 0 && b.len() > 0 && c.len() > 0 && a[0] == b[0] && b[0] == c[0] {
        lemma_lex_less_transitive(a.drop_first(), b.drop_first(), c.drop_first());
    }
}

/// The characters of the flags in Emscripten's table.
proof fn lemma_table_literals()
    ensures
        "--embed-file"@ == seq!['-', '-', 'e', 'm', 'b', 'e', 'd', '-', 'f', 'i', 'l', 'e'],
        "--emrun"@ == seq!['-', '-', 'e', 'm', 'r', 'u', 'n'],
        "--js-library"@ == seq!['-', '-', 'j', 's', '-', 'l', 'i', 'b', 'r', 'a', 'r', 'y'],
        "--post-js"@ == seq!['-', '-', 'p', 'o', 's', 't', '-', 'j', 's'],
        "--pre-js"@ == seq!['-', '-', 'p', 'r', 'e', '-', 'j', 's'],
        "--preload-file"@ == seq!['-', '-', 'p', 'r', 'e', 'l', 'o', 'a', 'd', '-', 'f', 'i', 'l', 'e'],
        "-s"@ == seq!['-', 's'],
{
    reveal_strlit("--embed-file");
    reveal_strlit("--emrun");
    reveal_strlit("--js-library");
    reveal_strlit("--post-js");
    reveal_strlit("--pre-js");
    reveal_strlit("--preload-file");
    reveal_strlit("-s");
}

/// Emscripten's table is sorted by flag, strictly, as the argument parser
/// that searches it requires.
pub proof fn law_emscripten_args_sorted()
    ensures
        forall|i: int, j: int|
            0 <= i < j < spec_emscripten_args().len() ==> lex_less(
                #[trigger] spec_emscripten_args()[i].name()@,
                #[trigger] spec_emscripten_args()[j].name()@,
            ),
{
    lemma_table_literals();
    let t = spec_emscripten_args();
    let n = |k: int| t[k].name()@;
    assert(lex_less(n(0), n(1))) by {
        reveal_with_fuel(lex_less, 5);
    }
    assert(lex_less(n(1), n(2))) by {
        reveal_with_fuel(lex_less, 3);
    }
    assert(lex_less(n(2), n(3))) by {
        reveal_with_fuel(lex_less, 3);
    }
    assert(lex_less(n(3), n(4))) by {
        reveal_with_fuel(lex_less, 4);
    }
    assert(lex_less(n(4), n(5))) by {
        reveal_with_fuel(lex_less, 6);
    }
    assert(lex_less(n(5), n(6))) by {
        reveal_with_fuel(lex_less, 2);
    }
    assert forall|m: int| 0 <= m < t.len() - 1 implies lex_less(#[trigger] t[m].name()@, t[m + 1].name()@) by {
        assert(n(m) == t[m].name()@ && n(m + 1) == t[m + 1].name()@);
    }
    assert forall|i: int, j: int| 0 <= i < j < t.len() implies lex_less(
        #[trigger] t[i].name()@,
        #[trigger] t[j].name()@,
    ) by {
        lemma_adjacent_to_pairwise(t, i, j);
    }
}

/// In a table whose neighbouring flags are in order, all flags are.
proof fn lemma_adjacent_to_pairwise(t: Seq<ArgInfo>, i: int, j: int)
    requires
        0 <= i < j < t.len(),
        forall|m: int| 0 <= m < t.len() - 1 ==> lex_less(#[trigger] t[m].name()@, t[m + 1].name()@),
    ensures
        lex_less(t[i].name()@, t[j].name()@),
    decreases j - i,
{
    if j > i + 1 {
        lemma_adjacent_to_pairwise(t, i, j - 1);
        assert(lex_less(t[j - 1].name()@, t[j].name()@));
        lemma_lex_less_transitive(t[i].name()@, t[j - 1].name()@, t[j].name()@);
    }
}

} // verus!

verus! {

/// No flag of the table but `-s` recognises an argument that starts with
/// `-s`, and `-s` does.
proof fn lemma_lookup_setting(arg: Seq<char>)
    requires
        has_prefix(arg, "-s"@),
    ensures
        spec_lookup(spec_emscripten_args(), arg) == Some(
            ArgInfo::TakeArg("-s", ArgDisposition::CanBeSeparated, ArgTreatment::PassThrough),
        ),
{
    lemma_table_literals();
    let t = spec_emscripten_args();
    assert(arg[1] == 's') by {
        assert(arg.subrange(0, 2)[1] == arg[1]);
    }
    assert forall|k: int| 0 <= k < 6 implies !entry_matches(#[trigger] t[k], arg) by {
        assert(t[k].name()@[1] == '-');
        if arg == t[k].name()@ {
            assert(arg[1] == t[k].name()@[1]);
        }
    }
    assert(t.drop_first()[0] == t[1]);
    assert(t.drop_first().drop_first()[0] == t[2]);
    assert(t.drop_first().drop_first().drop_first()[0] == t[3]);
    assert(t.drop_first().drop_first().drop_first().drop_first()[0] == t[4]);
    assert(t.drop_first().drop_first().drop_first().drop_first().drop_first()[0] == t[5]);
    assert(t.drop_first().drop_first().drop_first().drop_first().drop_first().drop_first()[0]
        == t[6]);
    reveal_with_fuel(spec_lookup, 7);
}

/// A setting given as `-s KEY=VALUE` reaches the cache key glued, as
/// `-sKEY=VALUE`, and takes up both arguments.
pub proof fn law_separated_setting_is_glued(args: Seq<Seq<char>>, i: int)
    requires
        0 <= i,
        i + 1 < args.len(),
        args[i] == "-s"@,
    ensures
        spec_classify(args, i) == Some((ArgVerdict::PassThrough(seq!["-s"@ + args[i + 1]]), 1int + 1)),
{
    lemma_table_literals();
    assert(args[i].subrange(0, 2) == args[i]);
    lemma_lookup_setting(args[i]);
}

/// A setting given glued, as `-sKEY=VALUE`, reaches the cache key as it
/// stands and takes up one argument: the two forms give the same key.
pub proof fn law_glued_setting_passes(args: Seq<Seq<char>>, i: int, value: Seq<char>)
    requires
        0 <= i < args.len(),
        value.len() > 0,
        args[i] == "-s"@ + value,
    ensures
        spec_classify(args, i) == Some((ArgVerdict::PassThrough(seq!["-s"@ + value]), 1int)),
{
    lemma_table_literals();
    assert(args[i].subrange(0, 2) == "-s"@);
    lemma_lookup_setting(args[i]);
    assert(args[i] != "-s"@) by {
        assert(args[i].len() > 2);
    }
}

/// The linking-only flags `--embed-file`, `--js-library`, `--post-js`,
/// `--pre-js` and `--preload-file`, given their value, make a compilation
/// impossible to cache, with the flag as the reason.
pub proof fn law_linking_flags_are_too_hard(args: Seq<Seq<char>>, i: int, k: int)
    requires
        0 <= i,
        i + 1 < args.len(),
        k == 0 || 2 <= k <= 5,
        args[i] == spec_emscripten_args()[k].name()@,
    ensures
        spec_classify(args, i) == Some((ArgVerdict::TooHard(args[i]), 1int + 1)),
{
    lemma_table_literals();
    let t = spec_emscripten_args();
    let a = args[i];
    assert forall|m: int| 0 <= m < k implies !entry_matches(#[trigger] t[m], a) by {
        lemma_table_literals();
        assert(t[m].name()@ != t[k].name()@) by {
            if m == 0 {
                assert(t[m].name()@[2] != t[k].name()@[2] || t[m].name()@[4] != t[k].name()@[4]);
            } else if m == 1 {
                assert(t[m].name()@.len() != t[k].name()@.len() || t[m].name()@[2] != t[k].name()@[2]);
            } else if m == 2 {
                assert(t[m].name()@[2] != t[k].name()@[2]);
            } else if m == 3 {
                assert(t[m].name()@[3] != t[k].name()@[3]);
            } else {
                assert(t[m].name()@.len() != t[k].name()@.len());
            }
        }
    }
    assert(t.drop_first()[0] == t[1]);
    assert(t.drop_first().drop_first()[0] == t[2]);
    assert(t.drop_first().drop_first().drop_first()[0] == t[3]);
    assert(t.drop_first().drop_first().drop_first().drop_first()[0] == t[4]);
    assert(t.drop_first().drop_first().drop_first().drop_first().drop_first()[0] == t[5]);
    reveal_with_fuel(spec_lookup, 7);
}

} // verus!

verus! {

/// `--emrun` is a flag without a value: wherever it stands, and whatever
/// follows it, it is passed on alone and takes up exactly its own argument,
/// so the argument after it is read on its own.
pub proof fn law_emrun_takes_no_value(args: Seq<Seq<char>>, i: int)
    requires
        0 <= i < args.len(),
        args[i] == "--emrun"@,
    ensures
        spec_classify(args, i) == Some((ArgVerdict::PassThrough(seq![args[i]]), 1int)),
{
    lemma_table_literals();
    let t = spec_emscripten_args();
    assert(t[0].name()@ != args[i]) by {
        assert(t[0].name()@.len() != args[i].len());
    }
    assert(!entry_matches(t[0], args[i]));
    assert(t.drop_first()[0] == t[1]);
    assert(entry_matches(t[1], args[i]));
    reveal_with_fuel(spec_lookup, 3);
}

} // verus!
