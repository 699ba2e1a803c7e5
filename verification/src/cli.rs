//! The decisions of the command line and of the tool and HTTP front ends:
//! reading arguments and options, choosing the requested safety level,
//! reading tool calls, counting a program's action nodes and showing ledger
//! entries.

use vstd::prelude::*;
use crate::ast::{AetherProgram, Block, SafetyLevel, safety_from_tag};
use crate::eval::{member_get, member_lookup};
use crate::guest::{bytes_of, cut_count, cut_ok, cut_chars};
use crate::json::{JVal, JsonValue, json_text, push_chars, push_json, to_json_text};
use crate::text::{chars_of, owned, str_eq, string_of, strs, unicode_lower};

verus! {

// ---------------------------------------------------------------------------
// Commands and options
// ---------------------------------------------------------------------------

/// What the first argument asks for.
pub enum Command {
    Usage,
    Help,
    Version,
    /// Natural language to Aether; the arguments after the command.
    Translate,
    /// Audit of an execution log; the arguments after the command.
    Audit,
    /// Running a file; the arguments from the first on.
    Run,
}

pub open spec fn command_spec(args: Seq<Seq<char>>) -> Command {
    if args.len() < 2 {
        Command::Usage
    } else {
        let a = args[1];
        if a == "translate"@ || a == "gen"@ {
            Command::Translate
        } else if a == "audit"@ {
            Command::Audit
        } else if a == "--help"@ || a == "-h"@ {
            Command::Help
        } else if a == "--version"@ || a == "-v"@ {
            Command::Version
        } else {
            Command::Run
        }
    }
}

/// The command of a command line (the program name first).
pub fn command_of(args: &Vec<String>) -> (r: Command)
    ensures
        r == command_spec(strs(args@)),
{
    if args.len() < 2 {
        return Command::Usage;
    }
    let a = args[1].as_str();
    assert(a@ == strs(args@)[1]);
    if str_eq(a, "translate") || str_eq(a, "gen") {
        Command::Translate
    } else if str_eq(a, "audit") {
        Command::Audit
    } else if str_eq(a, "--help") || str_eq(a, "-h") {
        Command::Help
    } else if str_eq(a, "--version") || str_eq(a, "-v") {
        Command::Version
    } else {
        Command::Run
    }
}

/// Options of a run.
pub struct RunOptions {
    pub file: String,
    pub safety: SafetyLevel,
    pub output: String,
    pub no_registry: bool,
    pub strict_registry: bool,
    pub expand_only: bool,
}

/// What the arguments of a run ask for.
pub enum RunArgs {
    Help,
    Version,
    Run(RunOptions),
}

/// Options read so far from run arguments.
pub struct RunSoFar {
    pub file: Option<Seq<char>>,
    pub safety: SafetyLevel,
    pub output: Seq<char>,
    pub no_registry: bool,
    pub strict_registry: bool,
    pub expand_only: bool,
}

pub enum RunArgsV {
    Help,
    Version,
    Fail(Seq<char>),
    Done(RunSoFar),
}

/// The level named by a safety argument, as `SafetyLevel::from_str` reads it.
pub open spec fn level_named(s: Seq<char>) -> Option<SafetyLevel> {
    safety_from_tag(unicode_lower(s))
}

pub open spec fn unknown_level(s: Seq<char>) -> Seq<char> {
    "Unknown safety level: "@ + s
}

/// Reading run arguments from position `i` on: options take the next
/// argument when there is one; help and version stop at once; any other
/// argument is the input file (the last one counts).
pub open spec fn run_args_from(args: Seq<Seq<char>>, i: int, st: RunSoFar) -> RunArgsV
    decreases args.len() - i,
{
    if i < 0 || i >= args.len() {
        RunArgsV::Done(st)
    } else {
        let a = args[i];
        if a == "--safety"@ || a == "-s"@ {
            if i + 1 < args.len() {
                match level_named(args[i + 1]) {
                    Some(l) => run_args_from(args, i + 2, RunSoFar { safety: l, ..st }),
                    None => RunArgsV::Fail(unknown_level(args[i + 1])),
                }
            } else {
                RunArgsV::Done(st)
            }
        } else if a == "--output"@ || a == "-o"@ {
            if i + 1 < args.len() {
                run_args_from(args, i + 2, RunSoFar { output: args[i + 1], ..st })
            } else {
                RunArgsV::Done(st)
            }
        } else if a == "--no-registry"@ {
            run_args_from(args, i + 1, RunSoFar { no_registry: true, ..st })
        } else if a == "--strict-registry"@ {
            run_args_from(args, i + 1, RunSoFar { strict_registry: true, ..st })
        } else if a == "--expand-only"@ || a == "-e"@ {
            run_args_from(args, i + 1, RunSoFar { expand_only: true, ..st })
        } else if a == "--help"@ || a == "-h"@ {
            RunArgsV::Help
        } else if a == "--version"@ || a == "-v"@ {
            RunArgsV::Version
        } else {
            run_args_from(args, i + 1, RunSoFar { file: Some(a), ..st })
        }
    }
}

pub open spec fn run_defaults() -> RunSoFar {
    RunSoFar {
        file: None,
        safety: SafetyLevel::L2StateMod,
        output: "output.ae.json"@,
        no_registry: false,
        strict_registry: false,
        expand_only: false,
    }
}

/// The outcome of reading the arguments of a run: help, version, an error
/// (an unknown safety level, or no input file), or the options.
pub open spec fn run_args_spec(args: Seq<Seq<char>>) -> RunArgsV {
    match run_args_from(args, 0, run_defaults()) {
        RunArgsV::Done(st) => match st.file {
            Some(_) => RunArgsV::Done(st),
            None => RunArgsV::Fail("No input file specified"@),
        },
        other => other,
    }
}

pub open spec fn run_args_view(r: Result<RunArgs, String>) -> RunArgsV {
    match r {
        Ok(RunArgs::Help) => RunArgsV::Help,
        Ok(RunArgs::Version) => RunArgsV::Version,
        Ok(RunArgs::Run(o)) => RunArgsV::Done(
            RunSoFar {
                file: Some(o.file@),
                safety: o.safety,
                output: o.output@,
                no_registry: o.no_registry,
                strict_registry: o.strict_registry,
                expand_only: o.expand_only,
            },
        ),
        Err(e) => RunArgsV::Fail(e@),
    }
}

fn message_with(prefix: &str, s: &str) -> (r: String)
    ensures
        r@ == prefix@ + s@,
{
    let mut out: Vec<char> = Vec::new();
    push_chars(&mut out, prefix);
    push_chars(&mut out, s);
    string_of(out.as_slice())
}

/// Reads the arguments of a run (those after the program name).
pub fn parse_run_args(args: &Vec<String>) -> (r: Result<RunArgs, String>)
    ensures
        run_args_view(r) == run_args_spec(strs(args@)),
{
    proof {
        reveal_strlit("output.ae.json");
    }
    let ghost av = strs(args@);
    let mut file: Option<String> = None;
    let mut safety = SafetyLevel::L2StateMod;
    let mut output = owned("output.ae.json");
    let mut no_registry = false;
    let mut strict_registry = false;
    let mut expand_only = false;
    let mut i: usize = 0;
    while i < args.len()
        invariant
            av == strs(args@),
            run_args_from(av, 0, run_defaults()) == run_args_from(
                av,
                i as int,
                RunSoFar {
                    file: match file {
                        Some(f) => Some(f@),
                        None => None,
                    },
                    safety,
                    output: output@,
                    no_registry,
                    strict_registry,
                    expand_only,
                },
            ),
        decreases args@.len() - i,
    {
        let a = args[i].as_str();
        assert(a@ == av[i as int]);
        if str_eq(a, "--safety") || str_eq(a, "-s") {
            if i + 1 < args.len() {
                let s = args[i + 1].as_str();
                assert(s@ == av[i + 1]);
                match SafetyLevel::from_str(s) {
                    Some(l) => {
                        safety = l;
                    },
                    None => {
                        return Err(message_with("Unknown safety level: ", s));
                    },
                }
            }
            i = if i + 1 < args.len() { i + 2 } else { args.len() };
        } else if str_eq(a, "--output") || str_eq(a, "-o") {
            if i + 1 < args.len() {
                output = owned(args[i + 1].as_str());
                assert(output@ == av[i + 1]);
            }
            i = if i + 1 < args.len() { i + 2 } else { args.len() };
        } else if str_eq(a, "--no-registry") {
            no_registry = true;
            i = i + 1;
        } else if str_eq(a, "--strict-registry") {
            strict_registry = true;
            i = i + 1;
        } else if str_eq(a, "--expand-only") || str_eq(a, "-e") {
            expand_only = true;
            i = i + 1;
        } else if str_eq(a, "--help") || str_eq(a, "-h") {
            return Ok(RunArgs::Help);
        } else if str_eq(a, "--version") || str_eq(a, "-v") {
            return Ok(RunArgs::Version);
        } else {
            file = Some(owned(a));
            i = i + 1;
        }
    }
    match file {
        Some(f) => Ok(RunArgs::Run(RunOptions { file: f, safety, output, no_registry, strict_registry, expand_only })),
        None => Err(owned("No input file specified")),
    }
}

/// Whether a file holds Aether-Short (its name ends in `.as`).
pub open spec fn is_short_file(path: Seq<char>) -> bool {
    crate::text::seq_ends_with(path, ".as"@)
}

pub fn is_short_path(path: &str) -> (r: bool)
    ensures
        r == is_short_file(path@),
{
    proof {
        reveal_strlit(".as");
    }
    let p = chars_of(path);
    let n = p.len();
    if n < 3 {
        return false;
    }
    let r = p[n - 3] == '.' && p[n - 2] == 'a' && p[n - 1] == 's';
    proof {
        let tail = p@.subrange(n - 3, n as int);
        if r {
            assert(tail =~= ".as"@);
        }
        if is_short_file(path@) {
            assert(tail[0] == '.' && tail[1] == 'a' && tail[2] == 's');
        }
    }
    r
}

/// Options of the translate command.
pub struct TranslateOptions {
    pub description: String,
    pub run_after: bool,
    pub output: Option<String>,
    pub safety: SafetyLevel,
    pub no_registry: bool,
}

pub enum TranslateArgs {
    Help,
    Translate(TranslateOptions),
}

pub struct TranslateSoFar {
    pub description: Option<Seq<char>>,
    pub run_after: bool,
    pub output: Option<Seq<char>>,
    pub safety: SafetyLevel,
    pub no_registry: bool,
}

pub enum TranslateArgsV {
    Help,
    Fail(Seq<char>),
    Done(TranslateSoFar),
}

pub open spec fn translate_args_from(args: Seq<Seq<char>>, i: int, st: TranslateSoFar) -> TranslateArgsV
    decreases args.len() - i,
{
    if i < 0 || i >= args.len() {
        TranslateArgsV::Done(st)
    } else {
        let a = args[i];
        if a == "--run"@ || a == "-r"@ {
            translate_args_from(args, i + 1, TranslateSoFar { run_after: true, ..st })
        } else if a == "--output"@ || a == "-o"@ {
            if i + 1 < args.len() {
                translate_args_from(args, i + 2, TranslateSoFar { output: Some(args[i + 1]), ..st })
            } else {
                TranslateArgsV::Done(st)
            }
        } else if a == "--safety"@ || a == "-s"@ {
            if i + 1 < args.len() {
                match level_named(args[i + 1]) {
                    Some(l) => translate_args_from(args, i + 2, TranslateSoFar { safety: l, ..st }),
                    None => TranslateArgsV::Fail(unknown_level(args[i + 1])),
                }
            } else {
                TranslateArgsV::Done(st)
            }
        } else if a == "--no-registry"@ {
            translate_args_from(args, i + 1, TranslateSoFar { no_registry: true, ..st })
        } else if a == "--help"@ || a == "-h"@ {
            TranslateArgsV::Help
        } else {
            translate_args_from(args, i + 1, TranslateSoFar { description: Some(a), ..st })
        }
    }
}

pub open spec fn no_description() -> Seq<char> {
    "No description provided.\nUsage: aether translate \"<natural language description>\" [--run] [-o output.ae]"@
}

pub open spec fn translate_defaults() -> TranslateSoFar {
    TranslateSoFar {
        description: None,
        run_after: false,
        output: None,
        safety: SafetyLevel::L2StateMod,
        no_registry: false,
    }
}

pub open spec fn translate_args_spec(args: Seq<Seq<char>>) -> TranslateArgsV {
    match translate_args_from(args, 0, translate_defaults()) {
        TranslateArgsV::Done(st) => match st.description {
            Some(_) => TranslateArgsV::Done(st),
            None => TranslateArgsV::Fail(no_description()),
        },
        other => other,
    }
}

pub open spec fn opt_str(o: Option<String>) -> Option<Seq<char>> {
    match o {
        Some(s) => Some(s@),
        None => None,
    }
}

pub open spec fn translate_args_view(r: Result<TranslateArgs, String>) -> TranslateArgsV {
    match r {
        Ok(TranslateArgs::Help) => TranslateArgsV::Help,
        Ok(TranslateArgs::Translate(o)) => TranslateArgsV::Done(
            TranslateSoFar {
                description: Some(o.description@),
                run_after: o.run_after,
                output: opt_str(o.output),
                safety: o.safety,
                no_registry: o.no_registry,
            },
        ),
        Err(e) => TranslateArgsV::Fail(e@),
    }
}

/// Reads the arguments of the translate command (those after the command).
pub fn parse_translate_args(args: &Vec<String>) -> (r: Result<TranslateArgs, String>)
    ensures
        translate_args_view(r) == translate_args_spec(strs(args@)),
{
    let ghost av = strs(args@);
    let mut description: Option<String> = None;
    let mut run_after = false;
    let mut output: Option<String> = None;
    let mut safety = SafetyLevel::L2StateMod;
    let mut no_registry = false;
    let mut i: usize = 0;
    while i < args.len()
        invariant
            av == strs(args@),
            translate_args_from(av, 0, translate_defaults()) == translate_args_from(
                av,
                i as int,
                TranslateSoFar {
                    description: opt_str(description),
                    run_after,
                    output: opt_str(output),
                    safety,
                    no_registry,
                },
            ),
        decreases args@.len() - i,
    {
        let a = args[i].as_str();
        assert(a@ == av[i as int]);
        if str_eq(a, "--run") || str_eq(a, "-r") {
            run_after = true;
            i = i + 1;
        } else if str_eq(a, "--output") || str_eq(a, "-o") {
            if i + 1 < args.len() {
                output = Some(owned(args[i + 1].as_str()));
                assert(opt_str(output) == Some(av[i + 1]));
            }
            i = if i + 1 < args.len() { i + 2 } else { args.len() };
        } else if str_eq(a, "--safety") || str_eq(a, "-s") {
            if i + 1 < args.len() {
                let s = args[i + 1].as_str();
                assert(s@ == av[i + 1]);
                match SafetyLevel::from_str(s) {
                    Some(l) => {
                        safety = l;
                    },
                    None => {
                        return Err(message_with("Unknown safety level: ", s));
                    },
                }
            }
            i = if i + 1 < args.len() { i + 2 } else { args.len() };
        } else if str_eq(a, "--no-registry") {
            no_registry = true;
            i = i + 1;
        } else if str_eq(a, "--help") || str_eq(a, "-h") {
            return Ok(TranslateArgs::Help);
        } else {
            description = Some(owned(a));
            i = i + 1;
        }
    }
    match description {
        Some(d) => Ok(TranslateArgs::Translate(TranslateOptions { description: d, run_after, output, safety, no_registry })),
        None => Err(owned("No description provided.\nUsage: aether translate \"<natural language description>\" [--run] [-o output.ae]")),
    }
}

/// The log file of the audit command: the last argument that is not a help
/// flag (`output.ae.json` by default), or none when help is asked for.
pub open spec fn audit_path_from(args: Seq<Seq<char>>, i: int, path: Seq<char>) -> Option<Seq<char>>
    decreases args.len() - i,
{
    if i < 0 || i >= args.len() {
        Some(path)
    } else if args[i] == "--help"@ || args[i] == "-h"@ {
        None
    } else {
        audit_path_from(args, i + 1, args[i])
    }
}

/// Reads the arguments of the audit command: the log file, or none for help.
pub fn parse_audit_args(args: &Vec<String>) -> (r: Option<String>)
    ensures
        opt_str(r) == audit_path_from(strs(args@), 0, "output.ae.json"@),
{
    let ghost av = strs(args@);
    let mut path = owned("output.ae.json");
    let mut i: usize = 0;
    while i < args.len()
        invariant
            av == strs(args@),
            audit_path_from(av, 0, "output.ae.json"@) == audit_path_from(av, i as int, path@),
        decreases args@.len() - i,
    {
        let a = args[i].as_str();
        assert(a@ == av[i as int]);
        if str_eq(a, "--help") || str_eq(a, "-h") {
            return None;
        }
        path = owned(a);
        i = i + 1;
    }
    Some(path)
}

// ---------------------------------------------------------------------------
// Programs and ledgers
// ---------------------------------------------------------------------------

pub open spec fn action_blocks(bs: Seq<Block>) -> nat
    decreases bs.len(),
{
    if bs.len() == 0 {
        0
    } else {
        action_blocks(bs.drop_last()) + if bs.last() is Action {
            1nat
        } else {
            0nat
        }
    }
}

pub open spec fn action_count(roots: Seq<crate::ast::RootBlock>) -> nat
    decreases roots.len(),
{
    if roots.len() == 0 {
        0
    } else {
        action_count(roots.drop_last()) + action_blocks(roots.last().blocks@)
    }
}

/// The number of action blocks directly in a program's roots (nodes inside
/// parallel blocks are not counted), capped at `usize::MAX` (a program in
/// memory never reaches it).
pub fn count_action_nodes(program: &AetherProgram) -> (r: usize)
    ensures
        r == (if action_count(program.roots@) <= usize::MAX {
            action_count(program.roots@)
        } else {
            usize::MAX as nat
        }),
{
    let mut total: usize = 0;
    let mut i: usize = 0;
    while i < program.roots.len()
        invariant
            0 <= i <= program.roots@.len(),
            total == (if action_count(program.roots@.subrange(0, i as int)) <= usize::MAX {
                action_count(program.roots@.subrange(0, i as int))
            } else {
                usize::MAX as nat
            }),
        decreases program.roots@.len() - i,
    {
        let ghost p = program.roots@.subrange(0, i + 1);
        assert(p.drop_last() == program.roots@.subrange(0, i as int));
        let bs = &program.roots[i].blocks;
        let mut n: usize = 0;
        let mut j: usize = 0;
        while j < bs.len()
            invariant
                0 <= j <= bs@.len(),
                n == action_blocks(bs@.subrange(0, j as int)),
                n <= j,
            decreases bs@.len() - j,
        {
            let ghost q = bs@.subrange(0, j + 1);
            assert(q.drop_last() == bs@.subrange(0, j as int));
            if matches!(bs[j], Block::Action(_)) {
                n = n + 1;
            }
            j = j + 1;
        }
        assert(bs@.subrange(0, bs@.len() as int) == bs@);
        assert(p.last() == program.roots@[i as int]);
        total = if total > usize::MAX - n { usize::MAX } else { total + n };
        i = i + 1;
    }
    assert(program.roots@.subrange(0, program.roots@.len() as int) == program.roots@);
    total
}

proof fn lemma_bytes_prefix(s: Seq<char>, k: int)
    requires
        0 <= k < s.len(),
    ensures
        bytes_of(s.subrange(0, k)) < bytes_of(s),
    decreases s.len(),
{
    if k < s.len() - 1 {
        lemma_bytes_prefix(s.drop_last(), k);
        assert(s.drop_last().subrange(0, k) == s.subrange(0, k));
    } else {
        assert(s.drop_last() == s.subrange(0, k));
    }
}

/// How a ledger value is shown: a string in double quotes; any other value as
/// its JSON text, cut after 80 bytes with "..." when longer.
pub open spec fn ledger_display_spec(v: JVal) -> Seq<char> {
    match v {
        JVal::Str(s) => seq!['"'] + s + seq!['"'],
        _ => {
            let t = json_text(v);
            if bytes_of(t) > 80 {
                t.subrange(0, cut_chars(t, 80) as int) + "..."@
            } else {
                t
            }
        },
    }
}

/// Shows a ledger value. A longer JSON text is cut at byte 80, which must fall
/// on a character boundary.
pub fn ledger_display(v: &JsonValue) -> (r: String)
    requires
        !(v@ is Str) && bytes_of(json_text(v@)) > 80 ==> cut_ok(json_text(v@), 80),
    ensures
        r@ == ledger_display_spec(v@),
{
    match v {
        JsonValue::String(s) => {
            let mut out: Vec<char> = Vec::new();
            out.push('"');
            push_chars(&mut out, s.as_str());
            out.push('"');
            assert(out@ =~= seq!['"'] + s@ + seq!['"']);
            string_of(out.as_slice())
        },
        _ => {
            let t = to_json_text(v);
            let cs = chars_of(t.as_str());
            match cut_count(&cs, 80) {
                Some(k) => {
                    if k < cs.len() {
                        let mut out: Vec<char> = Vec::new();
                        let mut i: usize = 0;
                        while i < k
                            invariant
                                0 <= i <= k < cs@.len(),
                                out@ == cs@.subrange(0, i as int),
                            decreases k - i,
                        {
                            out.push(cs[i]);
                            i = i + 1;
                            assert(out@ =~= cs@.subrange(0, i as int));
                        }
                        push_chars(&mut out, "...");
                        proof {
                            lemma_bytes_prefix(cs@, k as int);
                        }
                        string_of(out.as_slice())
                    } else {
                        assert(cs@.subrange(0, k as int) =~= cs@);
                        t
                    }
                },
                None => t,
            }
        },
    }
}

// ---------------------------------------------------------------------------
// Tool calls and requests
// ---------------------------------------------------------------------------

/// The string member of an object value.
pub open spec fn str_member(v: JVal, key: Seq<char>) -> Option<Seq<char>> {
    match v {
        JVal::Obj(m) => match member_get(m, key) {
            Some(JVal::Str(s)) => Some(s),
            _ => None,
        },
        _ => None,
    }
}

fn get_str<'a>(v: &'a JsonValue, key: &str) -> (r: Option<&'a str>)
    ensures
        match str_member(v@, key@) {
            Some(s) => r is Some && r->0@ == s,
            None => r is None,
        },
{
    match v {
        JsonValue::Object(m) => match member_lookup(m, key) {
            Some(JsonValue::String(s)) => Some(s.as_str()),
            _ => None,
        },
        _ => None,
    }
}

/// The safety level a request asks for (l2 when it names none).
pub open spec fn requested_safety_spec(s: Option<Seq<char>>) -> Result<SafetyLevel, Seq<char>> {
    let t = match s {
        Some(x) => x,
        None => "l2"@,
    };
    match level_named(t) {
        Some(l) => Ok(l),
        None => Err(unknown_level(t)),
    }
}

/// Reads the safety level a request asks for.
pub fn requested_safety(s: Option<&str>) -> (r: Result<SafetyLevel, String>)
    ensures
        match requested_safety_spec(
            match s {
                Some(x) => Some(x@),
                None => None,
            },
        ) {
            Ok(l) => r == Ok::<SafetyLevel, String>(l),
            Err(e) => r matches Err(e2) && e2@ == e,
        },
{
    let t = match s {
        Some(x) => x,
        None => "l2",
    };
    match SafetyLevel::from_str(t) {
        Some(l) => Ok(l),
        None => Err(message_with("Unknown safety level: ", t)),
    }
}

/// A call of one of the kernel's tools.
pub enum ToolRequest {
    Validate(String),
    Execute(String, SafetyLevel),
    Audit(String),
    Inspect(String),
}

pub enum ToolRequestV {
    Validate(Seq<char>),
    Execute(Seq<char>, SafetyLevel),
    Audit(Seq<char>),
    Inspect(Seq<char>),
}

pub open spec fn tool_view(r: Result<ToolRequest, String>) -> Result<ToolRequestV, Seq<char>> {
    match r {
        Ok(ToolRequest::Validate(c)) => Ok(ToolRequestV::Validate(c@)),
        Ok(ToolRequest::Execute(c, l)) => Ok(ToolRequestV::Execute(c@, l)),
        Ok(ToolRequest::Audit(c)) => Ok(ToolRequestV::Audit(c@)),
        Ok(ToolRequest::Inspect(c)) => Ok(ToolRequestV::Inspect(c@)),
        Err(e) => Err(e@),
    }
}

/// What a tool call asks for: each tool needs its string argument; execution
/// takes an optional safety level.
pub open spec fn tool_spec(name: Seq<char>, args: JVal) -> Result<ToolRequestV, Seq<char>> {
    if name == "aether_validate"@ {
        match str_member(args, "code"@) {
            Some(c) => Ok(ToolRequestV::Validate(c)),
            None => Err("Missing 'code' argument"@),
        }
    } else if name == "aether_execute"@ {
        match str_member(args, "code"@) {
            Some(c) => match requested_safety_spec(str_member(args, "safety_level"@)) {
                Ok(l) => Ok(ToolRequestV::Execute(c, l)),
                Err(e) => Err(e),
            },
            None => Err("Missing 'code' argument"@),
        }
    } else if name == "aether_audit"@ {
        match str_member(args, "execution_log"@) {
            Some(c) => Ok(ToolRequestV::Audit(c)),
            None => Err("Missing 'execution_log' argument"@),
        }
    } else if name == "aether_inspect"@ {
        match str_member(args, "execution_id"@) {
            Some(c) => Ok(ToolRequestV::Inspect(c)),
            None => Err("Missing 'execution_id' argument"@),
        }
    } else {
        Err("Unknown tool: "@ + name)
    }
}

/// Reads a tool call.
pub fn tool_request(name: &str, arguments: &JsonValue) -> (r: Result<ToolRequest, String>)
    ensures
        tool_view(r) == tool_spec(name@, arguments@),
{
    if str_eq(name, "aether_validate") {
        match get_str(arguments, "code") {
            Some(c) => Ok(ToolRequest::Validate(owned(c))),
            None => Err(owned("Missing 'code' argument")),
        }
    } else if str_eq(name, "aether_execute") {
        match get_str(arguments, "code") {
            Some(c) => match requested_safety(get_str(arguments, "safety_level")) {
                Ok(l) => Ok(ToolRequest::Execute(owned(c), l)),
                Err(e) => Err(e),
            },
            None => Err(owned("Missing 'code' argument")),
        }
    } else if str_eq(name, "aether_audit") {
        match get_str(arguments, "execution_log") {
            Some(c) => Ok(ToolRequest::Audit(owned(c))),
            None => Err(owned("Missing 'execution_log' argument")),
        }
    } else if str_eq(name, "aether_inspect") {
        match get_str(arguments, "execution_id") {
            Some(c) => Ok(ToolRequest::Inspect(owned(c))),
            None => Err(owned("Missing 'execution_id' argument")),
        }
    } else {
        Err(message_with("Unknown tool: ", name))
    }
}

/// A JSON-RPC method of the tool protocol.
pub enum McpMethod {
    Initialize,
    /// A notification that gets no answer.
    Initialized,
    ToolsList,
    ToolsCall,
    /// Answered with a method-not-found error.
    Unknown,
}

pub open spec fn mcp_method_spec(m: Seq<char>) -> McpMethod {
    if m == "initialize"@ {
        McpMethod::Initialize
    } else if m == "notifications/initialized"@ {
        McpMethod::Initialized
    } else if m == "tools/list"@ {
        McpMethod::ToolsList
    } else if m == "tools/call"@ {
        McpMethod::ToolsCall
    } else {
        McpMethod::Unknown
    }
}

pub fn mcp_method(m: &str) -> (r: McpMethod)
    ensures
        r == mcp_method_spec(m@),
{
    if str_eq(m, "initialize") {
        McpMethod::Initialize
    } else if str_eq(m, "notifications/initialized") {
        McpMethod::Initialized
    } else if str_eq(m, "tools/list") {
        McpMethod::ToolsList
    } else if str_eq(m, "tools/call") {
        McpMethod::ToolsCall
    } else {
        McpMethod::Unknown
    }
}

/// The error message of an unknown method.
pub fn method_not_found(m: &str) -> (r: String)
    ensures
        r@ == "Method not found: "@ + m@,
{
    message_with("Method not found: ", m)
}

/// The tool name of a call's parameters ("" when missing).
pub open spec fn call_name_spec(params: JVal) -> Seq<char> {
    match str_member(params, "name"@) {
        Some(n) => n,
        None => Seq::empty(),
    }
}

/// The arguments of a call's parameters (an empty object when missing).
pub open spec fn call_arguments_spec(params: JVal) -> JVal {
    match params {
        JVal::Obj(m) => match member_get(m, "arguments"@) {
            Some(a) => a,
            None => JVal::Obj(Seq::empty()),
        },
        _ => JVal::Obj(Seq::empty()),
    }
}

/// The tool name and arguments of a call.
pub fn call_parts(params: &JsonValue) -> (r: (String, JsonValue))
    ensures
        r.0@ == call_name_spec(params@),
        r.1@ == call_arguments_spec(params@),
{
    proof {
        reveal_strlit("");
    }
    let name = match get_str(params, "name") {
        Some(n) => owned(n),
        None => owned(""),
    };
    let args = match params {
        JsonValue::Object(m) => match member_lookup(m, "arguments") {
            Some(a) => crate::json::clone_json(a),
            None => JsonValue::Object(Vec::new()),
        },
        _ => JsonValue::Object(Vec::new()),
    };
    proof {
        crate::json::lemma_mviews(Seq::<(String, JsonValue)>::empty());
        assert(crate::json::mviews(Seq::<(String, JsonValue)>::empty()) =~= Seq::<(Seq<char>, JVal)>::empty());
    }
    (name, args)
}

} // verus!
