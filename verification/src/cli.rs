//! Command-line and worker-command parsing, and the choice of run mode.

use vstd::prelude::*;

use crate::error::ParseError;
use crate::text::{
    append_chars, append_vec, chars_of, dec, has_prefix, lemma_parse_dec, int_error_message, int_error_text,
    parse_unsigned, parse_unsigned_chars, split_words, string_of, string_of_range, trim,
    trim_bounds, texts, vec_eq_str, vec_has_prefix, words, float_text_check, float_text_error,
    IntErrorKind,
};

verus! {

/// What the one-shot and worker modes sample.
#[derive(Debug, Clone, Copy, PartialEq, Eq, Structural)]
pub struct CliArgs {
    pub show_threads: bool,
    pub show_network: bool,
    pub show_hierarchy: bool,
    pub pid_filter: Option<u32>,
}

/// A command of the interactive worker.
#[derive(Debug, Clone, Copy, PartialEq, Eq, Structural)]
pub enum WorkerCommand {
    Sample(CliArgs),
    Shutdown,
}

/// How the program runs for the given arguments.
#[derive(Debug, Clone, Copy, PartialEq, Eq, Structural)]
pub enum RunMode {
    Gui,
    Worker,
    OneShot(CliArgs),
}

/// Nothing selected and no process filter.
pub open spec fn no_options() -> CliArgs {
    CliArgs { show_threads: false, show_network: false, show_hierarchy: false, pid_filter: None }
}

/// The message for a process id that does not parse.
pub open spec fn pid_message(text: Seq<char>, k: IntErrorKind) -> Seq<char> {
    "invalid pid '"@ + text + "': "@ + int_error_message(k)
}

/// `text` as a process id, or the message for it.
pub open spec fn pid_value(text: Seq<char>) -> Result<u32, Seq<char>> {
    match parse_unsigned(text, u32::MAX as nat) {
        Ok(v) => Ok(v as u32),
        Err(k) => Err(pid_message(text, k)),
    }
}

/// The effect of one command-line argument on the options read so far.
pub open spec fn cli_step(acc: CliArgs, arg: Seq<char>) -> Result<CliArgs, Seq<char>> {
    if arg == "-threads"@ || arg == "--threads"@ {
        Ok(CliArgs { show_threads: true, ..acc })
    } else if arg == "-network"@ || arg == "--network"@ {
        Ok(CliArgs { show_network: true, ..acc })
    } else if arg == "-hierarchy"@ || arg == "--hierarchy"@ {
        Ok(CliArgs { show_hierarchy: true, ..acc })
    } else if has_prefix(arg, "-pid="@) || has_prefix(arg, "--pid="@) {
        let text = if has_prefix(arg, "-pid="@) {
            arg.skip(5)
        } else {
            arg.skip(6)
        };
        match pid_value(text) {
            Ok(pid) => Ok(CliArgs { pid_filter: Some(pid), ..acc }),
            Err(m) => Err(m),
        }
    } else {
        Err(
            "unknown argument '"@ + arg
                + "'. supported: -threads, -network, -hierarchy, -pid=<pid>"@,
        )
    }
}

/// The options after reading `args` in order from `acc`, or the first error.
pub open spec fn cli_parse_from(args: Seq<Seq<char>>, acc: CliArgs) -> Result<CliArgs, Seq<char>>
    decreases args.len(),
{
    if args.len() == 0 {
        Ok(acc)
    } else {
        match cli_step(acc, args[0]) {
            Ok(next) => cli_parse_from(args.drop_first(), next),
            Err(m) => Err(m),
        }
    }
}

/// The argument is one of the two spellings of the worker switch.
pub open spec fn is_worker_switch(a: Seq<char>) -> bool {
    a == "--worker"@ || a == "-worker"@
}

/// The process filter of a worker command after reading `parts`, or the first error.
pub open spec fn worker_pid_from(parts: Seq<Seq<char>>, pid: Option<u32>) -> Result<
    Option<u32>,
    Seq<char>,
>
    decreases parts.len(),
{
    if parts.len() == 0 {
        Ok(pid)
    } else {
        let part = parts[0];
        if has_prefix(part, "pid="@) || has_prefix(part, "--pid="@) {
            let text = if has_prefix(part, "pid="@) {
                part.skip(4)
            } else {
                part.skip(6)
            };
            match pid_value(text) {
                Ok(p) => worker_pid_from(parts.drop_first(), Some(p)),
                Err(m) => Err(m),
            }
        } else {
            Err("unknown command argument '"@ + part + "'"@)
        }
    }
}

/// What `parse_worker_command` gives for a line.
pub open spec fn worker_command_of(input: Seq<char>) -> Result<WorkerCommand, Seq<char>> {
    let w = words(input);
    if w.len() == 0 {
        Err("empty command"@)
    } else {
        match worker_pid_from(w.drop_first(), None) {
            Err(m) => Err(m),
            Ok(pid) => {
                let base = CliArgs { pid_filter: pid, ..no_options() };
                let name = w[0];
                if name == "cpu"@ {
                    Ok(WorkerCommand::Sample(base))
                } else if name == "threads"@ {
                    Ok(WorkerCommand::Sample(CliArgs { show_threads: true, ..base }))
                } else if name == "network"@ {
                    Ok(WorkerCommand::Sample(CliArgs { show_network: true, ..base }))
                } else if name == "hierarchy"@ {
                    Ok(WorkerCommand::Sample(CliArgs { show_hierarchy: true, ..base }))
                } else if name == "quit"@ || name == "exit"@ {
                    Ok(WorkerCommand::Shutdown)
                } else {
                    Err(
                        "unknown command '"@ + name
                            + "'. supported: cpu, threads, network, hierarchy, quit"@,
                    )
                }
            },
        }
    }
}

/// The kind of a worker command and its process filter, for logging.
pub open spec fn summary_of(command: WorkerCommand) -> (Seq<char>, Option<u32>) {
    match command {
        WorkerCommand::Sample(a) => if a.show_hierarchy {
            ("hierarchy"@, None)
        } else if a.show_network {
            ("network"@, a.pid_filter)
        } else if a.show_threads {
            ("threads"@, a.pid_filter)
        } else {
            ("cpu"@, a.pid_filter)
        },
        WorkerCommand::Shutdown => ("shutdown"@, None),
    }
}

/// A pid option written from a pid reads back as that pid: the arguments
/// `-pid=<p>` select exactly the process filter `p`.
pub proof fn lemma_pid_option_roundtrip(p: u32)
    ensures
        cli_parse_from(seq!["-pid="@ + dec(p as nat)], no_options()) == Ok::<CliArgs, Seq<char>>(
            CliArgs { pid_filter: Some(p), ..no_options() },
        ),
{
    let arg = "-pid="@ + dec(p as nat);
    reveal_strlit("-pid=");
    reveal_strlit("-threads");
    reveal_strlit("--threads");
    reveal_strlit("-network");
    reveal_strlit("--network");
    reveal_strlit("-hierarchy");
    reveal_strlit("--hierarchy");
    assert(arg.take(5) =~= "-pid="@);
    assert(has_prefix(arg, "-pid="@));
    assert(arg.skip(5) =~= dec(p as nat));
    assert(arg[4] == '=');
    assert(arg != "-threads"@ && arg != "--threads"@ && arg != "-network"@ && arg != "--network"@
        && arg != "-hierarchy"@ && arg != "--hierarchy"@) by {
        assert("-threads"@[4] != '=');
        assert("--threads"@[4] != '=');
        assert("-network"@[4] != '=');
        assert("--network"@[4] != '=');
        assert("-hierarchy"@[4] != '=');
        assert("--hierarchy"@[4] != '=');
    }
    lemma_parse_dec(p as nat, u32::MAX as nat);
    assert(pid_value(dec(p as nat)) == Ok::<u32, Seq<char>>(p));
    let next = CliArgs { pid_filter: Some(p), ..no_options() };
    assert(cli_step(no_options(), arg) == Ok::<CliArgs, Seq<char>>(next));
    let args = seq![arg];
    assert(args[0] == arg);
    assert(args.drop_first() =~= Seq::<Seq<char>>::empty());
    assert(cli_parse_from(args.drop_first(), next) == Ok::<CliArgs, Seq<char>>(next));
}

/// The argument is one of the six flag spellings.
pub open spec fn is_flag_spelling(a: Seq<char>) -> bool {
    a == "-threads"@ || a == "--threads"@ || a == "-network"@ || a == "--network"@ || a
        == "-hierarchy"@ || a == "--hierarchy"@
}

/// One argument read in `acc`: a threads spelling switches on exactly the
/// threads flag, and likewise for network and hierarchy; any other
/// argument leaves the three flags as they were.
proof fn lemma_cli_step_flags(acc: CliArgs, arg: Seq<char>)
    ensures
        cli_step(acc, arg) matches Ok(n) ==> {
            &&& n.show_threads == (acc.show_threads || arg == "-threads"@ || arg == "--threads"@)
            &&& n.show_network == (acc.show_network || arg == "-network"@ || arg == "--network"@)
            &&& n.show_hierarchy == (acc.show_hierarchy || arg == "-hierarchy"@ || arg
                == "--hierarchy"@)
        },
        is_flag_spelling(arg) ==> cli_step(acc, arg) is Ok && (cli_step(acc, arg) matches Ok(n)
            && n.pid_filter == acc.pid_filter),
{
    reveal_strlit("-threads");
    reveal_strlit("--threads");
    reveal_strlit("-network");
    reveal_strlit("--network");
    reveal_strlit("-hierarchy");
    reveal_strlit("--hierarchy");
    reveal_strlit("-pid=");
    reveal_strlit("--pid=");
    if is_flag_spelling(arg) {
        assert(arg[1] != 'p');
        assert(!has_prefix(arg, "-pid="@)) by {
            assert(arg.take(5)[1] != "-pid="@[1]);
        }
        assert(!has_prefix(arg, "--pid="@)) by {
            assert(arg.take(6)[2] != "--pid="@[2]);
        }
    }
}

/// Reading the command line from `acc`: when it succeeds, the threads
/// flag is on exactly when it was on before or `-threads` or `--threads`
/// occurs among the arguments, and likewise for `-network`/`--network` and
/// `-hierarchy`/`--hierarchy`; a command line made only of these spellings
/// always reads, and leaves the process filter as it was.
pub proof fn lemma_cli_flags(args: Seq<Seq<char>>, acc: CliArgs)
    ensures
        cli_parse_from(args, acc) matches Ok(c) ==> {
            &&& c.show_threads == (acc.show_threads || exists|i: int|
                0 <= i < args.len() && (args[i] == "-threads"@ || args[i] == "--threads"@))
            &&& c.show_network == (acc.show_network || exists|i: int|
                0 <= i < args.len() && (args[i] == "-network"@ || args[i] == "--network"@))
            &&& c.show_hierarchy == (acc.show_hierarchy || exists|i: int|
                0 <= i < args.len() && (args[i] == "-hierarchy"@ || args[i] == "--hierarchy"@))
        },
        (forall|i: int| 0 <= i < args.len() ==> is_flag_spelling(#[trigger] args[i])) ==> (
        cli_parse_from(args, acc) matches Ok(c) && c.pid_filter == acc.pid_filter),
    decreases args.len(),
{
    if args.len() > 0 {
        let rest = args.drop_first();
        lemma_cli_step_flags(acc, args[0]);
        assert forall|i: int| 0 <= i < rest.len() implies rest[i] == args[i + 1] by {}
        match cli_step(acc, args[0]) {
            Ok(next) => {
                lemma_cli_flags(rest, next);
                if cli_parse_from(args, acc) matches Ok(c) {
                    if exists|i: int| 0 <= i < rest.len() && (rest[i] == "-threads"@ || rest[i] == "--threads"@) {
                        let i = choose|i: int| 0 <= i < rest.len() && (rest[i] == "-threads"@ || rest[i] == "--threads"@);
                        assert(args[i + 1] == rest[i]);
                    }
                    if exists|i: int| 0 <= i < args.len() && (args[i] == "-threads"@ || args[i] == "--threads"@) {
                        let i = choose|i: int| 0 <= i < args.len() && (args[i] == "-threads"@ || args[i] == "--threads"@);
                        if i > 0 {
                            assert(rest[i - 1] == args[i]);
                        }
                    }
                    if exists|i: int| 0 <= i < rest.len() && (rest[i] == "-network"@ || rest[i] == "--network"@) {
                        let i = choose|i: int| 0 <= i < rest.len() && (rest[i] == "-network"@ || rest[i] == "--network"@);
                        assert(args[i + 1] == rest[i]);
                    }
                    if exists|i: int| 0 <= i < args.len() && (args[i] == "-network"@ || args[i] == "--network"@) {
                        let i = choose|i: int| 0 <= i < args.len() && (args[i] == "-network"@ || args[i] == "--network"@);
                        if i > 0 {
                            assert(rest[i - 1] == args[i]);
                        }
                    }
                    if exists|i: int| 0 <= i < rest.len() && (rest[i] == "-hierarchy"@ || rest[i] == "--hierarchy"@) {
                        let i = choose|i: int| 0 <= i < rest.len() && (rest[i] == "-hierarchy"@ || rest[i] == "--hierarchy"@);
                        assert(args[i + 1] == rest[i]);
                    }
                    if exists|i: int| 0 <= i < args.len() && (args[i] == "-hierarchy"@ || args[i] == "--hierarchy"@) {
                        let i = choose|i: int| 0 <= i < args.len() && (args[i] == "-hierarchy"@ || args[i] == "--hierarchy"@);
                        if i > 0 {
                            assert(rest[i - 1] == args[i]);
                        }
                    }
                }
                if forall|i: int| 0 <= i < args.len() ==> is_flag_spelling(#[trigger] args[i]) {
                    assert forall|i: int| 0 <= i < rest.len() implies is_flag_spelling(#[trigger] rest[i]) by {
                        assert(is_flag_spelling(args[i + 1]));
                    }
                }
            },
            Err(_) => {
                if forall|i: int| 0 <= i < args.len() ==> is_flag_spelling(#[trigger] args[i]) {
                    assert(is_flag_spelling(args[0]));
                }
            },
        }
    }
}


/// A worker line made of one word asks for exactly what that word names:
/// `cpu` samples with no extra view, `threads`, `network` and `hierarchy`
/// each switch on their own view alone, `quit` and `exit` shut down; no
/// process filter is set.
pub proof fn lemma_worker_single_word(input: Seq<char>)
    requires
        words(input).len() == 1,
    ensures
        words(input)[0] == "cpu"@ ==> worker_command_of(input) == Ok::<WorkerCommand, Seq<char>>(
            WorkerCommand::Sample(no_options()),
        ),
        words(input)[0] == "threads"@ ==> worker_command_of(input) == Ok::<WorkerCommand, Seq<char>>(
            WorkerCommand::Sample(CliArgs { show_threads: true, ..no_options() }),
        ),
        words(input)[0] == "network"@ ==> worker_command_of(input) == Ok::<WorkerCommand, Seq<char>>(
            WorkerCommand::Sample(CliArgs { show_network: true, ..no_options() }),
        ),
        words(input)[0] == "hierarchy"@ ==> worker_command_of(input) == Ok::<
            WorkerCommand,
            Seq<char>,
        >(WorkerCommand::Sample(CliArgs { show_hierarchy: true, ..no_options() })),
        words(input)[0] == "quit"@ || words(input)[0] == "exit"@ ==> worker_command_of(input) == Ok::<
            WorkerCommand,
            Seq<char>,
        >(WorkerCommand::Shutdown),
{
    reveal_strlit("cpu");
    reveal_strlit("threads");
    reveal_strlit("network");
    reveal_strlit("hierarchy");
    reveal_strlit("quit");
    reveal_strlit("exit");
    assert("threads"@[0] != "cpu"@[0]);
    assert("network"@[0] != "cpu"@[0]);
    assert("network"@[0] != "threads"@[0]);
    assert("hierarchy"@.len() != "cpu"@.len());
    let w = words(input);
    assert(w.drop_first() =~= Seq::<Seq<char>>::empty());
    assert(worker_pid_from(w.drop_first(), None) == Ok::<Option<u32>, Seq<char>>(None));
}


/// A pid option in its two-dash spelling reads back as that pid too:
/// `--pid=<p>` selects exactly the process filter `p`.
pub proof fn lemma_long_pid_option_roundtrip(p: u32)
    ensures
        cli_parse_from(seq!["--pid="@ + dec(p as nat)], no_options()) == Ok::<CliArgs, Seq<char>>(
            CliArgs { pid_filter: Some(p), ..no_options() },
        ),
{
    let arg = "--pid="@ + dec(p as nat);
    reveal_strlit("-pid=");
    reveal_strlit("--pid=");
    reveal_strlit("-threads");
    reveal_strlit("--threads");
    reveal_strlit("-network");
    reveal_strlit("--network");
    reveal_strlit("-hierarchy");
    reveal_strlit("--hierarchy");
    assert(arg.take(6) =~= "--pid="@);
    assert(has_prefix(arg, "--pid="@));
    assert(!has_prefix(arg, "-pid="@)) by {
        assert(arg.take(5)[1] != "-pid="@[1]);
    }
    assert(arg.skip(6) =~= dec(p as nat));
    assert(arg[5] == '=');
    assert(arg != "-threads"@ && arg != "--threads"@ && arg != "-network"@ && arg != "--network"@
        && arg != "-hierarchy"@ && arg != "--hierarchy"@) by {
        assert("-threads"@[5] != '=');
        assert("--threads"@[5] != '=');
        assert("-network"@[5] != '=');
        assert("--network"@[5] != '=');
        assert("-hierarchy"@[5] != '=');
        assert("--hierarchy"@[5] != '=');
    }
    lemma_parse_dec(p as nat, u32::MAX as nat);
    assert(pid_value(dec(p as nat)) == Ok::<u32, Seq<char>>(p));
    let next = CliArgs { pid_filter: Some(p), ..no_options() };
    assert(cli_step(no_options(), arg) == Ok::<CliArgs, Seq<char>>(next));
    let args = seq![arg];
    assert(args[0] == arg);
    assert(args.drop_first() =~= Seq::<Seq<char>>::empty());
    assert(cli_parse_from(args.drop_first(), next) == Ok::<CliArgs, Seq<char>>(next));
}


/// The characters of `v` from position `from` on.
fn chars_after(v: &Vec<char>, from: usize) -> (r: Vec<char>)
    requires
        from <= v.len(),
    ensures
        r@ == v@.skip(from as int),
{
    let mut r: Vec<char> = Vec::new();
    let mut i: usize = from;
    while i < v.len()
        invariant
            from <= i <= v.len(),
            r@ == v@.subrange(from as int, i as int),
        decreases v.len() - i,
    {
        r.push(v[i]);
        i = i + 1;
        assert(r@ =~= v@.subrange(from as int, i as int));
    }
    assert(v@.subrange(from as int, v.len() as int) =~= v@.skip(from as int));
    r
}

/// `text` as a process id, or the message for it.
fn parse_pid(text: &Vec<char>) -> (r: Result<u32, String>)
    ensures
        match r {
            Ok(p) => pid_value(text@) == Ok::<u32, Seq<char>>(p),
            Err(m) => pid_value(text@) == Err::<u32, Seq<char>>(m@),
        },
{
    match parse_unsigned_chars(text, 0xffff_ffff) {
        Ok(v) => Ok(v as u32),
        Err(k) => {
            let mut out: Vec<char> = Vec::new();
            append_chars(&mut out, "invalid pid '");
            append_vec(&mut out, text);
            append_chars(&mut out, "': ");
            append_chars(&mut out, int_error_text(k));
            assert(out@ =~= pid_message(text@, k));
            Err(string_of(&out))
        },
    }
}

/// Whether a prefix given as a literal starts `v`.
fn starts_with_str(v: &Vec<char>, p: &str) -> (r: bool)
    ensures
        r == has_prefix(v@, p@),
{
    let pc = chars_of(p);
    vec_has_prefix(v, &pc)
}

/// The effect of one command-line argument.
fn cli_step_exec(acc: CliArgs, arg: &Vec<char>) -> (r: Result<CliArgs, String>)
    ensures
        match r {
            Ok(a) => cli_step(acc, arg@) == Ok::<CliArgs, Seq<char>>(a),
            Err(m) => cli_step(acc, arg@) == Err::<CliArgs, Seq<char>>(m@),
        },
{
    if vec_eq_str(arg, "-threads") || vec_eq_str(arg, "--threads") {
        return Ok(CliArgs { show_threads: true, ..acc });
    }
    if vec_eq_str(arg, "-network") || vec_eq_str(arg, "--network") {
        return Ok(CliArgs { show_network: true, ..acc });
    }
    if vec_eq_str(arg, "-hierarchy") || vec_eq_str(arg, "--hierarchy") {
        return Ok(CliArgs { show_hierarchy: true, ..acc });
    }
    let short = starts_with_str(arg, "-pid=");
    if short || starts_with_str(arg, "--pid=") {
        proof {
            reveal_strlit("-pid=");
            reveal_strlit("--pid=");
        }
        let text = if short {
            chars_after(arg, 5)
        } else {
            chars_after(arg, 6)
        };
        return match parse_pid(&text) {
            Ok(pid) => Ok(CliArgs { pid_filter: Some(pid), ..acc }),
            Err(m) => Err(m),
        };
    }
    let mut out: Vec<char> = Vec::new();
    append_chars(&mut out, "unknown argument '");
    append_vec(&mut out, arg);
    append_chars(&mut out, "'. supported: -threads, -network, -hierarchy, -pid=<pid>");
    assert(out@ =~= "unknown argument '"@ + arg@
        + "'. supported: -threads, -network, -hierarchy, -pid=<pid>"@);
    Err(string_of(&out))
}

/// Whether any argument follows the program name (`args` are the arguments
/// after it).
pub fn has_cli_args(args: &Vec<String>) -> (r: bool)
    ensures
        r == (args@.len() > 0),
{
    args.len() > 0
}

/// Whether the arguments ask for the interactive worker: exactly one
/// argument, `--worker` or `-worker`.
pub fn is_worker_mode_requested(args: &Vec<String>) -> (r: bool)
    ensures
        r == (args@.len() == 1 && is_worker_switch(args@[0]@)),
{
    if args.len() != 1 {
        return false;
    }
    let a = chars_of(args[0].as_str());
    vec_eq_str(&a, "--worker") || vec_eq_str(&a, "-worker")
}

/// Reads the one-shot options: `-threads`, `-network`, `-hierarchy` (each
/// also with two dashes) and `-pid=<pid>` or `--pid=<pid>`, the last pid
/// winning; the first argument that is none of these is an error.
pub fn parse_args(args: &Vec<String>) -> (r: Result<CliArgs, ParseError>)
    ensures
        match r {
            Ok(a) => cli_parse_from(texts(args@), no_options()) == Ok::<CliArgs, Seq<char>>(a),
            Err(e) => cli_parse_from(texts(args@), no_options()) == Err::<CliArgs, Seq<char>>(
                e.message(),
            ),
        },
{
    let mut acc = CliArgs {
        show_threads: false,
        show_network: false,
        show_hierarchy: false,
        pid_filter: None,
    };
    let ghost all = texts(args@);
    let mut i: usize = 0;
    assert(all.skip(0) =~= all);
    while i < args.len()
        invariant
            all == texts(args@),
            i <= args@.len(),
            cli_parse_from(all, no_options()) == cli_parse_from(all.skip(i as int), acc),
        decreases args@.len() - i,
    {
        let a = chars_of(args[i].as_str());
        proof {
            assert(all.skip(i as int)[0] == a@);
            assert(all.skip(i as int).drop_first() =~= all.skip(i + 1));
        }
        match cli_step_exec(acc, &a) {
            Ok(next) => {
                acc = next;
            },
            Err(m) => {
                return Err(ParseError::ParsingError(m));
            },
        }
        i = i + 1;
    }
    assert(all.skip(i as int) =~= Seq::<Seq<char>>::empty());
    Ok(acc)
}

/// How the program runs: the interface without arguments, the worker for
/// its switch, and otherwise one sampling with the parsed options.
pub fn run(args: &Vec<String>) -> (r: Result<RunMode, ParseError>)
    ensures
        args@.len() == 0 ==> r == Ok::<RunMode, ParseError>(RunMode::Gui),
        args@.len() == 1 && is_worker_switch(args@[0]@) ==> r == Ok::<RunMode, ParseError>(
            RunMode::Worker,
        ),
        args@.len() > 0 && !(args@.len() == 1 && is_worker_switch(args@[0]@)) ==> match r {
            Ok(RunMode::OneShot(a)) => cli_parse_from(texts(args@), no_options()) == Ok::<
                CliArgs,
                Seq<char>,
            >(a),
            Ok(_) => false,
            Err(e) => cli_parse_from(texts(args@), no_options()) == Err::<CliArgs, Seq<char>>(
                e.message(),
            ),
        },
{
    if !has_cli_args(args) {
        return Ok(RunMode::Gui);
    }
    if is_worker_mode_requested(args) {
        return Ok(RunMode::Worker);
    }
    match parse_args(args) {
        Ok(a) => Ok(RunMode::OneShot(a)),
        Err(e) => Err(e),
    }
}

/// The interface cannot start in this build: the desktop front end is not
/// part of it.
pub fn run_gui_mode() -> (r: Result<(), ParseError>)
    ensures
        match r {
            Ok(_) => false,
            Err(e) => e.message() == "dioxus gui is disabled; run with `--features dioxus-gui`"@,
        },
{
    Err(
        ParseError::ParsingError(
            String::from_str("dioxus gui is disabled; run with `--features dioxus-gui`"),
        ),
    )
}

/// The kind of a worker command and its process filter, for logging.
pub fn command_summary(command: &WorkerCommand) -> (r: (&'static str, Option<u32>))
    ensures
        (r.0@, r.1) == summary_of(*command),
{
    match command {
        WorkerCommand::Sample(args) => if args.show_hierarchy {
            ("hierarchy", None)
        } else if args.show_network {
            ("network", args.pid_filter)
        } else if args.show_threads {
            ("threads", args.pid_filter)
        } else {
            ("cpu", args.pid_filter)
        },
        WorkerCommand::Shutdown => ("shutdown", None),
    }
}

/// Reads a line of the worker: a command (`cpu`, `threads`, `network`,
/// `hierarchy`, `quit` or `exit`) and then `pid=<pid>` or `--pid=<pid>`
/// arguments, the last pid winning. The arguments are checked before the
/// command's name.
pub fn parse_worker_command(input: &str) -> (r: Result<WorkerCommand, ParseError>)
    ensures
        match r {
            Ok(c) => worker_command_of(input@) == Ok::<WorkerCommand, Seq<char>>(c),
            Err(e) => worker_command_of(input@) == Err::<WorkerCommand, Seq<char>>(e.message()),
        },
{
    let w = split_words(input);
    let ghost ws = words(input@);
    proof {
        assert(w@.len() == ws.len());
    }
    if w.len() == 0 {
        return Err(ParseError::ParsingError(String::from_str("empty command")));
    }
    let ghost parts = ws.drop_first();
    let mut pid: Option<u32> = None;
    let mut i: usize = 1;
    assert(ws.skip(1) =~= parts);
    while i < w.len()
        invariant
            w@.len() == ws.len(),
            ws == words(input@),
            parts == ws.drop_first(),
            forall|k: int| 0 <= k < w@.len() ==> #[trigger] w@[k]@ == ws[k],
            1 <= i <= w@.len(),
            worker_pid_from(parts, None) == worker_pid_from(ws.skip(i as int), pid),
        decreases w@.len() - i,
    {
        let part = &w[i];
        proof {
            assert(ws.skip(i as int)[0] == part@);
            assert(ws.skip(i as int).drop_first() =~= ws.skip(i + 1));
        }
        let short = starts_with_str(part, "pid=");
        if short || starts_with_str(part, "--pid=") {
            proof {
                reveal_strlit("pid=");
                reveal_strlit("--pid=");
            }
            let text = if short {
                chars_after(part, 4)
            } else {
                chars_after(part, 6)
            };
            match parse_pid(&text) {
                Ok(p) => {
                    pid = Some(p);
                },
                Err(m) => {
                    return Err(ParseError::ParsingError(m));
                },
            }
        } else {
            let mut out: Vec<char> = Vec::new();
            append_chars(&mut out, "unknown command argument '");
            append_vec(&mut out, part);
            append_chars(&mut out, "'");
            assert(out@ =~= "unknown command argument '"@ + part@ + "'"@);
            return Err(ParseError::ParsingError(string_of(&out)));
        }
        i = i + 1;
    }
    assert(ws.skip(i as int) =~= Seq::<Seq<char>>::empty());
    let base = CliArgs {
        show_threads: false,
        show_network: false,
        show_hierarchy: false,
        pid_filter: pid,
    };
    let name = &w[0];
    assert(name@ == ws[0]);
    if vec_eq_str(name, "cpu") {
        Ok(WorkerCommand::Sample(base))
    } else if vec_eq_str(name, "threads") {
        Ok(WorkerCommand::Sample(CliArgs { show_threads: true, ..base }))
    } else if vec_eq_str(name, "network") {
        Ok(WorkerCommand::Sample(CliArgs { show_network: true, ..base }))
    } else if vec_eq_str(name, "hierarchy") {
        Ok(WorkerCommand::Sample(CliArgs { show_hierarchy: true, ..base }))
    } else if vec_eq_str(name, "quit") || vec_eq_str(name, "exit") {
        Ok(WorkerCommand::Shutdown)
    } else {
        let mut out: Vec<char> = Vec::new();
        append_chars(&mut out, "unknown command '");
        append_vec(&mut out, name);
        append_chars(&mut out, "'. supported: cpu, threads, network, hierarchy, quit");
        assert(out@ =~= "unknown command '"@ + name@
            + "'. supported: cpu, threads, network, hierarchy, quit"@);
        Err(ParseError::ParsingError(string_of(&out)))
    }
}

/// The training options read from the command line. The validation share
/// stays the text it was given in: it is a floating-point number, which the
/// caller reads (it is known to parse) and checks to lie in `[0.1, 0.95]`.
#[derive(Debug, Clone)]
pub struct TrainAnomalyOptions {
    pub csv_paths: Vec<String>,
    pub window: usize,
    pub train_ratio_text: Option<String>,
}

/// The window length when none is given.
pub const DEFAULT_TRAIN_WINDOW: usize = 12;

/// A piece of a comma-separated list: its trimmed text, kept when not empty.
pub open spec fn kept_piece(piece: Seq<char>) -> Seq<Seq<char>> {
    if trim(piece).len() > 0 {
        seq![trim(piece)]
    } else {
        Seq::empty()
    }
}

/// The trimmed, non-empty pieces of `s` split at commas, after the partial piece `cur`.
pub open spec fn csv_items_from(s: Seq<char>, cur: Seq<char>) -> Seq<Seq<char>>
    decreases s.len(),
{
    if s.len() == 0 {
        kept_piece(cur)
    } else if s[0] == ',' {
        kept_piece(cur) + csv_items_from(s.drop_first(), Seq::empty())
    } else {
        csv_items_from(s.drop_first(), cur.push(s[0]))
    }
}

/// The trimmed, non-empty pieces of a comma-separated list.
pub open spec fn csv_items(s: Seq<char>) -> Seq<Seq<char>> {
    csv_items_from(s, Seq::empty())
}

/// The message for a list of paths with no path in it.
pub open spec fn empty_path_list_message() -> Seq<char> {
    "--train-anomaly requires at least one csv path"@
}

/// The paths of a list, or the message when it holds none.
pub open spec fn path_list(s: Seq<char>) -> Result<Seq<Seq<char>>, Seq<char>> {
    if csv_items(s).len() == 0 {
        Err(empty_path_list_message())
    } else {
        Ok(csv_items(s))
    }
}

/// The training options read so far: the paths, the window and the text of
/// the validation share.
pub type TrainScan = (Option<Seq<Seq<char>>>, nat, Option<Seq<char>>);

/// Reads `args` in order after `acc`, or gives the first error.
pub open spec fn train_scan_from(args: Seq<Seq<char>>, acc: TrainScan) -> Result<TrainScan, Seq<char>>
    decreases args.len(),
{
    if args.len() == 0 {
        Ok(acc)
    } else {
        let arg = args[0];
        if arg == "--train-anomaly"@ {
            if args.len() < 2 {
                Err("--train-anomaly expects a comma-separated path list"@)
            } else {
                match path_list(args[1]) {
                    Err(m) => Err(m),
                    Ok(p) => train_scan_from(args.skip(2), (Some(p), acc.1, acc.2)),
                }
            }
        } else if has_prefix(arg, "--train-anomaly="@) {
            match path_list(arg.skip(16)) {
                Err(m) => Err(m),
                Ok(p) => train_scan_from(args.drop_first(), (Some(p), acc.1, acc.2)),
            }
        } else if has_prefix(arg, "--window="@) {
            let text = arg.skip(9);
            match parse_unsigned(text, usize::MAX as nat) {
                Err(k) => Err("invalid --window '"@ + text + "': "@ + int_error_message(k)),
                Ok(w) => train_scan_from(args.drop_first(), (acc.0, w, acc.2)),
            }
        } else if has_prefix(arg, "--train-ratio="@) {
            let text = arg.skip(14);
            match float_text_error(text) {
                Some(e) => Err("invalid --train-ratio '"@ + text + "': "@ + e),
                None => train_scan_from(args.drop_first(), (acc.0, acc.1, Some(text))),
            }
        } else {
            train_scan_from(args.drop_first(), acc)
        }
    }
}

/// What `parse_train_anomaly_options` gives: no training without a path
/// list, the window checked to be at least 2.
pub open spec fn train_options_of(args: Seq<Seq<char>>) -> Result<Option<TrainScan>, Seq<char>> {
    match train_scan_from(args, (None, DEFAULT_TRAIN_WINDOW as nat, None)) {
        Err(m) => Err(m),
        Ok(scan) => match scan.0 {
            None => Ok(None),
            Some(_) => if scan.1 < 2 {
                Err("--window must be >= 2"@)
            } else {
                Ok(Some(scan))
            },
        },
    }
}

/// The trimmed piece `v`, pushed onto `out` when not empty.
fn keep_piece(out: &mut Vec<String>, v: &Vec<char>)
    ensures
        final(out)@.len() == old(out)@.len() + kept_piece(v@).len(),
        forall|k: int| 0 <= k < old(out)@.len() ==> #[trigger] final(out)@[k] == old(out)@[k],
        forall|k: int|
            0 <= k < kept_piece(v@).len() ==> #[trigger] final(out)@[old(out)@.len() + k]@
                == kept_piece(v@)[k],
{
    let (a, b) = trim_bounds(v);
    if a < b {
        let t = string_of_range(v, a, b);
        out.push(t);
    }
}

/// The trimmed, non-empty pieces of a comma-separated list.
fn split_csv(s: &Vec<char>) -> (r: Vec<String>)
    ensures
        r@.len() == csv_items(s@).len(),
        forall|k: int| 0 <= k < r@.len() ==> #[trigger] r@[k]@ == csv_items(s@)[k],
{
    let mut out: Vec<String> = Vec::new();
    let mut cur: Vec<char> = Vec::new();
    let ghost mut done: Seq<Seq<char>> = Seq::empty();
    let mut i: usize = 0;
    assert(s@.skip(0) =~= s@);
    while i < s.len()
        invariant
            i <= s@.len(),
            out@.len() == done.len(),
            forall|k: int| 0 <= k < out@.len() ==> #[trigger] out@[k]@ == done[k],
            done + csv_items_from(s@.skip(i as int), cur@) == csv_items(s@),
        decreases s.len() - i,
    {
        let ch = s[i];
        proof {
            assert(s@.skip(i as int).drop_first() =~= s@.skip(i + 1));
            assert(s@.skip(i as int)[0] == ch);
        }
        if ch == ',' {
            let ghost before = out@;
            keep_piece(&mut out, &cur);
            proof {
                assert forall|k: int| 0 <= k < out@.len() implies #[trigger] out@[k]@ == (done
                    + kept_piece(cur@))[k] by {
                    if k >= before.len() {
                        assert(out@[before.len() + (k - before.len())]@ == kept_piece(cur@)[k
                            - before.len()]);
                    }
                }
                assert(done + kept_piece(cur@) + csv_items_from(s@.skip(i + 1), Seq::empty())
                    =~= done + (kept_piece(cur@) + csv_items_from(s@.skip(i + 1), Seq::empty())));
                done = done + kept_piece(cur@);
            }
            cur = Vec::new();
            assert(cur@ =~= Seq::<char>::empty());
        } else {
            cur.push(ch);
        }
        i = i + 1;
    }
    assert(s@.skip(i as int) =~= Seq::<char>::empty());
    let ghost before = out@;
    keep_piece(&mut out, &cur);
    proof {
        assert forall|k: int| 0 <= k < out@.len() implies #[trigger] out@[k]@ == (done
            + kept_piece(cur@))[k] by {
            if k >= before.len() {
                assert(out@[before.len() + (k - before.len())]@ == kept_piece(cur@)[k
                    - before.len()]);
            }
        }
        done = done + kept_piece(cur@);
    }
    assert(done == csv_items(s@));
    out
}

/// The paths of a list, or the message when it holds none.
fn parse_path_list(s: &Vec<char>) -> (r: Result<Vec<String>, String>)
    ensures
        match r {
            Ok(v) => path_list(s@) is Ok && v@.len() == path_list(s@)->Ok_0.len() && forall|
                k: int,
            |
                0 <= k < v@.len() ==> #[trigger] v@[k]@ == path_list(s@)->Ok_0[k],
            Err(m) => path_list(s@) == Err::<Seq<Seq<char>>, Seq<char>>(m@),
        },
{
    let v = split_csv(s);
    if v.len() == 0 {
        return Err(String::from_str("--train-anomaly requires at least one csv path"));
    }
    Ok(v)
}

/// The texts of a vector of strings.
pub open spec fn string_texts(v: Seq<String>) -> Seq<Seq<char>> {
    v.map_values(|a: String| a@)
}

/// Reads the model-training options: `--train-anomaly <list>` or
/// `--train-anomaly=<list>` (comma-separated csv paths, trimmed, empty ones
/// dropped), `--window=<n>` and `--train-ratio=<x>`; other arguments are
/// ignored and the last of each option wins. No path list means no training.
pub fn parse_train_anomaly_options(args: &Vec<String>) -> (r: Result<
    Option<TrainAnomalyOptions>,
    ParseError,
>)
    ensures
        match r {
            Ok(None) => train_options_of(texts(args@)) == Ok::<Option<TrainScan>, Seq<char>>(
                None,
            ),
            Ok(Some(o)) => train_options_of(texts(args@)) == Ok::<Option<TrainScan>, Seq<char>>(
                Some(
                    (
                        Some(string_texts(o.csv_paths@)),
                        o.window as nat,
                        match o.train_ratio_text {
                            Some(t) => Some(t@),
                            None => None,
                        },
                    ),
                ),
            ),
            Err(e) => train_options_of(texts(args@)) == Err::<Option<TrainScan>, Seq<char>>(
                e.message(),
            ),
        },
{
    let ghost all = texts(args@);
    let mut csv_paths: Option<Vec<String>> = None;
    let mut window: usize = DEFAULT_TRAIN_WINDOW;
    let mut ratio: Option<String> = None;
    let ghost mut acc: TrainScan = (None, DEFAULT_TRAIN_WINDOW as nat, None);
    let mut i: usize = 0;
    assert(all.skip(0) =~= all);
    while i < args.len()
        invariant
            all == texts(args@),
            i <= args@.len(),
            train_scan_from(all, (None, DEFAULT_TRAIN_WINDOW as nat, None)) == train_scan_from(
                all.skip(i as int),
                acc,
            ),
            acc.0 == match csv_paths {
                Some(p) => Some(string_texts(p@)),
                None => None::<Seq<Seq<char>>>,
            },
            acc.1 == window as nat,
            acc.2 == match ratio {
                Some(t) => Some(t@),
                None => None::<Seq<char>>,
            },
        decreases args@.len() - i,
    {
        let a = chars_of(args[i].as_str());
        let ghost rest = all.skip(i as int);
        proof {
            assert(rest[0] == a@);
            assert(rest.drop_first() =~= all.skip(i + 1));
        }
        if vec_eq_str(&a, "--train-anomaly") {
            if i + 1 >= args.len() {
                return Err(
                    ParseError::ParsingError(
                        String::from_str("--train-anomaly expects a comma-separated path list"),
                    ),
                );
            }
            let next = chars_of(args[i + 1].as_str());
            proof {
                assert(rest[1] == next@);
                assert(rest.skip(2) =~= all.skip(i + 2));
            }
            match parse_path_list(&next) {
                Ok(p) => {
                    proof {
                        assert(string_texts(p@) =~= path_list(next@)->Ok_0);
                        acc = (Some(string_texts(p@)), acc.1, acc.2);
                    }
                    csv_paths = Some(p);
                },
                Err(m) => {
                    return Err(ParseError::ParsingError(m));
                },
            }
            i = i + 2;
        } else {
            if starts_with_str(&a, "--train-anomaly=") {
                proof {
                    reveal_strlit("--train-anomaly=");
                }
                let value = chars_after(&a, 16);
                match parse_path_list(&value) {
                    Ok(p) => {
                        proof {
                            assert(string_texts(p@) =~= path_list(value@)->Ok_0);
                            acc = (Some(string_texts(p@)), acc.1, acc.2);
                        }
                        csv_paths = Some(p);
                    },
                    Err(m) => {
                        return Err(ParseError::ParsingError(m));
                    },
                }
            } else if starts_with_str(&a, "--window=") {
                proof {
                    reveal_strlit("--window=");
                }
                let value = chars_after(&a, 9);
                match parse_unsigned_chars(&value, usize::MAX as u64) {
                    Ok(w) => {
                        window = w as usize;
                        proof {
                            acc = (acc.0, w as nat, acc.2);
                        }
                    },
                    Err(k) => {
                        let mut out: Vec<char> = Vec::new();
                        append_chars(&mut out, "invalid --window '");
                        append_vec(&mut out, &value);
                        append_chars(&mut out, "': ");
                        append_chars(&mut out, int_error_text(k));
                        assert(out@ =~= "invalid --window '"@ + value@ + "': "@
                            + int_error_message(k));
                        return Err(ParseError::ParsingError(string_of(&out)));
                    },
                }
            } else if starts_with_str(&a, "--train-ratio=") {
                proof {
                    reveal_strlit("--train-ratio=");
                }
                let value = chars_after(&a, 14);
                let text = string_of(&value);
                match float_text_check(text.as_str()) {
                    None => {
                        ratio = Some(text);
                        proof {
                            acc = (acc.0, acc.1, Some(value@));
                        }
                    },
                    Some(e) => {
                        let mut out: Vec<char> = Vec::new();
                        append_chars(&mut out, "invalid --train-ratio '");
                        append_vec(&mut out, &value);
                        append_chars(&mut out, "': ");
                        append_chars(&mut out, e.as_str());
                        assert(out@ =~= "invalid --train-ratio '"@ + value@ + "': "@ + e@);
                        return Err(ParseError::ParsingError(string_of(&out)));
                    },
                }
            }
            i = i + 1;
        }
    }
    assert(all.skip(i as int) =~= Seq::<Seq<char>>::empty());
    match csv_paths {
        None => Ok(None),
        Some(p) => {
            if window < 2 {
                return Err(ParseError::ParsingError(String::from_str("--window must be >= 2")));
            }
            Ok(Some(TrainAnomalyOptions { csv_paths: p, window, train_ratio_text: ratio }))
        },
    }
}

} // verus!
