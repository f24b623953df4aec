use vstd::prelude::*;

verus! {

/// Parsed command-line arguments for a normal `wherefrom` invocation.
///
/// Every file operand arrives as a `String` command-line argument, so the
/// operands are kept as the strings they were given as.
#[derive(Debug, PartialEq, Eq)]
pub struct CliArgs {
    /// Whether all recorded origins should be printed.
    pub all: bool,
    /// Whether output should be NUL-delimited for machine parsing.
    pub print0: bool,
    /// Whether output should be JSON Lines for machine parsing.
    pub jsonl: bool,
    /// Input files to inspect.
    pub files: Vec<String>,
}

/// High-level result of parsing the command line.
#[derive(Debug, PartialEq, Eq)]
pub enum ParseOutcome {
    /// Continue with a normal run.
    Run(CliArgs),
    /// Print help text and exit successfully.
    Help,
    /// Print version text and exit successfully.
    Version,
}

/// What a successful parse means, over mathematical strings.
pub enum Invocation {
    Run { all: bool, print0: bool, jsonl: bool, files: Seq<Seq<char>> },
    Help,
    Version,
}

/// The characters of each string of a vector, in order.
pub open spec fn texts(v: Seq<String>) -> Seq<Seq<char>> {
    v.map_values(|s: String| s@)
}

impl CliArgs {
    /// The file operands as character sequences.
    pub open spec fn file_texts(&self) -> Seq<Seq<char>> {
        texts(self.files@)
    }
}

impl View for ParseOutcome {
    type V = Invocation;

    open spec fn view(&self) -> Invocation {
        match self {
            ParseOutcome::Run(a) => Invocation::Run {
                all: a.all,
                print0: a.print0,
                jsonl: a.jsonl,
                files: a.file_texts(),
            },
            ParseOutcome::Help => Invocation::Help,
            ParseOutcome::Version => Invocation::Version,
        }
    }
}

/// The mathematical meaning of what `parse_args` returns.
pub open spec fn outcome_meaning(r: Result<ParseOutcome, String>) -> Result<Invocation, Seq<char>> {
    match r {
        Ok(o) => Ok(o@),
        Err(e) => Err(e@),
    }
}

/// The state of a left-to-right scan of the command line.
pub struct ScanState {
    pub all: bool,
    pub print0: bool,
    pub jsonl: bool,
    pub files: Seq<Seq<char>>,
    /// Whether arguments are still read as options (no `--` seen yet).
    pub options: bool,
}

/// What one argument does to the scan: go on with a new state, or end it.
pub enum Step {
    Next(ScanState),
    Stop(Result<Invocation, Seq<char>>),
}

pub open spec fn initial_state() -> ScanState {
    ScanState { all: false, print0: false, jsonl: false, files: Seq::empty(), options: true }
}

pub open spec fn with_file(st: ScanState, arg: Seq<char>) -> ScanState {
    ScanState { all: st.all, print0: st.print0, jsonl: st.jsonl, files: st.files.push(arg), options: st.options }
}

/// Whether an argument looks like an option: it begins with `-`.
pub open spec fn looks_like_option(arg: Seq<char>) -> bool {
    arg.len() > 0 && arg[0] == '-'
}

/// The error text for an option that is not recognized.
pub open spec fn unrecognized_message(arg: Seq<char>) -> Seq<char> {
    "wherefrom: unrecognized option '"@ + arg + "'"@
}

/// The error text when no file operand is given.
pub open spec fn missing_operand_message() -> Seq<char> {
    "wherefrom: missing file operand"@
}

/// The error text when both machine formats are asked for.
pub open spec fn conflict_message() -> Seq<char> {
    "wherefrom: options '--print0' and '--jsonl' are mutually exclusive"@
}

/// The effect of one argument on the scan.
pub open spec fn step(st: ScanState, arg: Seq<char>) -> Step {
    if !st.options {
        Step::Next(with_file(st, arg))
    } else if arg == "--"@ {
        Step::Next(ScanState { all: st.all, print0: st.print0, jsonl: st.jsonl, files: st.files, options: false })
    } else if arg == "--version"@ || arg == "-v"@ {
        Step::Stop(Ok(Invocation::Version))
    } else if arg == "--help"@ || arg == "-h"@ {
        Step::Stop(Ok(Invocation::Help))
    } else if arg == "--all"@ || arg == "-a"@ {
        Step::Next(ScanState { all: true, print0: st.print0, jsonl: st.jsonl, files: st.files, options: true })
    } else if arg == "--print0"@ {
        Step::Next(ScanState { all: st.all, print0: true, jsonl: st.jsonl, files: st.files, options: true })
    } else if arg == "--jsonl"@ {
        Step::Next(ScanState { all: st.all, print0: st.print0, jsonl: true, files: st.files, options: true })
    } else if looks_like_option(arg) {
        Step::Stop(Err(unrecognized_message(arg)))
    } else {
        Step::Next(with_file(st, arg))
    }
}

/// The result once every argument has been read.
pub open spec fn finish(st: ScanState) -> Result<Invocation, Seq<char>> {
    if st.files.len() == 0 {
        Err(missing_operand_message())
    } else if st.print0 && st.jsonl {
        Err(conflict_message())
    } else {
        Ok(Invocation::Run { all: st.all, print0: st.print0, jsonl: st.jsonl, files: st.files })
    }
}

/// The result of reading `args` from the state `st`.
pub open spec fn scan(args: Seq<Seq<char>>, st: ScanState) -> Result<Invocation, Seq<char>>
    decreases args.len(),
{
    if args.len() == 0 {
        finish(st)
    } else {
        match step(st, args[0]) {
            Step::Stop(r) => r,
            Step::Next(next) => scan(args.drop_first(), next),
        }
    }
}

/// What the command line `args` means.
pub open spec fn parse_spec(args: Seq<Seq<char>>) -> Result<Invocation, Seq<char>> {
    scan(args, initial_state())
}

/// Whether `arg` holds exactly the characters of `text`.
fn is_text(arg: &String, text: &str) -> (b: bool)
    ensures
        b == (arg@ == text@),
{
    *arg == text.to_owned()
}

/// Parses `wherefrom` command-line arguments.
///
/// Supports `-a`/`--all`, `--print0`, `--jsonl`, `-h`/`--help`,
/// `-v`/`--version`, and `--` to stop option parsing.
///
/// Returns an error string formatted for direct display on stderr when parsing
/// fails.
pub fn parse_args(args: Vec<String>) -> (r: Result<ParseOutcome, String>)
    ensures
        outcome_meaning(r) == parse_spec(texts(args@)),
{
    let ghost argv = texts(args@);
    let mut all = false;
    let mut print0 = false;
    let mut jsonl = false;
    let mut files: Vec<String> = Vec::new();
    let mut parsing_options = true;
    let mut i: usize = 0;
    proof {
        assert(argv.skip(0) =~= argv);
        assert(texts(files@) =~= Seq::<Seq<char>>::empty());
    }

    while i < args.len()
        invariant
            0 <= i <= args.len(),
            argv == texts(args@),
            scan(
                argv.skip(i as int),
                ScanState { all, print0, jsonl, files: texts(files@), options: parsing_options },
            ) == parse_spec(argv),
        decreases args.len() - i,
    {
        let arg = &args[i];
        let ghost st = ScanState { all, print0, jsonl, files: texts(files@), options: parsing_options };
        proof {
            assert(argv.skip(i as int)[0] == arg@);
            assert(argv.skip(i as int).drop_first() =~= argv.skip(i + 1));
        }
        if parsing_options {
            if is_text(arg, "--") {
                parsing_options = false;
                i += 1;
                continue;
            }
            if is_text(arg, "--version") || is_text(arg, "-v") {
                return Ok(ParseOutcome::Version);
            }
            if is_text(arg, "--help") || is_text(arg, "-h") {
                return Ok(ParseOutcome::Help);
            }
            if is_text(arg, "--all") || is_text(arg, "-a") {
                all = true;
                i += 1;
                continue;
            }
            if is_text(arg, "--print0") {
                print0 = true;
                i += 1;
                continue;
            }
            if is_text(arg, "--jsonl") {
                jsonl = true;
                i += 1;
                continue;
            }
            if !arg.as_str().is_empty() && arg.as_str().get_char(0) == '-' {
                let mut message = "wherefrom: unrecognized option '".to_owned();
                message.append(arg.as_str());
                message.append("'");
                return Err(message);
            }
        }
        files.push(arg.clone());
        proof {
            assert(texts(files@) =~= st.files.push(arg@));
        }
        i += 1;
    }
    proof {
        assert(argv.skip(i as int) =~= Seq::<Seq<char>>::empty());
    }

    if files.len() == 0 {
        return Err("wherefrom: missing file operand".to_owned());
    }
    if print0 && jsonl {
        return Err("wherefrom: options '--print0' and '--jsonl' are mutually exclusive".to_owned());
    }
    let ghost file_texts = texts(files@);
    let parsed = CliArgs { all, print0, jsonl, files };
    assert(parsed.file_texts() == file_texts);
    Ok(ParseOutcome::Run(parsed))
}

/// Reading `seq![arg] + rest` takes one step on `arg`, then reads `rest`.
proof fn lemma_scan_cons(arg: Seq<char>, rest: Seq<Seq<char>>, st: ScanState)
    ensures
        scan(seq![arg] + rest, st) == match step(st, arg) {
            Step::Stop(r) => r,
            Step::Next(next) => scan(rest, next),
        },
{
    assert((seq![arg] + rest)[0] == arg);
    assert((seq![arg] + rest).drop_first() =~= rest);
}

/// The option words that the scan recognizes, as the literals are written.
proof fn lemma_option_words()
    ensures
        "--"@ =~= seq!['-', '-'],
        "--version"@ =~= seq!['-', '-', 'v', 'e', 'r', 's', 'i', 'o', 'n'],
        "-v"@ =~= seq!['-', 'v'],
        "--help"@ =~= seq!['-', '-', 'h', 'e', 'l', 'p'],
        "-h"@ =~= seq!['-', 'h'],
        "--all"@ =~= seq!['-', '-', 'a', 'l', 'l'],
        "-a"@ =~= seq!['-', 'a'],
        "--print0"@ =~= seq!['-', '-', 'p', 'r', 'i', 'n', 't', '0'],
        "--jsonl"@ =~= seq!['-', '-', 'j', 's', 'o', 'n', 'l'],
{
    reveal_strlit("--");
    reveal_strlit("--version");
    reveal_strlit("-v");
    reveal_strlit("--help");
    reveal_strlit("-h");
    reveal_strlit("--all");
    reveal_strlit("-a");
    reveal_strlit("--print0");
    reveal_strlit("--jsonl");
}

/// Operands that cannot be options are collected in order: reading them
/// adds them to the file operands and changes nothing else.
proof fn lemma_scan_operands(args: Seq<Seq<char>>, st: ScanState)
    requires
        st.options ==> forall|k: int| 0 <= k < args.len() ==> !looks_like_option(#[trigger] args[k]),
    ensures
        scan(args, st) == finish(
            ScanState { all: st.all, print0: st.print0, jsonl: st.jsonl, files: st.files + args, options: st.options },
        ),
    decreases args.len(),
{
    if args.len() == 0 {
        assert(st.files + args =~= st.files);
    } else {
        lemma_option_words();
        let a = args[0];
        if st.options {
            assert(!looks_like_option(a));
        }
        assert(step(st, a) == Step::Next(with_file(st, a)));
        lemma_scan_operands(args.drop_first(), with_file(st, a));
        assert(st.files.push(a) + args.drop_first() =~= st.files + args);
    }
}

/// Law: everything after `--` is a file operand, whatever it looks like:
/// from any state in which options are still read, `--` followed by `after`
/// adds `after` to the file operands and nothing else.
pub proof fn law_operands_after_separator(after: Seq<Seq<char>>, st: ScanState)
    requires
        st.options,
    ensures
        scan(seq!["--"@] + after, st) == finish(
            ScanState { all: st.all, print0: st.print0, jsonl: st.jsonl, files: st.files + after, options: false },
        ),
{
    lemma_option_words();
    lemma_scan_cons("--"@, after, st);
    let next = ScanState { all: st.all, print0: st.print0, jsonl: st.jsonl, files: st.files, options: false };
    lemma_scan_operands(after, next);
}

/// Law: a command line of plain operands (none begins with `-`) asks for a
/// human-readable run over exactly those files, in order; an empty one is
/// refused for its missing operand.
pub proof fn law_plain_operands(args: Seq<Seq<char>>)
    requires
        forall|k: int| 0 <= k < args.len() ==> !looks_like_option(#[trigger] args[k]),
    ensures
        args.len() == 0 ==> parse_spec(args) == Err::<Invocation, Seq<char>>(missing_operand_message()),
        args.len() > 0 ==> parse_spec(args) == Ok::<Invocation, Seq<char>>(
            Invocation::Run { all: false, print0: false, jsonl: false, files: args },
        ),
{
    lemma_scan_operands(args, initial_state());
    assert(Seq::<Seq<char>>::empty() + args =~= args);
}

/// Law: a leading help flag asks for help, whatever follows it.
pub proof fn law_help_first(flag: Seq<char>, rest: Seq<Seq<char>>)
    requires
        flag == "--help"@ || flag == "-h"@,
    ensures
        parse_spec(seq![flag] + rest) == Ok::<Invocation, Seq<char>>(Invocation::Help),
{
    lemma_option_words();
    lemma_scan_cons(flag, rest, initial_state());
}

/// Law: a leading version flag asks for the version, whatever follows it.
pub proof fn law_version_first(flag: Seq<char>, rest: Seq<Seq<char>>)
    requires
        flag == "--version"@ || flag == "-v"@,
    ensures
        parse_spec(seq![flag] + rest) == Ok::<Invocation, Seq<char>>(Invocation::Version),
{
    lemma_option_words();
    lemma_scan_cons(flag, rest, initial_state());
}

/// Whether a scan result is a run with at least one file and at most one
/// machine format.
pub open spec fn well_formed_run(r: Result<Invocation, Seq<char>>) -> bool {
    r matches Ok(Invocation::Run { print0, jsonl, files, .. }) ==> files.len() > 0 && !(print0 && jsonl)
}

proof fn lemma_scan_well_formed(args: Seq<Seq<char>>, st: ScanState)
    ensures
        well_formed_run(scan(args, st)),
    decreases args.len(),
{
    if args.len() > 0 {
        match step(st, args[0]) {
            Step::Stop(r) => {},
            Step::Next(next) => lemma_scan_well_formed(args.drop_first(), next),
        }
    }
}

/// Law: a run that parsing accepts always has a file operand and never both
/// `--print0` and `--jsonl`.
pub proof fn law_run_well_formed(args: Seq<Seq<char>>)
    ensures
        well_formed_run(parse_spec(args)),
{
    lemma_scan_well_formed(args, initial_state());
}

/// The command line that asks for a run: its flags, `--`, then the files.
pub open spec fn command_line(all: bool, print0: bool, jsonl: bool, files: Seq<Seq<char>>) -> Seq<Seq<char>> {
    (if all { seq!["--all"@] } else { Seq::empty() })
        + (if print0 { seq!["--print0"@] } else { Seq::empty() })
        + (if jsonl { seq!["--jsonl"@] } else { Seq::empty() })
        + seq!["--"@]
        + files
}

/// Law: every run that parsing can produce is produced again by parsing the
/// command line that spells it out, whatever the file names look like.
pub proof fn law_command_line_round_trip(all: bool, print0: bool, jsonl: bool, files: Seq<Seq<char>>)
    requires
        files.len() > 0,
        !(print0 && jsonl),
    ensures
        parse_spec(command_line(all, print0, jsonl, files)) == Ok::<Invocation, Seq<char>>(
            Invocation::Run { all, print0, jsonl, files },
        ),
{
    lemma_option_words();
    let tail = seq!["--"@] + files;
    let st0 = initial_state();
    let st1 = ScanState { all, print0: false, jsonl: false, files: Seq::empty(), options: true };
    let st2 = ScanState { all, print0, jsonl: false, files: Seq::empty(), options: true };
    let st3 = ScanState { all, print0, jsonl, files: Seq::empty(), options: true };
    let st4 = ScanState { all, print0, jsonl, files: Seq::empty(), options: false };
    let t2 = (if jsonl { seq!["--jsonl"@] } else { Seq::empty() }) + tail;
    let t1 = (if print0 { seq!["--print0"@] } else { Seq::empty() }) + t2;
    let t0 = (if all { seq!["--all"@] } else { Seq::empty() }) + t1;
    assert(command_line(all, print0, jsonl, files) =~= t0);
    if all {
        lemma_scan_cons("--all"@, t1, st0);
    } else {
        assert(t0 =~= t1);
    }
    assert(scan(t0, st0) == scan(t1, st1));
    if print0 {
        lemma_scan_cons("--print0"@, t2, st1);
    } else {
        assert(t1 =~= t2);
    }
    assert(scan(t1, st1) == scan(t2, st2));
    if jsonl {
        lemma_scan_cons("--jsonl"@, tail, st2);
    } else {
        assert(t2 =~= tail);
    }
    assert(scan(t2, st2) == scan(tail, st3));
    lemma_scan_cons("--"@, files, st3);
    lemma_scan_operands(files, st4);
    assert(Seq::<Seq<char>>::empty() + files =~= files);
}

/// Whether `arg` is one of the flags that shape a run: `--all`, `-a`,
/// `--print0`, `--jsonl`.
pub open spec fn is_run_flag(arg: Seq<char>) -> bool {
    arg == "--all"@ || arg == "-a"@ || arg == "--print0"@ || arg == "--jsonl"@
}

/// The words of `args` that are not run flags, in order.
pub open spec fn operand_words(args: Seq<Seq<char>>) -> Seq<Seq<char>>
    decreases args.len(),
{
    if args.len() == 0 {
        Seq::empty()
    } else {
        (if is_run_flag(args[0]) { Seq::empty() } else { seq![args[0]] }) + operand_words(args.drop_first())
    }
}

/// Reading run flags and plain words sets each flag that occurs, whatever
/// its position, and collects the plain words as file operands.
proof fn lemma_scan_flags_and_operands(args: Seq<Seq<char>>, st: ScanState)
    requires
        st.options,
        forall|k: int| 0 <= k < args.len() ==> is_run_flag(#[trigger] args[k]) || !looks_like_option(args[k]),
    ensures
        scan(args, st) == finish(
            ScanState {
                all: st.all || args.contains("--all"@) || args.contains("-a"@),
                print0: st.print0 || args.contains("--print0"@),
                jsonl: st.jsonl || args.contains("--jsonl"@),
                files: st.files + operand_words(args),
                options: true,
            },
        ),
    decreases args.len(),
{
    lemma_option_words();
    if args.len() == 0 {
        assert(st.files + operand_words(args) =~= st.files);
        assert(!args.contains("--all"@) && !args.contains("-a"@));
        assert(!args.contains("--print0"@) && !args.contains("--jsonl"@));
    } else {
        let a = args[0];
        let rest = args.drop_first();
        assert(is_run_flag(a) || !looks_like_option(a));
        assert forall|k: int| 0 <= k < rest.len() implies is_run_flag(#[trigger] rest[k]) || !looks_like_option(rest[k]) by {
            assert(rest[k] == args[k + 1]);
        }
        assert forall|w: Seq<char>| args.contains(w) <==> (a == w || rest.contains(w)) by {
            if args.contains(w) {
                let k = choose|k: int| 0 <= k < args.len() && args[k] == w;
                if k > 0 {
                    assert(rest[k - 1] == w);
                }
            }
            if rest.contains(w) {
                let k = choose|k: int| 0 <= k < rest.len() && rest[k] == w;
                assert(args[k + 1] == w);
            }
            if a == w {
                assert(args[0] == w);
            }
        }
        let next = match step(st, a) {
            Step::Next(n) => n,
            Step::Stop(_) => st,
        };
        assert(step(st, a) is Next);
        lemma_scan_flags_and_operands(rest, next);
        if is_run_flag(a) {
            assert(operand_words(args) =~= operand_words(rest));
        } else {
            assert(next.files =~= st.files.push(a));
            assert(st.files + operand_words(args) =~= next.files + operand_words(rest));
        }
    }
}

/// Law: on a command line made of run flags and plain words (no word other
/// than a run flag begins with `-`), each flag holds exactly when it occurs,
/// wherever it stands, `-a` meaning the same as `--all`, and the file
/// operands are the plain words in order.
pub proof fn law_flags_and_operands(args: Seq<Seq<char>>)
    requires
        forall|k: int| 0 <= k < args.len() ==> is_run_flag(#[trigger] args[k]) || !looks_like_option(args[k]),
    ensures
        ({
            let all = args.contains("--all"@) || args.contains("-a"@);
            let print0 = args.contains("--print0"@);
            let jsonl = args.contains("--jsonl"@);
            let files = operand_words(args);
            &&& files.len() == 0 ==> parse_spec(args) == Err::<Invocation, Seq<char>>(
                "wherefrom: missing file operand"@,
            )
            &&& files.len() > 0 && print0 && jsonl ==> parse_spec(args) == Err::<Invocation, Seq<char>>(
                "wherefrom: options '--print0' and '--jsonl' are mutually exclusive"@,
            )
            &&& files.len() > 0 && !(print0 && jsonl) ==> parse_spec(args) == Ok::<Invocation, Seq<char>>(
                Invocation::Run { all, print0, jsonl, files },
            )
        }),
{
    lemma_scan_flags_and_operands(args, initial_state());
    assert(Seq::<Seq<char>>::empty() + operand_words(args) =~= operand_words(args));
}

/// Law: two leading run flags may be given in either order, whatever follows.
pub proof fn law_run_flags_commute(x: Seq<char>, y: Seq<char>, rest: Seq<Seq<char>>)
    requires
        is_run_flag(x),
        is_run_flag(y),
    ensures
        parse_spec(seq![x, y] + rest) == parse_spec(seq![y, x] + rest),
{
    lemma_option_words();
    let st = initial_state();
    lemma_scan_cons(x, seq![y] + rest, st);
    lemma_scan_cons(y, seq![x] + rest, st);
    assert(seq![x, y] + rest =~= seq![x] + (seq![y] + rest));
    assert(seq![y, x] + rest =~= seq![y] + (seq![x] + rest));
    let sx = match step(st, x) { Step::Next(n) => n, Step::Stop(_) => st };
    let sy = match step(st, y) { Step::Next(n) => n, Step::Stop(_) => st };
    lemma_scan_cons(y, rest, sx);
    lemma_scan_cons(x, rest, sy);
    let sxy = match step(sx, y) { Step::Next(n) => n, Step::Stop(_) => st };
    let syx = match step(sy, x) { Step::Next(n) => n, Step::Stop(_) => st };
    assert(sxy == syx);
}

/// Law: while options are read, `-a` does exactly what `--all` does, in every
/// state of the scan, and `--all` sets `all` and nothing else.
pub proof fn law_short_all_is_all(st: ScanState)
    requires
        st.options,
    ensures
        step(st, "-a"@) == step(st, "--all"@),
        step(st, "--all"@) == Step::Next(
            ScanState { all: true, print0: st.print0, jsonl: st.jsonl, files: st.files, options: true },
        ),
{
    lemma_option_words();
}

} // verus!
