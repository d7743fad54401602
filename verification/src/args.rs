//! The command line.

use crate::number::{self, read_uint};
use crate::text::same_text;
use vstd::prelude::*;
use vstd::string::*;

verus! {

/// The general help, after the program's name and version.
pub const USAGE: &'static str = " - operator tools for skeg

USAGE:
    skeg-cli <COMMAND> [OPTIONS]

COMMANDS:
    build      Build a Vamana index offline from a vector dataset.
    inspect    Walk a data directory and report VINDEXes and sizes.
    stats      Fetch SKEG.STATS / SKEG.SHARDS / SKEG.VINDEX.LIST from a
               running skeg-resp3 server.

GLOBAL OPTIONS:
    -h, --help     Print this help.
    -V, --version  Print the version.

Run 'skeg-cli <COMMAND> --help' for command-specific options.
";

/// The help on `build`.
pub const BUILD_USAGE: &'static str = "skeg-cli build - offline Vamana index builder

USAGE:
    skeg-cli build --input <FILE> --output <DIR> [OPTIONS]

Reads a vector dataset, constructs a Vamana graph once, and writes a
ready-to-serve skeg data directory. Serve it with:

    skeg --mode serve --data-dir <DIR>
    skeg-resp3 --mode serve --data-dir <DIR>

OPTIONS:
    --input  <FILE>   Dataset: .npy (NumPy f32) or .fbin ([u32 n][u32 dim][f32])
    --output <DIR>    Output data directory (created if missing)
    --name   <NAME>   VINDEX name [default: default]
    --r      <R>      Max graph out-degree [default: 64]
    --l      <L>      Query-time search-list size [default: 100]
";

/// The help on `inspect`.
pub const INSPECT_USAGE: &'static str = "skeg-cli inspect - offline introspection of a data directory

USAGE:
    skeg-cli inspect <DATA-DIR>

Walks <DATA-DIR>, enumerates every shard-<N>/ subdirectory, lists the
VINDEXes registered in each, and prints their dim, vector count, and
on-disk sizes. The server does not need to be running.
";

/// The help on `stats`.
pub const STATS_USAGE: &'static str = "skeg-cli stats - fetch live stats from a running server

USAGE:
    skeg-cli stats <HOST:PORT>

Connects over RESP3 to <HOST:PORT> (default skeg-resp3 port is 6379),
runs HELLO 3, SKEG.STATS, SKEG.SHARDS, and SKEG.VINDEX.LIST, and prints
the aggregated result. Read-only; the connection is closed before exit.
";

/// Max graph out-degree, unless `--r` gives another.
pub const DEFAULT_R: usize = 64;

/// Query-time search-list size, unless `--l` gives another.
pub const DEFAULT_L_SEARCH: usize = 100;

/// What `build` is asked to do.
#[derive(Debug)]
pub struct BuildArgs {
    pub input: String,
    pub output: String,
    pub name: String,
    /// Max graph out-degree, if it is given.
    pub r: Option<usize>,
    /// Query-time search-list size, if it is given.
    pub l_search: Option<usize>,
}

/// What the program is asked to do.
#[derive(Debug)]
pub enum Command {
    Help,
    Version,
    Build(BuildArgs),
    BuildHelp,
    /// Inspect this data directory.
    Inspect(String),
    InspectHelp,
    /// Fetch the counters of the server at this address.
    Stats(String),
    StatsHelp,
}

/// What is wrong with a command line.
#[derive(Debug)]
pub enum ArgError {
    UnknownCommand(String),
    MissingValue(String),
    UnknownFlag(String),
    NotAnInteger { flag: String, value: String },
    NoInput,
    NoOutput,
    EmptyName,
    NoDataDir,
    NoAddress,
}

/// The options of `build` as far as they have been read.
#[derive(Debug)]
struct BuildOptions {
    input: Option<String>,
    output: Option<String>,
    name: String,
    r: Option<usize>,
    l_search: Option<usize>,
}

/// What a [`BuildArgs`] holds.
#[verifier::ext_equal]
pub struct BuildArgsView {
    pub input: Seq<char>,
    pub output: Seq<char>,
    pub name: Seq<char>,
    pub r: Option<usize>,
    pub l_search: Option<usize>,
}

/// What a [`Command`] holds.
#[verifier::ext_equal]
pub enum CommandView {
    Help,
    Version,
    Build(BuildArgsView),
    BuildHelp,
    Inspect(Seq<char>),
    InspectHelp,
    Stats(Seq<char>),
    StatsHelp,
}

/// What an [`ArgError`] holds.
#[verifier::ext_equal]
pub enum ArgErrorView {
    UnknownCommand(Seq<char>),
    MissingValue(Seq<char>),
    UnknownFlag(Seq<char>),
    NotAnInteger { flag: Seq<char>, value: Seq<char> },
    NoInput,
    NoOutput,
    EmptyName,
    NoDataDir,
    NoAddress,
}

/// The options of `build` as far as they have been read.
#[verifier::ext_equal]
pub struct OptionsView {
    pub input: Option<Seq<char>>,
    pub output: Option<Seq<char>>,
    pub name: Seq<char>,
    pub r: Option<usize>,
    pub l_search: Option<usize>,
}

impl View for BuildArgs {
    type V = BuildArgsView;

    open spec fn view(&self) -> BuildArgsView {
        BuildArgsView {
            input: self.input@,
            output: self.output@,
            name: self.name@,
            r: self.r,
            l_search: self.l_search,
        }
    }
}

impl View for Command {
    type V = CommandView;

    open spec fn view(&self) -> CommandView {
        match *self {
            Command::Help => CommandView::Help,
            Command::Version => CommandView::Version,
            Command::Build(b) => CommandView::Build(b@),
            Command::BuildHelp => CommandView::BuildHelp,
            Command::Inspect(dir) => CommandView::Inspect(dir@),
            Command::InspectHelp => CommandView::InspectHelp,
            Command::Stats(addr) => CommandView::Stats(addr@),
            Command::StatsHelp => CommandView::StatsHelp,
        }
    }
}

impl View for ArgError {
    type V = ArgErrorView;

    open spec fn view(&self) -> ArgErrorView {
        match *self {
            ArgError::UnknownCommand(s) => ArgErrorView::UnknownCommand(s@),
            ArgError::MissingValue(s) => ArgErrorView::MissingValue(s@),
            ArgError::UnknownFlag(s) => ArgErrorView::UnknownFlag(s@),
            ArgError::NotAnInteger { flag, value } => ArgErrorView::NotAnInteger {
                flag: flag@,
                value: value@,
            },
            ArgError::NoInput => ArgErrorView::NoInput,
            ArgError::NoOutput => ArgErrorView::NoOutput,
            ArgError::EmptyName => ArgErrorView::EmptyName,
            ArgError::NoDataDir => ArgErrorView::NoDataDir,
            ArgError::NoAddress => ArgErrorView::NoAddress,
        }
    }
}

impl BuildOptions {
    spec fn model(self) -> OptionsView {
        OptionsView {
            input: match self.input {
                Some(s) => Some(s@),
                None => None,
            },
            output: match self.output {
                Some(s) => Some(s@),
                None => None,
            },
            name: self.name@,
            r: self.r,
            l_search: self.l_search,
        }
    }
}

impl BuildArgsView {
    /// The graph's parameters: the max out-degree and the query-time
    /// search-list size.
    pub open spec fn graph_params(self) -> (usize, usize) {
        (
            match self.r {
                Some(r) => r,
                None => DEFAULT_R,
            },
            match self.l_search {
                Some(l) => l,
                None => DEFAULT_L_SEARCH,
            },
        )
    }
}

impl BuildArgs {
    /// The graph's parameters: the max out-degree, which is 64 unless it is
    /// given, and the query-time search-list size, which is 100 unless it is
    /// given.
    pub fn graph_params(&self) -> (p: (usize, usize))
        ensures
            p == self@.graph_params(),
            self.r is None ==> p.0 == 64,
            self.l_search is None ==> p.1 == 100,
            self.r matches Some(r) ==> p.0 == r,
            self.l_search matches Some(l) ==> p.1 == l,
    {
        (self.r.unwrap_or(DEFAULT_R), self.l_search.unwrap_or(DEFAULT_L_SEARCH))
    }
}

/// The texts that a vector of strings holds.
pub open spec fn arg_texts(args: Seq<String>) -> Seq<Seq<char>> {
    args.map_values(|a: String| a@)
}

/// Whether an argument asks for help.
pub open spec fn asks_help(arg: Seq<char>) -> bool {
    arg == "-h"@ || arg == "--help"@
}

/// Whether one of the arguments asks for help.
pub open spec fn some_asks_help(args: Seq<Seq<char>>) -> bool {
    exists|i: int| 0 <= i < args.len() && asks_help(#[trigger] args[i])
}

/// The number that the value of a flag gives.
pub open spec fn flag_number(flag: Seq<char>, value: Seq<char>) -> Result<usize, ArgErrorView> {
    match number::uint_of(value, usize::MAX as nat) {
        Some(n) => Ok(n as usize),
        None => Err(ArgErrorView::NotAnInteger { flag, value }),
    }
}

/// The options once `flag` is given with `value`.
pub open spec fn with_flag(o: OptionsView, flag: Seq<char>, value: Seq<char>) -> Result<
    OptionsView,
    ArgErrorView,
> {
    if flag == "--input"@ {
        Ok(OptionsView { input: Some(value), ..o })
    } else if flag == "--output"@ {
        Ok(OptionsView { output: Some(value), ..o })
    } else if flag == "--name"@ {
        Ok(OptionsView { name: value, ..o })
    } else if flag == "--r"@ {
        match flag_number(flag, value) {
            Ok(n) => Ok(OptionsView { r: Some(n), ..o }),
            Err(e) => Err(e),
        }
    } else if flag == "--l"@ {
        match flag_number(flag, value) {
            Ok(n) => Ok(OptionsView { l_search: Some(n), ..o }),
            Err(e) => Err(e),
        }
    } else {
        Err(ArgErrorView::UnknownFlag(flag))
    }
}

/// The options that `args` add to `o`, from the first on; nothing if help is
/// asked for where a flag can stand.
pub open spec fn with_flags(o: OptionsView, args: Seq<Seq<char>>) -> Result<
    Option<OptionsView>,
    ArgErrorView,
>
    decreases args.len(),
{
    if args.len() == 0 {
        Ok(Some(o))
    } else if asks_help(args[0]) {
        Ok(None)
    } else if args.len() == 1 {
        Err(ArgErrorView::MissingValue(args[0]))
    } else {
        match with_flag(o, args[0], args[1]) {
            Ok(next) => with_flags(next, args.skip(2)),
            Err(e) => Err(e),
        }
    }
}

/// The options of `build` before any flag is read.
pub open spec fn default_options() -> OptionsView {
    OptionsView { input: None, output: None, name: "default"@, r: None, l_search: None }
}

/// What `build` with these arguments asks for.
pub open spec fn build_command(args: Seq<Seq<char>>) -> Result<CommandView, ArgErrorView> {
    match with_flags(default_options(), args) {
        Err(e) => Err(e),
        Ok(None) => Ok(CommandView::BuildHelp),
        Ok(Some(o)) => match (o.input, o.output) {
            (None, _) => Err(ArgErrorView::NoInput),
            (Some(input), None) => Err(ArgErrorView::NoOutput),
            (Some(input), Some(output)) => if o.name.len() == 0 {
                Err(ArgErrorView::EmptyName)
            } else {
                Ok(
                    CommandView::Build(
                        BuildArgsView {
                            input,
                            output,
                            name: o.name,
                            r: o.r,
                            l_search: o.l_search,
                        },
                    ),
                )
            },
        },
    }
}

/// What `inspect` with these arguments asks for.
pub open spec fn inspect_command(args: Seq<Seq<char>>) -> Result<CommandView, ArgErrorView> {
    if some_asks_help(args) {
        Ok(CommandView::InspectHelp)
    } else if args.len() == 0 {
        Err(ArgErrorView::NoDataDir)
    } else {
        Ok(CommandView::Inspect(args[0]))
    }
}

/// What `stats` with these arguments asks for.
pub open spec fn stats_command(args: Seq<Seq<char>>) -> Result<CommandView, ArgErrorView> {
    if some_asks_help(args) {
        Ok(CommandView::StatsHelp)
    } else if args.len() == 0 {
        Err(ArgErrorView::NoAddress)
    } else {
        Ok(CommandView::Stats(args[0]))
    }
}

/// What a command line asks for.
pub open spec fn command_of(args: Seq<Seq<char>>) -> Result<CommandView, ArgErrorView> {
    if args.len() == 0 || asks_help(args[0]) {
        Ok(CommandView::Help)
    } else if args[0] == "build"@ {
        build_command(args.skip(1))
    } else if args[0] == "inspect"@ {
        inspect_command(args.skip(1))
    } else if args[0] == "stats"@ {
        stats_command(args.skip(1))
    } else if args[0] == "-V"@ || args[0] == "--version"@ {
        Ok(CommandView::Version)
    } else {
        Err(ArgErrorView::UnknownCommand(args[0]))
    }
}

/// Whether a result is the one that a command line asks for.
pub open spec fn command_is(
    r: Result<Command, ArgError>,
    wanted: Result<CommandView, ArgErrorView>,
) -> bool {
    match r {
        Ok(c) => wanted == Ok::<CommandView, ArgErrorView>(c@),
        Err(e) => wanted == Err::<CommandView, ArgErrorView>(e@),
    }
}

/// `build` needs an input and an output and nothing more: the VINDEX is then
/// named `default`, and the graph's parameters are 64 and 100.
pub proof fn law_input_and_output_are_enough(input: Seq<char>, output: Seq<char>)
    ensures
        ({
            let args = BuildArgsView { input, output, name: "default"@, r: None, l_search: None };
            &&& command_of(seq!["build"@, "--input"@, input, "--output"@, output]) == Ok::<
                CommandView,
                ArgErrorView,
            >(CommandView::Build(args))
            &&& args.graph_params() == (64usize, 100usize)
        }),
{
    reveal_strlit("-h");
    reveal_strlit("--help");
    reveal_strlit("--input");
    reveal_strlit("--output");
    reveal_strlit("default");
    assert("-h"@.len() == 2 && "--help"@.len() == 6);
    assert("--input"@.len() == 7 && "--output"@.len() == 8);
    let args = seq!["--input"@, input, "--output"@, output];
    let o = default_options();
    let next = OptionsView { input: Some(input), ..o };
    let last = OptionsView { output: Some(output), ..next };
    assert(args.skip(2) =~= seq!["--output"@, output]);
    assert(args.skip(2)[0] == "--output"@ && args.skip(2)[1] == output);
    assert(with_flag(o, "--input"@, input) == Ok::<OptionsView, ArgErrorView>(next));
    assert(with_flag(next, "--output"@, output) == Ok::<OptionsView, ArgErrorView>(last));
    assert(args.skip(2).skip(2) =~= seq![]);
    assert(with_flags(last, args.skip(2).skip(2)) == Ok::<Option<OptionsView>, ArgErrorView>(
        Some(last),
    ));
    assert(with_flags(next, args.skip(2)) == Ok::<Option<OptionsView>, ArgErrorView>(Some(last)));
    reveal_strlit("build");
    assert("build"@.len() == 5);
    let line = seq!["build"@, "--input"@, input, "--output"@, output];
    assert(line.skip(1) =~= args);
}

/// Where a flag is given twice, the later value counts.
pub proof fn law_later_flag_wins(
    o: OptionsView,
    flag: Seq<char>,
    first: Seq<char>,
    second: Seq<char>,
    rest: Seq<Seq<char>>,
)
    requires
        !asks_help(flag),
        with_flag(o, flag, first) is Ok,
    ensures
        with_flags(o, seq![flag, first, flag, second] + rest) == with_flags(
            o,
            seq![flag, second] + rest,
        ),
{
    let long = seq![flag, first, flag, second] + rest;
    let short = seq![flag, second] + rest;
    assert(long.skip(2) =~= short);
    assert(short.skip(2) =~= rest);
    let next = with_flag(o, flag, first)->Ok_0;
    assert(with_flag(next, flag, second) == with_flag(o, flag, second));
    assert(with_flags(o, long) == with_flags(next, short));
    assert(short[0] == flag && short[1] == second);
}

fn is_help(arg: &str) -> (r: bool)
    ensures
        r == asks_help(arg@),
{
    same_text(arg, "-h") || same_text(arg, "--help")
}

/// Whether one of the arguments from `from` on asks for help.
fn any_is_help(args: &Vec<String>, from: usize) -> (r: bool)
    requires
        from <= args.len(),
    ensures
        r == some_asks_help(arg_texts(args@).skip(from as int)),
{
    let ghost rest = arg_texts(args@).skip(from as int);
    let mut i: usize = from;
    while i < args.len()
        invariant
            from <= i <= args.len(),
            rest == arg_texts(args@).skip(from as int),
            forall|j: int| 0 <= j < i - from ==> !asks_help(#[trigger] rest[j]),
        decreases args.len() - i,
    {
        assert(rest[i - from] == args@[i as int]@);
        if is_help(args[i].as_str()) {
            return true;
        }
        i += 1;
    }
    false
}

/// Reads the number that the value of a flag gives.
pub fn parse_usize(value: &str, flag: &str) -> (r: Result<usize, ArgError>)
    ensures
        match r {
            Ok(n) => flag_number(flag@, value@) == Ok::<usize, ArgErrorView>(n),
            Err(e) => flag_number(flag@, value@) == Err::<usize, ArgErrorView>(e@),
        },
{
    match read_uint(value, usize::MAX as u64) {
        Some(n) => Ok(n as usize),
        None => Err(ArgError::NotAnInteger { flag: flag.to_owned(), value: value.to_owned() }),
    }
}

impl BuildOptions {
    fn set(self, flag: &str, value: &str) -> (r: Result<BuildOptions, ArgError>)
        ensures
            match r {
                Ok(o) => with_flag(self.model(), flag@, value@) == Ok::<OptionsView, ArgErrorView>(
                    o.model(),
                ),
                Err(e) => with_flag(self.model(), flag@, value@) == Err::<
                    OptionsView,
                    ArgErrorView,
                >(e@),
            },
    {
        let mut o = self;
        if same_text(flag, "--input") {
            o.input = Some(value.to_owned());
        } else if same_text(flag, "--output") {
            o.output = Some(value.to_owned());
        } else if same_text(flag, "--name") {
            o.name = value.to_owned();
        } else if same_text(flag, "--r") {
            match parse_usize(value, flag) {
                Ok(n) => {
                    o.r = Some(n);
                },
                Err(e) => {
                    return Err(e);
                },
            }
        } else if same_text(flag, "--l") {
            match parse_usize(value, flag) {
                Ok(n) => {
                    o.l_search = Some(n);
                },
                Err(e) => {
                    return Err(e);
                },
            }
        } else {
            return Err(ArgError::UnknownFlag(flag.to_owned()));
        }
        Ok(o)
    }
}

/// Reads the arguments of `build`, which stand in `args` from `from` on.
fn parse_build(args: &Vec<String>, from: usize) -> (r: Result<Command, ArgError>)
    requires
        from <= args.len(),
    ensures
        command_is(r, build_command(arg_texts(args@).skip(from as int))),
{
    let ghost all = arg_texts(args@);
    let ghost wanted = with_flags(default_options(), all.skip(from as int));
    let mut o = BuildOptions {
        input: None,
        output: None,
        name: "default".to_owned(),
        r: None,
        l_search: None,
    };
    let mut i: usize = from;
    assert(o.model() == default_options());
    while i < args.len()
        invariant
            from <= i <= args.len(),
            all == arg_texts(args@),
            wanted == with_flags(default_options(), all.skip(from as int)),
            wanted == with_flags(o.model(), all.skip(i as int)),
        decreases args.len() - i,
    {
        let ghost rest = all.skip(i as int);
        assert(rest[0] == args@[i as int]@);
        let flag = args[i].as_str();
        if is_help(flag) {
            return Ok(Command::BuildHelp);
        }
        if args.len() - i < 2 {
            return Err(ArgError::MissingValue(flag.to_owned()));
        }
        assert(rest[1] == args@[i + 1]@);
        assert(rest.skip(2) =~= all.skip(i + 2));
        match o.set(flag, args[i + 1].as_str()) {
            Ok(next) => {
                o = next;
            },
            Err(e) => {
                return Err(e);
            },
        }
        i += 2;
    }
    assert(wanted == Ok::<Option<OptionsView>, ArgErrorView>(Some(o.model())));
    let BuildOptions { input, output, name, r, l_search } = o;
    match (input, output) {
        (None, _) => Err(ArgError::NoInput),
        (Some(_), None) => Err(ArgError::NoOutput),
        (Some(input), Some(output)) => if name.as_str().is_empty() {
            Err(ArgError::EmptyName)
        } else {
            Ok(Command::Build(BuildArgs { input, output, name, r, l_search }))
        },
    }
}

/// Reads a command line: the arguments after the program's name.
pub fn parse_command(args: &Vec<String>) -> (r: Result<Command, ArgError>)
    ensures
        command_is(r, command_of(arg_texts(args@))),
{
    let ghost all = arg_texts(args@);
    if args.len() == 0 {
        return Ok(Command::Help);
    }
    assert(all[0] == args@[0]@);
    let first = args[0].as_str();
    if is_help(first) {
        Ok(Command::Help)
    } else if same_text(first, "build") {
        parse_build(args, 1)
    } else if same_text(first, "inspect") {
        if any_is_help(args, 1) {
            Ok(Command::InspectHelp)
        } else if args.len() < 2 {
            Err(ArgError::NoDataDir)
        } else {
            assert(all.skip(1)[0] == args@[1]@);
            Ok(Command::Inspect(args[1].clone()))
        }
    } else if same_text(first, "stats") {
        if any_is_help(args, 1) {
            Ok(Command::StatsHelp)
        } else if args.len() < 2 {
            Err(ArgError::NoAddress)
        } else {
            assert(all.skip(1)[0] == args@[1]@);
            Ok(Command::Stats(args[1].clone()))
        }
    } else if same_text(first, "-V") || same_text(first, "--version") {
        Ok(Command::Version)
    } else {
        Err(ArgError::UnknownCommand(first.to_owned()))
    }
}

/// The general help of a version of the program.
pub open spec fn usage_text(version: Seq<char>) -> Seq<char> {
    "skeg-cli "@ + version + USAGE@
}

/// The general help of a version of the program.
pub fn usage(version: &str) -> (s: String)
    ensures
        s@ == usage_text(version@),
{
    let mut s = "skeg-cli ".to_owned();
    s.append(version);
    s.append(USAGE);
    s
}

/// The line that `--version` prints.
pub fn version_line(version: &str) -> (s: String)
    ensures
        s@ == "skeg-cli "@ + version@ + "\n"@,
{
    let mut s = "skeg-cli ".to_owned();
    s.append(version);
    s.append("\n");
    s
}

/// What is said of a command that failed.
pub fn failure(command: &str, message: &str) -> (s: String)
    ensures
        s@ == command@ + " failed: "@ + message@,
{
    let mut s = command.to_owned();
    s.append(" failed: ");
    s.append(message);
    s
}

/// An error in words, as a version of the program prints it.
pub open spec fn arg_message(e: ArgErrorView, version: Seq<char>) -> Seq<char> {
    match e {
        ArgErrorView::UnknownCommand(s) => "unknown command '"@ + s + "'\n\n"@ + usage_text(
            version,
        ),
        ArgErrorView::MissingValue(s) => "missing value for '"@ + s + "'"@,
        ArgErrorView::UnknownFlag(s) => "unknown flag '"@ + s + "'\n\n"@ + BUILD_USAGE@,
        ArgErrorView::NotAnInteger { flag, value } => "'"@ + flag + "' expects an integer, got '"@
            + value + "'"@,
        ArgErrorView::NoInput => "'build' requires --input"@,
        ArgErrorView::NoOutput => "'build' requires --output"@,
        ArgErrorView::EmptyName => "--name must not be empty"@,
        ArgErrorView::NoDataDir => "'inspect' requires <DATA-DIR>\n\n"@ + INSPECT_USAGE@,
        ArgErrorView::NoAddress => "'stats' requires <HOST:PORT>\n\n"@ + STATS_USAGE@,
    }
}

impl ArgError {
    /// The error in words, as a version of the program prints it.
    pub fn message(&self, version: &str) -> (out: String)
        ensures
            out@ == arg_message(self@, version@),
    {
        let mut out = String::new();
        match self {
            ArgError::UnknownCommand(s) => {
                out.append("unknown command '");
                out.append(s.as_str());
                out.append("'\n\n");
                out.append(usage(version).as_str());
            },
            ArgError::MissingValue(s) => {
                out.append("missing value for '");
                out.append(s.as_str());
                out.append("'");
            },
            ArgError::UnknownFlag(s) => {
                out.append("unknown flag '");
                out.append(s.as_str());
                out.append("'\n\n");
                out.append(BUILD_USAGE);
            },
            ArgError::NotAnInteger { flag, value } => {
                out.append("'");
                out.append(flag.as_str());
                out.append("' expects an integer, got '");
                out.append(value.as_str());
                out.append("'");
            },
            ArgError::NoInput => out.append("'build' requires --input"),
            ArgError::NoOutput => out.append("'build' requires --output"),
            ArgError::EmptyName => out.append("--name must not be empty"),
            ArgError::NoDataDir => {
                out.append("'inspect' requires <DATA-DIR>\n\n");
                out.append(INSPECT_USAGE);
            },
            ArgError::NoAddress => {
                out.append("'stats' requires <HOST:PORT>\n\n");
                out.append(STATS_USAGE);
            },
        }
        assert(out@ =~= arg_message(self@, version@));
        out
    }
}

} // verus!
