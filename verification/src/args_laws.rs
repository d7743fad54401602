//! What holds of reading the command line as a whole.

use crate::args::{self, ArgErrorView, BuildArgsView, CommandView, OptionsView};
use crate::number;
use vstd::prelude::*;
use vstd::string::*;

verus! {

/// The words of the command line are all different.
proof fn lemma_words()
    ensures
        "-h"@.len() == 2,
        "-V"@.len() == 2,
        "-h"@ != "-V"@,
        "--r"@.len() == 3,
        "--l"@.len() == 3,
        "--r"@ != "--l"@,
        "build"@.len() == 5,
        "stats"@.len() == 5,
        "build"@ != "stats"@,
        "--name"@.len() == 6,
        "--help"@.len() == 6,
        "--name"@ != "--help"@,
        "--input"@.len() == 7,
        "inspect"@.len() == 7,
        "--input"@ != "inspect"@,
        "default"@.len() == 7,
        "--output"@.len() == 8,
        "--version"@.len() == 9,
{
    reveal_strlit("-h");
    reveal_strlit("-V");
    reveal_strlit("--r");
    reveal_strlit("--l");
    reveal_strlit("build");
    reveal_strlit("stats");
    reveal_strlit("--name");
    reveal_strlit("--help");
    reveal_strlit("--input");
    reveal_strlit("inspect");
    reveal_strlit("default");
    reveal_strlit("--output");
    reveal_strlit("--version");
    assert("-h"@[1] != "-V"@[1]);
    assert("--r"@[2] != "--l"@[2]);
    assert("build"@[0] != "stats"@[0]);
    assert("--name"@[2] != "--help"@[2]);
    assert("--input"@[0] != "inspect"@[0]);
}

/// Whether `flag` is one that `build` knows.
pub open spec fn is_build_flag(flag: Seq<char>) -> bool {
    flag == "--input"@ || flag == "--output"@ || flag == "--name"@ || flag == "--r"@ || flag
        == "--l"@
}

proof fn lemma_read(t: Seq<char>, n: nat)
    requires
        number::writes(t, n),
        n <= usize::MAX,
    ensures
        number::uint_of(t, usize::MAX as nat) == Some(n),
{
    number::law_numbers_are_read_as_written(t, n, usize::MAX as nat);
}

/// One flag and its value are read, and then the rest.
proof fn lemma_step(o: OptionsView, flag: Seq<char>, value: Seq<char>, rest: Seq<Seq<char>>)
    requires
        !args::asks_help(flag),
    ensures
        args::with_flags(o, seq![flag, value] + rest) == (match args::with_flag(o, flag, value) {
            Ok(next) => args::with_flags(next, rest),
            Err(e) => Err(e),
        }),
{
    let all = seq![flag, value] + rest;
    assert(all[0] == flag && all[1] == value);
    assert(all.skip(2) =~= rest);
}

/// `build` is asked for with the input, the output, the name and the graph's
/// parameters that its flags give, whatever these are: a name that is not
/// empty, and numbers in any form that writes them.
#[verifier::rlimit(40)]
pub proof fn law_build_does_what_its_flags_say(
    input: Seq<char>,
    output: Seq<char>,
    name: Seq<char>,
    r_text: Seq<char>,
    r: usize,
    l_text: Seq<char>,
    l: usize,
)
    requires
        name.len() > 0,
        number::writes(r_text, r as nat),
        number::writes(l_text, l as nat),
    ensures
        args::command_of(
            seq!["build"@] + seq!["--input"@, input] + seq!["--output"@, output] + seq![
                "--name"@,
                name,
            ] + seq!["--r"@, r_text] + seq!["--l"@, l_text],
        ) == Ok::<CommandView, ArgErrorView>(
            CommandView::Build(
                BuildArgsView { input, output, name, r: Some(r), l_search: Some(l) },
            ),
        ),
{
    lemma_words();
    lemma_read(r_text, r as nat);
    lemma_read(l_text, l as nat);
    let o0 = args::default_options();
    let o1 = OptionsView { input: Some(input), ..o0 };
    let o2 = OptionsView { output: Some(output), ..o1 };
    let o3 = OptionsView { name, ..o2 };
    let o4 = OptionsView { r: Some(r), ..o3 };
    let o5 = OptionsView { l_search: Some(l), ..o4 };
    let none = Seq::<Seq<char>>::empty();
    let f5 = seq!["--l"@, l_text] + none;
    let f4 = seq!["--r"@, r_text] + f5;
    let f3 = seq!["--name"@, name] + f4;
    let f2 = seq!["--output"@, output] + f3;
    let f1 = seq!["--input"@, input] + f2;
    lemma_step(o0, "--input"@, input, f2);
    lemma_step(o1, "--output"@, output, f3);
    lemma_step(o2, "--name"@, name, f4);
    lemma_step(o3, "--r"@, r_text, f5);
    lemma_step(o4, "--l"@, l_text, none);
    let line = seq!["build"@] + seq!["--input"@, input] + seq!["--output"@, output] + seq![
        "--name"@,
        name,
    ] + seq!["--r"@, r_text] + seq!["--l"@, l_text];
    assert(line.skip(1) =~= f1);
    assert(line[0] == "build"@);
}

/// A graph parameter that is given is the one that is taken, however large,
/// and leaves everything else as it is without it.
pub proof fn law_a_given_parameter_is_taken(
    input: Seq<char>,
    output: Seq<char>,
    t: Seq<char>,
    n: usize,
)
    requires
        number::writes(t, n as nat),
    ensures
        args::command_of(
            seq!["build"@, "--input"@, input, "--output"@, output] + seq!["--r"@, t],
        ) == Ok::<CommandView, ArgErrorView>(
            CommandView::Build(
                BuildArgsView { input, output, name: "default"@, r: Some(n), l_search: None },
            ),
        ),
        args::command_of(
            seq!["build"@, "--input"@, input, "--output"@, output] + seq!["--l"@, t],
        ) == Ok::<CommandView, ArgErrorView>(
            CommandView::Build(
                BuildArgsView { input, output, name: "default"@, r: None, l_search: Some(n) },
            ),
        ),
        (BuildArgsView { input, output, name: "default"@, r: Some(n), l_search: None }).graph_params()
            == (n, 100usize),
        (BuildArgsView { input, output, name: "default"@, r: None, l_search: Some(n) }).graph_params()
            == (64usize, n),
{
    lemma_words();
    lemma_read(t, n as nat);
    let o0 = args::default_options();
    let o1 = OptionsView { input: Some(input), ..o0 };
    let o2 = OptionsView { output: Some(output), ..o1 };
    let none = Seq::<Seq<char>>::empty();
    let start = seq!["build"@, "--input"@, input, "--output"@, output];
    let r = seq!["--r"@, t] + none;
    let l = seq!["--l"@, t] + none;
    lemma_step(o0, "--input"@, input, seq!["--output"@, output] + r);
    lemma_step(o1, "--output"@, output, r);
    lemma_step(o2, "--r"@, t, none);
    assert((start + seq!["--r"@, t]).skip(1) =~= seq!["--input"@, input] + (seq![
        "--output"@,
        output,
    ] + r));
    lemma_step(o0, "--input"@, input, seq!["--output"@, output] + l);
    lemma_step(o1, "--output"@, output, l);
    lemma_step(o2, "--l"@, t, none);
    assert((start + seq!["--l"@, t]).skip(1) =~= seq!["--input"@, input] + (seq![
        "--output"@,
        output,
    ] + l));
    assert((start + seq!["--r"@, t])[0] == "build"@);
    assert((start + seq!["--l"@, t])[0] == "build"@);
}

/// It does not matter in which order two flags stand.
pub proof fn law_flags_stand_in_any_order(
    before: OptionsView,
    a: Seq<char>,
    x: Seq<char>,
    b: Seq<char>,
    y: Seq<char>,
    rest: Seq<Seq<char>>,
)
    requires
        a != b,
        is_build_flag(a),
        is_build_flag(b),
        args::with_flag(before, a, x) is Ok,
        args::with_flag(before, b, y) is Ok,
    ensures
        args::with_flags(before, seq![a, x] + (seq![b, y] + rest)) == args::with_flags(
            before,
            seq![b, y] + (seq![a, x] + rest),
        ),
{
    lemma_words();
    let p = args::with_flag(before, a, x)->Ok_0;
    let q = args::with_flag(before, b, y)->Ok_0;
    lemma_step(before, a, x, seq![b, y] + rest);
    lemma_step(p, b, y, rest);
    lemma_step(before, b, y, seq![a, x] + rest);
    lemma_step(q, a, x, rest);
}

/// Whether `arg` is one of the two ways to ask for help.
pub open spec fn is_help(arg: Seq<char>) -> bool {
    arg == "-h"@ || arg == "--help"@
}

/// What `build` refuses: a flag that it does not know, a flag without a value,
/// a graph parameter that is not a number, an empty name, and to go on without
/// an input or an output.
#[verifier::rlimit(40)]
pub proof fn law_what_build_refuses(
    flag: Seq<char>,
    value: Seq<char>,
    input: Seq<char>,
    output: Seq<char>,
    rest: Seq<Seq<char>>,
)
    ensures
        !is_help(flag) && !is_build_flag(flag) ==> args::command_of(
            seq!["build"@] + (seq![flag, value] + rest),
        ) == Err::<CommandView, ArgErrorView>(ArgErrorView::UnknownFlag(flag)),
        !is_help(flag) ==> args::command_of(seq!["build"@, flag]) == Err::<
            CommandView,
            ArgErrorView,
        >(ArgErrorView::MissingValue(flag)),
        (flag == "--r"@ || flag == "--l"@) && (forall|n: nat|
            n <= usize::MAX ==> !#[trigger] number::writes(value, n)) ==> args::command_of(
            seq!["build"@] + (seq![flag, value] + rest),
        ) == Err::<CommandView, ArgErrorView>(ArgErrorView::NotAnInteger { flag, value }),
        args::command_of(seq!["build"@]) == Err::<CommandView, ArgErrorView>(ArgErrorView::NoInput),
        args::command_of(seq!["build"@, "--output"@, output]) == Err::<CommandView, ArgErrorView>(
            ArgErrorView::NoInput,
        ),
        args::command_of(seq!["build"@, "--input"@, input]) == Err::<CommandView, ArgErrorView>(
            ArgErrorView::NoOutput,
        ),
        args::command_of(
            seq!["build"@, "--input"@, input, "--output"@, output] + seq!["--name"@, seq![]],
        ) == Err::<CommandView, ArgErrorView>(ArgErrorView::EmptyName),
{
    lemma_words();
    let o = args::default_options();
    let none = Seq::<Seq<char>>::empty();
    let long = seq!["build"@] + (seq![flag, value] + rest);
    assert(long.skip(1) =~= seq![flag, value] + rest);
    assert(long[0] == "build"@);
    if !args::asks_help(flag) {
        lemma_step(o, flag, value, rest);
        let short = seq!["build"@, flag];
        assert(short.skip(1) =~= seq![flag]);
        assert(short.skip(1)[0] == flag);
    }
    if forall|n: nat| n <= usize::MAX ==> !#[trigger] number::writes(value, n) {
        match number::uint_of(value, usize::MAX as nat) {
            Some(n) => {
                number::law_numbers_are_read_as_written(value, n, usize::MAX as nat);
                assert(number::writes(value, n));
            },
            None => {},
        }
    }
    assert(seq!["build"@].skip(1) =~= none);
    assert(args::with_flags(o, none) == Ok::<Option<OptionsView>, ArgErrorView>(Some(o)));
    let to = OptionsView { output: Some(output), ..o };
    lemma_step(o, "--output"@, output, none);
    assert(seq!["build"@, "--output"@, output].skip(1) =~= seq!["--output"@, output] + none);
    let from = OptionsView { input: Some(input), ..o };
    lemma_step(o, "--input"@, input, none);
    assert(seq!["build"@, "--input"@, input].skip(1) =~= seq!["--input"@, input] + none);
    let both = OptionsView { output: Some(output), ..from };
    let empty = Seq::<char>::empty();
    let named = seq!["--name"@, empty] + none;
    lemma_step(o, "--input"@, input, seq!["--output"@, output] + named);
    lemma_step(from, "--output"@, output, named);
    lemma_step(both, "--name"@, empty, none);
    let line = seq!["build"@, "--input"@, input, "--output"@, output] + seq!["--name"@, empty];
    assert(line.skip(1) =~= seq!["--input"@, input] + (seq!["--output"@, output] + named));
    assert(line[0] == "build"@);
}

/// Whether none of the arguments asks for help.
pub open spec fn nobody_asks_help(rest: Seq<Seq<char>>) -> bool {
    forall|i: int| 0 <= i < rest.len() ==> #[trigger] rest[i] != "-h"@ && rest[i] != "--help"@
}

/// `inspect` and `stats` take what follows them, and no more, unless help is
/// asked for anywhere after them; without anything after them they are
/// refused.
pub proof fn law_inspect_and_stats_take_one_argument(target: Seq<char>, rest: Seq<Seq<char>>)
    ensures
        nobody_asks_help(seq![target] + rest) ==> {
            &&& args::command_of(seq!["inspect"@] + (seq![target] + rest)) == Ok::<
                CommandView,
                ArgErrorView,
            >(CommandView::Inspect(target))
            &&& args::command_of(seq!["stats"@] + (seq![target] + rest)) == Ok::<
                CommandView,
                ArgErrorView,
            >(CommandView::Stats(target))
        },
        !nobody_asks_help(rest) ==> {
            &&& args::command_of(seq!["inspect"@] + rest) == Ok::<CommandView, ArgErrorView>(
                CommandView::InspectHelp,
            )
            &&& args::command_of(seq!["stats"@] + rest) == Ok::<CommandView, ArgErrorView>(
                CommandView::StatsHelp,
            )
        },
        args::command_of(seq!["inspect"@]) == Err::<CommandView, ArgErrorView>(
            ArgErrorView::NoDataDir,
        ),
        args::command_of(seq!["stats"@]) == Err::<CommandView, ArgErrorView>(
            ArgErrorView::NoAddress,
        ),
{
    lemma_words();
    let all = seq![target] + rest;
    assert(all[0] == target);
    assert((seq!["inspect"@] + all).skip(1) =~= all);
    assert((seq!["stats"@] + all).skip(1) =~= all);
    assert((seq!["inspect"@] + rest).skip(1) =~= rest);
    assert((seq!["stats"@] + rest).skip(1) =~= rest);
    assert((seq!["inspect"@] + all)[0] == "inspect"@ && (seq!["stats"@] + all)[0] == "stats"@);
    assert((seq!["inspect"@] + rest)[0] == "inspect"@ && (seq!["stats"@] + rest)[0] == "stats"@);
    assert(seq!["inspect"@].skip(1) =~= seq![]);
    assert(seq!["stats"@].skip(1) =~= seq![]);
    if !nobody_asks_help(rest) {
        let i = choose|i: int|
            0 <= i < rest.len() && !(#[trigger] rest[i] != "-h"@ && rest[i] != "--help"@);
        assert(args::asks_help(rest[i]));
    }
}

/// Help and the version are given where they are asked for first, help also
/// where nothing is asked for, and a command that is none of the three is
/// refused by its name.
pub proof fn law_help_version_and_unknown_commands(first: Seq<char>, rest: Seq<Seq<char>>)
    ensures
        args::command_of(seq![]) == Ok::<CommandView, ArgErrorView>(CommandView::Help),
        first == "-h"@ || first == "--help"@ ==> args::command_of(seq![first] + rest) == Ok::<
            CommandView,
            ArgErrorView,
        >(CommandView::Help),
        first == "-V"@ || first == "--version"@ ==> args::command_of(seq![first] + rest) == Ok::<
            CommandView,
            ArgErrorView,
        >(CommandView::Version),
        first == "-h"@ || first == "--help"@ ==> args::command_of(
            seq!["build"@] + (seq![first] + rest),
        ) == Ok::<CommandView, ArgErrorView>(CommandView::BuildHelp),
        first != "build"@ && first != "inspect"@ && first != "stats"@ && first != "-h"@ && first
            != "--help"@ && first != "-V"@ && first != "--version"@ ==> args::command_of(
            seq![first] + rest,
        ) == Err::<CommandView, ArgErrorView>(ArgErrorView::UnknownCommand(first)),
{
    lemma_words();
    assert((seq![first] + rest)[0] == first);
    let build = seq!["build"@] + (seq![first] + rest);
    assert(build[0] == "build"@);
    assert(build.skip(1) =~= seq![first] + rest);
}

/// What is said of a wrong command line names what is wrong in it.
pub proof fn law_messages_name_what_is_wrong(a: Seq<char>, b: Seq<char>, version: Seq<char>)
    ensures
        args::arg_message(ArgErrorView::MissingValue(a), version) == "missing value for '"@ + a
            + "'"@,
        args::arg_message(ArgErrorView::NotAnInteger { flag: a, value: b }, version) == "'"@ + a
            + "' expects an integer, got '"@ + b + "'"@,
        args::arg_message(ArgErrorView::UnknownFlag(a), version).subrange(
            0,
            ("unknown flag '"@ + a + "'"@).len() as int,
        ) == "unknown flag '"@ + a + "'"@,
        args::arg_message(ArgErrorView::UnknownCommand(a), version).subrange(
            0,
            ("unknown command '"@ + a + "'"@).len() as int,
        ) == "unknown command '"@ + a + "'"@,
{
    reveal_strlit("'");
    reveal_strlit("'\n\n");
    assert("'\n\n"@[0] == '\'' && "'"@[0] == '\'');
    let head = "unknown flag '"@ + a + "'"@;
    assert(args::arg_message(ArgErrorView::UnknownFlag(a), version).subrange(0, head.len() as int)
        =~= head);
    let head = "unknown command '"@ + a + "'"@;
    assert(args::arg_message(ArgErrorView::UnknownCommand(a), version).subrange(
        0,
        head.len() as int,
    ) =~= head);
}

/// Whoever asks for what there is not is shown the help that fits: that on
/// `build` for a flag, that on `inspect` or `stats` for an argument that is
/// missing, and the general help, which tells the version, for a command.
/// What `build` lacks is said by its name.
pub proof fn law_messages_end_with_the_help_that_fits(a: Seq<char>, version: Seq<char>)
    ensures
        args::arg_message(ArgErrorView::UnknownFlag(a), version) == "unknown flag '"@ + a
            + "'\n\n"@ + args::BUILD_USAGE@,
        args::arg_message(ArgErrorView::UnknownCommand(a), version) == "unknown command '"@ + a
            + "'\n\n"@ + ("skeg-cli "@ + version + args::USAGE@),
        args::usage_text(version) == "skeg-cli "@ + version + args::USAGE@,
        args::arg_message(ArgErrorView::NoDataDir, version) == "'inspect' requires <DATA-DIR>\n\n"@
            + args::INSPECT_USAGE@,
        args::arg_message(ArgErrorView::NoAddress, version) == "'stats' requires <HOST:PORT>\n\n"@
            + args::STATS_USAGE@,
        args::arg_message(ArgErrorView::NoInput, version) == "'build' requires --input"@,
        args::arg_message(ArgErrorView::NoOutput, version) == "'build' requires --output"@,
        args::arg_message(ArgErrorView::EmptyName, version) == "--name must not be empty"@,
{
}

} // verus!
