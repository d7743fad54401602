use skeg_cli::args::{
    failure, parse_command, parse_usize, usage, version_line, ArgError, BuildArgs, Command, BUILD_USAGE, INSPECT_USAGE,
    STATS_USAGE,
};

fn parse(args: &[&str]) -> Result<Command, ArgError> {
    parse_command(&args.iter().map(|a| a.to_string()).collect())
}

fn build(args: &[&str]) -> BuildArgs {
    match parse(args) {
        Ok(Command::Build(b)) => b,
        other => panic!("expected a build, got {other:?}"),
    }
}

fn message(args: &[&str]) -> String {
    parse(args).unwrap_err().message("1.2.3")
}

#[test]
fn build_defaults() {
    let b = build(&["build", "--input", "v.npy", "--output", "./data"]);
    assert_eq!((b.input.as_str(), b.output.as_str()), ("v.npy", "./data"));
    assert_eq!(b.name, "default");
    assert_eq!((b.r, b.l_search), (None, None));
    assert_eq!(b.graph_params(), (64, 100));
}

#[test]
fn build_takes_every_flag_and_the_last_value() {
    let b = build(&[
        "build", "--name", "x", "--r", "32", "--output", "o", "--l", "+50", "--name", "docs",
        "--input", "i",
    ]);
    assert_eq!(b.name, "docs");
    assert_eq!((b.r, b.l_search), (Some(32), Some(50)));
    assert_eq!(b.graph_params(), (32, 50));
}

#[test]
fn help_and_version() {
    assert!(matches!(parse(&[]), Ok(Command::Help)));
    assert!(matches!(parse(&["-h"]), Ok(Command::Help)));
    assert!(matches!(parse(&["--help", "build"]), Ok(Command::Help)));
    assert!(matches!(parse(&["-V"]), Ok(Command::Version)));
    assert!(matches!(parse(&["--version"]), Ok(Command::Version)));
    assert!(matches!(parse(&["build", "--name", "x", "-h"]), Ok(Command::BuildHelp)));
    assert!(matches!(parse(&["inspect", "d", "--help"]), Ok(Command::InspectHelp)));
    assert!(matches!(parse(&["stats", "-h"]), Ok(Command::StatsHelp)));
    let text = usage("1.2.3");
    assert!(text.starts_with("skeg-cli 1.2.3 - operator tools for skeg\n\nUSAGE:\n"));
    assert!(text.ends_with("Run 'skeg-cli <COMMAND> --help' for command-specific options.\n"));
}

#[test]
fn lines_that_the_program_prints() {
    assert_eq!(version_line("1.2.3"), "skeg-cli 1.2.3\n");
    assert_eq!(failure("build", "empty dataset"), "build failed: empty dataset");
}

#[test]
fn a_value_is_not_a_request_for_help() {
    let b = build(&["build", "--input", "-h", "--output", "--help"]);
    assert_eq!((b.input.as_str(), b.output.as_str()), ("-h", "--help"));
}

#[test]
fn inspect_and_stats_take_one_argument() {
    match parse(&["inspect", "data", "more"]) {
        Ok(Command::Inspect(dir)) => assert_eq!(dir, "data"),
        other => panic!("{other:?}"),
    }
    match parse(&["stats", "127.0.0.1:6379"]) {
        Ok(Command::Stats(addr)) => assert_eq!(addr, "127.0.0.1:6379"),
        other => panic!("{other:?}"),
    }
}

#[test]
fn errors_in_words() {
    assert_eq!(
        message(&["serve"]),
        format!("unknown command 'serve'\n\n{}", usage("1.2.3"))
    );
    assert_eq!(message(&["build", "--input"]), "missing value for '--input'");
    assert_eq!(message(&["build", "--what"]), "missing value for '--what'");
    assert_eq!(
        message(&["build", "--what", "x"]),
        format!("unknown flag '--what'\n\n{BUILD_USAGE}")
    );
    assert_eq!(
        message(&["build", "--r", "many"]),
        "'--r' expects an integer, got 'many'"
    );
    assert_eq!(
        message(&["build", "--l", "-1"]),
        "'--l' expects an integer, got '-1'"
    );
    assert_eq!(message(&["build"]), "'build' requires --input");
    assert_eq!(message(&["build", "--input", "i"]), "'build' requires --output");
    assert_eq!(
        message(&["build", "--input", "i", "--output", "o", "--name", ""]),
        "--name must not be empty"
    );
    assert_eq!(
        message(&["inspect"]),
        format!("'inspect' requires <DATA-DIR>\n\n{INSPECT_USAGE}")
    );
    assert_eq!(
        message(&["stats"]),
        format!("'stats' requires <HOST:PORT>\n\n{STATS_USAGE}")
    );
}

#[test]
fn numbers_are_read_as_rust_reads_them() {
    assert_eq!(parse_usize("007", "--r").unwrap(), 7);
    assert_eq!(parse_usize("18446744073709551615", "--r").unwrap(), usize::MAX);
    for bad in ["", "+", "++1", " 1", "1 ", "1_0", "18446744073709551616"] {
        assert!(parse_usize(bad, "--r").is_err());
    }
}
