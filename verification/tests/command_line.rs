use clap::{Arg, ArgEnum, ArgMatches};
use clap_complete::Shell;
use sbash::{
    Action, Matched, Parameter, Script, Surface, DEBUG_FLAG, ENTRY_NAME, FORWARDED_ARGS_NAME,
    SHELL_COMPLETIONS, SHOW_SCRIPT_FLAG,
};

const TOOLS: &str = "#^ Tools.\n#^\n#^ For the build.\n#> Builds.\n#>\n#> All of it.\npub fn build(\n  #> What to build.\n  target,\n  mode, #< Debug or release.\n) {\n  make \"$target\" \"$mode\"\n}\n\npub fn run(name, $@ #< Handed to the program.\n) {\n  \"./$name\" \"$@\"\n}\n\nfn helper() {\n  :\n}\n\npub fn main(name) {\n  echo \"$name\"\n}\n";

const ALONE: &str = "fn helper() {\n  :\n}\n\n#> Greets.\npub fn main(name) {\n  echo \"$name\"\n}\n";

fn strings(values: &[&str]) -> Vec<String> {
    values.iter().map(|v| v.to_string()).collect()
}

fn matched(command: Option<&str>, values: &[&[&str]]) -> Matched {
    Matched {
        show_script: false,
        debug: false,
        command: command.map(str::to_owned),
        values: values.iter().map(|v| strings(v)).collect(),
    }
}

fn shape(parameters: &[Parameter]) -> Vec<(&str, bool, bool)> {
    parameters
        .iter()
        .map(|p| (p.name.as_str(), p.required, p.multiple))
        .collect()
}

fn positional(parameter: &Parameter) -> Arg<'_> {
    Arg::new(parameter.name.as_str())
        .required(parameter.required)
        .multiple_values(parameter.multiple)
        .help(parameter.short.as_str())
        .long_help(parameter.long.as_str())
}

fn command(surface: &Surface) -> clap::Command<'_> {
    let mut app = clap::Command::new(surface.program.as_str())
        .about(surface.short.as_str())
        .long_about(surface.long.as_str());
    for flag in &surface.flags {
        let mut arg = Arg::new(flag.name.as_str())
            .long(flag.name.as_str())
            .exclusive(flag.exclusive)
            .help(flag.help.as_str());
        if let Some(long_help) = &flag.long_help {
            arg = arg.long_help(long_help.as_str());
        }
        arg = if flag.takes_shell {
            arg.possible_values(
                Shell::value_variants()
                    .iter()
                    .filter_map(ArgEnum::to_possible_value),
            )
        } else {
            arg.takes_value(false)
        };
        app = app.arg(arg);
    }
    for parameter in &surface.parameters {
        app = app.arg(positional(parameter));
    }
    for entry in &surface.commands {
        let mut sub = clap::Command::new(entry.name.as_str())
            .about(entry.short.as_str())
            .long_about(entry.long.as_str());
        for parameter in &entry.parameters {
            sub = sub.arg(positional(parameter));
        }
        app = app.subcommand(sub);
    }
    app
}

fn convert(surface: &Surface, matches: &ArgMatches) -> Matched {
    let (name, found) = match matches.subcommand() {
        Some((name, found)) => (Some(name), found),
        None => (None, matches),
    };
    let values = surface
        .parameters(name)
        .into_iter()
        .flatten()
        .map(|parameter| {
            found
                .values_of(parameter.name.as_str())
                .into_iter()
                .flatten()
                .map(str::to_owned)
                .collect()
        })
        .collect();
    Matched {
        show_script: matches.is_present(SHOW_SCRIPT_FLAG),
        debug: matches.is_present(DEBUG_FLAG),
        command: name.map(str::to_owned),
        values,
    }
}

/// What a call of `source` as `program` with `args` comes to, or the kind of
/// the usage error.
fn call(source: &str, args: &[&str]) -> Result<Action, clap::ErrorKind> {
    let script = Script::parse(source).unwrap();
    let surface = script.surface("program");
    let mut app = command(&surface);
    let all = std::iter::once("program").chain(args.iter().copied());
    let matches = app.try_get_matches_from_mut(all).map_err(|e| e.kind())?;
    let matched = convert(&surface, &matches);
    assert!(script.accepts(&matched));
    Ok(script.parse_args("program", &matched))
}

fn invoked(source: &str, args: &[&str]) -> (String, Vec<String>) {
    match call(source, args) {
        Ok(Action::Invoke { name, args }) => (name, args),
        other => panic!("{:?}", other),
    }
}

#[test]
fn names_are_the_reserved_ones() {
    assert_eq!(FORWARDED_ARGS_NAME, "$@");
    assert_eq!(ENTRY_NAME, "main");
    assert_eq!(SHOW_SCRIPT_FLAG, "show-script");
    assert_eq!(DEBUG_FLAG, "debug");
    assert_eq!(SHELL_COMPLETIONS, "shell-completions");
}

#[test]
fn surface_has_a_command_for_each_public_function() {
    let script = Script::parse(TOOLS).unwrap();
    let surface = script.surface("tools.sb");
    assert_eq!(surface.program, "tools.sb");
    assert_eq!(surface.short, "Tools.");
    assert_eq!(surface.long, "Tools.\n\nFor the build.");
    assert!(surface.parameters.is_empty());
    let names: Vec<&str> = surface.commands.iter().map(|c| c.name.as_str()).collect();
    assert_eq!(names, vec!["build", "run", "main"]);
    let build = &surface.commands[0];
    assert_eq!(build.short, "Builds.");
    assert_eq!(build.long, "Builds.\n\nAll of it.");
    assert_eq!(
        shape(&build.parameters),
        vec![("target", true, false), ("mode", true, false)]
    );
    assert_eq!(build.parameters[0].short, "What to build.");
    assert_eq!(build.parameters[1].long, "Debug or release.");
    let run = &surface.commands[1];
    assert_eq!(
        shape(&run.parameters),
        vec![("name", true, false), ("$@", false, true)]
    );
    assert_eq!(run.parameters[1].long, "Handed to the program.");
}

#[test]
fn surface_has_the_three_flags() {
    let script = Script::parse("").unwrap();
    let surface = script.surface("dir/my script.sb");
    let flags: Vec<(&str, bool, bool)> = surface
        .flags
        .iter()
        .map(|f| (f.name.as_str(), f.exclusive, f.takes_shell))
        .collect();
    assert_eq!(
        flags,
        vec![
            ("show-script", false, false),
            ("debug", true, false),
            ("shell-completions", true, true)
        ]
    );
    assert_eq!(
        surface.flags[0].help,
        "Show the generated bash script (without subcommand code)"
    );
    assert_eq!(surface.flags[0].long_help, None);
    assert_eq!(
        surface.flags[1].help,
        "Show the generated bash script for a subcommand"
    );
    assert_eq!(surface.flags[2].help, "Generate shell completions");
    assert_eq!(
        surface.flags[2].long_help.as_deref(),
        Some("Generate shell completions. To generate bash completions:\n\nsource <(\"dir/my script.sb\" --shell-completions bash)\n")
    );
}

#[test]
fn surface_of_a_single_public_main_is_that_of_main() {
    let script = Script::parse(ALONE).unwrap();
    assert!(script.has_shortcut());
    let surface = script.surface("program");
    assert!(surface.commands.is_empty());
    assert_eq!(shape(&surface.parameters), vec![("name", true, false)]);
    assert_eq!(shape(surface.parameters(None).unwrap()), vec![("name", true, false)]);
    assert!(surface.parameters(Some("main")).is_none());
}

#[test]
fn shortcut_needs_one_public_function_called_main() {
    let shortcut = |source: &str| Script::parse(source).unwrap().has_shortcut();
    assert!(shortcut("pub fn main() {\n}"));
    assert!(shortcut("fn a() {\n}\npub fn main() {\n}\nfn b() {\n}"));
    assert!(!shortcut("pub fn main() {\n}\npub fn other() {\n}"));
    assert!(!shortcut("pub fn other() {\n}"));
    assert!(!shortcut("fn main() {\n}"));
    assert!(!shortcut("fn main() {\n}\npub fn other() {\n}"));
    assert!(!shortcut(""));
    assert!(!shortcut("pub fn main_() {\n}"));
}

#[test]
fn parameters_are_looked_up_by_command() {
    let script = Script::parse(TOOLS).unwrap();
    let surface = script.surface("program");
    assert!(surface.parameters(None).unwrap().is_empty());
    assert_eq!(
        shape(surface.parameters(Some("run")).unwrap()),
        vec![("name", true, false), ("$@", false, true)]
    );
    assert!(surface.parameters(Some("helper")).is_none());
    assert!(surface.parameters(Some("")).is_none());
}

#[test]
fn show_script_wins_over_everything() {
    let script = Script::parse(TOOLS).unwrap();
    let mut m = matched(Some("nonsense"), &[&["a", "b"], &[]]);
    m.show_script = true;
    m.debug = true;
    assert!(script.accepts(&m));
    assert!(matches!(script.parse_args("program", &m), Action::ShowScript));
}

#[test]
fn debug_shows_the_script_of_the_call() {
    let script = Script::parse("pub fn hi(name) {\n  echo \"$name\"\n}\npub fn x() {\n}\n").unwrap();
    let mut m = matched(Some("hi"), &[&["alice"]]);
    m.debug = true;
    assert!(script.accepts(&m));
    match script.parse_args("dir/hi.sb", &m) {
        Action::ShowDebug { script } => assert_eq!(
            script,
            "hi () { ( name=\"$1\"; shift; \necho \"$name\"\n) };\nx () { :; }\n\nset -euo pipefail\nBASH_ARGV0=\"dir/hi.sb\"\n\nhi \"$@\""
        ),
        other => panic!("{:?}", other),
    }
}

#[test]
fn invocation_follows_the_rendered_script() {
    let script = Script::parse("fn f() {\n}\n").unwrap();
    assert_eq!(
        script.invocation("s.sb", "f"),
        "f () { :; }\n\nset -euo pipefail\nBASH_ARGV0=\"s.sb\"\n\nf \"$@\""
    );
    let empty = Script::parse("").unwrap();
    assert_eq!(
        empty.invocation("", ""),
        "\n\nset -euo pipefail\nBASH_ARGV0=\"\"\n\n \"$@\""
    );
}

#[test]
fn call_binds_one_value_for_each_argument() {
    let script = Script::parse(TOOLS).unwrap();
    let m = matched(Some("build"), &[&["lib"], &["release"]]);
    assert!(script.accepts(&m));
    match script.parse_args("program", &m) {
        Action::Invoke { name, args } => {
            assert_eq!(name, "build");
            assert_eq!(args, strings(&["lib", "release"]));
        }
        other => panic!("{:?}", other),
    }
}

#[test]
fn call_forwards_all_remaining_values_in_order() {
    let script = Script::parse(TOOLS).unwrap();
    let m = matched(Some("run"), &[&["tool"], &["-v", "b", "a", "b"]]);
    assert!(script.accepts(&m));
    match script.parse_args("program", &m) {
        Action::Invoke { name, args } => {
            assert_eq!(name, "run");
            assert_eq!(args, strings(&["tool", "-v", "b", "a", "b"]));
        }
        other => panic!("{:?}", other),
    }
    let none = matched(Some("run"), &[&["tool"], &[]]);
    assert!(script.accepts(&none));
    match script.parse_args("program", &none) {
        Action::Invoke { args, .. } => assert_eq!(args, strings(&["tool"])),
        other => panic!("{:?}", other),
    }
}

#[test]
fn no_subcommand_means_help() {
    let script = Script::parse(TOOLS).unwrap();
    let m = matched(None, &[]);
    assert!(script.accepts(&m));
    assert!(matches!(script.parse_args("program", &m), Action::Help));
    let mut debug = matched(None, &[]);
    debug.debug = true;
    assert!(matches!(script.parse_args("program", &debug), Action::Help));
    let empty = Script::parse("fn private() {\n}").unwrap();
    assert!(matches!(empty.parse_args("program", &matched(None, &[])), Action::Help));
}

#[test]
fn matches_that_the_surface_rules_out_are_not_accepted() {
    let script = Script::parse(TOOLS).unwrap();
    assert!(!script.accepts(&matched(Some("helper"), &[])));
    assert!(!script.accepts(&matched(Some("nothing"), &[])));
    assert!(!script.accepts(&matched(Some("build"), &[&["lib"]])));
    assert!(!script.accepts(&matched(Some("build"), &[&["lib"], &["a", "b"]])));
    assert!(!script.accepts(&matched(Some("build"), &[&["lib"], &[]])));
    assert!(!script.accepts(&matched(Some("build"), &[&["lib"], &["a"], &["b"]])));
    assert!(!script.accepts(&matched(Some("run"), &[&["tool"]])));
    assert!(!script.accepts(&matched(Some("run"), &[&[], &["x"]])));
    assert!(script.accepts(&matched(Some("main"), &[&["x"]])));
    let alone = Script::parse(ALONE).unwrap();
    assert!(alone.accepts(&matched(None, &[&["x"]])));
    assert!(!alone.accepts(&matched(None, &[])));
}

#[test]
fn item_arg_spec_names_the_arguments() {
    let script = Script::parse("#> Runs.\npub fn run(a, b, $@) {\n}\nfn g(x) {\n}").unwrap();
    let (command, names) = sbash::cli::item_arg_spec(&script.items()[0]);
    assert_eq!(command.name, "run");
    assert_eq!(command.short, "Runs.");
    assert_eq!(
        shape(&command.parameters),
        vec![("a", true, false), ("b", true, false), ("$@", false, true)]
    );
    assert_eq!(names.names, strings(&["a", "b"]));
    assert!(names.forward_extra);
    let (command, names) = sbash::cli::item_arg_spec(&script.items()[1]);
    assert_eq!(shape(&command.parameters), vec![("x", true, false)]);
    assert_eq!(names.names, strings(&["x"]));
    assert!(!names.forward_extra);
}

#[test]
fn extract_args_takes_the_values_in_order() {
    let script = Script::parse("fn run(a, b, $@) {\n}\nfn g(x, y) {\n}").unwrap();
    let (_, names) = sbash::cli::item_arg_spec(&script.items()[0]);
    let m = matched(None, &[&["1"], &["2"], &["3", "4"]]);
    assert_eq!(sbash::cli::extract_args(&m, &names), strings(&["1", "2", "3", "4"]));
    let (_, names) = sbash::cli::item_arg_spec(&script.items()[1]);
    let m = matched(None, &[&["1"], &["2"]]);
    assert_eq!(sbash::cli::extract_args(&m, &names), strings(&["1", "2"]));
}

#[test]
fn single_public_main_is_called_without_subcommand() {
    assert_eq!(
        invoked(ALONE, &["alice"]),
        ("main".to_owned(), strings(&["alice"]))
    );
    assert_eq!(
        invoked("pub fn main(name) {\n  echo \"$name\"\n}\n", &["alice"]),
        ("main".to_owned(), strings(&["alice"]))
    );
}

#[test]
fn single_public_main_binds_as_the_subcommand_main_does() {
    assert_eq!(invoked(ALONE, &["alice"]), invoked(TOOLS, &["main", "alice"]));
    let alone = "pub fn main(a, b, $@) {\n}";
    let among = "pub fn main(a, b, $@) {\n}\npub fn other() {\n}";
    assert_eq!(
        invoked(alone, &["1", "2", "3", "4"]),
        invoked(among, &["main", "1", "2", "3", "4"])
    );
    assert_eq!(
        invoked(alone, &["1", "2"]),
        ("main".to_owned(), strings(&["1", "2"]))
    );
}

#[test]
fn single_public_main_never_asks_for_a_subcommand() {
    assert!(matches!(
        call(ALONE, &[]),
        Err(clap::ErrorKind::MissingRequiredArgument)
    ));
    assert_eq!(
        invoked("pub fn main() {\n}", &[]),
        ("main".to_owned(), strings(&[]))
    );
    assert!(matches!(call(TOOLS, &[]), Ok(Action::Help)));
}

#[test]
fn forward_marker_takes_zero_or_more_values() {
    assert_eq!(invoked(TOOLS, &["run", "tool"]), ("run".to_owned(), strings(&["tool"])));
    assert_eq!(
        invoked(TOOLS, &["run", "tool", "a"]),
        ("run".to_owned(), strings(&["tool", "a"]))
    );
    assert_eq!(
        invoked(TOOLS, &["run", "tool", "a", "b", "a"]),
        ("run".to_owned(), strings(&["tool", "a", "b", "a"]))
    );
    assert!(matches!(
        call(TOOLS, &["run"]),
        Err(clap::ErrorKind::MissingRequiredArgument)
    ));
}

#[test]
fn named_arguments_take_exactly_one_value() {
    assert_eq!(
        invoked(TOOLS, &["build", "lib", "debug"]),
        ("build".to_owned(), strings(&["lib", "debug"]))
    );
    assert!(matches!(
        call(TOOLS, &["build", "lib"]),
        Err(clap::ErrorKind::MissingRequiredArgument)
    ));
    assert!(call(TOOLS, &["build", "lib", "debug", "more"]).is_err());
}

#[test]
fn private_functions_are_no_subcommands() {
    assert!(call(TOOLS, &["helper"]).is_err());
    assert!(call(TOOLS, &["nothing"]).is_err());
}

#[test]
fn flags_are_matched_on_the_program() {
    assert!(matches!(call(TOOLS, &["--show-script"]), Ok(Action::ShowScript)));
    match call(TOOLS, &["--debug", "main", "x"]) {
        Ok(Action::ShowDebug { script }) => {
            assert!(script.ends_with("\n\nset -euo pipefail\nBASH_ARGV0=\"program\"\n\nmain \"$@\""))
        }
        other => panic!("{:?}", other),
    }
    assert!(call(TOOLS, &["--debug", "--show-script"]).is_err());
    assert!(call(TOOLS, &["--shell-completions", "nosuchshell"]).is_err());
}
