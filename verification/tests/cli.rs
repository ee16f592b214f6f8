use gorgeous::cli::{choose_language, parse_args, parse_usize, CliCommand, CliOptions};

fn args(xs: &[&str]) -> Vec<String> {
    xs.iter().map(|s| s.to_string()).collect()
}

fn run(xs: &[&str]) -> CliOptions {
    match parse_args(&args(xs)) {
        CliCommand::Run(o) => o,
        CliCommand::Usage => panic!("usage for {:?}", xs),
        CliCommand::UnknownOption(s) => panic!("unknown option {s} for {:?}", xs),
        CliCommand::ClearCache => panic!("clear-cache for {:?}", xs),
    }
}

#[test]
fn no_arguments_print_usage() {
    assert!(matches!(parse_args(&args(&[])), CliCommand::Usage));
}

#[test]
fn input_file_alone_uses_defaults() {
    let o = run(&["input.json"]);
    assert_eq!(o.input_path.as_deref(), Some("input.json"));
    assert_eq!(o.width, 80);
    assert_eq!(o.indent, 4);
    assert!(!o.use_tabs);
    assert!(o.lang.is_none());
    assert!(o.grammar_path.is_none());
    assert!(o.rule.is_none());
    assert!(o.output_path.is_none());
}

#[test]
fn readme_command_lines() {
    let o = run(&["--lang", "css", "input.css"]);
    assert_eq!(o.lang.as_deref(), Some("css"));
    assert_eq!(o.input_path.as_deref(), Some("input.css"));

    let o = run(&["--grammar", "my.bbnf", "-r", "expr", "in.txt"]);
    assert_eq!(o.grammar_path.as_deref(), Some("my.bbnf"));
    assert_eq!(o.rule.as_deref(), Some("expr"));
    assert_eq!(o.input_path.as_deref(), Some("in.txt"));

    let o = run(&["--lang", "json"]);
    assert_eq!(o.lang.as_deref(), Some("json"));
    assert!(o.input_path.is_none());

    let o = run(&["input.css", "-o", "output.css"]);
    assert_eq!(o.output_path.as_deref(), Some("output.css"));
    assert_eq!(o.input_path.as_deref(), Some("input.css"));

    let o = run(&["-w", "120", "-i", "2", "input.json"]);
    assert_eq!(o.width, 120);
    assert_eq!(o.indent, 2);

    assert!(matches!(parse_args(&args(&["--clear-cache"])), CliCommand::ClearCache));
}

#[test]
fn short_and_long_options() {
    let o = run(&["-l", "bnf", "-g", "g.bbnf", "--rule", "start", "--width", "60", "--indent", "8", "--tabs", "--output", "o.txt", "x"]);
    assert_eq!(o.lang.as_deref(), Some("bnf"));
    assert_eq!(o.grammar_path.as_deref(), Some("g.bbnf"));
    assert_eq!(o.rule.as_deref(), Some("start"));
    assert_eq!(o.width, 60);
    assert_eq!(o.indent, 8);
    assert!(o.use_tabs);
    assert_eq!(o.output_path.as_deref(), Some("o.txt"));
    assert_eq!(o.input_path.as_deref(), Some("x"));
}

#[test]
fn later_values_replace_earlier_ones() {
    let o = run(&["-w", "100", "a.json", "--width", "90", "b.json"]);
    assert_eq!(o.width, 90);
    assert_eq!(o.input_path.as_deref(), Some("b.json"));
}

#[test]
fn malformed_command_lines() {
    assert!(matches!(parse_args(&args(&["-w"])), CliCommand::Usage));
    assert!(matches!(parse_args(&args(&["-w", "wide"])), CliCommand::Usage));
    assert!(matches!(parse_args(&args(&["-i", "-1"])), CliCommand::Usage));
    assert!(matches!(parse_args(&args(&["a.json", "--lang"])), CliCommand::Usage));
    assert!(matches!(parse_args(&args(&["-h"])), CliCommand::Usage));
    assert!(matches!(parse_args(&args(&["--help", "a.json"])), CliCommand::Usage));
    match parse_args(&args(&["a.json", "-x", "--clear-cache"])) {
        CliCommand::UnknownOption(s) => assert_eq!(s, "-x"),
        _ => panic!("expected an unknown option"),
    }
    assert!(matches!(parse_args(&args(&["--clear-cache", "-x"])), CliCommand::ClearCache));
}

#[test]
fn parse_usize_as_std_does() {
    for s in ["0", "42", "+7", "007", "", "+", "-1", "1_0", " 1", "4294967295", "18446744073709551615", "18446744073709551616", "99999999999999999999"] {
        assert_eq!(parse_usize(s), s.parse::<usize>().ok(), "input {s:?}");
    }
    assert_eq!(parse_usize("120"), Some(120));
    assert_eq!(parse_usize("+7"), Some(7));
    assert_eq!(parse_usize("x"), None);
}

#[test]
fn language_choice() {
    assert_eq!(choose_language(Some("css"), Some("a.json")).as_deref(), Some("css"));
    assert_eq!(choose_language(None, Some("dir/a.json")).as_deref(), Some("json"));
    assert_eq!(choose_language(None, Some("a.txt")), None);
    assert_eq!(choose_language(None, None), None);
}
