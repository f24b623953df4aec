use uuid::Uuid;
use wherefrom::parser::{parse_args, CliArgs, ParseOutcome};

#[test]
fn parses_all_and_files() {
    let file_a = format!("{}.jpg", Uuid::new_v4());
    let file_b = format!("{}.png", Uuid::new_v4());
    let result = parse_args(vec![String::from("--all"), file_a.clone(), file_b.clone()]).unwrap();

    let ParseOutcome::Run(args) = result else {
        panic!("expected run outcome");
    };

    assert!(args.all);
    assert!(!args.print0);
    assert!(!args.jsonl);
    assert_eq!(args.files, vec![file_a, file_b]);
}

#[test]
fn parses_short_all_flag() {
    let file = format!("{}.jpg", Uuid::new_v4());
    let result = parse_args(vec![String::from("-a"), file.clone()]).unwrap();

    let ParseOutcome::Run(args) = result else {
        panic!("expected run outcome");
    };

    assert!(args.all);
    assert!(!args.print0);
    assert!(!args.jsonl);
    assert_eq!(args.files, vec![file]);
}

#[test]
fn parses_help() {
    let result = parse_args(vec![String::from("--help")]).unwrap();
    assert!(matches!(result, ParseOutcome::Help));
}

#[test]
fn parses_version() {
    let result = parse_args(vec![String::from("--version")]).unwrap();
    assert!(matches!(result, ParseOutcome::Version));
}

#[test]
fn parses_short_version_flag() {
    let result = parse_args(vec![String::from("-v")]).unwrap();
    assert!(matches!(result, ParseOutcome::Version));
}

#[test]
fn stops_parsing_options_after_double_dash() {
    let value = format!("--{}.jpg", Uuid::new_v4());
    let result = parse_args(vec![String::from("--"), value.clone()]).unwrap();

    let ParseOutcome::Run(args) = result else {
        panic!("expected run outcome");
    };

    assert!(!args.all);
    assert!(!args.print0);
    assert!(!args.jsonl);
    assert_eq!(args.files, vec![value]);
}

#[test]
fn rejects_unknown_options() {
    let result = parse_args(vec![String::from("--wat")]).unwrap_err();
    assert_eq!(result, "wherefrom: unrecognized option '--wat'");
}

#[test]
fn requires_at_least_one_file() {
    let result = parse_args(Vec::<String>::new()).unwrap_err();
    assert_eq!(result, "wherefrom: missing file operand");
}

#[test]
fn parses_print0() {
    let file = format!("{}.jpg", Uuid::new_v4());
    let result = parse_args(vec![String::from("--print0"), file.clone()]).unwrap();

    let ParseOutcome::Run(args) = result else {
        panic!("expected run outcome");
    };

    assert!(!args.all);
    assert!(args.print0);
    assert!(!args.jsonl);
    assert_eq!(args.files, vec![file]);
}

#[test]
fn parses_jsonl() {
    let file = format!("{}.jpg", Uuid::new_v4());
    let result = parse_args(vec![String::from("--jsonl"), file.clone()]).unwrap();

    let ParseOutcome::Run(args) = result else {
        panic!("expected run outcome");
    };

    assert!(!args.all);
    assert!(!args.print0);
    assert!(args.jsonl);
    assert_eq!(args.files, vec![file]);
}

#[test]
fn rejects_conflicting_machine_formats() {
    let result = parse_args(vec![
        String::from("--print0"),
        String::from("--jsonl"),
        format!("{}.jpg", Uuid::new_v4()),
    ])
    .unwrap_err();
    assert_eq!(
        result,
        "wherefrom: options '--print0' and '--jsonl' are mutually exclusive"
    );
}

fn strings(words: &[&str]) -> Vec<String> {
    words.iter().map(|w| w.to_string()).collect()
}

#[test]
fn help_wins_over_later_unknown_option_and_missing_file() {
    assert_eq!(parse_args(strings(&["-h", "--wat"])), Ok(ParseOutcome::Help));
    assert_eq!(parse_args(strings(&["-a", "--help", "x"])), Ok(ParseOutcome::Help));
}

#[test]
fn version_checked_before_help_in_order_of_appearance() {
    assert_eq!(parse_args(strings(&["--version", "--help"])), Ok(ParseOutcome::Version));
    assert_eq!(parse_args(strings(&["--help", "--version"])), Ok(ParseOutcome::Help));
}

#[test]
fn unknown_option_reported_before_missing_operand() {
    assert_eq!(
        parse_args(strings(&["-x"])),
        Err(String::from("wherefrom: unrecognized option '-x'"))
    );
}

#[test]
fn options_after_files_are_still_options() {
    assert_eq!(
        parse_args(strings(&["a.jpg", "--all", "b.jpg"])),
        Ok(ParseOutcome::Run(CliArgs {
            all: true,
            print0: false,
            jsonl: false,
            files: strings(&["a.jpg", "b.jpg"]),
        }))
    );
}

#[test]
fn double_dash_makes_flags_into_files() {
    assert_eq!(
        parse_args(strings(&["--print0", "--", "--jsonl", "-h", "--"])),
        Ok(ParseOutcome::Run(CliArgs {
            all: false,
            print0: true,
            jsonl: false,
            files: strings(&["--jsonl", "-h", "--"]),
        }))
    );
}

#[test]
fn lone_dash_is_an_unknown_option() {
    assert_eq!(
        parse_args(strings(&["-"])),
        Err(String::from("wherefrom: unrecognized option '-'"))
    );
}

#[test]
fn empty_argument_is_a_file() {
    assert_eq!(
        parse_args(strings(&[""])),
        Ok(ParseOutcome::Run(CliArgs {
            all: false,
            print0: false,
            jsonl: false,
            files: strings(&[""]),
        }))
    );
}

#[test]
fn command_line_round_trip_on_concrete_run() {
    let expected = CliArgs {
        all: true,
        print0: false,
        jsonl: true,
        files: strings(&["-odd", "--all"]),
    };
    assert_eq!(
        parse_args(strings(&["--all", "--jsonl", "--", "-odd", "--all"])),
        Ok(ParseOutcome::Run(expected))
    );
}

#[test]
fn repeated_flags_are_accepted() {
    assert_eq!(
        parse_args(strings(&["-a", "--all", "--jsonl", "--jsonl", "f"])),
        Ok(ParseOutcome::Run(CliArgs {
            all: true,
            print0: false,
            jsonl: true,
            files: strings(&["f"]),
        }))
    );
}
