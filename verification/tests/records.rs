use mvr::cli::{argparse, build_parser, ArgDef, ArgKind};
use mvr::logger::generate_json_string;
use mvr::structs::{failure_code, Color, FileFailure, OperationStatus, Opts, RunAction};

#[test]
fn status_records_success_and_failure() {
    let mut status = OperationStatus::new(2);
    assert!(status.files.is_empty() && status.status.is_empty());
    status.record_outcome("a".to_string(), "b".to_string(), &Ok(()));
    let err = anyhow::Error::msg("ECP006 TOCTOU Blocked: exists").context("ECP006");
    status.record_outcome("c".to_string(), "d".to_string(), &Err(format!("{:#}", err)));
    assert_eq!(status.files, vec![("a".to_string(), "b".to_string()), ("c".to_string(), "d".to_string())]);
    assert_eq!(
        status.status[0],
        ("Success".to_string(), "Operation successfully completed".to_string())
    );
    assert_eq!(status.status[1].0, "ECP006");
}

#[test]
fn journal_text() {
    let mut status = OperationStatus::new(2);
    status.record_outcome("a".to_string(), "b".to_string(), &Ok(()));
    status.record_outcome("c".to_string(), "d".to_string(), &Err("E1: no".to_string()));
    let expected = "[\n    { \"source\":\"a\", \"destination\":\"b\", \"status\":\"Success\", \"status_description\" : \"Operation successfully completed\" },\n    { \"source\":\"c\", \"destination\":\"d\", \"status\":\"E1\", \"status_description\" : \"E1\" }\n]\n\n";
    assert_eq!(generate_json_string(&status), expected);
    assert_eq!(generate_json_string(&OperationStatus::new(0)), "[\n]\n\n");
}

fn opts(copy_bool: bool, move_bool: bool, force_run: bool) -> Opts {
    Opts {
        files: vec!["a".to_string()],
        copy_bool,
        move_bool,
        force_run,
        log_bool: false,
        source_pattern: "a".to_string(),
        dest_pattern: "b".to_string(),
    }
}

#[test]
fn run_banner_and_action() {
    assert_eq!(opts(true, false, false).banner(), "\n\x1b[34mThis is a DRY run for copying \x1b[0m");
    assert_eq!(
        opts(false, true, false).banner(),
        "\n\x1b[34mThis is a DRY run for renaming/moving \x1b[0m"
    );
    assert_eq!(opts(true, true, true).banner(), "");
    assert_eq!(opts(true, true, true).run_action(), RunAction::Rename);
    assert_eq!(opts(true, false, true).run_action(), RunAction::Copy);
    assert_eq!(opts(true, true, false).run_action(), RunAction::Nothing);
}

#[test]
fn colours() {
    assert_eq!(Color::Red.as_str(), "\x1b[31m");
    assert_eq!(Color::Green.as_str(), "\x1b[32m");
    assert_eq!(Color::Blue.as_str(), "\x1b[34m");
    assert_eq!(Color::Default.as_str(), "\x1b[0m");
}

fn words(args: &[&str]) -> Vec<String> {
    args.iter().map(|a| a.to_string()).collect()
}

#[test]
#[should_panic]
fn test_empty_set() {
    {
        argparse(words(&["-m", "(.*)", "$1.bak", ""])).unwrap();
    }
    {
        argparse(words(&["-m", "(.*)", "$1.bak", " "])).unwrap();
    }
}

#[test]
fn argparse_reads_options() {
    let opts = argparse(words(&["mvr", "-m", "-f", r"(.*)\.txt", "$1.bak", "a.txt", "b.txt"])).unwrap();
    assert!(opts.move_bool && opts.force_run && !opts.copy_bool && !opts.log_bool);
    assert_eq!(opts.source_pattern, r"(.*)\.txt");
    assert_eq!(opts.dest_pattern, "$1.bak");
    assert_eq!(opts.files, vec!["a.txt".to_string(), "b.txt".to_string()]);
    assert!(argparse(words(&["mvr", "only_one"])).is_err());
}

#[test]
fn parser_description() {
    let def = build_parser();
    assert_eq!(def.name, "File stat");
    assert_eq!(def.args.len(), 7);
    assert!(matches!(
        def.args[2],
        ArgDef::Positional { id: "paths", kind: ArgKind::Append, required: true, non_empty: true }
    ));
    assert!(matches!(
        def.args[4],
        ArgDef::Flag { id: "move", short: 'm', long: "move", kind: ArgKind::SetTrue, default_value: "false", .. }
    ));
}

#[test]
fn journal_escapes_json_text() {
    let mut status = OperationStatus::new(1);
    status.record_outcome("q\"b\\s".to_string(), "n\nt\tc\u{1}".to_string(), &Ok(()));
    let expected = "[\n    { \"source\":\"q\\\"b\\\\s\", \"destination\":\"n\\nt\\tc\\u0001\", \"status\":\"Success\", \"status_description\" : \"Operation successfully completed\" }\n]\n\n";
    assert_eq!(generate_json_string(&status), expected);
}

#[test]
fn status_code_follows_the_message() {
    let mut status = OperationStatus::new(1);
    status.record_outcome("a".to_string(), "b".to_string(), &Err(" ERN003 : no parent".to_string()));
    assert_eq!(status.status[0], ("ERN003".to_string(), "ERN003".to_string()));
    status.record_outcome("a".to_string(), "b".to_string(), &Err("plain failure".to_string()));
    assert_eq!(status.status[1], ("UNKNOWN".to_string(), "plain failure".to_string()));
}

#[test]
fn argparse_refuses_empty_path_and_missing_arguments() {
    assert!(argparse(words(&["mvr", "(.*)", "$1.bak", ""])).is_err());
    assert!(argparse(words(&["mvr", "(.*)", "$1.bak"])).is_err());
    let opts = argparse(words(&["mvr", "--copy", "--log", "a", "b", "x"])).unwrap();
    assert!(opts.copy_bool && opts.log_bool && !opts.move_bool && !opts.force_run);
    assert_eq!(opts.files, vec!["x".to_string()]);
}

#[test]
fn failure_codes() {
    assert_eq!(failure_code(RunAction::Rename, FileFailure::DestinationTaken), Some("ERN001"));
    assert_eq!(failure_code(RunAction::Rename, FileFailure::ParentMissing), Some("ERN003"));
    assert_eq!(failure_code(RunAction::Copy, FileFailure::SourceIsDirectory), Some("ECP_DIR"));
    assert_eq!(failure_code(RunAction::Copy, FileFailure::DestinationTaken), None);
    assert_eq!(failure_code(RunAction::Rename, FileFailure::SourceIsDirectory), None);
    assert_eq!(failure_code(RunAction::Nothing, FileFailure::ParentMissing), None);
}
