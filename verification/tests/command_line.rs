use system_monitor::cli::{
    command_summary, has_cli_args, is_worker_mode_requested, parse_args,
    parse_train_anomaly_options, parse_worker_command, run, run_gui_mode, CliArgs, RunMode,
    WorkerCommand,
};
use system_monitor::error::ParseError;

fn args(list: &[&str]) -> Vec<String> {
    list.iter().map(|s| s.to_string()).collect()
}

fn message(e: ParseError) -> String {
    match e {
        ParseError::ParsingError(m) => m,
    }
}

fn plain() -> CliArgs {
    CliArgs { show_threads: false, show_network: false, show_hierarchy: false, pid_filter: None }
}

#[test]
fn no_arguments_start_the_interface() {
    assert!(!has_cli_args(&args(&[])));
    assert_eq!(run(&args(&[])), Ok(RunMode::Gui));
}

#[test]
fn the_worker_switch_alone_starts_the_worker() {
    assert!(is_worker_mode_requested(&args(&["--worker"])));
    assert!(is_worker_mode_requested(&args(&["-worker"])));
    assert!(!is_worker_mode_requested(&args(&["--worker", "-threads"])));
    assert_eq!(run(&args(&["-worker"])), Ok(RunMode::Worker));
}

#[test]
fn options_select_what_one_shot_samples() {
    let a = parse_args(&args(&["-threads", "--pid=42"])).unwrap();
    assert_eq!(a, CliArgs { show_threads: true, pid_filter: Some(42), ..plain() });
    let b = parse_args(&args(&["--network", "-hierarchy", "-pid=1", "-pid=+7"])).unwrap();
    assert_eq!(
        b,
        CliArgs { show_network: true, show_hierarchy: true, pid_filter: Some(7), ..plain() }
    );
    assert_eq!(run(&args(&["-threads"])), Ok(RunMode::OneShot(CliArgs { show_threads: true, ..plain() })));
}

#[test]
fn a_bad_pid_is_reported_with_the_parse_error() {
    assert_eq!(
        message(parse_args(&args(&["-pid=abc"])).unwrap_err()),
        "invalid pid 'abc': invalid digit found in string"
    );
    assert_eq!(
        message(parse_args(&args(&["--pid="])).unwrap_err()),
        "invalid pid '': cannot parse integer from empty string"
    );
    assert_eq!(
        message(parse_args(&args(&["-pid=4294967296"])).unwrap_err()),
        "invalid pid '4294967296': number too large to fit in target type"
    );
}

#[test]
fn an_unknown_argument_is_reported() {
    assert_eq!(
        message(parse_args(&args(&["-threads", "--bogus", "-pid=x"])).unwrap_err()),
        "unknown argument '--bogus'. supported: -threads, -network, -hierarchy, -pid=<pid>"
    );
    assert_eq!(
        run(&args(&["-worker", "x"])).map_err(message),
        Err("unknown argument '-worker'. supported: -threads, -network, -hierarchy, -pid=<pid>"
            .to_string())
    );
}

#[test]
fn the_interface_is_not_built_in() {
    assert_eq!(
        run_gui_mode().map_err(message),
        Err("dioxus gui is disabled; run with `--features dioxus-gui`".to_string())
    );
}

#[test]
fn worker_commands_are_read_word_by_word() {
    assert_eq!(
        parse_worker_command("  threads pid=7 "),
        Ok(WorkerCommand::Sample(CliArgs { show_threads: true, pid_filter: Some(7), ..plain() }))
    );
    assert_eq!(parse_worker_command("cpu"), Ok(WorkerCommand::Sample(plain())));
    assert_eq!(
        parse_worker_command("network\t--pid=3"),
        Ok(WorkerCommand::Sample(CliArgs { show_network: true, pid_filter: Some(3), ..plain() }))
    );
    assert_eq!(
        parse_worker_command("hierarchy"),
        Ok(WorkerCommand::Sample(CliArgs { show_hierarchy: true, ..plain() }))
    );
    assert_eq!(parse_worker_command("quit"), Ok(WorkerCommand::Shutdown));
    assert_eq!(parse_worker_command("exit"), Ok(WorkerCommand::Shutdown));
}

#[test]
fn worker_command_errors() {
    assert_eq!(parse_worker_command("   ").map_err(message), Err("empty command".to_string()));
    assert_eq!(
        parse_worker_command("cpu foo").map_err(message),
        Err("unknown command argument 'foo'".to_string())
    );
    assert_eq!(
        parse_worker_command("bogus").map_err(message),
        Err("unknown command 'bogus'. supported: cpu, threads, network, hierarchy, quit"
            .to_string())
    );
    assert_eq!(
        parse_worker_command("bogus pid=x").map_err(message),
        Err("invalid pid 'x': invalid digit found in string".to_string())
    );
}

#[test]
fn worker_command_summaries() {
    let h = WorkerCommand::Sample(CliArgs { show_hierarchy: true, show_network: true, pid_filter: Some(9), ..plain() });
    assert_eq!(command_summary(&h), ("hierarchy", None));
    let n = WorkerCommand::Sample(CliArgs { show_network: true, show_threads: true, pid_filter: Some(9), ..plain() });
    assert_eq!(command_summary(&n), ("network", Some(9)));
    let t = WorkerCommand::Sample(CliArgs { show_threads: true, pid_filter: Some(2), ..plain() });
    assert_eq!(command_summary(&t), ("threads", Some(2)));
    assert_eq!(command_summary(&WorkerCommand::Sample(plain())), ("cpu", None));
    assert_eq!(command_summary(&WorkerCommand::Shutdown), ("shutdown", None));
}

#[test]
fn training_options_need_a_path_list() {
    assert!(parse_train_anomaly_options(&args(&[])).unwrap().is_none());
    assert!(parse_train_anomaly_options(&args(&["--window=5", "other"])).unwrap().is_none());
}

#[test]
fn training_paths_are_trimmed_and_empty_ones_dropped() {
    let o = parse_train_anomaly_options(&args(&["--train-anomaly", "a.csv, ,b.csv "]))
        .unwrap()
        .unwrap();
    assert_eq!(o.csv_paths, vec!["a.csv".to_string(), "b.csv".to_string()]);
    assert_eq!(o.window, 12);
    assert_eq!(o.train_ratio_text, None);
    let p = parse_train_anomaly_options(&args(&[
        "--train-ratio=0.5",
        "--train-anomaly=x.csv",
        "--window=30",
    ]))
    .unwrap()
    .unwrap();
    assert_eq!(p.csv_paths, vec!["x.csv".to_string()]);
    assert_eq!(p.window, 30);
    assert_eq!(p.train_ratio_text, Some("0.5".to_string()));
}

#[test]
fn training_option_errors() {
    let e = |list: &[&str]| message(parse_train_anomaly_options(&args(list)).unwrap_err());
    assert_eq!(e(&["--train-anomaly"]), "--train-anomaly expects a comma-separated path list");
    assert_eq!(e(&["--train-anomaly= , "]), "--train-anomaly requires at least one csv path");
    assert_eq!(e(&["--window=1", "--train-anomaly=a"]), "--window must be >= 2");
    assert_eq!(e(&["--window=x"]), "invalid --window 'x': invalid digit found in string");
    assert_eq!(e(&["--train-ratio=abc"]), "invalid --train-ratio 'abc': invalid float literal");
    assert_eq!(
        e(&["--train-ratio="]),
        "invalid --train-ratio '': cannot parse float from empty string"
    );
}

#[test]
fn ratio_texts_follow_the_float_grammar() {
    for ok in ["1e-1", "inf", "-Infinity", "NaN", ".5", "5.", "+3.25E+2", "7"] {
        let a = args(&["--train-anomaly=a", &format!("--train-ratio={ok}")]);
        let o = parse_train_anomaly_options(&a).unwrap().unwrap();
        assert_eq!(o.train_ratio_text, Some(ok.to_string()));
        assert!(ok.parse::<f64>().is_ok());
    }
    for bad in ["1e", ".", "+", "1.2.3", " 1", "e5", "0x1"] {
        let a = args(&[&format!("--train-ratio={bad}")]);
        assert!(parse_train_anomaly_options(&a).is_err(), "{bad}");
        assert!(bad.parse::<f64>().is_err());
    }
}
