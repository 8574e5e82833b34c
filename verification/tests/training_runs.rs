use system_monitor::datasets::{group_runs, RunRow};

fn row(run: &str, step: u64) -> RunRow {
    RunRow { run_id: run.to_string(), step }
}

#[test]
fn rows_are_grouped_by_run_in_id_and_step_order() {
    let rows = vec![row("b", 2), row("a", 1), row("b", 0), row("a", 0), row("b", 2)];
    let runs = group_runs("data/x.csv", &rows);
    assert_eq!(runs.len(), 2);
    assert_eq!(runs[0].run_id, "data/x.csv::a");
    assert_eq!(runs[0].rows, vec![3, 1]);
    assert_eq!(runs[1].run_id, "data/x.csv::b");
    assert_eq!(runs[1].rows, vec![2, 0, 4]);
}

#[test]
fn a_file_without_rows_has_no_runs() {
    assert!(group_runs("empty.csv", &vec![]).is_empty());
}

#[test]
fn run_ids_order_by_code_point() {
    let rows = vec![row("run10", 0), row("Run2", 0), row("run2", 0)];
    let runs = group_runs("f", &rows);
    let ids: Vec<&str> = runs.iter().map(|r| r.run_id.as_str()).collect();
    assert_eq!(ids, vec!["f::Run2", "f::run10", "f::run2"]);
}

use system_monitor::splits::{label_group_sizes, split_runs, RunLabel};

fn run(id: &str, label: Option<u8>) -> RunLabel {
    RunLabel { run_id: id.to_string(), first_label: label }
}

#[test]
fn each_label_group_is_split_by_its_share_in_id_order() {
    let runs = vec![
        run("r3", Some(1)),
        run("r1", Some(0)),
        run("r2", Some(1)),
        run("r1", Some(1)),
        run("r4", Some(0)),
        run("r0", None),
    ];
    assert_eq!(label_group_sizes(&runs), (3, 3));
    let (train, valid) = split_runs(&runs, 2, 2);
    // same id: the positive run first
    assert_eq!(train, vec![5, 3, 1, 2]);
    assert_eq!(valid, vec![0, 4]);
}

#[test]
fn a_share_is_kept_between_one_and_all_but_one() {
    let runs = vec![run("a", Some(1)), run("b", Some(0)), run("c", Some(0)), run("d", Some(0))];
    let (train, valid) = split_runs(&runs, 0, 0);
    assert_eq!(train, vec![0, 1]);
    assert_eq!(valid, vec![2, 3]);
    let (train, valid) = split_runs(&runs, 9, 9);
    assert_eq!(train, vec![0, 1, 2]);
    assert_eq!(valid, vec![3]);
}

#[test]
fn no_runs_split_into_nothing() {
    let (train, valid) = split_runs(&vec![], 1, 1);
    assert!(train.is_empty() && valid.is_empty());
}

use system_monitor::trainer::csv_paths_from_listing;

fn entry(name: &str) -> (String, String) {
    (name.to_string(), format!("data/{name}"))
}

#[test]
fn only_csv_files_are_listed_in_path_order() {
    let entries = vec![
        entry("b.csv"),
        entry("notes.txt"),
        entry("a.csv"),
        entry(".csv"),
        entry("archive.tar.csv"),
        entry("csv"),
        entry("x.CSV"),
        entry("y.csv."),
    ];
    assert_eq!(
        csv_paths_from_listing(&entries, "data"),
        Ok(vec![
            "data/a.csv".to_string(),
            "data/archive.tar.csv".to_string(),
            "data/b.csv".to_string()
        ])
    );
}

#[test]
fn a_directory_without_csv_files_is_an_error() {
    assert_eq!(
        csv_paths_from_listing(&vec![entry("readme.md")], "data"),
        Err("no csv files found in 'data'".to_string())
    );
}

use system_monitor::splits::{scenario_group_sizes, split_runs_by_scenario};

#[test]
fn runs_are_split_by_their_scenarios() {
    let runs = vec![
        run("r5", Some(1)),
        run("r1", Some(1)),
        run("r3", Some(1)),
        run("r2", Some(0)),
        run("r4", Some(0)),
        run("r0", Some(1)),
    ];
    let scenarios: Vec<String> =
        ["sc_b", "sc_a", "sc_c", "n1", "n1", "sc_a"].iter().map(|s| s.to_string()).collect();
    assert_eq!(scenario_group_sizes(&runs, &scenarios), (3, 1));
    // a group with one scenario trains whole
    let (train, valid) = split_runs_by_scenario(&runs, &scenarios, 2, 1);
    assert_eq!(train, vec![5, 1, 3, 4, 0]);
    assert_eq!(valid, vec![2]);
    let (train, valid) = split_runs_by_scenario(&runs, &scenarios, 0, 0);
    assert_eq!(train, vec![5, 1, 3, 4]);
    assert_eq!(valid, vec![2, 0]);
}
