use system_monitor::anomaly;
use system_monitor::leak_report::{
    analysis_summary_line, class_label, class_rank, class_slug, frame_symbol, group_key, top_frame,
    AllocationSummary, BlockClass, LossTotals, ReachabilitySummary,
};
use system_monitor::passwd::build_username_map;
use system_monitor::trainer::{
    check_training_split, confusion_counts, csv_paths_from_manifest, parse_trainer_args,
    ConfusionCounts, RandomForestConfig,
};

fn stack(frames: &[&str]) -> Vec<String> {
    frames.iter().map(|s| s.to_string()).collect()
}

#[test]
fn block_classes() {
    assert_eq!(class_rank(BlockClass::DefinitelyLost), 3);
    assert_eq!(class_rank(BlockClass::StillReachable), 0);
    assert_eq!(class_label(BlockClass::IndirectlyLost), "indirectly lost");
    assert_eq!(class_label(BlockClass::PossiblyLost), "possibly lost");
    assert_eq!(class_slug(BlockClass::StillReachable), "reachable");
    assert_eq!(class_slug(BlockClass::DefinitelyLost), "definitely");
}

#[test]
fn function_names_of_frames() {
    assert_eq!(frame_symbol("foo+0x12 [bin]"), Some("foo".to_string()));
    assert_eq!(frame_symbol("  bar [libx.so]  \u{2192}  main.c:10"), Some("bar".to_string()));
    assert_eq!(frame_symbol("0x1234"), None);
    assert_eq!(frame_symbol("   "), None);
    assert_eq!(frame_symbol("+0x10"), None);
    assert_eq!(frame_symbol("baz"), Some("baz".to_string()));
}

#[test]
fn blocks_group_by_their_source_line() {
    assert_eq!(
        group_key(&stack(&["0xdead", "alloc+0x1 [a]  \u{2192}  src/a.c:5", "x \u{2192} b.c:1"])),
        Some("src/a.c:5".to_string())
    );
    assert_eq!(
        group_key(&stack(&["malloc+0x1 [libc.so]  \u{2192}  libc/malloc.c:1", "work+0x2 [app]"])),
        Some("work".to_string())
    );
    assert_eq!(group_key(&stack(&["0x1", "libc_start+0x2"])), None);
    assert_eq!(group_key(&stack(&[])), None);
    assert_eq!(group_key(&stack(&["f \u{2192}   "])), Some("f".to_string()));
}

#[test]
fn the_frame_shown_for_a_block() {
    assert_eq!(top_frame(&stack(&["0x1", "malloc [libc]", "main+0x3"])), "main+0x3");
    assert_eq!(top_frame(&stack(&["0x1", "malloc [libc]"])), "malloc [libc]");
    assert_eq!(top_frame(&stack(&["0x1", "0x2"])), "0x1");
    assert_eq!(top_frame(&stack(&[])), "(no stack)");
}

#[test]
fn scan_summaries() {
    let reach = ReachabilitySummary {
        definitely_lost: LossTotals { block_count: 2, total_bytes: 1024 },
        indirectly_lost: LossTotals { block_count: 1, total_bytes: 512 },
        possibly_lost: LossTotals { block_count: 0, total_bytes: 0 },
    };
    let deep = AllocationSummary { verdict: "growing".to_string(), total_outstanding_bytes: 2048 };
    assert_eq!(
        analysis_summary_line(Some(&deep), Some(&reach)),
        Some("reachability: 3 blocks lost \u{b7} 1.5 KB".to_string())
    );
    assert_eq!(
        analysis_summary_line(Some(&deep), None),
        Some("allocation: growing \u{b7} 2.0 KB outstanding".to_string())
    );
    assert_eq!(analysis_summary_line(None, None), None);
}

#[test]
fn user_names_from_passwd_text() {
    let m = build_username_map(
        "root:x:0:0:root:/root:/bin/bash\nbob:x:1000:1000::/home/bob:/bin/sh\nbad line\nalice:x:abc:1\ncarol:x:5\r\nnouid:x\n",
    );
    assert_eq!(m.len(), 3);
    assert_eq!(m.get(&0).map(String::as_str), Some("root"));
    assert_eq!(m.get(&1000).map(String::as_str), Some("bob"));
    assert_eq!(m.get(&5).map(String::as_str), Some("carol"));
    let later = build_username_map("a:x:7:1\nb:x:7:1");
    assert_eq!(later.get(&7).map(String::as_str), Some("b"));
    assert!(build_username_map("").is_empty());
}

#[test]
fn forest_defaults() {
    let monitor = anomaly::RandomForestConfig::default();
    assert_eq!((monitor.n_trees, monitor.max_depth, monitor.min_samples_split), (200, Some(12), 4));
    let trainer = RandomForestConfig::default();
    assert_eq!((trainer.n_trees, trainer.max_depth, trainer.min_samples_split), (300, Some(16), 4));
}

fn args(list: &[&str]) -> Vec<String> {
    list.iter().map(|s| s.to_string()).collect()
}

#[test]
fn trainer_arguments() {
    let a = parse_trainer_args(&args(&[])).unwrap();
    assert_eq!(a.dataset_dir, Some("./experiments/dataset_large".to_string()));
    assert_eq!(a.manifest, None);
    assert_eq!(a.window, 24);
    assert_eq!(a.train_ratio_text, None);
    let b = parse_trainer_args(&args(&["--manifest", "m.txt", "--window=8", "--train-ratio", "0.7", "--out=r.json"])).unwrap();
    assert_eq!(b.dataset_dir, None);
    assert_eq!(b.manifest, Some("m.txt".to_string()));
    assert_eq!(b.window, 8);
    assert_eq!(b.train_ratio_text, Some("0.7".to_string()));
    assert_eq!(b.out, Some("r.json".to_string()));
    let c = parse_trainer_args(&args(&["--dataset-dir=d"])).unwrap();
    assert_eq!(c.dataset_dir, Some("d".to_string()));
}

#[test]
fn trainer_argument_errors() {
    let e = |list: &[&str]| parse_trainer_args(&args(list)).unwrap_err();
    assert_eq!(e(&["--window", "1"]), "--window must be >= 2");
    assert_eq!(e(&["--out"]), "--out expects a value");
    assert_eq!(e(&["--dataset-dir"]), "--dataset-dir expects a value");
    assert_eq!(e(&["--x"]), "unknown argument '--x'");
    assert_eq!(e(&["--window=abc"]), "invalid --window value 'abc'");
    assert_eq!(e(&["--train-ratio", "zz"]), "invalid --train-ratio value 'zz'");
}

#[test]
fn manifests_list_paths_per_line() {
    assert_eq!(
        csv_paths_from_manifest("a.csv\n\n  b.csv  \r\n", "m.txt"),
        Ok(vec!["a.csv".to_string(), "b.csv".to_string()])
    );
    assert_eq!(
        csv_paths_from_manifest(" \n\n", "m.txt"),
        Err("manifest 'm.txt' contains no csv paths".to_string())
    );
}

#[test]
fn confusion_counts_of_a_validation() {
    assert_eq!(
        confusion_counts(&[1, 0, 1, 0, 2], &[1, 1, 0, 0, 1]),
        Some(ConfusionCounts { true_positives: 1, true_negatives: 1, false_positives: 1, false_negatives: 1 })
    );
    assert_eq!(confusion_counts(&[], &[]), None);
    assert_eq!(confusion_counts(&[1], &[1, 0]), None);
}

#[test]
fn split_checks() {
    assert_eq!(
        check_training_split(1, &vec![0, 1], &vec![0, 1]),
        Err("need at least 2 runs for train/validation split".to_string())
    );
    assert_eq!(
        check_training_split(2, &vec![], &vec![1]),
        Err("not enough rows after feature-window transform; lower --window or add more data".to_string())
    );
    assert_eq!(
        check_training_split(2, &vec![1, 1], &vec![0, 1]),
        Err("training split has only one class; add more runs per class or adjust --train-ratio".to_string())
    );
    assert_eq!(
        check_training_split(2, &vec![0, 1], &vec![1]),
        Err("validation split has only one class; add more runs per class or adjust --train-ratio".to_string())
    );
    assert_eq!(check_training_split(3, &vec![0, 1], &vec![1, 0]), Ok(()));
}
