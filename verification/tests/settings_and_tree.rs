use std::collections::{HashMap, HashSet};

use system_monitor::dto::{
    ProcessHierarchyIndexDTO, ProcessHierarchyNodeDTO, ProcessNetworkSampleDTO,
    ProcessNetworkStatsModel,
};
use system_monitor::output::{collect_tree_lines, network_line, network_lines, roots_line};
use system_monitor::settings::{
    config_dir, default_model_path, default_storage_db_path, default_version,
    gui_settings_file_path, parse_bool_env, parse_usize_env, GuiPersistentSettings,
    MonitorBuildSettings, MonitorPlan, SettingsFile,
};
use system_monitor::tree::{
    collect_all_pids, descendant_pids, filter_tree_node, find_subtree, hierarchy_from_dtos,
    node_matches_filter, visible_roots, ProcessHierarchyNodeViewModel,
};

#[test]
fn settings_file_location() {
    assert_eq!(
        gui_settings_file_path(Some("/xdg"), Some("/home/u")),
        "/xdg/system-monitor/settings.toml"
    );
    assert_eq!(gui_settings_file_path(Some("/xdg/"), None), "/xdg/system-monitor/settings.toml");
    assert_eq!(
        gui_settings_file_path(None, Some("/home/u")),
        "/home/u/.config/system-monitor/settings.toml"
    );
    assert_eq!(gui_settings_file_path(None, None), ".config/system-monitor/settings.toml");
    assert_eq!(gui_settings_file_path(Some(""), None), "system-monitor/settings.toml");
    let dir: String = config_dir(None, Some("/h")).into_iter().collect();
    assert_eq!(dir, "/h/.config");
}

#[test]
fn default_files() {
    assert_eq!(default_storage_db_path(Some("/home/u")), "/home/u/.system-monitor/history.db");
    assert_eq!(default_storage_db_path(None), ".system-monitor/history.db");
    assert_eq!(default_model_path(), "leak_model.json");
    assert_eq!(default_version(), 1);
    let f = SettingsFile::default();
    assert_eq!(f.version, 1);
    assert_eq!(f.gui, GuiPersistentSettings { storage_enabled: false, anomaly_enabled: false });
    assert_eq!(GuiPersistentSettings::default(), f.gui);
}

#[test]
fn environment_flags_and_counts() {
    assert!(parse_bool_env(Some(" TRUE ")));
    assert!(parse_bool_env(Some("true")));
    assert!(!parse_bool_env(Some("yes")));
    assert!(!parse_bool_env(Some("truee")));
    assert!(!parse_bool_env(None));
    assert_eq!(parse_usize_env(Some(" 42 ")), Some(42));
    assert_eq!(parse_usize_env(Some("x")), None);
    assert_eq!(parse_usize_env(Some("")), None);
    assert_eq!(parse_usize_env(None), None);
}

#[test]
fn build_settings_from_environment_values() {
    let s = MonitorBuildSettings::from_env_values(None, Some("True"), None, Some("m.json".to_string()), Some("48"), Some("/home/u"));
    assert!(!s.storage_enabled);
    assert!(s.anomaly_enabled);
    assert_eq!(s.storage_db_path, "/home/u/.system-monitor/history.db");
    assert_eq!(s.anomaly_model_path, "m.json");
    assert_eq!(s.anomaly_window_size, 48);
    assert!(s.effective_storage_enabled());
    assert_eq!(
        s.plan(),
        MonitorPlan { load_detector: true, with_storage: true, storage_implied: true }
    );
    let d = MonitorBuildSettings::from_env_values(None, None, Some("/db".to_string()), None, Some("zz"), None);
    assert_eq!(d.anomaly_window_size, 24);
    assert_eq!(d.storage_db_path, "/db");
    assert_eq!(d.anomaly_model_path, "leak_model.json");
    assert!(!d.effective_storage_enabled());
    let t = d.with_toggles(true, false);
    assert!(t.storage_enabled && !t.anomaly_enabled);
    assert_eq!(t.plan(), MonitorPlan { load_detector: false, with_storage: true, storage_implied: false });
}

fn node(pid: u32, ppid: u32, name: &str, children: Vec<ProcessHierarchyNodeDTO>) -> ProcessHierarchyNodeDTO {
    ProcessHierarchyNodeDTO::with_values(pid, ppid, name.to_string(), children)
}

fn sample_tree() -> Vec<ProcessHierarchyNodeDTO> {
    vec![
        node(1, 0, "init", vec![
            node(10, 1, "Firefox", vec![node(11, 10, "web content", vec![])]),
            node(20, 1, "bash", vec![node(21, 20, "vim", vec![])]),
        ]),
        node(2, 0, "kthreadd", vec![]),
    ]
}

fn pids(nodes: &[ProcessHierarchyNodeViewModel]) -> Vec<u32> {
    fn walk(n: &ProcessHierarchyNodeViewModel, out: &mut Vec<u32>) {
        out.push(n.pid);
        for c in &n.children {
            walk(c, out);
        }
    }
    let mut out = Vec::new();
    for n in nodes {
        walk(n, &mut out);
    }
    out
}

#[test]
fn the_interface_tree_copies_the_hierarchy() {
    let roots = hierarchy_from_dtos(&sample_tree());
    assert_eq!(pids(&roots), vec![1, 10, 11, 20, 21, 2]);
    assert_eq!(roots[0].children[0].name, "Firefox");
    assert_eq!(roots[0].children[1].children[0].ppid, 20);
    let all = collect_all_pids(&roots);
    assert_eq!(all, [1, 10, 11, 20, 21, 2].into_iter().collect::<HashSet<u32>>());
}

#[test]
fn subtrees_are_found_in_preorder() {
    let roots = hierarchy_from_dtos(&sample_tree());
    let found = find_subtree(&roots[0], 20).unwrap();
    assert_eq!(pids(&[found]), vec![20, 21]);
    assert!(find_subtree(&roots[0], 2).is_none());
    assert_eq!(descendant_pids(&roots[0]), vec![10, 11, 20, 21]);
    assert_eq!(descendant_pids(&roots[1]), Vec::<u32>::new());
}

#[test]
fn filtering_keeps_matches_and_their_ancestors() {
    let roots = hierarchy_from_dtos(&sample_tree());
    let kept = filter_tree_node(&roots[0], "fire").unwrap();
    assert_eq!(pids(&[kept]), vec![1, 10]);
    let by_pid = filter_tree_node(&roots[0], "21").unwrap();
    assert_eq!(pids(&[by_pid]), vec![1, 20, 21]);
    assert!(filter_tree_node(&roots[1], "zzz").is_none());
    let all = filter_tree_node(&roots[0], "").unwrap();
    assert_eq!(pids(&[all]), vec![1, 10, 11, 20, 21]);
    assert!(node_matches_filter(123, "bash", "23"));
    assert!(node_matches_filter(5, "bash", "as"));
    assert!(!node_matches_filter(5, "bash", "x"));
}

#[test]
fn the_tree_view_shows_focus_then_filter() {
    let roots = hierarchy_from_dtos(&sample_tree());
    assert_eq!(pids(&visible_roots(&roots, None, "")), vec![1, 10, 11, 20, 21, 2]);
    assert_eq!(pids(&visible_roots(&roots, Some(20), "")), vec![20, 21]);
    assert_eq!(pids(&visible_roots(&roots, None, "VIM")), vec![1, 20, 21]);
    assert_eq!(pids(&visible_roots(&roots, Some(10), "vim")), Vec::<u32>::new());
    assert_eq!(pids(&visible_roots(&roots, Some(99), "")), Vec::<u32>::new());
}

#[test]
fn one_shot_hierarchy_lines() {
    let mut lines = vec!["process_hierarchy_tree".to_string()];
    collect_tree_lines(&sample_tree(), 0, &mut lines);
    assert_eq!(
        lines,
        vec![
            "process_hierarchy_tree",
            "pid=1 ppid=0 name=init",
            "  pid=10 ppid=1 name=Firefox",
            "    pid=11 ppid=10 name=web content",
            "  pid=20 ppid=1 name=bash",
            "    pid=21 ppid=20 name=vim",
            "pid=2 ppid=0 name=kthreadd",
        ]
    );
    assert_eq!(roots_line(&vec![1, 2, 300]), "roots=[1, 2, 300]");
    assert_eq!(roots_line(&vec![]), "roots=[]");
}

#[test]
fn network_samples_and_their_lines() {
    let model = ProcessNetworkStatsModel {
        pid: 7,
        tcp_open: 3,
        tcp_established: 2,
        tcp_listen: 1,
        udp_open: 4,
        socket_inodes: vec![11, 12, 13, 14, 15],
    };
    let s = ProcessNetworkSampleDTO::from_model("sshd".to_string(), &model);
    assert_eq!(s.total_sockets, 5);
    assert_eq!(
        network_line(&s),
        "pid=7 name=sshd tcp_open=3 tcp_established=2 tcp_listen=1 udp_open=4 sockets_total=5"
    );
    let other = ProcessNetworkSampleDTO::with_values(8, "nginx".to_string(), 0, 0, 2, 0, 2);
    let all = vec![s.clone(), other];
    assert_eq!(network_lines(&all, None).len(), 2);
    let only = network_lines(&all, Some(8));
    assert_eq!(only, vec!["pid=8 name=nginx tcp_open=0 tcp_established=0 tcp_listen=2 udp_open=0 sockets_total=2".to_string()]);
    assert!(network_lines(&all, Some(9)).is_empty());
}

#[test]
fn hierarchy_index_keeps_its_values() {
    let mut p2p = HashMap::new();
    p2p.insert(10u32, 1u32);
    let mut kids = HashMap::new();
    kids.insert(1u32, vec![10u32]);
    let idx = ProcessHierarchyIndexDTO::with_values(p2p.clone(), kids.clone(), vec![1]);
    assert_eq!(idx.pid_to_ppid, p2p);
    assert_eq!(idx.children_by_pid, kids);
    assert_eq!(idx.roots, vec![1]);
}

#[test]
fn network_rows_copy_their_samples() {
    use_network_rows();
}

fn use_network_rows() {
    let samples = vec![
        system_monitor::dto::ProcessNetworkSampleDTO::with_values(4, "sshd".to_string(), 3, 2, 1, 5, 8),
        system_monitor::dto::ProcessNetworkSampleDTO::with_values(9, "ntpd".to_string(), 0, 0, 0, 1, 1),
    ];
    let rows = system_monitor::view_models::network_rows_from_dtos(&samples);
    assert_eq!(rows.len(), 2);
    assert_eq!(rows[0].pid, 4);
    assert_eq!(rows[0].name, "sshd");
    assert_eq!(rows[0].tcp_open, 3);
    assert_eq!(rows[0].tcp_established, 2);
    assert_eq!(rows[0].tcp_listen, 1);
    assert_eq!(rows[0].udp_open, 5);
    assert_eq!(rows[0].total_sockets, 8);
    assert_eq!(rows[1].name, "ntpd");
}
