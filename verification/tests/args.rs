use lis::args::{process_args, CliCommand, ClusterAction, NodeAction};

fn args(list: &[&str]) -> Vec<String> {
    list.iter().map(|s| s.to_string()).collect()
}

#[test]
fn args_default_is_interactive() {
    let (cmd, warnings) = process_args(&args(&["lis"]), None);
    assert_eq!(cmd, CliCommand::Interactive { config: None });
    assert!(warnings.is_empty());
    let (cmd, _) = process_args(&args(&[]), None);
    assert_eq!(cmd, CliCommand::Interactive { config: None });
}

#[test]
fn args_help_and_config() {
    assert_eq!(process_args(&args(&["lis", "daemon", "-h"]), None).0, CliCommand::Help);
    // A --config value is taken even if it looks like a flag.
    let (cmd, _) = process_args(&args(&["lis", "--config", "--help", "mount"]), None);
    assert_eq!(cmd, CliCommand::Mount { config: Some("--help".to_string()) });
    let (cmd, warnings) = process_args(&args(&["lis", "unmount", "--config"]), None);
    assert_eq!(cmd, CliCommand::Unmount { config: None });
    assert_eq!(warnings, vec!["Error: --config requires a value.".to_string()]);
}

#[test]
fn args_cluster_actions() {
    let (cmd, _) = process_args(&args(&["lis", "clusters"]), None);
    assert_eq!(cmd, CliCommand::Cluster { action: ClusterAction::List, config: None });
    let (cmd, _) = process_args(&args(&["lis", "cluster", "create", "c1", "--config", "f"]), None);
    assert_eq!(
        cmd,
        CliCommand::Cluster { action: ClusterAction::Create { name: "c1".to_string() }, config: Some("f".to_string()) }
    );
    let (cmd, _) = process_args(&args(&["lis", "cluster", "join", "c1"]), Some("T".to_string()));
    assert_eq!(
        cmd,
        CliCommand::Cluster {
            action: ClusterAction::Join { cluster: "c1".to_string(), ticket: Some("T".to_string()) },
            config: None
        }
    );
    let (cmd, _) = process_args(&args(&["lis", "cluster", "join", "c1", "U"]), Some("T".to_string()));
    assert_eq!(
        cmd,
        CliCommand::Cluster {
            action: ClusterAction::Join { cluster: "c1".to_string(), ticket: Some("U".to_string()) },
            config: None
        }
    );
    let (cmd, warnings) = process_args(&args(&["lis", "cluster", "share"]), None);
    assert_eq!(cmd, CliCommand::Help);
    assert_eq!(warnings, vec!["Error: cluster share requires a cluster name".to_string()]);
    let (cmd, _) = process_args(&args(&["lis", "cluster", "other"]), None);
    assert_eq!(cmd, CliCommand::Cluster { action: ClusterAction::List, config: None });
}

#[test]
fn args_unknown_command() {
    let (cmd, warnings) = process_args(&args(&["lis", "frobnicate"]), None);
    assert_eq!(cmd, CliCommand::Help);
    assert_eq!(warnings, vec!["Unknown command: frobnicate".to_string()]);
}

#[test]
fn node_commands_of_the_readme() {
    let a = |v: &[&str]| v.iter().map(|s| s.to_string()).collect::<Vec<String>>();
    let (cmd, w) = process_args(&a(&["lis", "/path/to/root", "list"]), None);
    assert_eq!(cmd, CliCommand::Node { root: "/path/to/root".to_string(), action: NodeAction::List });
    assert!(w.is_empty());
    let (cmd, _) = process_args(&a(&["lis", "/path/to/root", "put", "./my_file.txt"]), None);
    assert_eq!(
        cmd,
        CliCommand::Node { root: "/path/to/root".to_string(), action: NodeAction::Put { file: "./my_file.txt".to_string() } }
    );
    let (cmd, _) = process_args(&a(&["lis", "/path/to/root", "get", "README.md"]), None);
    assert_eq!(cmd, CliCommand::Node { root: "/path/to/root".to_string(), action: NodeAction::Get { file: "README.md".to_string() } });
    let (cmd, _) = process_args(&a(&["lis", "/path/to/root", "mount", "/path/to/mountpoint"]), None);
    assert_eq!(
        cmd,
        CliCommand::Node {
            root: "/path/to/root".to_string(),
            action: NodeAction::Mount { mountpoint: "/path/to/mountpoint".to_string() }
        }
    );
    let (cmd, w) = process_args(&a(&["lis", "/path/to/root", "get"]), None);
    assert_eq!(cmd, CliCommand::Help);
    assert_eq!(w, vec!["Error: get requires a path".to_string()]);
    let (cmd, w) = process_args(&a(&["lis", "/path/to/root"]), None);
    assert_eq!(cmd, CliCommand::Help);
    assert_eq!(w, vec!["Unknown command: /path/to/root".to_string()]);
}
