use beelog::cli::CustomPrompt;
use beelog::config::{
    config_path, get_history_path, read_server_config, Args, Config, ConfigError, NodeGroup, ServerConfig,
    ServerInfo, CONFIG_FILE_NAME,
};

fn server(name: &str, host: &str) -> ServerInfo {
    ServerInfo {
        name: name.to_string(),
        host: host.to_string(),
        port: 22,
        user: "ops".to_string(),
        key_path: "~/.ssh/id_rsa".to_string(),
        secret_code: None,
    }
}

fn group(name: &str, nodes: &[&str]) -> NodeGroup {
    NodeGroup { group: name.to_string(), nodes: nodes.iter().map(|n| n.to_string()).collect() }
}

fn config() -> Config {
    Config {
        server: ServerConfig {
            default_server: "prod".to_string(),
            default_node_group: "web".to_string(),
            servers: vec![server("prod", "10.0.0.1"), server("test", "10.0.0.2"), server("prod", "10.0.0.3")],
            node_groups: vec![group("web", &["w1"]), group("db", &["d1", "d2"]), group("web", &["w2", "w3"])],
        },
    }
}

#[test]
fn defaults_choose_first_server_and_last_group() {
    let args = Args { server: None, node_group: None };
    let (s, g) = read_server_config(&args, config()).ok().unwrap();
    assert_eq!(s.host, "10.0.0.1");
    assert_eq!(g.nodes, vec!["w2".to_string(), "w3".to_string()]);
}

#[test]
fn named_server_and_group_are_chosen() {
    let args = Args { server: Some("test".to_string()), node_group: Some("db".to_string()) };
    let (s, g) = read_server_config(&args, config()).ok().unwrap();
    assert_eq!(s.host, "10.0.0.2");
    assert_eq!(g.group, "db");
}

#[test]
fn unknown_server_is_reported() {
    let args = Args { server: Some("staging".to_string()), node_group: None };
    match read_server_config(&args, config()) {
        Err(ConfigError::ServerNotFound(n)) => assert_eq!(n, "staging"),
        _ => panic!("expected a missing server"),
    }
}

#[test]
fn unknown_group_is_reported() {
    let args = Args { server: None, node_group: Some("cache".to_string()) };
    match read_server_config(&args, config()) {
        Err(ConfigError::NodeGroupNotFound(n)) => assert_eq!(n, "cache"),
        _ => panic!("expected a missing node group"),
    }
}

#[test]
fn paths_are_under_the_program_directory() {
    assert_eq!(get_history_path("/home/ops"), "/home/ops/.config/beelog/history.txt");
    assert_eq!(config_path("/root", CONFIG_FILE_NAME), "/root/.config/beelog/config.toml");
}

#[test]
fn prompt_keeps_its_left_part() {
    let p = CustomPrompt::new("web".to_string());
    assert_eq!(p.left_prompt(), "web");
}
