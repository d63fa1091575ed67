use agent_procs::config::{DEFAULT_SESSION, ProcessDef, ProjectConfig, discover_config, parent_dir, resolve_session};
use agent_procs::error::ConfigError;

fn proc_def(cmd: &str, depends_on: Vec<&str>) -> ProcessDef {
    ProcessDef {
        cmd: cmd.into(),
        cwd: None,
        env: Vec::new(),
        ready: None,
        depends_on: depends_on.into_iter().map(String::from).collect(),
        port: None,
        autorestart: None,
        max_restarts: None,
        restart_delay: None,
        watch: None,
        watch_ignore: None,
    }
}

fn config_with(procs: Vec<(&str, Vec<&str>)>) -> ProjectConfig {
    ProjectConfig {
        session: None,
        processes: procs.into_iter().map(|(name, deps)| (name.to_string(), proc_def("true", deps))).collect(),
        proxy: None,
        proxy_port: None,
    }
}

#[test]
fn test_startup_order_no_deps() {
    let cfg = config_with(vec![("a", vec![]), ("b", vec![]), ("c", vec![])]);
    let groups = cfg.startup_order().unwrap();
    assert_eq!(groups.len(), 1);
    let mut names = groups[0].clone();
    names.sort();
    assert_eq!(names, vec!["a", "b", "c"]);
}

#[test]
fn test_startup_order_linear_chain() {
    let cfg = config_with(vec![("a", vec![]), ("b", vec!["a"]), ("c", vec!["b"])]);
    let groups = cfg.startup_order().unwrap();
    assert_eq!(groups.len(), 3);
    assert_eq!(groups[0], vec!["a"]);
    assert_eq!(groups[1], vec!["b"]);
    assert_eq!(groups[2], vec!["c"]);
}

#[test]
fn test_startup_order_diamond() {
    let cfg = config_with(vec![("a", vec![]), ("b", vec!["a"]), ("c", vec!["a"]), ("d", vec!["b", "c"])]);
    let groups = cfg.startup_order().unwrap();
    assert_eq!(groups.len(), 3);
    assert_eq!(groups[0], vec!["a"]);
    let mut g1 = groups[1].clone();
    g1.sort();
    assert_eq!(g1, vec!["b", "c"]);
    assert_eq!(groups[2], vec!["d"]);
}

#[test]
fn test_startup_order_cycle_detected() {
    let cfg = config_with(vec![("a", vec!["b"]), ("b", vec!["a"])]);
    let err = cfg.startup_order().unwrap_err();
    assert!(matches!(err, ConfigError::CycleDetected));
}

#[test]
fn test_startup_order_unknown_dep() {
    let cfg = config_with(vec![("a", vec!["nonexistent"])]);
    let err = cfg.startup_order().unwrap_err();
    assert!(matches!(err, ConfigError::UnknownDep { .. }));
    if let ConfigError::UnknownDep { from, to } = err {
        assert_eq!(from, "a");
        assert_eq!(to, "nonexistent");
    }
}

#[test]
fn test_startup_order_empty() {
    let cfg = config_with(vec![]);
    let groups = cfg.startup_order().unwrap();
    assert!(groups.is_empty());
}

#[test]
fn test_resolve_session_priority() {
    assert_eq!(resolve_session(Some("cli"), Some("config")), "cli");
    assert_eq!(resolve_session(None, Some("config")), "config");
    assert_eq!(resolve_session(None, None), DEFAULT_SESSION);
}

#[test]
fn startup_order_self_dependency_is_a_cycle() {
    let cfg = config_with(vec![("a", vec!["a"])]);
    assert!(matches!(cfg.startup_order().unwrap_err(), ConfigError::CycleDetected));
}

#[test]
fn config_error_messages() {
    assert_eq!(ConfigError::CycleDetected.message(), "dependency cycle detected");
    assert_eq!(ConfigError::NotFound.message(), "no agent-procs.yaml found");
    let e = ConfigError::UnknownDep { from: "a".into(), to: "b".into() };
    assert_eq!(e.message(), "unknown dependency: a depends on b");
}

#[test]
fn discover_config_walks_up() {
    let found = discover_config("/a/b", |p| p == "/a/agent-procs.yaml", 10);
    assert_eq!(found.as_deref(), Some("/a/agent-procs.yaml"));
    let found = discover_config("/a/b", |p| p == "/agent-procs.yaml", 10);
    assert_eq!(found.as_deref(), Some("/agent-procs.yaml"));
    assert_eq!(discover_config("/a/b", |_| false, 10), None);
    assert_eq!(discover_config("/a/b", |p| p == "/a/b/agent-procs.yaml", 10).as_deref(), Some("/a/b/agent-procs.yaml"));
}

#[test]
fn parent_dirs() {
    assert_eq!(parent_dir("/a/b").as_deref(), Some("/a"));
    assert_eq!(parent_dir("/a").as_deref(), Some("/"));
    assert_eq!(parent_dir("/"), None);
    assert_eq!(parent_dir("a").as_deref(), Some(""));
    assert_eq!(parent_dir(""), None);
}

#[test]
fn test_topological_sort_concurrent_group() {
    // db and cache have no dependencies; api depends on both.
    let config = config_with(vec![("db", vec![]), ("cache", vec![]), ("api", vec!["db", "cache"])]);
    let order = config.startup_order().unwrap();
    assert_eq!(order.len(), 2);
    assert!(order[0].contains(&"db".to_string()));
    assert!(order[0].contains(&"cache".to_string()));
    assert_eq!(order[0].len(), 2);
    assert_eq!(order[1], vec!["api"]);
}

#[test]
fn test_topological_sort_cycle_detection() {
    let config = config_with(vec![("a", vec!["b"]), ("b", vec!["a"])]);
    assert!(config.startup_order().is_err());
}

fn is_file(p: &str) -> bool {
    std::path::Path::new(p).is_file()
}

#[test]
fn test_discover_config_not_found() {
    let tmp = tempfile::tempdir().unwrap();
    let start = tmp.path().to_str().unwrap().to_string();
    let found = discover_config(&start, is_file, start.len() + 1);
    assert!(found.is_none());
}

#[test]
fn test_discover_config_returns_none() {
    let tmp = tempfile::TempDir::new().unwrap();
    let start = tmp.path().to_str().unwrap().to_string();
    assert_eq!(discover_config(&start, is_file, start.len() + 1), None);
}
