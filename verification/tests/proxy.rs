use agent_procs::daemon::proxy::{
    ProxyRoute, backend_host, backend_uri, choose_proxy_port, connect_failed_message, extract_subdomain,
    proxy_port_candidates, route_request, status_page_body,
};
use agent_procs::daemon::process_manager::ProcessManager;
use agent_procs::error::ProxyError;
use agent_procs::protocol::{ProcessInfo, ProcessState};

#[test]
fn test_extract_subdomain_simple() {
    assert_eq!(extract_subdomain("api.localhost:9090"), Some("api".into()));
}

#[test]
fn test_extract_subdomain_nested() {
    assert_eq!(extract_subdomain("tenant.api.localhost:9090"), Some("api".into()));
}

#[test]
fn test_extract_subdomain_bare_localhost() {
    assert_eq!(extract_subdomain("localhost:9090"), None);
}

#[test]
fn test_extract_subdomain_no_port() {
    assert_eq!(extract_subdomain("api.localhost"), Some("api".into()));
}

#[test]
fn extract_subdomain_other_domain() {
    assert_eq!(extract_subdomain("api.example.com"), None);
}

#[test]
fn routing() {
    let ports = vec![("api".to_string(), 4000u16)];
    assert_eq!(route_request("localhost:9090", &ports, 9090), ProxyRoute::StatusPage);
    assert_eq!(route_request("api.localhost:9090", &ports, 9090), ProxyRoute::Forward { process: "api".into(), port: 4000 });
    assert_eq!(
        route_request("web.localhost:9090", &ports, 9090),
        ProxyRoute::NoBackend {
            message: "502 Bad Gateway: no running process named 'web' with a port. Visit http://localhost:9090 to see available routes."
                .into()
        }
    );
    assert_eq!(backend_uri(4000, "/x?y=1"), "http://127.0.0.1:4000/x?y=1");
    assert_eq!(backend_host(4000), "127.0.0.1:4000");
    assert_eq!(connect_failed_message("api", 4000, "refused"), "502 Bad Gateway: failed to connect to backend 'api' on port 4000: refused");
    assert_eq!(proxy_port_candidates(Some(1)), vec![1]);
    let c = proxy_port_candidates(None);
    assert_eq!(c.len(), 101);
    assert_eq!(c[0], 9090);
    assert_eq!(c[100], 9190);
}

fn info(name: &str, state: ProcessState, port: Option<u16>) -> ProcessInfo {
    ProcessInfo {
        name: name.into(),
        id: "p1".into(),
        pid: 1,
        state,
        exit_code: None,
        uptime_secs: None,
        command: "x".into(),
        port,
        url: None,
        restart_count: None,
        max_restarts: None,
        restart_policy: None,
        watched: None,
    }
}

#[test]
fn status_page_lists_routes() {
    assert_eq!(status_page_body(&vec![], 9090), "agent-procs proxy on port 9090\n\nNo processes running.\n");
    let body = status_page_body(&vec![info("api", ProcessState::Running, Some(4000)), info("job", ProcessState::Exited, None)], 9090);
    assert_eq!(
        body,
        "agent-procs proxy on port 9090\n\nRoutes:\n  http://api.localhost:9090 -> 127.0.0.1:4000 [running]\n  job (no port) [exited]\n"
    );
}

#[test]
fn proxy_port_is_the_first_that_binds() {
    assert_eq!(choose_proxy_port(None, |p: u16| if p < 9093 { Err("busy".to_string()) } else { Ok(()) }), Ok(9093));
    assert_eq!(choose_proxy_port(Some(9500), |_p: u16| Ok(())), Ok(9500));
    assert_eq!(
        choose_proxy_port(Some(9500), |_p: u16| Err("in use".to_string())),
        Err(ProxyError::PortUnavailable { port: 9500, reason: "in use".to_string() })
    );
    assert_eq!(
        choose_proxy_port(None, |_p: u16| Err("in use".to_string())),
        Err(ProxyError::NoFreePort { min: 9090, max: 9190 })
    );
}

#[test]
fn proxy_is_enabled_once() {
    let mut pm = ProcessManager::new("s");
    assert_eq!(pm.proxy_port(), None);
    assert_eq!(pm.enable_proxy_at(9091), None);
    assert_eq!(pm.proxy_port(), Some(9091));
    assert_eq!(pm.enable_proxy_at(9092), Some(9091));
    assert_eq!(pm.proxy_port(), Some(9091));
}
